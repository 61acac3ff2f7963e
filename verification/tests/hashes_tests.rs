use bitcoin_dashboard::hashes::{parse_block_hash, parse_txid};

const GENESIS: &str = "000000000019d6689c085ae165831e934ff763ae46a2a6c172b3f1b60a8ce26f";

#[test]
fn block_hash_bytes_come_reversed() {
    let b = parse_block_hash(GENESIS).unwrap();
    assert_eq!(b.len(), 32);
    assert_eq!(b[0], 0x6f);
    assert_eq!(b[1], 0xe2);
    assert_eq!(b[31], 0x00);
    assert_eq!(b[26], 0x19);
    assert_eq!(b[27], 0x00);
}

#[test]
fn hex_digits_of_either_case_parse_alike() {
    let upper = GENESIS.to_uppercase();
    assert_eq!(parse_block_hash(&upper).unwrap(), parse_block_hash(GENESIS).unwrap());
}

#[test]
fn txid_bytes_come_reversed() {
    let text = format!("{}ff", "0".repeat(62));
    let b = parse_txid(&text).unwrap();
    assert_eq!(b[0], 0xff);
    assert!(b[1..].iter().all(|&x| x == 0));
}

#[test]
fn wrong_length_or_digit_is_refused() {
    assert!(parse_block_hash(&GENESIS[1..]).is_err());
    assert!(parse_block_hash(&format!("{}g", &GENESIS[1..])).is_err());
    assert!(parse_block_hash("").is_err());
    assert!(parse_txid(&format!("{}0", GENESIS)).is_err());
}

#[test]
fn refused_txid_message() {
    let m = parse_txid("xyz").unwrap_err();
    assert!(m.starts_with("Invalid TXID format: "));
    assert!(m.len() > "Invalid TXID format: ".len());
}
