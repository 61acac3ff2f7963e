//! Block hashes and transaction ids as the API receives them: 64 hex
//! digits, shown with the last byte first, as Bitcoin displays hashes.

use vstd::prelude::*;
use bitcoincore_rpc::bitcoin::{BlockHash, Txid};
use crate::text::owned;

verus! {

/// Whether a character is a hex digit, in either case.
pub open spec fn is_hex_digit(c: char) -> bool {
    ('0' <= c && c <= '9') || ('a' <= c && c <= 'f') || ('A' <= c && c <= 'F')
}

/// The value of a hex digit.
pub open spec fn hex_value(c: char) -> int {
    if '0' <= c && c <= '9' {
        (c as u32) - ('0' as u32)
    } else if 'a' <= c && c <= 'f' {
        (c as u32) - ('a' as u32) + 10
    } else {
        (c as u32) - ('A' as u32) + 10
    }
}

/// Whether a text is the display form of a 32-byte hash: exactly 64 hex
/// digits.
pub open spec fn is_hash_hex(s: Seq<char>) -> bool {
    &&& s.len() == 64
    &&& forall|i: int| 0 <= i < s.len() ==> is_hex_digit(#[trigger] s[i])
}

/// The bytes of a hash from its display form: the 32 bytes the hex digits
/// spell, two digits each, most significant digit first, in reverse order.
pub open spec fn hash_hex_bytes(s: Seq<char>) -> Seq<u8> {
    Seq::new(32, |k: int| (16 * hex_value(s[62 - 2 * k]) + hex_value(s[63 - 2 * k])) as u8)
}

/// What parsing a text as a block hash gives: its bytes, or the text of the
/// parse error.
pub uninterp spec fn block_hash_parse(s: Seq<char>) -> Result<Seq<u8>, Seq<char>>;

/// What parsing a text as a transaction id gives: its bytes, or the text of
/// the parse error.
pub uninterp spec fn txid_parse(s: Seq<char>) -> Result<Seq<u8>, Seq<char>>;

/// Calls `BlockHash::from_str` (the bitcoin crate's hash parser: 64 hex
/// digits of either case, decoded two by two, bytes reversed) and hands
/// back the hash's bytes or the error's text. The contract claims that it
/// succeeds exactly on 64 hex digits, with the bytes [`hash_hex_bytes`]
/// gives; the error text is named `block_hash_parse`, its wording is not
/// stated.
#[verifier::external_body]
fn block_hash_from_str(s: &str) -> (r: Result<Vec<u8>, String>)
    ensures
        r is Ok <==> is_hash_hex(s@),
        r matches Ok(b) ==> b@ == hash_hex_bytes(s@),
        match r {
            Ok(b) => block_hash_parse(s@) == Ok::<Seq<u8>, Seq<char>>(b@),
            Err(m) => block_hash_parse(s@) == Err::<Seq<u8>, Seq<char>>(m@),
        },
{
    s.parse::<BlockHash>()
        .map(|h| <BlockHash as bitcoincore_rpc::bitcoin::hashes::Hash>::to_byte_array(h).to_vec())
        .map_err(|e| e.to_string())
}

/// Calls `Txid::from_str` (the same parser as for block hashes) and hands
/// back the id's bytes or the error's text. The contract claims that it
/// succeeds exactly on 64 hex digits, with the bytes [`hash_hex_bytes`]
/// gives; the error text is named `txid_parse`, its wording is not stated.
#[verifier::external_body]
fn txid_from_str(s: &str) -> (r: Result<Vec<u8>, String>)
    ensures
        r is Ok <==> is_hash_hex(s@),
        r matches Ok(b) ==> b@ == hash_hex_bytes(s@),
        match r {
            Ok(b) => txid_parse(s@) == Ok::<Seq<u8>, Seq<char>>(b@),
            Err(m) => txid_parse(s@) == Err::<Seq<u8>, Seq<char>>(m@),
        },
{
    s.parse::<Txid>()
        .map(|h| <Txid as bitcoincore_rpc::bitcoin::hashes::Hash>::to_byte_array(h).to_vec())
        .map_err(|e| e.to_string())
}

/// The block hash a request names, as its 32 bytes, or the text of the
/// parse error when the request does not hold 64 hex digits.
pub fn parse_block_hash(text: &str) -> (r: Result<Vec<u8>, String>)
    ensures
        r is Ok <==> is_hash_hex(text@),
        r matches Ok(b) ==> b@ == hash_hex_bytes(text@) && b@.len() == 32,
        r matches Err(m) ==> block_hash_parse(text@) == Err::<Seq<u8>, Seq<char>>(m@),
{
    block_hash_from_str(text)
}

/// The message of a transaction id that does not parse.
pub open spec fn invalid_txid_message(error: Seq<char>) -> Seq<char> {
    "Invalid TXID format: "@ + error
}

/// The transaction id a request names, as its 32 bytes, or the message
/// that refuses it when the request does not hold 64 hex digits.
pub fn parse_txid(text: &str) -> (r: Result<Vec<u8>, String>)
    ensures
        r is Ok <==> is_hash_hex(text@),
        r matches Ok(b) ==> b@ == hash_hex_bytes(text@) && b@.len() == 32,
        r matches Err(m) ==> txid_parse(text@) matches Err(e) && m@ == invalid_txid_message(e),
{
    match txid_from_str(text) {
        Ok(b) => Ok(b),
        Err(e) => {
            let mut m = owned("Invalid TXID format: ");
            m.append(e.as_str());
            Err(m)
        },
    }
}

} // verus!
