use bitcoin_dashboard::network::{all_networks, Network};

#[test]
fn rpc_ports_are_the_node_defaults() {
    assert_eq!(Network::Regtest.rpc_port(), 18443);
    assert_eq!(Network::Signet.rpc_port(), 38332);
    assert_eq!(Network::Testnet.rpc_port(), 18332);
    assert_eq!(Network::Mainnet.rpc_port(), 8332);
}

#[test]
fn p2p_ports_are_the_node_defaults() {
    assert_eq!(Network::Regtest.p2p_port(), 18444);
    assert_eq!(Network::Signet.p2p_port(), 38333);
    assert_eq!(Network::Testnet.p2p_port(), 18333);
    assert_eq!(Network::Mainnet.p2p_port(), 8333);
}

#[test]
fn p2p_port_follows_rpc_port_for_every_network() {
    for n in all_networks() {
        assert_eq!(n.p2p_port(), n.rpc_port() + 1);
    }
}

#[test]
fn all_eight_ports_differ() {
    let mut ports = Vec::new();
    for n in all_networks() {
        ports.push(n.rpc_port());
        ports.push(n.p2p_port());
    }
    for i in 0..ports.len() {
        for j in (i + 1)..ports.len() {
            assert_ne!(ports[i], ports[j]);
        }
    }
}

#[test]
fn names_are_lowercase() {
    assert_eq!(Network::Regtest.as_str(), "regtest");
    assert_eq!(Network::Signet.as_str(), "signet");
    assert_eq!(Network::Testnet.as_str(), "testnet");
    assert_eq!(Network::Mainnet.as_str(), "mainnet");
}

#[test]
fn names_parse_back() {
    for n in all_networks() {
        assert_eq!(Network::from_lowercase_name(n.as_str()), Some(n));
        assert_eq!(Network::from_str(n.as_str()), Some(n));
    }
}

#[test]
fn parsing_ignores_case() {
    assert_eq!(Network::from_str("REGTEST"), Some(Network::Regtest));
    assert_eq!(Network::from_str("MainNet"), Some(Network::Mainnet));
    assert_eq!(Network::from_str("Signet"), Some(Network::Signet));
    assert_eq!(Network::from_str("tEsTnEt"), Some(Network::Testnet));
}

#[test]
fn lowercase_parse_is_exact() {
    assert_eq!(Network::from_lowercase_name("Regtest"), None);
    assert_eq!(Network::from_lowercase_name("regtest "), None);
    assert_eq!(Network::from_lowercase_name(""), None);
}

#[test]
fn unknown_names_do_not_parse() {
    assert_eq!(Network::from_str("bitcoin"), None);
    assert_eq!(Network::from_str(""), None);
    assert_eq!(Network::from_str(" regtest"), None);
    assert_eq!(Network::from_str("testnet4"), None);
}

#[test]
fn networks_in_server_order() {
    assert_eq!(
        all_networks(),
        vec![Network::Regtest, Network::Signet, Network::Testnet, Network::Mainnet]
    );
}
