use bitcoin_dashboard::network::Network;
use bitcoin_dashboard::node::{
    switched_to, wallet_client_url, ClientKey, NetworkInfo, NodeSelection, SwitchNetworkRequest,
};
use bitcoin_dashboard::settings::{BitcoinNodeConfig, BitcoinSettings};

fn cfg(url: &str, user: &str) -> BitcoinNodeConfig {
    BitcoinNodeConfig {
        rpc_url: url.to_string(),
        rpc_user: user.to_string(),
        rpc_password: "pw".to_string(),
    }
}

fn selection() -> NodeSelection {
    NodeSelection::new(
        vec![
            (Network::Regtest, cfg("http://localhost:18443", "alice")),
            (Network::Signet, cfg("http://localhost:38332", "sig")),
        ],
        Network::Regtest,
    )
}

#[test]
fn client_keys() {
    let k = ClientKey::new(Network::Signet, "student".to_string());
    assert_eq!(k.network, Network::Signet);
    assert_eq!(k.wallet_name, "student");
    let d = ClientKey::default_for_network(Network::Mainnet);
    assert_eq!(d.network, Network::Mainnet);
    assert_eq!(d.wallet_name, "");
}

#[test]
fn wallet_urls() {
    assert_eq!(wallet_client_url("http://h:1", "student"), "http://h:1/wallet/student");
    assert_eq!(wallet_client_url("http://h:1", ""), "http://h:1/wallet/");
}

#[test]
fn default_wallet_uses_node_address() {
    let s = selection();
    let e = s.client_endpoint("").unwrap();
    assert_eq!(e.url, "http://localhost:18443");
    assert_eq!(e.user, "alice");
    assert_eq!(e.password, "pw");
    assert_eq!(e.key.network, Network::Regtest);
    assert_eq!(e.key.wallet_name, "");
}

#[test]
fn named_wallet_uses_wallet_endpoint() {
    let s = selection();
    let e = s.client_endpoint("miner_wallet").unwrap();
    assert_eq!(e.url, "http://localhost:18443/wallet/miner_wallet");
    assert_eq!(e.key.wallet_name, "miner_wallet");
}

#[test]
fn switch_then_connect_uses_new_network() {
    let mut s = selection();
    assert_eq!(s.get_current_network(), Network::Regtest);
    s.set_current_network(Network::Signet);
    assert_eq!(s.get_current_network(), Network::Signet);
    let e = s.client_endpoint("student").unwrap();
    assert_eq!(e.key.network, Network::Signet);
    assert_eq!(e.url, "http://localhost:38332/wallet/student");
    assert_eq!(e.user, "sig");
}

#[test]
fn unconfigured_network_has_no_endpoint() {
    let mut s = selection();
    s.set_current_network(Network::Mainnet);
    assert!(s.client_endpoint("").is_none());
}

#[test]
fn switch_by_name() {
    let mut s = selection();
    let r = s.switch_network(&SwitchNetworkRequest { network: "SIGNET".to_string() });
    assert_eq!(r, Ok(Network::Signet));
    assert_eq!(s.get_current_network(), Network::Signet);
    assert_eq!(switched_to(Network::Signet), "Switched to signet network");
}

#[test]
fn refused_switch_explains_and_keeps_network() {
    let mut s = selection();
    let r = s.switch_network(&SwitchNetworkRequest { network: "liquid".to_string() });
    assert_eq!(
        r,
        Err("Invalid network: liquid. Available: regtest, testnet, mainnet".to_string())
    );
    assert_eq!(s.get_current_network(), Network::Regtest);
}

#[test]
fn selection_from_settings_covers_all_networks() {
    let b = BitcoinSettings {
        default_config: cfg("http://default:1", "bob"),
        networks: vec![("testnet".to_string(), cfg("http://tn:18332", "tn"))],
    };
    let mut s = NodeSelection::from_settings(&b, Network::Regtest);
    assert_eq!(s.configs.len(), 4);
    assert_eq!(s.client_endpoint("").unwrap().url, "http://localhost:18443");
    s.set_current_network(Network::Testnet);
    let e = s.client_endpoint("").unwrap();
    assert_eq!(e.url, "http://tn:18332");
    assert_eq!(e.user, "tn");
    s.set_current_network(Network::Mainnet);
    assert_eq!(s.client_endpoint("w").unwrap().url, "http://localhost:8332/wallet/w");
}

#[test]
fn network_info_offers_three_networks() {
    let i = NetworkInfo::for_network(Network::Signet);
    assert_eq!(i.current_network, "signet");
    assert_eq!(i.available_networks, vec!["regtest", "testnet", "mainnet"]);
}
