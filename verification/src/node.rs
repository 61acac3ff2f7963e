//! Which Bitcoin node the dashboard talks to: the current network, the node
//! configuration of each network, and the address and credentials of a
//! (wallet) client.

use vstd::prelude::*;
use crate::network::{
    Network, network_name, network_from_lowercase, lowercase_of, is_ascii_text, ascii_lower, all_networks,
    all_networks_seq,
};
use crate::settings::{BitcoinNodeConfig, BitcoinSettings, NodeConfigView, node_config_for};
use crate::text::owned;

verus! {

/// A client of the node: its network and wallet (empty for the node's
/// default wallet).
#[derive(Debug, Clone, PartialEq, Eq, Hash)]
pub struct ClientKey {
    pub network: Network,
    pub wallet_name: String,
}

impl ClientKey {
    /// The client of a wallet on a network.
    pub fn new(network: Network, wallet_name: String) -> (r: ClientKey)
        ensures
            r.network == network,
            r.wallet_name@ == wallet_name@,
    {
        ClientKey { network, wallet_name }
    }

    /// The client of a network's default wallet.
    pub fn default_for_network(network: Network) -> (r: ClientKey)
        ensures
            r.network == network,
            r.wallet_name@ == Seq::<char>::empty(),
    {
        ClientKey::new(network, String::new())
    }
}

/// The address of a wallet's JSON-RPC endpoint on a node.
pub open spec fn wallet_url(rpc_url: Seq<char>, wallet_name: Seq<char>) -> Seq<char> {
    rpc_url + "/wallet/"@ + wallet_name
}

/// The address a client uses: the node's address for the default wallet
/// (empty name), the wallet's endpoint otherwise.
pub open spec fn client_url(rpc_url: Seq<char>, wallet_name: Seq<char>) -> Seq<char> {
    if wallet_name.len() == 0 {
        rpc_url
    } else {
        wallet_url(rpc_url, wallet_name)
    }
}

/// The address of a wallet's JSON-RPC endpoint on a node.
pub fn wallet_client_url(rpc_url: &str, wallet_name: &str) -> (r: String)
    ensures
        r@ == wallet_url(rpc_url@, wallet_name@),
{
    let mut s = owned(rpc_url);
    s.append("/wallet/");
    s.append(wallet_name);
    s
}

/// Where and as whom a client connects.
pub struct ClientEndpoint {
    pub key: ClientKey,
    pub url: String,
    pub user: String,
    pub password: String,
}

/// The network a client request is for and the node configurations by
/// network. Built from the settings, no network has two configurations
/// ([`networks_distinct`]), and the list then acts as a map
/// ([`lemma_config_of_entry`]).
pub struct NodeSelection {
    pub configs: Vec<(Network, BitcoinNodeConfig)>,
    pub current: Network,
}

/// The configuration of a network, if there is one (the first one given).
pub open spec fn config_of(configs: Seq<(Network, BitcoinNodeConfig)>, n: Network) -> Option<NodeConfigView>
    decreases configs.len(),
{
    if configs.len() == 0 {
        None
    } else if configs[0].0 == n {
        Some(configs[0].1@)
    } else {
        config_of(configs.drop_first(), n)
    }
}

/// Whether no network has two configurations.
pub open spec fn networks_distinct(configs: Seq<(Network, BitcoinNodeConfig)>) -> bool {
    forall|i: int, j: int| 0 <= i < j < configs.len() ==> #[trigger] configs[i].0 != #[trigger] configs[j].0
}

/// With distinct networks the list acts as a map: each listed network finds
/// its own configuration, whatever the order of the list.
pub proof fn lemma_config_of_entry(configs: Seq<(Network, BitcoinNodeConfig)>, i: int)
    requires
        networks_distinct(configs),
        0 <= i < configs.len(),
    ensures
        config_of(configs, configs[i].0) == Some(configs[i].1@),
    decreases i,
{
    if i > 0 {
        let rest = configs.drop_first();
        assert(rest[i - 1] == configs[i]);
        assert(configs[0].0 != configs[i].0);
        assert(networks_distinct(rest)) by {
            assert forall|a: int, b: int| 0 <= a < b < rest.len() implies #[trigger] rest[a].0 != #[trigger] rest[b].0 by {
                assert(rest[a] == configs[a + 1]);
                assert(rest[b] == configs[b + 1]);
            }
        }
        lemma_config_of_entry(rest, i - 1);
    }
}

/// Whether `e` is the endpoint of the wallet `wallet_name` on the network
/// `n` whose node is configured as `c`.
pub open spec fn is_endpoint(e: ClientEndpoint, n: Network, c: NodeConfigView, wallet_name: Seq<char>) -> bool {
    &&& e.key.network == n
    &&& e.key.wallet_name@ == wallet_name
    &&& e.url@ == client_url(c.rpc_url, wallet_name)
    &&& e.user@ == c.rpc_user
    &&& e.password@ == c.rpc_password
}

/// The message of a successful network switch.
pub open spec fn switched_message(n: Network) -> Seq<char> {
    "Switched to "@ + network_name(n) + " network"@
}

/// The message of a refused network switch.
pub open spec fn invalid_network_message(requested: Seq<char>) -> Seq<char> {
    "Invalid network: "@ + requested + ". Available: regtest, testnet, mainnet"@
}

/// A request to switch networks, by name (any case).
pub struct SwitchNetworkRequest {
    pub network: String,
}

impl NodeSelection {
    /// A selection with the given configurations, starting on
    /// `default_network`.
    pub fn new(configs: Vec<(Network, BitcoinNodeConfig)>, default_network: Network) -> (r: NodeSelection)
        ensures
            r.configs@ == configs@,
            r.current == default_network,
    {
        NodeSelection { configs, current: default_network }
    }

    /// A selection with the configuration of each of the four networks as
    /// the settings give it, starting on `default_network`.
    pub fn from_settings(settings: &BitcoinSettings, default_network: Network) -> (r: NodeSelection)
        ensures
            r.current == default_network,
            networks_distinct(r.configs@),
            forall|n: Network| #[trigger] config_of(r.configs@, n) == Some(node_config_for(*settings, n)),
    {
        let networks = all_networks();
        let mut configs: Vec<(Network, BitcoinNodeConfig)> = Vec::new();
        let mut i: usize = 0;
        while i < networks.len()
            invariant
                networks@ == all_networks_seq(),
                i <= networks.len(),
                configs.len() == i,
                forall|k: int| 0 <= k < i ==> #[trigger] configs@[k].0 == networks@[k],
                forall|k: int| 0 <= k < i ==> #[trigger] configs@[k].1@ == node_config_for(*settings, networks@[k]),
            decreases networks.len() - i,
        {
            let n = networks[i];
            configs.push((n, settings.get_node_config(n)));
            i = i + 1;
        }
        proof {
            let c = configs@;
            assert(c.drop_first().drop_first().drop_first().drop_first() =~= Seq::<(Network, BitcoinNodeConfig)>::empty());
            assert forall|n: Network| #[trigger] config_of(c, n) == Some(node_config_for(*settings, n)) by {
                reveal_with_fuel(config_of, 5);
                assert(c[0].0 == Network::Regtest);
                assert(c.drop_first()[0].0 == Network::Signet);
                assert(c.drop_first().drop_first()[0].0 == Network::Testnet);
                assert(c.drop_first().drop_first().drop_first()[0].0 == Network::Mainnet);
                assert(c.drop_first()[0] == c[1]);
                assert(c.drop_first().drop_first()[0] == c[2]);
                assert(c.drop_first().drop_first().drop_first()[0] == c[3]);
            }
        }
        NodeSelection { configs, current: default_network }
    }

    /// Switches the current network.
    pub fn set_current_network(&mut self, network: Network)
        ensures
            final(self).current == network,
            final(self).configs@ == old(self).configs@,
    {
        self.current = network;
    }

    /// The current network.
    pub fn get_current_network(&self) -> (r: Network)
        ensures
            r == self.current,
    {
        self.current
    }

    /// The configuration of a network, if there is one.
    pub fn config_for(&self, network: Network) -> (r: Option<&BitcoinNodeConfig>)
        ensures
            match config_of(self.configs@, network) {
                Some(c) => r matches Some(x) && x@ == c,
                None => r is None,
            },
    {
        let mut i: usize = 0;
        assert(self.configs@.skip(0) =~= self.configs@);
        while i < self.configs.len()
            invariant
                i <= self.configs.len(),
                config_of(self.configs@, network) == config_of(self.configs@.skip(i as int), network),
            decreases self.configs.len() - i,
        {
            assert(self.configs@.skip(i as int)[0] == self.configs@[i as int]);
            if self.configs[i].0 == network {
                return Some(&self.configs[i].1);
            }
            assert(self.configs@.skip(i as int).drop_first() =~= self.configs@.skip(i + 1));
            i = i + 1;
        }
        assert(self.configs@.skip(i as int) =~= Seq::<(Network, BitcoinNodeConfig)>::empty());
        None
    }

    /// The endpoint of a wallet's client on the current network, or `None`
    /// when the current network has no configuration.
    pub fn client_endpoint(&self, wallet_name: &str) -> (r: Option<ClientEndpoint>)
        ensures
            match config_of(self.configs@, self.current) {
                Some(c) => r matches Some(e) && is_endpoint(e, self.current, c, wallet_name@),
                None => r is None,
            },
    {
        let network = self.current;
        match self.config_for(network) {
            None => None,
            Some(c) => {
                let url = if wallet_name.is_empty() {
                    c.rpc_url.clone()
                } else {
                    wallet_client_url(c.rpc_url.as_str(), wallet_name)
                };
                Some(
                    ClientEndpoint {
                        key: ClientKey::new(network, owned(wallet_name)),
                        url,
                        user: c.rpc_user.clone(),
                        password: c.rpc_password.clone(),
                    },
                )
            },
        }
    }

    /// Switches to the requested network when its name (in any case) is
    /// known; otherwise leaves the selection alone and explains why.
    pub fn switch_network(&mut self, request: &SwitchNetworkRequest) -> (r: Result<Network, String>)
        ensures
            match network_from_lowercase(lowercase_of(request.network@)) {
                Some(n) => r == Ok::<Network, String>(n) && final(self).current == n,
                None => r matches Err(msg) && msg@ == invalid_network_message(request.network@)
                    && final(self).current == old(self).current,
            },
            is_ascii_text(request.network@) ==> match network_from_lowercase(ascii_lower(request.network@)) {
                Some(n) => r == Ok::<Network, String>(n),
                None => r is Err,
            },
            final(self).configs@ == old(self).configs@,
    {
        match Network::from_str(request.network.as_str()) {
            Some(n) => {
                self.current = n;
                Ok(n)
            },
            None => {
                let mut msg = owned("Invalid network: ");
                msg.append(request.network.as_str());
                msg.append(". Available: regtest, testnet, mainnet");
                Err(msg)
            },
        }
    }
}

/// The message of a successful network switch.
pub fn switched_to(n: Network) -> (r: String)
    ensures
        r@ == switched_message(n),
{
    let mut s = owned("Switched to ");
    s.append(n.as_str());
    s.append(" network");
    s
}

/// The current network and the networks offered for switching.
pub struct NetworkInfo {
    pub current_network: String,
    pub available_networks: Vec<String>,
}

/// The networks offered for switching.
pub open spec fn offered_networks() -> Seq<Seq<char>> {
    seq!["regtest"@, "testnet"@, "mainnet"@]
}

impl NetworkInfo {
    /// The information shown for the current network `n`.
    pub fn for_network(n: Network) -> (r: NetworkInfo)
        ensures
            r.current_network@ == network_name(n),
            r.available_networks@.map_values(|s: String| s@) == offered_networks(),
    {
        let available = vec![owned("regtest"), owned("testnet"), owned("mainnet")];
        let r = NetworkInfo { current_network: owned(n.as_str()), available_networks: available };
        assert(r.available_networks@.map_values(|s: String| s@) =~= offered_networks());
        r
    }
}

/// After a switch to a network, clients connect to that network's node:
/// the endpoint of any wallet uses the configuration of the new network.
pub proof fn lemma_switch_then_connect(
    configs: Seq<(Network, BitcoinNodeConfig)>,
    n: Network,
    wallet_name: Seq<char>,
    e: ClientEndpoint,
)
    requires
        config_of(configs, n) matches Some(c) && is_endpoint(e, n, c, wallet_name),
    ensures
        e.key.network == n,
        e.url@ == client_url(config_of(configs, n)->0.rpc_url, wallet_name),
        wallet_name.len() == 0 ==> e.url@ == config_of(configs, n)->0.rpc_url,
{
}

} // verus!
