//! The Bitcoin networks the dashboard can talk to, their default ports and
//! their names.

use vstd::prelude::*;
use crate::text::text_eq;

verus! {

/// A Bitcoin network.
#[derive(Debug, Clone, Copy, PartialEq, Eq, Hash, Structural)]
pub enum Network {
    Regtest,
    Signet,
    Testnet,
    Mainnet,
}

/// The default JSON-RPC port of a network's node.
pub open spec fn rpc_port_of(n: Network) -> u16 {
    match n {
        Network::Regtest => 18443,
        Network::Signet => 38332,
        Network::Testnet => 18332,
        Network::Mainnet => 8332,
    }
}

/// The default peer-to-peer port of a network's node.
pub open spec fn p2p_port_of(n: Network) -> u16 {
    match n {
        Network::Regtest => 18444,
        Network::Signet => 38333,
        Network::Testnet => 18333,
        Network::Mainnet => 8333,
    }
}

/// The lowercase name of a network.
pub open spec fn network_name(n: Network) -> Seq<char> {
    match n {
        Network::Regtest => "regtest"@,
        Network::Signet => "signet"@,
        Network::Testnet => "testnet"@,
        Network::Mainnet => "mainnet"@,
    }
}

/// The network whose name is exactly `lower`, if any.
pub open spec fn network_from_lowercase(lower: Seq<char>) -> Option<Network> {
    if lower == "regtest"@ {
        Some(Network::Regtest)
    } else if lower == "signet"@ {
        Some(Network::Signet)
    } else if lower == "testnet"@ {
        Some(Network::Testnet)
    } else if lower == "mainnet"@ {
        Some(Network::Mainnet)
    } else {
        None
    }
}

/// What `str::to_lowercase` returns for a string: the Unicode lowercase
/// mapping of every character.
pub uninterp spec fn lowercase_of(s: Seq<char>) -> Seq<char>;

/// Whether every character is ASCII.
pub open spec fn is_ascii_text(s: Seq<char>) -> bool {
    forall|i: int| 0 <= i < s.len() ==> (#[trigger] s[i] as u32) < 128
}

/// The ASCII lowercase of a character: `A` to `Z` become `a` to `z`, every
/// other character stays.
pub open spec fn ascii_lower_char(c: char) -> char {
    if 'A' <= c && c <= 'Z' {
        ((c as u32) + 32) as char
    } else {
        c
    }
}

/// The ASCII lowercase of a text, character by character.
pub open spec fn ascii_lower(s: Seq<char>) -> Seq<char> {
    s.map_values(|c: char| ascii_lower_char(c))
}

/// Calls `str::to_lowercase`. The contract claims that the result is a
/// function of the input's characters (named `lowercase_of`), and that on
/// ASCII text, whose Unicode lowercase mapping is the ASCII one, it lowers
/// `A` to `Z` and keeps every other character. The Unicode case mapping of
/// other characters is not stated.
#[verifier::external_body]
fn to_lowercase(s: &str) -> (r: String)
    ensures
        r@ == lowercase_of(s@),
        is_ascii_text(s@) ==> r@ == ascii_lower(s@),
{
    s.to_lowercase()
}

/// The four networks, in the order the server configures them.
pub open spec fn all_networks_seq() -> Seq<Network> {
    seq![Network::Regtest, Network::Signet, Network::Testnet, Network::Mainnet]
}

/// The four networks, in the order the server configures them.
pub fn all_networks() -> (r: Vec<Network>)
    ensures
        r@ == all_networks_seq(),
{
    let r = vec![Network::Regtest, Network::Signet, Network::Testnet, Network::Mainnet];
    assert(r@ =~= all_networks_seq());
    r
}

impl Network {
    /// The default JSON-RPC port of the network's node.
    pub fn rpc_port(&self) -> (p: u16)
        ensures
            p == rpc_port_of(*self),
    {
        match self {
            Network::Regtest => 18443,
            Network::Signet => 38332,
            Network::Testnet => 18332,
            Network::Mainnet => 8332,
        }
    }

    /// The default peer-to-peer port of the network's node.
    pub fn p2p_port(&self) -> (p: u16)
        ensures
            p == p2p_port_of(*self),
    {
        match self {
            Network::Regtest => 18444,
            Network::Signet => 38333,
            Network::Testnet => 18333,
            Network::Mainnet => 8333,
        }
    }

    /// The lowercase name of the network.
    pub fn as_str(&self) -> (s: &'static str)
        ensures
            s@ == network_name(*self),
    {
        match self {
            Network::Regtest => "regtest",
            Network::Signet => "signet",
            Network::Testnet => "testnet",
            Network::Mainnet => "mainnet",
        }
    }

    /// Parses a network name that is already lowercase.
    pub fn from_lowercase_name(lower: &str) -> (r: Option<Network>)
        ensures
            r == network_from_lowercase(lower@),
    {
        if text_eq(lower, "regtest") {
            Some(Network::Regtest)
        } else if text_eq(lower, "signet") {
            Some(Network::Signet)
        } else if text_eq(lower, "testnet") {
            Some(Network::Testnet)
        } else if text_eq(lower, "mainnet") {
            Some(Network::Mainnet)
        } else {
            None
        }
    }

    /// Parses a network name, ignoring case.
    pub fn from_str(s: &str) -> (r: Option<Network>)
        ensures
            r == network_from_lowercase(lowercase_of(s@)),
            is_ascii_text(s@) ==> r == network_from_lowercase(ascii_lower(s@)),
    {
        let lower = to_lowercase(s);
        Network::from_lowercase_name(lower.as_str())
    }
}

/// Every network's lowercase name parses back to that network.
pub proof fn lemma_name_round_trip(n: Network)
    ensures
        network_from_lowercase(network_name(n)) == Some(n),
{
    reveal_strlit("regtest");
    reveal_strlit("signet");
    reveal_strlit("testnet");
    reveal_strlit("mainnet");
    assert("regtest"@[0] == 'r');
    assert("signet"@[0] == 's');
    assert("testnet"@[0] == 't');
    assert("mainnet"@[0] == 'm');
}

/// Every network's name is lowercase ASCII, so it parses back to that
/// network whatever case its ASCII letters are written in.
pub proof fn lemma_name_parses_back(n: Network)
    ensures
        is_ascii_text(network_name(n)),
        ascii_lower(network_name(n)) == network_name(n),
        network_from_lowercase(ascii_lower(network_name(n))) == Some(n),
{
    reveal_strlit("regtest");
    reveal_strlit("signet");
    reveal_strlit("testnet");
    reveal_strlit("mainnet");
    lemma_name_round_trip(n);
    let name = network_name(n);
    assert(ascii_lower(name) =~= name);
}

/// Distinct networks have distinct names.
pub proof fn lemma_names_distinct(a: Network, b: Network)
    ensures
        network_name(a) == network_name(b) ==> a == b,
{
    lemma_name_round_trip(a);
    lemma_name_round_trip(b);
}

/// A node's peer-to-peer port is the port right after its JSON-RPC port.
pub proof fn lemma_p2p_port_follows_rpc_port(n: Network)
    ensures
        p2p_port_of(n) == rpc_port_of(n) + 1,
{
}

/// No two of the eight default ports coincide: distinct networks have
/// distinct JSON-RPC ports and distinct peer-to-peer ports, and no network's
/// JSON-RPC port is another's (or its own) peer-to-peer port.
pub proof fn lemma_ports_distinct(a: Network, b: Network)
    ensures
        a != b ==> rpc_port_of(a) != rpc_port_of(b),
        a != b ==> p2p_port_of(a) != p2p_port_of(b),
        rpc_port_of(a) != p2p_port_of(b),
{
}

} // verus!
