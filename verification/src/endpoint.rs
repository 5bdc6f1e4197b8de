//! From the name of a network to the address of a node.

use vstd::prelude::*;

verus! {

/// The short name of the test network.
pub const TESTNET_ALIAS: &'static str = "harmonie-testnet";

/// The node that serves the test network.
pub const TESTNET_ENDPOINT: &'static str = "wss://harmonie-endpoint-02.allfeat.io";

/// The address that `network` stands for: that of the test network for its short name,
/// and `network` itself for anything else.
pub open spec fn endpoint_of(network: Seq<char>) -> Seq<char> {
    if network == TESTNET_ALIAS@ {
        TESTNET_ENDPOINT@
    } else {
        network
    }
}

/// The address of the node to connect to. A known short name gives the address it
/// stands for; any other text is taken to be an address already.
pub fn resolve_endpoint(network: &str) -> (url: String)
    ensures
        url@ == endpoint_of(network@),
{
    let name: String = network.to_owned();
    let alias: String = TESTNET_ALIAS.to_owned();
    if name == alias {
        TESTNET_ENDPOINT.to_owned()
    } else {
        name
    }
}

} // verus!
