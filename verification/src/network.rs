//! The chains the indexer can talk to and their connection data.
use vstd::prelude::*;
use vstd::string::*;

verus! {

/// A chain that the indexer supports.
#[derive(Debug, Clone, Copy, PartialEq, Eq, Structural, Hash)]
pub enum SupportedNetwork {
    Mainnet,
    Optimism,
    PolygonMumbai,
}

impl Default for SupportedNetwork {
    fn default() -> (r: Self)
        ensures
            r == SupportedNetwork::Mainnet,
    {
        SupportedNetwork::Mainnet
    }
}

/// Connection data of one chain.
#[derive(Debug, Clone, PartialEq, Eq, Hash)]
pub struct NetworkInfo {
    pub name: String,
    pub chain_id: u32,
    pub network: SupportedNetwork,
    pub rpc_url: String,
    pub key_name: String,
}

/// Name of the ECDSA key that signs for every supported chain.
pub open spec fn spec_key_name() -> Seq<char> {
    "test_key_1"@
}

pub open spec fn spec_network_name(network: SupportedNetwork) -> Seq<char> {
    match network {
        SupportedNetwork::Mainnet => "Mainnet"@,
        SupportedNetwork::Optimism => "Optimism"@,
        SupportedNetwork::PolygonMumbai => "PolygonMumbai"@,
    }
}

pub open spec fn spec_chain_id(network: SupportedNetwork) -> u32 {
    match network {
        SupportedNetwork::Mainnet => 1,
        SupportedNetwork::Optimism => 10,
        SupportedNetwork::PolygonMumbai => 80001,
    }
}

pub open spec fn spec_rpc_url(network: SupportedNetwork) -> Seq<char> {
    match network {
        SupportedNetwork::Mainnet => "https://eth-mainnet.g.alchemy.com/v2/YOUR_KEY"@,
        SupportedNetwork::Optimism => "https://opt-mainnet.g.alchemy.com/v2/YOUR_KEY"@,
        SupportedNetwork::PolygonMumbai => "https://rpc-mumbai.maticvigil.com"@,
    }
}

impl SupportedNetwork {
    /// The network with the given chain id; only Ethereum mainnet (chain id 1)
    /// is recognised, any other id is a caller error.
    pub fn from(chain_id: u32) -> (r: Self)
        requires
            chain_id == 1,
        ensures
            r == SupportedNetwork::Mainnet,
            spec_chain_id(r) == chain_id,
    {
        SupportedNetwork::Mainnet
    }
}

impl NetworkInfo {
    /// The connection data registered for `network`.
    pub fn get_network_info(network: SupportedNetwork) -> (r: NetworkInfo)
        ensures
            r.name@ == spec_network_name(network),
            r.chain_id == spec_chain_id(network),
            r.network == network,
            r.rpc_url@ == spec_rpc_url(network),
            r.key_name@ == spec_key_name(),
    {
        match network {
            SupportedNetwork::Mainnet => NetworkInfo {
                name: String::from_str("Mainnet"),
                chain_id: 1,
                network: SupportedNetwork::Mainnet,
                rpc_url: String::from_str("https://eth-mainnet.g.alchemy.com/v2/YOUR_KEY"),
                key_name: String::from_str("test_key_1"),
            },
            SupportedNetwork::Optimism => NetworkInfo {
                name: String::from_str("Optimism"),
                chain_id: 10,
                network: SupportedNetwork::Optimism,
                rpc_url: String::from_str("https://opt-mainnet.g.alchemy.com/v2/YOUR_KEY"),
                key_name: String::from_str("test_key_1"),
            },
            SupportedNetwork::PolygonMumbai => NetworkInfo {
                name: String::from_str("PolygonMumbai"),
                chain_id: 80001,
                network: SupportedNetwork::PolygonMumbai,
                rpc_url: String::from_str("https://rpc-mumbai.maticvigil.com"),
                key_name: String::from_str("test_key_1"),
            },
        }
    }
}

/// Selects the signing key of a network.
pub struct EcdsaKeyEnvs {
    pub network: SupportedNetwork,
}

impl EcdsaKeyEnvs {
    /// The name of the key registered for this network.
    pub fn to_key_name(self) -> (r: String)
        ensures
            r@ == spec_key_name(),
    {
        let info = NetworkInfo::get_network_info(self.network);
        info.key_name
    }
}

} // verus!
