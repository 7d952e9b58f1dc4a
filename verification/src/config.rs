//! The tracked token, where it lives on each network, and the indexing settings.
use vstd::prelude::*;
use crate::network::SupportedNetwork;

verus! {

/// A token whose transfers are indexed.
#[derive(Debug, Clone, Copy, PartialEq, Eq, Structural)]
pub enum Token {
    DAI,
}

impl Default for Token {
    fn default() -> (r: Self)
        ensures
            r == Token::DAI,
    {
        Token::DAI
    }
}

/// The contract address of `token` on `network` (empty where it is not deployed).
pub open spec fn spec_token_address(token: Token, network: SupportedNetwork) -> Seq<char> {
    match (token, network) {
        (Token::DAI, SupportedNetwork::Mainnet) => "0x6b175474e89094c44da98b954eedeac495271d0f"@,
        (Token::DAI, SupportedNetwork::Optimism) => "0xDA10009cBd5D07dd0CeCc66161FC93D7c9000da1"@,
        (Token::DAI, SupportedNetwork::PolygonMumbai) => ""@,
    }
}

/// The block in which the contract of `token` on `network` was created.
pub open spec fn spec_created_block(token: Token, network: SupportedNetwork) -> u64 {
    match (token, network) {
        (Token::DAI, SupportedNetwork::Mainnet) => 8928158,
        (Token::DAI, SupportedNetwork::Optimism) => 0,
        (Token::DAI, SupportedNetwork::PolygonMumbai) => 0,
    }
}

impl Token {
    fn address(&self, network: &SupportedNetwork) -> (r: &'static str)
        ensures
            r@ == spec_token_address(*self, *network),
    {
        match (self, network) {
            (Token::DAI, SupportedNetwork::Mainnet) => "0x6b175474e89094c44da98b954eedeac495271d0f",
            (Token::DAI, SupportedNetwork::Optimism) => "0xDA10009cBd5D07dd0CeCc66161FC93D7c9000da1",
            (Token::DAI, SupportedNetwork::PolygonMumbai) => "",
        }
    }

    fn contract_craeted_block_number(&self, network: &SupportedNetwork) -> (r: u64)
        ensures
            r == spec_created_block(*self, *network),
    {
        match (self, network) {
            (Token::DAI, SupportedNetwork::Mainnet) => 8928158,
            (Token::DAI, SupportedNetwork::Optimism) => 0,
            (Token::DAI, SupportedNetwork::PolygonMumbai) => 0,
        }
    }
}

/// A token on a given network.
#[derive(Debug, Clone, Copy, PartialEq, Eq, Structural)]
pub struct TokenConfig {
    pub network: SupportedNetwork,
    token: Token,
}

impl TokenConfig {
    pub closed spec fn spec_token(&self) -> Token {
        self.token
    }

    pub closed spec fn spec_network(&self) -> SupportedNetwork {
        self.network
    }

    pub fn new(network: SupportedNetwork, token: Token) -> (r: Self)
        ensures
            r.spec_network() == network,
            r.spec_token() == token,
    {
        Self { network, token }
    }

    /// The configured network.
    pub fn network(&self) -> (r: SupportedNetwork)
        ensures
            r == self.spec_network(),
    {
        self.network
    }

    /// The token's contract address on the configured network.
    pub fn address(&self) -> (r: &'static str)
        ensures
            r@ == spec_token_address(self.spec_token(), self.spec_network()),
    {
        self.token.address(&self.network)
    }

    /// The block in which the token's contract was created on the configured network.
    pub fn contract_craeted_block_number(&self) -> (r: u64)
        ensures
            r == spec_created_block(self.spec_token(), self.spec_network()),
    {
        self.token.contract_craeted_block_number(&self.network)
    }
}

/// What an indexer follows: a token, and the block (the chain head at set-up)
/// up to which past transfers are fetched in batches.
#[derive(Debug, Clone, Copy, PartialEq, Eq, Structural)]
pub struct IndexingConfig {
    pub config: TokenConfig,
    pub batch_sync_start_from: u64,
}

impl IndexingConfig {
    pub fn new(config: TokenConfig, batch_sync_start_from: u64) -> (r: Self)
        ensures
            r.config == config,
            r.batch_sync_start_from == batch_sync_start_from,
    {
        Self { config, batch_sync_start_from }
    }

    /// The block from which indexing starts: the token contract's creation block.
    pub fn deployed_block(&self) -> (r: u64)
        ensures
            r == spec_created_block(self.config.spec_token(), self.config.spec_network()),
    {
        self.config.contract_craeted_block_number()
    }

    /// The token's contract address.
    pub fn address(&self) -> (r: &'static str)
        ensures
            r@ == spec_token_address(self.config.spec_token(), self.config.spec_network()),
    {
        self.config.address()
    }
}

} // verus!
