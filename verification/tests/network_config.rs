use indexer::config::{IndexingConfig, Token, TokenConfig};
use indexer::network::{EcdsaKeyEnvs, NetworkInfo, SupportedNetwork};

#[test]
fn network_info_of_each_network() {
    let m = NetworkInfo::get_network_info(SupportedNetwork::Mainnet);
    assert_eq!(m.name, "Mainnet");
    assert_eq!(m.chain_id, 1);
    assert_eq!(m.network, SupportedNetwork::Mainnet);
    assert_eq!(m.rpc_url, "https://eth-mainnet.g.alchemy.com/v2/YOUR_KEY");
    assert_eq!(m.key_name, "test_key_1");
    let o = NetworkInfo::get_network_info(SupportedNetwork::Optimism);
    assert_eq!(o.name, "Optimism");
    assert_eq!(o.chain_id, 10);
    assert_eq!(o.rpc_url, "https://opt-mainnet.g.alchemy.com/v2/YOUR_KEY");
    let p = NetworkInfo::get_network_info(SupportedNetwork::PolygonMumbai);
    assert_eq!(p.name, "PolygonMumbai");
    assert_eq!(p.chain_id, 80001);
    assert_eq!(p.network, SupportedNetwork::PolygonMumbai);
    assert_eq!(p.rpc_url, "https://rpc-mumbai.maticvigil.com");
}

#[test]
fn chain_id_one_is_mainnet() {
    assert_eq!(SupportedNetwork::from(1), SupportedNetwork::Mainnet);
}

#[test]
fn default_network_is_mainnet() {
    assert_eq!(SupportedNetwork::default(), SupportedNetwork::Mainnet);
}

#[test]
fn key_name_is_shared() {
    for nw in [SupportedNetwork::Mainnet, SupportedNetwork::Optimism, SupportedNetwork::PolygonMumbai] {
        assert_eq!(EcdsaKeyEnvs { network: nw }.to_key_name(), "test_key_1");
    }
}

#[test]
fn token_addresses() {
    let m = TokenConfig::new(SupportedNetwork::Mainnet, Token::DAI);
    assert_eq!(m.address(), "0x6b175474e89094c44da98b954eedeac495271d0f");
    assert_eq!(m.contract_craeted_block_number(), 8928158);
    assert_eq!(m.network(), SupportedNetwork::Mainnet);
    let o = TokenConfig::new(SupportedNetwork::Optimism, Token::DAI);
    assert_eq!(o.address(), "0xDA10009cBd5D07dd0CeCc66161FC93D7c9000da1");
    assert_eq!(o.contract_craeted_block_number(), 0);
    let p = TokenConfig::new(SupportedNetwork::PolygonMumbai, Token::DAI);
    assert_eq!(p.address(), "");
    assert_eq!(p.contract_craeted_block_number(), 0);
    assert_eq!(Token::default(), Token::DAI);
}

#[test]
fn indexing_config_starts_at_contract_creation() {
    let c = IndexingConfig::new(TokenConfig::new(SupportedNetwork::Mainnet, Token::DAI), 17_000_000);
    assert_eq!(c.batch_sync_start_from, 17_000_000);
    assert_eq!(c.deployed_block(), 8928158);
    assert_eq!(c.address(), "0x6b175474e89094c44da98b954eedeac495271d0f");
}
