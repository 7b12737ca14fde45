use mev_pool_discovery::config::Config;
use mev_pool_discovery::monitors::{UniswapV2Monitor, UniswapV3Monitor};

#[test]
fn test_default_config() {
    let config = Config::default();
    assert!(config.enable_persistence);
    assert_eq!(config.factories.len(), 2);
}

#[test]
fn default_config_watches_mainnet_factories() {
    let config = Config::default();
    assert_eq!(config.storage_path, "./pool_discovery_data");
    assert_eq!(config.factories[0].name, "UniswapV2");
    assert_eq!(config.factories[0].protocol, "uniswap_v2");
    assert_eq!(config.factories[0].address, UniswapV2Monitor::mainnet_factory());
    assert_eq!(config.factories[1].name, "UniswapV3");
    assert_eq!(config.factories[1].protocol, "uniswap_v3");
    assert_eq!(config.factories[1].address, UniswapV3Monitor::mainnet_factory());
}
