use mev_pool_discovery::config::{Config, FactoryConfig};
use mev_pool_discovery::exex::{ChainTip, PoolDiscoveryExEx};
use mev_pool_discovery::monitors::Monitor;
use mev_pool_discovery::pool_metadata::PoolMetadata;
use mev_pool_discovery::primitives::Address;

fn mock_address(n: u8) -> Address {
    Address::from_bytes([n; 20])
}

#[test]
fn new_builds_monitors_for_known_protocols() {
    let mut config = Config::default();
    config.factories.push(FactoryConfig {
        name: "Sushi".to_string(),
        address: mock_address(9),
        protocol: "sushiswap".to_string(),
    });
    config.factories.push(FactoryConfig {
        name: "Fork".to_string(),
        address: mock_address(8),
        protocol: "uniswap_v2".to_string(),
    });
    let exex = PoolDiscoveryExEx::new(config);
    let monitors = exex.monitors();
    assert_eq!(monitors.len(), 3);
    assert!(matches!(monitors[0], Monitor::UniswapV2(_)));
    assert!(matches!(monitors[1], Monitor::UniswapV3(_)));
    assert!(matches!(monitors[2], Monitor::UniswapV2(_)));
    assert_eq!(monitors[2].factory_address(), mock_address(8));
    assert!(exex.registry().is_empty());
}

#[test]
fn load_pools_registers_valid_pools_once() {
    let mut exex = PoolDiscoveryExEx::new(Config::default());
    let good = PoolMetadata::new_v2(mock_address(1), mock_address(2), mock_address(3), mock_address(4), 10, 0, 0);
    let bad = PoolMetadata::new_v2(mock_address(5), mock_address(2), mock_address(4), mock_address(3), 10, 0, 0);
    exex.load_pools(vec![good, bad, good]);
    assert_eq!(exex.registry().len(), 1);
    assert_eq!(exex.registry().get(&good.pool_address), Some(good));
}

#[test]
fn notifications_report_stats_and_tip() {
    let mut exex = PoolDiscoveryExEx::new(Config::default());
    exex.load_pools(vec![PoolMetadata::new_v2(mock_address(1), mock_address(2), mock_address(3), mock_address(4), 10, 0, 0)]);
    let none = exex.process_notification(None);
    assert!(none.stats.is_none() && none.finished_height.is_none());
    let tip = ChainTip { number: 12, hash: [7u8; 32] };
    let out = exex.process_notification(Some(tip));
    let stats = out.stats.unwrap();
    assert_eq!(stats.total_pools, 1);
    assert_eq!(stats.uniswap_v2_pools, 1);
    assert_eq!(stats.uniswap_v3_pools, 0);
    let finished = out.finished_height.unwrap();
    assert_eq!(finished.number, 12);
    assert_eq!(finished.hash, [7u8; 32]);
}
