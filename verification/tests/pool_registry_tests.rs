use mev_pool_discovery::pool_metadata::{MetadataError, PoolMetadata, ProtocolType};
use mev_pool_discovery::pool_registry::PoolRegistry;
use mev_pool_discovery::primitives::Address;

fn mock_address(n: u8) -> Address {
    Address::from_bytes([n; 20])
}

fn create_test_pool(pool: u8, token0: u8, token1: u8, block: u64) -> PoolMetadata {
    PoolMetadata::new_v2(
        mock_address(pool),
        mock_address(100),
        mock_address(token0),
        mock_address(token1),
        block,
        0,
        1638360000,
    )
}

#[test]
fn test_insert_and_get() {
    let mut registry = PoolRegistry::new();
    let pool = create_test_pool(1, 2, 3, 1000);

    assert!(registry.insert(pool.clone()).unwrap());
    assert!(registry.contains(&pool.pool_address));
    assert_eq!(registry.get(&pool.pool_address), Some(pool));
}

#[test]
fn test_duplicate_insert() {
    let mut registry = PoolRegistry::new();
    let pool = create_test_pool(1, 2, 3, 1000);

    assert!(registry.insert(pool.clone()).unwrap());
    assert!(!registry.insert(pool).unwrap());
}

#[test]
fn test_query_by_protocol() {
    let mut registry = PoolRegistry::new();
    let pool1 = create_test_pool(1, 2, 3, 1000);
    let mut pool2 = create_test_pool(4, 5, 6, 1000);
    pool2.protocol_id = ProtocolType::UniswapV3;
    pool2.tick_spacing = Some(60);

    registry.insert(pool1.clone()).unwrap();
    registry.insert(pool2.clone()).unwrap();

    let v2_pools = registry.pools_by_protocol(ProtocolType::UniswapV2);
    assert_eq!(v2_pools.len(), 1);
    assert!(v2_pools.contains(&pool1.pool_address));

    let v3_pools = registry.pools_by_protocol(ProtocolType::UniswapV3);
    assert_eq!(v3_pools.len(), 1);
    assert!(v3_pools.contains(&pool2.pool_address));
}

#[test]
fn test_query_by_token_pair() {
    let mut registry = PoolRegistry::new();
    let pool1 = create_test_pool(1, 2, 3, 1000);
    let pool2 = create_test_pool(4, 2, 3, 1000);

    registry.insert(pool1.clone()).unwrap();
    registry.insert(pool2.clone()).unwrap();

    let pools = registry.pools_by_token_pair(mock_address(2), mock_address(3));
    assert_eq!(pools.len(), 2);
    assert!(pools.contains(&pool1.pool_address));
    assert!(pools.contains(&pool2.pool_address));
}

#[test]
fn test_query_by_block() {
    let mut registry = PoolRegistry::new();
    let pool1 = create_test_pool(1, 2, 3, 1000);
    let pool2 = create_test_pool(4, 5, 6, 1000);
    let pool3 = create_test_pool(7, 8, 9, 2000);

    registry.insert(pool1.clone()).unwrap();
    registry.insert(pool2.clone()).unwrap();
    registry.insert(pool3.clone()).unwrap();

    let pools_1000 = registry.pools_by_block(1000);
    assert_eq!(pools_1000.len(), 2);

    let pools_2000 = registry.pools_by_block(2000);
    assert_eq!(pools_2000.len(), 1);
    assert!(pools_2000.contains(&pool3.pool_address));
}

#[test]
fn test_query_by_block_range() {
    let mut registry = PoolRegistry::new();
    registry.insert(create_test_pool(1, 2, 3, 1000)).unwrap();
    registry.insert(create_test_pool(4, 5, 6, 1500)).unwrap();
    registry.insert(create_test_pool(7, 8, 9, 2000)).unwrap();

    let pools = registry.pools_by_block_range(1000, 1500);
    assert_eq!(pools.len(), 2);
}

#[test]
fn test_stats() {
    let mut registry = PoolRegistry::new();
    let pool1 = create_test_pool(1, 2, 3, 1000);
    let mut pool2 = create_test_pool(4, 5, 6, 1000);
    pool2.protocol_id = ProtocolType::UniswapV3;
    pool2.tick_spacing = Some(60);

    registry.insert(pool1).unwrap();
    registry.insert(pool2).unwrap();

    let stats = registry.stats();
    assert_eq!(stats.total_pools, 2);
    assert_eq!(stats.uniswap_v2_pools, 1);
    assert_eq!(stats.uniswap_v3_pools, 1);
}

#[test]
fn invalid_pool_is_refused_and_not_registered() {
    let mut registry = PoolRegistry::default();
    let bad = create_test_pool(1, 5, 4, 1000);
    assert_eq!(
        registry.insert(bad),
        Err(MetadataError::TokenOrder { token0: mock_address(5), token1: mock_address(4) })
    );
    assert!(!registry.contains(&bad.pool_address));
    assert!(registry.is_empty());
    assert_eq!(registry.len(), 0);
    assert_eq!(registry.get(&bad.pool_address), None);
}

#[test]
fn duplicate_address_keeps_first_metadata() {
    let mut registry = PoolRegistry::new();
    let first = create_test_pool(1, 2, 3, 1000);
    let second = create_test_pool(1, 5, 6, 3000);
    assert_eq!(registry.insert(first), Ok(true));
    assert_eq!(registry.insert(second), Ok(false));
    assert_eq!(registry.get(&first.pool_address), Some(first));
    assert!(registry.pools_by_block(3000).is_empty());
    assert!(registry.pools_by_token_pair(mock_address(5), mock_address(6)).is_empty());
    assert_eq!(registry.len(), 1);
}

#[test]
fn queries_keep_registration_order() {
    let mut registry = PoolRegistry::new();
    registry.insert(create_test_pool(9, 2, 3, 50)).unwrap();
    registry.insert(create_test_pool(1, 2, 3, 50)).unwrap();
    registry.insert(create_test_pool(5, 2, 3, 40)).unwrap();
    assert_eq!(
        registry.pools_by_token_pair(mock_address(2), mock_address(3)),
        vec![mock_address(9), mock_address(1), mock_address(5)]
    );
    assert_eq!(registry.pools_by_block(50), vec![mock_address(9), mock_address(1)]);
    assert_eq!(
        registry.pools_by_protocol(ProtocolType::UniswapV2),
        vec![mock_address(9), mock_address(1), mock_address(5)]
    );
    assert!(registry.pools_by_token_pair(mock_address(3), mock_address(2)).is_empty());
}

#[test]
fn block_range_is_ordered_by_block_then_registration() {
    let mut registry = PoolRegistry::new();
    registry.insert(create_test_pool(1, 2, 3, 30)).unwrap();
    registry.insert(create_test_pool(2, 2, 3, 10)).unwrap();
    registry.insert(create_test_pool(3, 2, 3, 20)).unwrap();
    registry.insert(create_test_pool(4, 2, 3, 10)).unwrap();
    registry.insert(create_test_pool(5, 2, 3, 40)).unwrap();
    assert_eq!(
        registry.pools_by_block_range(10, 30),
        vec![mock_address(2), mock_address(4), mock_address(3), mock_address(1)]
    );
    assert_eq!(registry.pools_by_block_range(11, 19), Vec::<Address>::new());
    assert_eq!(registry.pools_by_block_range(30, 10), Vec::<Address>::new());
    assert_eq!(registry.pools_by_block_range(0, u64::MAX).len(), 5);
    assert_eq!(registry.pools_by_block_range(20, 20), registry.pools_by_block(20));
}

#[test]
fn all_pools_lists_each_pool_once() {
    let mut registry = PoolRegistry::new();
    for n in 1..=5u8 {
        registry.insert(create_test_pool(n, 20, 30, n as u64)).unwrap();
    }
    registry.insert(create_test_pool(3, 20, 30, 9)).unwrap();
    let mut all = registry.all_pools();
    all.sort_by_key(|a| (a.hi, a.lo));
    assert_eq!(all, (1..=5u8).map(mock_address).collect::<Vec<_>>());
    let stats = registry.stats();
    assert_eq!(stats.total_pools, 5);
    assert_eq!(stats.uniswap_v2_pools + stats.uniswap_v3_pools, stats.total_pools);
}
