use std::collections::BTreeMap;

use mev_pool_discovery::pool_metadata::PoolMetadata;
use mev_pool_discovery::primitives::Address;
use mev_pool_discovery::storage::{Compression, RocksDbStorage, ScanItem, StorageError};

fn mock_address(n: u8) -> Address {
    Address::from_bytes([n; 20])
}

fn create_test_pool(pool: u8) -> PoolMetadata {
    PoolMetadata::new_v2(mock_address(pool), mock_address(100), mock_address(2), mock_address(3), 1000, 0, 1638360000)
}

/// An in-memory stand-in for the database: an ordered key-value map, as
/// RocksDB iterates its keys in order.
struct MemoryDb {
    entries: BTreeMap<Vec<u8>, Vec<u8>>,
}

impl MemoryDb {
    fn new() -> Self {
        MemoryDb { entries: BTreeMap::new() }
    }

    fn put(&mut self, write: (Vec<u8>, Vec<u8>)) {
        self.entries.insert(write.0, write.1);
    }

    fn scan(&self) -> Vec<ScanItem> {
        self.entries.iter().map(|(k, v)| Ok((k.clone(), v.clone()))).collect()
    }
}

fn encode(pool: &PoolMetadata) -> Vec<u8> {
    format!("{:?}", pool).into_bytes()
}

#[test]
fn test_save_and_get_pool() {
    let storage = RocksDbStorage::new("./unused");
    let mut db = MemoryDb::new();

    let pool = create_test_pool(1);
    db.put(storage.save_pool(&pool, encode(&pool)));

    let loaded = db.entries.get(&RocksDbStorage::pool_key(&pool.pool_address)).cloned();
    assert!(loaded.is_some());
    assert_eq!(loaded.unwrap(), encode(&pool));
}

#[test]
fn test_delete_pool() {
    let storage = RocksDbStorage::new("./unused");
    let mut db = MemoryDb::new();

    let pool = create_test_pool(1);
    db.put(storage.save_pool(&pool, encode(&pool)));
    assert!(db.entries.get(&RocksDbStorage::pool_key(&pool.pool_address)).is_some());

    db.entries.remove(&storage.delete_pool(&pool.pool_address));
    assert!(db.entries.get(&RocksDbStorage::pool_key(&pool.pool_address)).is_none());
}

#[test]
fn test_all_pools() {
    let storage = RocksDbStorage::new("./unused");
    let mut db = MemoryDb::new();

    let pool1 = create_test_pool(1);
    let pool2 = create_test_pool(2);

    db.put(storage.save_pool(&pool1, encode(&pool1)));
    db.put(storage.save_pool(&pool2, encode(&pool2)));

    let all_pools = storage.all_pools(&db.scan());
    assert!(all_pools.error.is_none());
    assert_eq!(all_pools.values.len(), 2);
}

#[test]
fn test_batch_save() {
    let storage = RocksDbStorage::new("./unused");
    let mut db = MemoryDb::new();

    let pools = vec![create_test_pool(1), create_test_pool(2), create_test_pool(3)];
    let encoded: Vec<Vec<u8>> = pools.iter().map(encode).collect();

    for write in storage.save_batch(&pools, &encoded) {
        db.put(write);
    }

    let count = storage.count(&db.scan()).unwrap();
    assert_eq!(count, 3);
}

#[test]
fn storage_options_and_keys() {
    let storage = RocksDbStorage::new("./pool_discovery_data");
    assert_eq!(storage.path(), "./pool_discovery_data");
    assert!(storage.options().create_if_missing);
    assert_eq!(storage.options().compression, Compression::Snappy);
    let a = mock_address(0xab);
    assert_eq!(RocksDbStorage::pool_key(&a), vec![0xab; 20]);
}

#[test]
fn scan_errors_stop_count_and_load() {
    let storage = RocksDbStorage::new("./unused");
    let scan: Vec<ScanItem> = vec![
        Ok((vec![1], vec![10])),
        Err("corrupt block".to_string()),
        Ok((vec![2], vec![20])),
        Err("second".to_string()),
    ];
    match storage.count(&scan) {
        Err(StorageError::Database { reason }) => assert_eq!(reason, "corrupt block"),
        other => panic!("unexpected {:?}", other),
    }
    let loaded = storage.all_pools(&scan);
    assert_eq!(loaded.values, vec![vec![10u8]]);
    match loaded.error {
        Some(StorageError::Database { reason }) => assert_eq!(reason, "corrupt block"),
        other => panic!("unexpected {:?}", other),
    }
    let ok_scan: Vec<ScanItem> = vec![Ok((vec![1], vec![10])), Ok((vec![2], vec![20, 21]))];
    let loaded = storage.all_pools(&ok_scan);
    assert!(loaded.error.is_none());
    assert_eq!(loaded.values, vec![vec![10], vec![20, 21]]);
    let first_bad: Vec<ScanItem> = vec![Err("bad".to_string()), Ok((vec![1], vec![10]))];
    let loaded = storage.all_pools(&first_bad);
    assert!(loaded.values.is_empty());
    assert!(loaded.error.is_some());
    assert_eq!(storage.count(&Vec::new()).unwrap(), 0);
}
