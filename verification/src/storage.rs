//! Persistent storage of pool metadata in RocksDB, keyed by pool address:
//! the options the database is opened with, the keys and batches written to
//! it, and how a scan of it is read. The database calls themselves are made
//! by the application, which hands the results in.
use vstd::prelude::*;
use crate::primitives::{Address, address_from_be, be_value};
use crate::pool_metadata::PoolMetadata;

verus! {

/// Block compression of the database files.
#[derive(Clone, Copy, PartialEq, Eq, Debug, Structural)]
pub enum Compression {
    /// No compression.
    Uncompressed,
    /// Snappy compression.
    Snappy,
}

/// Options the database is opened with.
#[derive(Clone, Copy, PartialEq, Eq, Debug, Structural)]
pub struct DbOptions {
    /// Create the database if it does not exist.
    pub create_if_missing: bool,
    /// Compression of the database files.
    pub compression: Compression,
}

/// Why a storage operation failed.
#[derive(Debug)]
pub enum StorageError {
    /// The database reported an error.
    Database { reason: String },
}

/// One entry of a database scan: a key and a value, or the error met.
pub type ScanItem = Result<(Vec<u8>, Vec<u8>), String>;

/// Storage of pool metadata in a RocksDB database at a path.
pub struct RocksDbStorage {
    path: String,
    options: DbOptions,
}

/// The value of the first failing entry of a scan, if any.
pub open spec fn first_scan_error(scan: Seq<ScanItem>) -> Option<String>
    decreases scan.len(),
{
    if scan.len() == 0 {
        None
    } else {
        match scan[0] {
            Err(e) => Some(e),
            Ok(_) => first_scan_error(scan.drop_first()),
        }
    }
}

/// The position of the first failing entry of a scan, or its length when
/// none fails.
pub open spec fn first_error_index(scan: Seq<ScanItem>) -> int
    decreases scan.len(),
{
    if scan.len() == 0 {
        0
    } else if scan[0] is Err {
        0
    } else {
        1 + first_error_index(scan.drop_first())
    }
}

proof fn lemma_first_error_index(scan: Seq<ScanItem>)
    ensures
        0 <= first_error_index(scan) <= scan.len(),
        forall|j: int| 0 <= j < first_error_index(scan) ==> scan[j] is Ok,
        first_error_index(scan) < scan.len() ==> scan[first_error_index(scan)] is Err,
        first_scan_error(scan) is None <==> first_error_index(scan) == scan.len(),
    decreases scan.len(),
{
    if scan.len() > 0 && scan[0] is Ok {
        lemma_first_error_index(scan.drop_first());
        assert forall|j: int| 0 <= j < first_error_index(scan) implies scan[j] is Ok by {
            if j > 0 {
                assert(scan[j] == scan.drop_first()[j - 1]);
            }
        }
    }
}

/// A failing entry preceded only by good ones is the first error.
proof fn lemma_first_error_at(scan: Seq<ScanItem>, i: int)
    requires
        0 <= i < scan.len(),
        scan[i] is Err,
        forall|j: int| 0 <= j < i ==> scan[j] is Ok,
    ensures
        first_error_index(scan) == i,
        first_scan_error(scan) == Some(scan[i]->Err_0),
    decreases i,
{
    if i > 0 {
        let t = scan.drop_first();
        assert forall|j: int| 0 <= j < i - 1 implies t[j] is Ok by {
            assert(t[j] == scan[j + 1]);
        }
        lemma_first_error_at(t, i - 1);
    }
}

/// A good entry before the first error moves the first error one further.
proof fn lemma_first_error_index_after_ok(scan: Seq<ScanItem>, i: int)
    requires
        0 <= i < scan.len(),
        forall|j: int| 0 <= j <= i ==> scan[j] is Ok,
    ensures
        i + 1 <= first_error_index(scan),
    decreases i,
{
    let t = scan.drop_first();
    assert(scan[0] is Ok);
    lemma_first_error_index(t);
    if i > 0 {
        assert forall|j: int| 0 <= j <= i - 1 implies t[j] is Ok by {
            assert(t[j] == scan[j + 1]);
        }
        lemma_first_error_index_after_ok(t, i - 1);
    }
}

/// With every entry good, there is no error and the prefix is the scan.
proof fn lemma_no_error_index(scan: Seq<ScanItem>)
    requires
        forall|j: int| 0 <= j < scan.len() ==> scan[j] is Ok,
    ensures
        first_error_index(scan) == scan.len(),
        first_scan_error(scan) is None,
        scan.take(scan.len() as int) == scan,
    decreases scan.len(),
{
    assert(scan.take(scan.len() as int) =~= scan);
    if scan.len() > 0 {
        let t = scan.drop_first();
        assert forall|j: int| 0 <= j < t.len() implies t[j] is Ok by {
            assert(t[j] == scan[j + 1]);
        }
        lemma_no_error_index(t);
        assert(scan[0] is Ok);
    }
}

/// The values a scan yields before its first error, and that error.
#[derive(Debug)]
pub struct ScanResult {
    /// The values of the entries before the first error, in order.
    pub values: Vec<Vec<u8>>,
    /// The first error, if any.
    pub error: Option<StorageError>,
}

/// The values of a scan, in order.
pub open spec fn scan_values(scan: Seq<ScanItem>) -> Seq<Seq<u8>>
    decreases scan.len(),
{
    if scan.len() == 0 {
        Seq::empty()
    } else {
        let rest = scan_values(scan.drop_last());
        match scan.last() {
            Ok((_, v)) => rest.push(v@),
            Err(_) => rest,
        }
    }
}

/// Copies a byte string.
fn copy_bytes(v: &Vec<u8>) -> (r: Vec<u8>)
    ensures
        r@ == v@,
{
    let mut r: Vec<u8> = Vec::new();
    let mut i: usize = 0;
    while i < v.len()
        invariant
            i <= v@.len(),
            r@ == v@.subrange(0, i as int),
        decreases v@.len() - i,
    {
        r.push(v[i]);
        i = i + 1;
        proof {
            assert(r@ =~= v@.subrange(0, i as int));
        }
    }
    proof {
        assert(v@.subrange(0, v@.len() as int) =~= v@);
    }
    r
}

impl RocksDbStorage {
    /// Where the database lives.
    pub closed spec fn spec_path(&self) -> Seq<char> {
        self.path@
    }

    /// The options the database is opened with.
    pub closed spec fn spec_options(&self) -> DbOptions {
        self.options
    }

    /// Storage at `path`, opened creating the database if missing and with
    /// Snappy compression.
    pub fn new(path: &str) -> (r: Self)
        ensures
            r.spec_path() == path@,
            r.spec_options() == (DbOptions { create_if_missing: true, compression: Compression::Snappy }),
    {
        RocksDbStorage {
            path: path.to_owned(),
            options: DbOptions { create_if_missing: true, compression: Compression::Snappy },
        }
    }

    /// Where the database lives.
    pub fn path(&self) -> (r: &str)
        ensures
            r@ == self.spec_path(),
    {
        self.path.as_str()
    }

    /// The options the database is opened with.
    pub fn options(&self) -> (r: DbOptions)
        ensures
            r == self.spec_options(),
    {
        self.options
    }

    /// The key under which a pool is stored: the 20 big-endian bytes of its
    /// address.
    pub fn pool_key(pool_address: &Address) -> (r: Vec<u8>)
        ensures
            r@.len() == 20,
            be_value(r@) == pool_address.value(),
            address_from_be(r@) == *pool_address,
    {
        let r = pool_address.to_vec();
        proof {
            crate::primitives::lemma_address_from_be_value(*pool_address, r@);
        }
        r
    }

    /// The write that saves a pool: its key and its encoded metadata.
    pub fn save_pool(&self, metadata: &PoolMetadata, encoded: Vec<u8>) -> (r: (Vec<u8>, Vec<u8>))
        ensures
            r.0@.len() == 20,
            address_from_be(r.0@) == metadata.pool_address,
            r.1@ == encoded@,
    {
        (Self::pool_key(&metadata.pool_address), encoded)
    }

    /// The key to delete to remove a pool.
    pub fn delete_pool(&self, pool_address: &Address) -> (r: Vec<u8>)
        ensures
            r@.len() == 20,
            address_from_be(r@) == *pool_address,
    {
        Self::pool_key(pool_address)
    }

    /// The batch that saves several pools: one write per pool, in order,
    /// each the pool's key and its encoded metadata.
    pub fn save_batch(&self, pools: &Vec<PoolMetadata>, encoded: &Vec<Vec<u8>>) -> (r: Vec<
        (Vec<u8>, Vec<u8>),
    >)
        requires
            pools@.len() == encoded@.len(),
        ensures
            r@.len() == pools@.len(),
            forall|i: int|
                0 <= i < r@.len() ==> address_from_be((#[trigger] r@[i]).0@) == pools@[i].pool_address
                    && r@[i].0@.len() == 20 && r@[i].1@ == encoded@[i]@,
    {
        let mut batch: Vec<(Vec<u8>, Vec<u8>)> = Vec::new();
        let mut i: usize = 0;
        while i < pools.len()
            invariant
                pools@.len() == encoded@.len(),
                i <= pools@.len(),
                batch@.len() == i,
                forall|j: int|
                    0 <= j < i ==> address_from_be((#[trigger] batch@[j]).0@) == pools@[j].pool_address
                        && batch@[j].0@.len() == 20 && batch@[j].1@ == encoded@[j]@,
            decreases pools@.len() - i,
        {
            let key = Self::pool_key(&pools[i].pool_address);
            let value = copy_bytes(&encoded[i]);
            batch.push((key, value));
            i = i + 1;
        }
        batch
    }

    /// The stored values a scan of the database yields, in order, up to the
    /// first error it meets, and that error.
    pub fn all_pools(&self, scan: &Vec<ScanItem>) -> (r: ScanResult)
        ensures
            r.values@.map_values(|v: Vec<u8>| v@) == scan_values(
                scan@.take(first_error_index(scan@)),
            ),
            match first_scan_error(scan@) {
                Some(e) => r.error matches Some(StorageError::Database { reason }) && reason@ == e@,
                None => r.error is None,
            },
    {
        let mut values: Vec<Vec<u8>> = Vec::new();
        let mut i: usize = 0;
        proof {
            assert(scan@.subrange(0, scan@.len() as int) =~= scan@);
            assert(values@.map_values(|v: Vec<u8>| v@) =~= scan_values(scan@.take(0)));
            lemma_first_error_index(scan@);
        }
        while i < scan.len()
            invariant
                i <= scan@.len(),
                i <= first_error_index(scan@),
                first_error_index(scan@) <= scan@.len(),
                forall|j: int| 0 <= j < i ==> scan@[j] is Ok,
                first_scan_error(scan@) == first_scan_error(scan@.subrange(i as int, scan@.len() as int)),
                values@.map_values(|v: Vec<u8>| v@) == scan_values(scan@.take(i as int)),
            decreases scan@.len() - i,
        {
            let ghost tail = scan@.subrange(i as int, scan@.len() as int);
            match &scan[i] {
                Err(e) => {
                    proof {
                        lemma_first_error_at(scan@, i as int);
                    }
                    return ScanResult {
                        values,
                        error: Some(StorageError::Database { reason: e.clone() }),
                    };
                },
                Ok((_, v)) => {
                    let ghost before = values@;
                    values.push(copy_bytes(v));
                    proof {
                        let pre = scan@.take(i + 1);
                        assert(pre.drop_last() =~= scan@.take(i as int));
                        assert(values@.map_values(|v: Vec<u8>| v@) =~= before.map_values(
                            |v: Vec<u8>| v@,
                        ).push(v@));
                        lemma_first_error_index_after_ok(scan@, i as int);
                    }
                },
            }
            proof {
                assert(tail.drop_first() =~= scan@.subrange(i + 1, scan@.len() as int));
            }
            i = i + 1;
        }
        proof {
            lemma_no_error_index(scan@);
        }
        ScanResult { values, error: None }
    }

    /// The number of entries a scan of the database yields, or the first
    /// error it meets.
    pub fn count(&self, scan: &Vec<ScanItem>) -> (r: Result<usize, StorageError>)
        ensures
            match first_scan_error(scan@) {
                Some(e) => r matches Err(StorageError::Database { reason }) && reason@ == e@,
                None => r matches Ok(n) && n == scan@.len(),
            },
    {
        let mut i: usize = 0;
        proof {
            assert(scan@.subrange(0, scan@.len() as int) =~= scan@);
        }
        while i < scan.len()
            invariant
                i <= scan@.len(),
                first_scan_error(scan@) == first_scan_error(scan@.subrange(i as int, scan@.len() as int)),
            decreases scan@.len() - i,
        {
            let ghost tail = scan@.subrange(i as int, scan@.len() as int);
            match &scan[i] {
                Err(e) => {
                    return Err(StorageError::Database { reason: e.clone() });
                },
                Ok(_) => {},
            }
            proof {
                assert(tail.drop_first() =~= scan@.subrange(i + 1, scan@.len() as int));
            }
            i = i + 1;
        }
        proof {
            assert(scan@.subrange(scan@.len() as int, scan@.len() as int) =~= Seq::<ScanItem>::empty());
        }
        Ok(scan.len())
    }
}

/// Saving, reading and deleting agree on keys: a 20-byte key is determined
/// by the address it names, so the key a pool is saved under is the one its
/// address is read and deleted under.
pub proof fn lemma_key_determined_by_address(k1: Seq<u8>, k2: Seq<u8>)
    requires
        k1.len() == 20,
        k2.len() == 20,
        address_from_be(k1) == address_from_be(k2),
    ensures
        k1 == k2,
{
    crate::primitives::lemma_address_from_be_injective(k1, k2);
}

/// A scan has no error exactly when every entry is good; its error is the
/// error of an entry preceded only by good ones.
pub proof fn lemma_first_scan_error(scan: Seq<ScanItem>)
    ensures
        first_scan_error(scan) is None <==> (forall|j: int| 0 <= j < scan.len() ==> #[trigger] scan[j] is Ok),
        first_scan_error(scan) matches Some(e) ==> exists|i: int|
            0 <= i < scan.len() && #[trigger] scan[i] == Err::<(Vec<u8>, Vec<u8>), String>(e) && forall|j: int|
                0 <= j < i ==> #[trigger] scan[j] is Ok,
{
    lemma_first_error_index(scan);
    let i = first_error_index(scan);
    if i < scan.len() {
        lemma_first_error_at(scan, i);
        assert(scan[i] == Err::<(Vec<u8>, Vec<u8>), String>(scan[i]->Err_0));
    }
}

} // verus!
