//! The pool registry: every discovered pool by address, with indices by
//! protocol, by token pair and by creation block.
use vstd::prelude::*;
use dashmap::DashMap;
use crate::primitives::Address;
use crate::pool_metadata::{MetadataError, PoolMetadata, ProtocolType, metadata_error, valid_metadata};
use crate::selection::{
    blocks_in_range, block_is, lemma_blocks_in_range_contains, lemma_blocks_in_range_empty,
    lemma_blocks_in_range_sorted, lemma_blocks_in_range_split,
    lemma_select_contains, lemma_select_no_duplicates,
    lemma_select_protocol_partition, lemma_select_push, pair_is, protocol_is, select,
};

verus! {

#[verifier::external_type_specification]
#[verifier::external_body]
#[verifier::reject_recursive_types(K)]
#[verifier::reject_recursive_types(V)]
#[verifier::reject_recursive_types(S)]
pub struct ExDashMap<K, V, S>(DashMap<K, V, S>);

/// The main index: pool address to metadata.
pub type PoolTable = DashMap<Address, PoolMetadata>;

/// The entries that a pool table holds, as a map from pool address to
/// metadata.
pub uninterp spec fn pool_table(m: PoolTable) -> Map<Address, PoolMetadata>;

/// `DashMap::new`: an empty map.
#[verifier::external_body]
fn table_new() -> (r: PoolTable)
    ensures
        pool_table(r).dom() == Set::<Address>::empty(),
{
    DashMap::new()
}

/// `DashMap::contains_key`: whether the key has an entry.
#[verifier::external_body]
fn table_contains(m: &PoolTable, k: &Address) -> (r: bool)
    ensures
        r == pool_table(*m).contains_key(*k),
{
    m.contains_key(k)
}

/// `DashMap::get`, with the value copied out of the returned guard: the
/// value stored under the key, if any.
#[verifier::external_body]
fn table_get(m: &PoolTable, k: &Address) -> (r: Option<PoolMetadata>)
    ensures
        r == (if pool_table(*m).contains_key(*k) {
            Some(pool_table(*m)[*k])
        } else {
            None::<PoolMetadata>
        }),
{
    m.get(k).map(|entry| *entry.value())
}

/// `DashMap::insert`: afterwards the key maps to the value and every other
/// entry is unchanged.
#[verifier::external_body]
fn table_insert(m: &mut PoolTable, k: Address, v: PoolMetadata)
    ensures
        pool_table(*final(m)) == pool_table(*old(m)).insert(k, v),
{
    m.insert(k, v);
}

/// `DashMap::len`: the number of entries.
#[verifier::external_body]
fn table_len(m: &PoolTable) -> (r: usize)
    ensures
        r == pool_table(*m).len(),
{
    m.len()
}

/// `DashMap::is_empty`: whether there is no entry.
#[verifier::external_body]
fn table_is_empty(m: &PoolTable) -> (r: bool)
    ensures
        r == (pool_table(*m).len() == 0),
{
    m.is_empty()
}

/// `DashMap::iter`, each entry mapped to its key: every key exactly once,
/// in an order that the map does not fix.
#[verifier::external_body]
fn table_keys(m: &PoolTable) -> (r: Vec<Address>)
    ensures
        r@.no_duplicates(),
        r@.to_set() == pool_table(*m).dom(),
{
    m.iter().map(|entry| *entry.key()).collect()
}

struct ProtocolBucket {
    protocol: ProtocolType,
    pools: Vec<Address>,
}

struct PairBucket {
    token0: Address,
    token1: Address,
    pools: Vec<Address>,
}

struct BlockBucket {
    block: u64,
    pools: Vec<Address>,
}

spec fn protocol_index_wf(
    idx: Seq<ProtocolBucket>,
    order: Seq<Address>,
    table: Map<Address, PoolMetadata>,
) -> bool {
    &&& forall|i: int, j: int|
        0 <= i < j < idx.len() ==> (#[trigger] idx[i]).protocol != (#[trigger] idx[j]).protocol
    &&& forall|i: int|
        0 <= i < idx.len() ==> (#[trigger] idx[i]).pools@ == select(
            order,
            table,
            protocol_is(idx[i].protocol),
        )
    &&& forall|p: ProtocolType|
        (forall|i: int| 0 <= i < idx.len() ==> (#[trigger] idx[i]).protocol != p) ==> select(
            order,
            table,
            #[trigger] protocol_is(p),
        ) == Seq::<Address>::empty()
}

spec fn pair_index_wf(
    idx: Seq<PairBucket>,
    order: Seq<Address>,
    table: Map<Address, PoolMetadata>,
) -> bool {
    &&& forall|i: int, j: int|
        0 <= i < j < idx.len() ==> !((#[trigger] idx[i]).token0 == (#[trigger] idx[j]).token0
            && idx[i].token1 == idx[j].token1)
    &&& forall|i: int|
        0 <= i < idx.len() ==> (#[trigger] idx[i]).pools@ == select(
            order,
            table,
            pair_is(idx[i].token0, idx[i].token1),
        )
    &&& forall|t0: Address, t1: Address|
        (forall|i: int|
            0 <= i < idx.len() ==> !((#[trigger] idx[i]).token0 == t0 && idx[i].token1 == t1))
            ==> select(order, table, #[trigger] pair_is(t0, t1)) == Seq::<Address>::empty()
}

spec fn block_index_wf(
    idx: Seq<BlockBucket>,
    order: Seq<Address>,
    table: Map<Address, PoolMetadata>,
) -> bool {
    &&& forall|i: int, j: int|
        0 <= i < j < idx.len() ==> (#[trigger] idx[i]).block < (#[trigger] idx[j]).block
    &&& forall|i: int|
        0 <= i < idx.len() ==> (#[trigger] idx[i]).pools@ == select(
            order,
            table,
            block_is(idx[i].block as int),
        )
    &&& forall|b: int|
        (forall|i: int| 0 <= i < idx.len() ==> (#[trigger] idx[i]).block != b) ==> select(
            order,
            table,
            #[trigger] block_is(b),
        ) == Seq::<Address>::empty()
}

/// Copies a list of addresses.
fn copy_addresses(v: &Vec<Address>) -> (r: Vec<Address>)
    ensures
        r@ == v@,
{
    let mut r: Vec<Address> = Vec::new();
    let mut i: usize = 0;
    while i < v.len()
        invariant
            i <= v@.len(),
            r@ == v@.subrange(0, i as int),
        decreases v@.len() - i,
    {
        r.push(v[i]);
        i = i + 1;
        proof {
            assert(r@ =~= v@.subrange(0, i as int));
        }
    }
    proof {
        assert(v@.subrange(0, v@.len() as int) =~= v@);
    }
    r
}

/// Appends `a`, a pool of protocol `m.protocol_id`, to the protocol index.
fn add_to_protocol_index(
    idx: &mut Vec<ProtocolBucket>,
    a: Address,
    Ghost(order): Ghost<Seq<Address>>,
    Ghost(table): Ghost<Map<Address, PoolMetadata>>,
    Ghost(m): Ghost<PoolMetadata>,
    p: ProtocolType,
)
    requires
        protocol_index_wf(old(idx)@, order, table),
        !order.contains(a),
        m.protocol_id == p,
    ensures
        protocol_index_wf(final(idx)@, order.push(a), table.insert(a, m)),
{
    let ghost order2 = order.push(a);
    let ghost table2 = table.insert(a, m);
    let mut i: usize = 0;
    while i < idx.len()
        invariant
            i <= idx@.len(),
            forall|j: int| 0 <= j < i ==> (#[trigger] idx@[j]).protocol != p,
        ensures
            i <= idx@.len(),
            forall|j: int| 0 <= j < i ==> (#[trigger] idx@[j]).protocol != p,
            i < idx@.len() ==> idx@[i as int].protocol == p,
        decreases idx@.len() - i,
    {
        if idx[i].protocol == p {
            break;
        }
        i = i + 1;
    }
    let ghost old_idx = idx@;
    if i < idx.len() {
        idx[i].pools.push(a);
        proof {
            lemma_select_push(order, table, protocol_is(p), a, m);
            assert forall|k: int| 0 <= k < idx@.len() implies (#[trigger] idx@[k]).pools@
                == select(order2, table2, protocol_is(idx@[k].protocol)) by {
                lemma_select_push(order, table, protocol_is(idx@[k].protocol), a, m);
            }
            assert forall|q: ProtocolType|
                (forall|k: int| 0 <= k < idx@.len() ==> (#[trigger] idx@[k]).protocol != q)
                    implies select(order2, table2, #[trigger] protocol_is(q)) == Seq::<
                Address,
            >::empty() by {
                assert(idx@[i as int].protocol == p);
                assert(forall|k: int| 0 <= k < old_idx.len() ==> (#[trigger] old_idx[k]).protocol
                    == idx@[k].protocol);
                lemma_select_push(order, table, protocol_is(q), a, m);
            }
        }
    } else {
        let mut pools: Vec<Address> = Vec::new();
        pools.push(a);
        idx.push(ProtocolBucket { protocol: p, pools });
        proof {
            lemma_select_push(order, table, protocol_is(p), a, m);
            assert(select(order, table, protocol_is(p)) == Seq::<Address>::empty());
            assert(pools@ =~= Seq::<Address>::empty().push(a));
            assert forall|k: int| 0 <= k < idx@.len() implies (#[trigger] idx@[k]).pools@
                == select(order2, table2, protocol_is(idx@[k].protocol)) by {
                lemma_select_push(order, table, protocol_is(idx@[k].protocol), a, m);
            }
            assert forall|q: ProtocolType|
                (forall|k: int| 0 <= k < idx@.len() ==> (#[trigger] idx@[k]).protocol != q)
                    implies select(order2, table2, #[trigger] protocol_is(q)) == Seq::<
                Address,
            >::empty() by {
                assert(idx@[old_idx.len() as int].protocol == p);
                assert(forall|k: int| 0 <= k < old_idx.len() ==> (#[trigger] old_idx[k]).protocol
                    == idx@[k].protocol);
                lemma_select_push(order, table, protocol_is(q), a, m);
            }
        }
    }
}

/// Appends `a`, a pool of token pair `(m.token0, m.token1)`, to the pair
/// index.
fn add_to_pair_index(
    idx: &mut Vec<PairBucket>,
    a: Address,
    Ghost(order): Ghost<Seq<Address>>,
    Ghost(table): Ghost<Map<Address, PoolMetadata>>,
    Ghost(m): Ghost<PoolMetadata>,
    token0: Address,
    token1: Address,
)
    requires
        pair_index_wf(old(idx)@, order, table),
        !order.contains(a),
        m.token0 == token0,
        m.token1 == token1,
    ensures
        pair_index_wf(final(idx)@, order.push(a), table.insert(a, m)),
{
    let ghost order2 = order.push(a);
    let ghost table2 = table.insert(a, m);
    let mut i: usize = 0;
    while i < idx.len()
        invariant
            i <= idx@.len(),
            forall|j: int|
                0 <= j < i ==> !((#[trigger] idx@[j]).token0 == token0 && idx@[j].token1 == token1),
        ensures
            i <= idx@.len(),
            forall|j: int|
                0 <= j < i ==> !((#[trigger] idx@[j]).token0 == token0 && idx@[j].token1 == token1),
            i < idx@.len() ==> idx@[i as int].token0 == token0 && idx@[i as int].token1 == token1,
        decreases idx@.len() - i,
    {
        if idx[i].token0 == token0 && idx[i].token1 == token1 {
            break;
        }
        i = i + 1;
    }
    let ghost old_idx = idx@;
    if i < idx.len() {
        idx[i].pools.push(a);
        proof {
            assert forall|k: int| 0 <= k < idx@.len() implies (#[trigger] idx@[k]).pools@
                == select(order2, table2, pair_is(idx@[k].token0, idx@[k].token1)) by {
                lemma_select_push(order, table, pair_is(idx@[k].token0, idx@[k].token1), a, m);
            }
            assert forall|t0: Address, t1: Address|
                (forall|k: int|
                    0 <= k < idx@.len() ==> !((#[trigger] idx@[k]).token0 == t0 && idx@[k].token1
                        == t1)) implies select(order2, table2, #[trigger] pair_is(t0, t1))
                == Seq::<Address>::empty() by {
                assert(idx@[i as int].token0 == token0 && idx@[i as int].token1 == token1);
                assert(forall|k: int| 0 <= k < old_idx.len() ==> (#[trigger] old_idx[k]).token0
                    == idx@[k].token0 && old_idx[k].token1 == idx@[k].token1);
                lemma_select_push(order, table, pair_is(t0, t1), a, m);
            }
        }
    } else {
        let mut pools: Vec<Address> = Vec::new();
        pools.push(a);
        idx.push(PairBucket { token0, token1, pools });
        proof {
            lemma_select_push(order, table, pair_is(token0, token1), a, m);
            assert(select(order, table, pair_is(token0, token1)) == Seq::<Address>::empty());
            assert(pools@ =~= Seq::<Address>::empty().push(a));
            assert forall|k: int| 0 <= k < idx@.len() implies (#[trigger] idx@[k]).pools@
                == select(order2, table2, pair_is(idx@[k].token0, idx@[k].token1)) by {
                lemma_select_push(order, table, pair_is(idx@[k].token0, idx@[k].token1), a, m);
            }
            assert forall|t0: Address, t1: Address|
                (forall|k: int|
                    0 <= k < idx@.len() ==> !((#[trigger] idx@[k]).token0 == t0 && idx@[k].token1
                        == t1)) implies select(order2, table2, #[trigger] pair_is(t0, t1))
                == Seq::<Address>::empty() by {
                assert(idx@[old_idx.len() as int].token0 == token0);
                assert(idx@[old_idx.len() as int].token1 == token1);
                assert(forall|k: int| 0 <= k < old_idx.len() ==> (#[trigger] old_idx[k]).token0
                    == idx@[k].token0 && old_idx[k].token1 == idx@[k].token1);
                lemma_select_push(order, table, pair_is(t0, t1), a, m);
            }
        }
    }
}

/// Appends `a`, a pool created in block `m.created_block`, to the block
/// index, keeping the buckets sorted by block.
fn add_to_block_index(
    idx: &mut Vec<BlockBucket>,
    a: Address,
    Ghost(order): Ghost<Seq<Address>>,
    Ghost(table): Ghost<Map<Address, PoolMetadata>>,
    Ghost(m): Ghost<PoolMetadata>,
    block: u64,
)
    requires
        block_index_wf(old(idx)@, order, table),
        !order.contains(a),
        m.created_block == block,
    ensures
        block_index_wf(final(idx)@, order.push(a), table.insert(a, m)),
{
    let ghost order2 = order.push(a);
    let ghost table2 = table.insert(a, m);
    let mut i: usize = 0;
    while i < idx.len()
        invariant
            i <= idx@.len(),
            forall|j: int| 0 <= j < i ==> (#[trigger] idx@[j]).block < block,
        ensures
            i <= idx@.len(),
            forall|j: int| 0 <= j < i ==> (#[trigger] idx@[j]).block < block,
            i < idx@.len() ==> idx@[i as int].block >= block,
        decreases idx@.len() - i,
    {
        if idx[i].block >= block {
            break;
        }
        i = i + 1;
    }
    let ghost old_idx = idx@;
    if i < idx.len() && idx[i].block == block {
        idx[i].pools.push(a);
        proof {
            assert forall|k: int| 0 <= k < idx@.len() implies (#[trigger] idx@[k]).pools@
                == select(order2, table2, block_is(idx@[k].block as int)) by {
                lemma_select_push(order, table, block_is(idx@[k].block as int), a, m);
            }
            assert forall|b: int|
                (forall|k: int| 0 <= k < idx@.len() ==> (#[trigger] idx@[k]).block != b) implies select(
                order2,
                table2,
                #[trigger] block_is(b),
            ) == Seq::<Address>::empty() by {
                assert(idx@[i as int].block == block);
                assert(forall|k: int| 0 <= k < old_idx.len() ==> (#[trigger] old_idx[k]).block
                    == idx@[k].block);
                lemma_select_push(order, table, block_is(b), a, m);
            }
        }
    } else {
        let mut pools: Vec<Address> = Vec::new();
        pools.push(a);
        idx.insert(i, BlockBucket { block, pools });
        proof {
            lemma_select_push(order, table, block_is(block as int), a, m);
            assert forall|k: int| 0 <= k < old_idx.len() implies (#[trigger] old_idx[k]).block
                != block by {
                if k < i {
                } else {
                    assert(old_idx[i as int].block > block);
                    if k > i {
                        assert(old_idx[i as int].block < old_idx[k].block);
                    }
                }
            }
            assert(select(order, table, block_is(block as int)) == Seq::<Address>::empty());
            assert(pools@ =~= Seq::<Address>::empty().push(a));
            assert forall|k: int| 0 <= k < idx@.len() implies (#[trigger] idx@[k]).pools@
                == select(order2, table2, block_is(idx@[k].block as int)) by {
                if k < i {
                    assert(idx@[k] == old_idx[k]);
                } else if k > i {
                    assert(idx@[k] == old_idx[k - 1]);
                }
                lemma_select_push(order, table, block_is(idx@[k].block as int), a, m);
            }
            assert forall|j: int, k: int| 0 <= j < k < idx@.len() implies (#[trigger] idx@[j]).block
                < (#[trigger] idx@[k]).block by {
                if j < i {
                    assert(idx@[j] == old_idx[j]);
                }
                if j > i {
                    assert(idx@[j] == old_idx[j - 1]);
                }
                if k < i {
                    assert(idx@[k] == old_idx[k]);
                }
                if k > i {
                    assert(idx@[k] == old_idx[k - 1]);
                    if k - 1 > i {
                        assert(old_idx[i as int].block < old_idx[k - 1].block);
                    }
                }
                if j < i && k > i {
                    assert(old_idx[j].block < block);
                }
            }
            assert forall|b: int|
                (forall|k: int| 0 <= k < idx@.len() ==> (#[trigger] idx@[k]).block != b) implies select(
                order2,
                table2,
                #[trigger] block_is(b),
            ) == Seq::<Address>::empty() by {
                assert(idx@[i as int].block == block);
                assert forall|k: int| 0 <= k < old_idx.len() implies (#[trigger] old_idx[k]).block
                    != b by {
                    if k < i {
                        assert(idx@[k] == old_idx[k]);
                    } else {
                        assert(idx@[k + 1] == old_idx[k]);
                    }
                }
                lemma_select_push(order, table, block_is(b), a, m);
            }
        }
    }
}

/// What registering `m` answers when the registered pools are `pools`: the
/// first failing validity check, else whether `m`'s address was new.
pub open spec fn insert_outcome(pools: Map<Address, PoolMetadata>, m: PoolMetadata) -> Result<
    bool,
    MetadataError,
> {
    match metadata_error(m) {
        Some(e) => Err(e),
        None => Ok(!pools.contains_key(m.pool_address)),
    }
}

/// The registered pools after registering `m`: `m` is added under its
/// address exactly when it is valid and its address was not registered.
pub open spec fn pools_after_insert(pools: Map<Address, PoolMetadata>, m: PoolMetadata) -> Map<
    Address,
    PoolMetadata,
> {
    if insert_outcome(pools, m) == Ok::<bool, MetadataError>(true) {
        pools.insert(m.pool_address, m)
    } else {
        pools
    }
}

/// The registration order after registering `m`.
pub open spec fn order_after_insert(
    pools: Map<Address, PoolMetadata>,
    order: Seq<Address>,
    m: PoolMetadata,
) -> Seq<Address> {
    if insert_outcome(pools, m) == Ok::<bool, MetadataError>(true) {
        order.push(m.pool_address)
    } else {
        order
    }
}

/// The registry of discovered pools.
///
/// Every pool is held by address, and three indices list the pools of each
/// protocol, of each token pair and of each creation block, each in the order
/// in which the pools were registered.
pub struct PoolRegistry {
    pools: PoolTable,
    by_protocol: Vec<ProtocolBucket>,
    by_token_pair: Vec<PairBucket>,
    by_block: Vec<BlockBucket>,
    order: Ghost<Seq<Address>>,
}

/// Counts of registered pools.
#[derive(Clone, Copy, Debug)]
pub struct RegistryStats {
    /// All pools.
    pub total_pools: usize,
    /// UniswapV2 pools.
    pub uniswap_v2_pools: usize,
    /// UniswapV3 pools.
    pub uniswap_v3_pools: usize,
}

impl PoolRegistry {
    /// The registered pools, by address.
    pub closed spec fn pool_map(&self) -> Map<Address, PoolMetadata> {
        pool_table(self.pools)
    }

    /// The registered pool addresses in the order of registration.
    pub closed spec fn insertion_order(&self) -> Seq<Address> {
        self.order@
    }

    /// The registered pools of protocol `p`, in registration order.
    pub open spec fn spec_pools_by_protocol(&self, p: ProtocolType) -> Seq<Address> {
        select(self.insertion_order(), self.pool_map(), protocol_is(p))
    }

    /// The registered pools of token pair `(token0, token1)`, in registration
    /// order.
    pub open spec fn spec_pools_by_token_pair(&self, token0: Address, token1: Address) -> Seq<
        Address,
    > {
        select(self.insertion_order(), self.pool_map(), pair_is(token0, token1))
    }

    /// The registered pools created in block `b`, in registration order.
    pub open spec fn spec_pools_by_block(&self, b: int) -> Seq<Address> {
        select(self.insertion_order(), self.pool_map(), block_is(b))
    }

    /// The registered pools created in blocks `from` to `to`: by block in
    /// increasing order, and within a block in registration order.
    pub open spec fn spec_pools_by_block_range(&self, from: int, to: int) -> Seq<Address> {
        blocks_in_range(self.insertion_order(), self.pool_map(), from, to)
    }

    /// The registry's invariant: the registration order lists each
    /// registered pool once, every pool is valid and held under its own
    /// address, and each index agrees with the pools.
    pub closed spec fn wf(&self) -> bool {
        let t = pool_table(self.pools);
        let o = self.order@;
        &&& t.dom().finite()
        &&& o.no_duplicates()
        &&& forall|a: Address| #[trigger] t.contains_key(a) <==> o.contains(a)
        &&& forall|a: Address|
            #[trigger] t.contains_key(a) ==> t[a].pool_address == a && valid_metadata(t[a])
        &&& protocol_index_wf(self.by_protocol@, o, t)
        &&& pair_index_wf(self.by_token_pair@, o, t)
        &&& block_index_wf(self.by_block@, o, t)
    }

    /// An empty registry.
    pub fn new() -> (r: Self)
        ensures
            r.wf(),
            r.pool_map() == Map::<Address, PoolMetadata>::empty(),
            r.insertion_order() == Seq::<Address>::empty(),
    {
        let r = PoolRegistry {
            pools: table_new(),
            by_protocol: Vec::new(),
            by_token_pair: Vec::new(),
            by_block: Vec::new(),
            order: Ghost(Seq::empty()),
        };
        proof {
            assert(pool_table(r.pools) =~= Map::<Address, PoolMetadata>::empty());
        }
        r
    }

    /// Registers a pool.
    ///
    /// Invalid metadata is refused with the first failing check; a pool
    /// whose address is already registered is left as it is and `false`
    /// returned; otherwise the pool is registered in every index and `true`
    /// returned.
    pub fn insert(&mut self, metadata: PoolMetadata) -> (r: Result<bool, MetadataError>)
        requires
            old(self).wf(),
        ensures
            final(self).wf(),
            r == insert_outcome(old(self).pool_map(), metadata),
            final(self).pool_map() == pools_after_insert(old(self).pool_map(), metadata),
            final(self).insertion_order() == order_after_insert(
                old(self).pool_map(),
                old(self).insertion_order(),
                metadata,
            ),
            r is Ok ==> metadata.pool_address.value() != 0 && metadata.token0.value() != 0
                && metadata.token1.value() != 0 && metadata.factory_address.value() != 0
                && metadata.token0.value() < metadata.token1.value(),
    {
        match metadata.validate() {
            Err(e) => {
                return Err(e);
            },
            Ok(()) => {},
        }
        let a = metadata.pool_address;
        if table_contains(&self.pools, &a) {
            return Ok(false);
        }
        let ghost order = self.order@;
        let ghost table = pool_table(self.pools);
        table_insert(&mut self.pools, a, metadata);
        self.order = Ghost(order.push(a));
        add_to_protocol_index(
            &mut self.by_protocol,
            a,
            Ghost(order),
            Ghost(table),
            Ghost(metadata),
            metadata.protocol_id,
        );
        add_to_pair_index(
            &mut self.by_token_pair,
            a,
            Ghost(order),
            Ghost(table),
            Ghost(metadata),
            metadata.token0,
            metadata.token1,
        );
        add_to_block_index(
            &mut self.by_block,
            a,
            Ghost(order),
            Ghost(table),
            Ghost(metadata),
            metadata.created_block,
        );
        proof {
            let t2 = pool_table(self.pools);
            let o2 = self.order@;
            assert(t2.dom().finite());
            assert(o2.no_duplicates()) by {
                assert forall|i: int, j: int|
                    0 <= i < o2.len() && 0 <= j < o2.len() && i != j implies o2[i] != o2[j] by {
                    if i < order.len() && j < order.len() {
                        assert(o2[i] == order[i] && o2[j] == order[j]);
                    } else if i == order.len() {
                        assert(order.contains(o2[j]));
                    } else {
                        assert(order.contains(o2[i]));
                    }
                }
            }
            assert forall|x: Address| #[trigger] t2.contains_key(x) <==> o2.contains(x) by {
                if o2.contains(x) && x != a {
                    let k = choose|k: int| 0 <= k < o2.len() && o2[k] == x;
                    assert(k < order.len());
                    assert(order[k] == x);
                }
                if order.contains(x) {
                    let k = choose|k: int| 0 <= k < order.len() && order[k] == x;
                    assert(o2[k] == x);
                }
                if x == a {
                    assert(o2[order.len() as int] == a);
                }
            }
        }
        Ok(true)
    }

    /// Whether a pool is registered at the address.
    pub fn contains(&self, pool_address: &Address) -> (r: bool)
        requires
            self.wf(),
        ensures
            r == self.pool_map().contains_key(*pool_address),
    {
        table_contains(&self.pools, pool_address)
    }

    /// The metadata of the pool registered at the address, if any.
    pub fn get(&self, pool_address: &Address) -> (r: Option<PoolMetadata>)
        requires
            self.wf(),
        ensures
            r == (if self.pool_map().contains_key(*pool_address) {
                Some(self.pool_map()[*pool_address])
            } else {
                None::<PoolMetadata>
            }),
    {
        table_get(&self.pools, pool_address)
    }

    /// Every registered pool address once, in no fixed order.
    pub fn all_pools(&self) -> (r: Vec<Address>)
        requires
            self.wf(),
        ensures
            r@.no_duplicates(),
            r@.to_set() == self.pool_map().dom(),
    {
        table_keys(&self.pools)
    }

    /// The registered pools of a protocol, in registration order.
    pub fn pools_by_protocol(&self, protocol: ProtocolType) -> (r: Vec<Address>)
        requires
            self.wf(),
        ensures
            r@ == self.spec_pools_by_protocol(protocol),
    {
        let mut i: usize = 0;
        while i < self.by_protocol.len()
            invariant
                self.wf(),
                i <= self.by_protocol@.len(),
                forall|j: int| 0 <= j < i ==> (#[trigger] self.by_protocol@[j]).protocol != protocol,
            decreases self.by_protocol@.len() - i,
        {
            if self.by_protocol[i].protocol == protocol {
                return copy_addresses(&self.by_protocol[i].pools);
            }
            i = i + 1;
        }
        Vec::new()
    }

    /// The registered pools of a token pair, in registration order.
    pub fn pools_by_token_pair(&self, token0: Address, token1: Address) -> (r: Vec<Address>)
        requires
            self.wf(),
        ensures
            r@ == self.spec_pools_by_token_pair(token0, token1),
    {
        let mut i: usize = 0;
        while i < self.by_token_pair.len()
            invariant
                self.wf(),
                i <= self.by_token_pair@.len(),
                forall|j: int|
                    0 <= j < i ==> !((#[trigger] self.by_token_pair@[j]).token0 == token0
                        && self.by_token_pair@[j].token1 == token1),
            decreases self.by_token_pair@.len() - i,
        {
            if self.by_token_pair[i].token0 == token0 && self.by_token_pair[i].token1 == token1 {
                return copy_addresses(&self.by_token_pair[i].pools);
            }
            i = i + 1;
        }
        Vec::new()
    }

    /// The registered pools created in a block, in registration order.
    pub fn pools_by_block(&self, block_number: u64) -> (r: Vec<Address>)
        requires
            self.wf(),
        ensures
            r@ == self.spec_pools_by_block(block_number as int),
    {
        let mut i: usize = 0;
        while i < self.by_block.len()
            invariant
                self.wf(),
                i <= self.by_block@.len(),
                forall|j: int| 0 <= j < i ==> (#[trigger] self.by_block@[j]).block != block_number,
            decreases self.by_block@.len() - i,
        {
            if self.by_block[i].block == block_number {
                return copy_addresses(&self.by_block[i].pools);
            }
            i = i + 1;
        }
        Vec::new()
    }

    /// The registered pools created in blocks `from` to `to`, both included:
    /// by block in increasing order, and within a block in registration
    /// order.
    pub fn pools_by_block_range(&self, from: u64, to: u64) -> (r: Vec<Address>)
        requires
            self.wf(),
        ensures
            r@ == self.spec_pools_by_block_range(from as int, to as int),
    {
        let ghost o = self.insertion_order();
        let ghost t = self.pool_map();
        let ghost idx = self.by_block@;
        let mut r: Vec<Address> = Vec::new();
        let mut i: usize = 0;
        proof {
            self.lemma_block_cut_start(from as int, to as int);
        }
        while i < self.by_block.len()
            invariant
                self.wf(),
                o == self.insertion_order(),
                t == self.pool_map(),
                idx == self.by_block@,
                i <= idx.len(),
                r@ == blocks_in_range(o, t, from as int, self.block_cut(i as int, from as int, to as int)),
            decreases idx.len() - i,
        {
            let k = self.by_block[i].block;
            let ghost before = r@;
            if from <= k && k <= to {
                let mut j: usize = 0;
                let ghost pools = idx[i as int].pools@;
                while j < self.by_block[i].pools.len()
                    invariant
                        self.wf(),
                        idx == self.by_block@,
                        i < idx.len(),
                        pools == idx[i as int].pools@,
                        j <= pools.len(),
                        r@ == before + pools.subrange(0, j as int),
                    decreases pools.len() - j,
                {
                    r.push(self.by_block[i].pools[j]);
                    j = j + 1;
                    proof {
                        assert(r@ =~= before + pools.subrange(0, j as int));
                    }
                }
                proof {
                    assert(pools.subrange(0, pools.len() as int) =~= pools);
                    lemma_blocks_in_range_split(o, t, from as int, k as int - 1, k as int);
                    assert(blocks_in_range(o, t, k as int + 1, k as int) =~= Seq::<Address>::empty());
                    assert(blocks_in_range(o, t, k as int, k as int) =~= pools + Seq::<Address>::empty());
                }
            }
            proof {
                self.lemma_block_cut_step(i as int, from as int, to as int);
            }
            i = i + 1;
        }
        r
    }

    /// The block up to which the range query has collected after looking at
    /// the first `i` block buckets.
    closed spec fn block_cut(&self, i: int, from: int, to: int) -> int {
        if i < self.by_block@.len() {
            let next = self.by_block@[i].block as int - 1;
            if next < to {
                if next < from - 1 {
                    from - 1
                } else {
                    next
                }
            } else {
                to
            }
        } else if to < from - 1 {
            from - 1
        } else {
            to
        }
    }

    /// A block range that holds no bucket's block holds no pool.
    proof fn lemma_range_without_buckets(&self, lo: int, hi: int)
        requires
            self.wf(),
            forall|k: int|
                0 <= k < self.by_block@.len() ==> !(lo <= (#[trigger] self.by_block@[k]).block
                    <= hi),
        ensures
            blocks_in_range(self.insertion_order(), self.pool_map(), lo, hi) == Seq::<
                Address,
            >::empty(),
    {
        let idx = self.by_block@;
        assert forall|b: int| lo <= b <= hi implies select(
            self.insertion_order(),
            self.pool_map(),
            #[trigger] block_is(b),
        ) == Seq::<Address>::empty() by {
            assert forall|k: int| 0 <= k < idx.len() implies (#[trigger] idx[k]).block != b by {}
        }
        lemma_blocks_in_range_empty(self.insertion_order(), self.pool_map(), lo, hi);
    }

    /// Before the first bucket the range query has collected nothing.
    proof fn lemma_block_cut_start(&self, from: int, to: int)
        requires
            self.wf(),
        ensures
            blocks_in_range(self.insertion_order(), self.pool_map(), from, self.block_cut(0, from, to))
                == Seq::<Address>::empty(),
    {
        let idx = self.by_block@;
        let c = self.block_cut(0, from, to);
        assert forall|k: int| 0 <= k < idx.len() implies !(from <= (#[trigger] idx[k]).block <= c) by {
            if k > 0 {
                assert(idx[0].block < idx[k].block);
            }
        }
        self.lemma_range_without_buckets(from, c);
    }

    /// The range result before bucket `i` extends to the one before bucket
    /// `i + 1`.
    proof fn lemma_block_cut_step(&self, i: int, from: int, to: int)
        requires
            self.wf(),
            0 <= i < self.by_block@.len(),
        ensures
            ({
                let o = self.insertion_order();
                let t = self.pool_map();
                let k = self.by_block@[i].block as int;
                let before = blocks_in_range(o, t, from, self.block_cut(i, from, to));
                let after = blocks_in_range(o, t, from, self.block_cut(i + 1, from, to));
                &&& (from <= k <= to) ==> after == blocks_in_range(o, t, from, k)
                &&& !(from <= k <= to) ==> after == before
            }),
    {
        let o = self.insertion_order();
        let t = self.pool_map();
        let idx = self.by_block@;
        let n = idx.len();
        let k = idx[i].block as int;
        let c0 = self.block_cut(i, from, to);
        let c1 = self.block_cut(i + 1, from, to);
        if from <= k <= to {
            assert forall|j: int| 0 <= j < n implies !(k + 1 <= (#[trigger] idx[j]).block <= c1) by {
                if j < i {
                    assert(idx[j].block < idx[i].block);
                }
                if j > i + 1 {
                    assert(idx[i + 1].block < idx[j].block);
                }
            }
            self.lemma_range_without_buckets(k + 1, c1);
            lemma_blocks_in_range_split(o, t, from, k, c1);
            assert(blocks_in_range(o, t, from, k) + Seq::<Address>::empty() =~= blocks_in_range(
                o,
                t,
                from,
                k,
            ));
        } else if k < from {
            assert forall|j: int| 0 <= j < n implies !(from <= (#[trigger] idx[j]).block <= c1) by {
                if j < i {
                    assert(idx[j].block < idx[i].block);
                }
                if j > i + 1 {
                    assert(idx[i + 1].block < idx[j].block);
                }
            }
            self.lemma_range_without_buckets(from, c1);
            assert(c0 < from);
        } else {
            if i + 1 < n {
                assert(idx[i].block < idx[i + 1].block);
            }
        }
    }

    /// The number of registered pools.
    pub fn len(&self) -> (r: usize)
        requires
            self.wf(),
        ensures
            r == self.pool_map().len(),
    {
        table_len(&self.pools)
    }

    /// Whether no pool is registered.
    pub fn is_empty(&self) -> (r: bool)
        requires
            self.wf(),
        ensures
            r == (self.pool_map().len() == 0),
    {
        table_is_empty(&self.pools)
    }

    /// The number of registered pools, in all and of each protocol.
    pub fn stats(&self) -> (r: RegistryStats)
        requires
            self.wf(),
        ensures
            r.total_pools == self.pool_map().len(),
            r.uniswap_v2_pools == self.spec_pools_by_protocol(ProtocolType::UniswapV2).len(),
            r.uniswap_v3_pools == self.spec_pools_by_protocol(ProtocolType::UniswapV3).len(),
    {
        let total = self.len();
        let v2 = self.protocol_count(ProtocolType::UniswapV2);
        let v3 = self.protocol_count(ProtocolType::UniswapV3);
        RegistryStats { total_pools: total, uniswap_v2_pools: v2, uniswap_v3_pools: v3 }
    }

    /// The number of registered pools of a protocol.
    fn protocol_count(&self, protocol: ProtocolType) -> (r: usize)
        requires
            self.wf(),
        ensures
            r == self.spec_pools_by_protocol(protocol).len(),
    {
        let mut i: usize = 0;
        while i < self.by_protocol.len()
            invariant
                self.wf(),
                i <= self.by_protocol@.len(),
                forall|j: int| 0 <= j < i ==> (#[trigger] self.by_protocol@[j]).protocol != protocol,
            decreases self.by_protocol@.len() - i,
        {
            if self.by_protocol[i].protocol == protocol {
                return self.by_protocol[i].pools.len();
            }
            i = i + 1;
        }
        0
    }
}

impl Default for PoolRegistry {
    /// An empty registry.
    fn default() -> (r: Self)
        ensures
            r.wf(),
            r.pool_map() == Map::<Address, PoolMetadata>::empty(),
            r.insertion_order() == Seq::<Address>::empty(),
    {
        Self::new()
    }
}

/// Read after write: once a valid pool with a new address is registered, the
/// registry holds exactly that metadata under its address.
pub proof fn lemma_insert_then_get(pools: Map<Address, PoolMetadata>, m: PoolMetadata)
    requires
        valid_metadata(m),
        !pools.contains_key(m.pool_address),
    ensures
        insert_outcome(pools, m) == Ok::<bool, MetadataError>(true),
        pools_after_insert(pools, m).contains_key(m.pool_address),
        pools_after_insert(pools, m)[m.pool_address] == m,
{
}

/// Registering the same valid pool twice: the second registration answers
/// `false` and changes nothing.
pub proof fn lemma_insert_twice(pools: Map<Address, PoolMetadata>, m: PoolMetadata)
    requires
        valid_metadata(m),
    ensures
        insert_outcome(pools_after_insert(pools, m), m) == Ok::<bool, MetadataError>(false),
        pools_after_insert(pools_after_insert(pools, m), m) == pools_after_insert(pools, m),
{
}

/// Registration never replaces a registered pool: the first metadata
/// registered under an address stays.
pub proof fn lemma_insert_keeps_registered(
    pools: Map<Address, PoolMetadata>,
    m: PoolMetadata,
    a: Address,
)
    requires
        pools.contains_key(a),
    ensures
        pools_after_insert(pools, m).contains_key(a),
        pools_after_insert(pools, m)[a] == pools[a],
{
}

/// Invalid metadata is refused and leaves the registry as it was.
pub proof fn lemma_insert_invalid(pools: Map<Address, PoolMetadata>, m: PoolMetadata)
    requires
        !valid_metadata(m),
    ensures
        insert_outcome(pools, m) == Err::<bool, MetadataError>(metadata_error(m)->0),
        pools_after_insert(pools, m) == pools,
{
}

/// A pool is registered only if it is valid: its addresses are non-zero and
/// its tokens are in order, whatever its protocol.
pub proof fn lemma_insert_registers_only_valid(pools: Map<Address, PoolMetadata>, m: PoolMetadata)
    ensures
        insert_outcome(pools, m) is Ok ==> m.pool_address.value() != 0 && m.token0.value() != 0
            && m.token1.value() != 0 && m.factory_address.value() != 0 && m.token0.value()
            < m.token1.value(),
        !(m.token0.value() < m.token1.value()) ==> insert_outcome(pools, m) is Err
            && pools_after_insert(pools, m) == pools,
{
}

impl PoolRegistry {
    /// Every registered pool is valid and registered under its own address,
    /// and the registration order lists each registered pool exactly once.
    pub proof fn lemma_registered_pools(&self)
        requires
            self.wf(),
        ensures
            forall|a: Address|
                #[trigger] self.pool_map().contains_key(a) ==> self.pool_map()[a].pool_address == a
                    && valid_metadata(self.pool_map()[a]),
            self.insertion_order().no_duplicates(),
            self.insertion_order().to_set() == self.pool_map().dom(),
            self.pool_map().len() == self.insertion_order().len(),
    {
        let o = self.insertion_order();
        let t = self.pool_map();
        assert(o.to_set() =~= t.dom());
        o.unique_seq_to_set();
    }

    /// The protocol index lists each pool of the protocol once, and only
    /// those.
    pub proof fn lemma_pools_by_protocol_members(&self, p: ProtocolType, a: Address)
        requires
            self.wf(),
        ensures
            self.spec_pools_by_protocol(p).contains(a) <==> (self.pool_map().contains_key(a)
                && self.pool_map()[a].protocol_id == p),
            self.spec_pools_by_protocol(p).no_duplicates(),
    {
        lemma_select_contains(self.insertion_order(), self.pool_map(), protocol_is(p), a);
        lemma_select_no_duplicates(self.insertion_order(), self.pool_map(), protocol_is(p));
    }

    /// The token-pair index lists each pool of the pair once, and only those.
    pub proof fn lemma_pools_by_token_pair_members(
        &self,
        token0: Address,
        token1: Address,
        a: Address,
    )
        requires
            self.wf(),
        ensures
            self.spec_pools_by_token_pair(token0, token1).contains(a) <==> (
            self.pool_map().contains_key(a) && self.pool_map()[a].token0 == token0
                && self.pool_map()[a].token1 == token1),
            self.spec_pools_by_token_pair(token0, token1).no_duplicates(),
    {
        lemma_select_contains(self.insertion_order(), self.pool_map(), pair_is(token0, token1), a);
        lemma_select_no_duplicates(self.insertion_order(), self.pool_map(), pair_is(token0, token1));
    }

    /// The block index lists each pool created in the block once, and only
    /// those.
    pub proof fn lemma_pools_by_block_members(&self, b: int, a: Address)
        requires
            self.wf(),
        ensures
            self.spec_pools_by_block(b).contains(a) <==> (self.pool_map().contains_key(a)
                && self.pool_map()[a].created_block == b),
            self.spec_pools_by_block(b).no_duplicates(),
    {
        lemma_select_contains(self.insertion_order(), self.pool_map(), block_is(b), a);
        lemma_select_no_duplicates(self.insertion_order(), self.pool_map(), block_is(b));
    }

    /// A range of one block is that block's pools.
    pub proof fn lemma_single_block_range(&self, b: int)
        ensures
            self.spec_pools_by_block_range(b, b) == self.spec_pools_by_block(b),
    {
        let o = self.insertion_order();
        let t = self.pool_map();
        assert(blocks_in_range(o, t, b + 1, b) == Seq::<Address>::empty());
        assert(select(o, t, block_is(b)) + Seq::<Address>::empty() =~= select(o, t, block_is(b)));
    }

    /// A block range holds each pool created in one of its blocks exactly
    /// once, and only those, ordered by creation block.
    pub proof fn lemma_pools_by_block_range_members(&self, from: int, to: int, a: Address)
        requires
            self.wf(),
        ensures
            self.spec_pools_by_block_range(from, to).contains(a) <==> (
            self.pool_map().contains_key(a) && from <= self.pool_map()[a].created_block <= to),
            self.spec_pools_by_block_range(from, to).no_duplicates(),
            forall|i: int, j: int|
                0 <= i < j < self.spec_pools_by_block_range(from, to).len()
                    ==> self.pool_map()[self.spec_pools_by_block_range(from, to)[i]].created_block
                    <= self.pool_map()[self.spec_pools_by_block_range(
                    from,
                    to,
                )[j]].created_block,
    {
        lemma_blocks_in_range_contains(self.insertion_order(), self.pool_map(), from, to, a);
        lemma_blocks_in_range_sorted(self.insertion_order(), self.pool_map(), from, to);
    }

    /// The counts of the two protocols add up to the number of pools.
    pub proof fn lemma_protocol_counts_partition(&self)
        requires
            self.wf(),
        ensures
            self.spec_pools_by_protocol(ProtocolType::UniswapV2).len()
                + self.spec_pools_by_protocol(ProtocolType::UniswapV3).len()
                == self.pool_map().len(),
    {
        self.lemma_registered_pools();
        lemma_select_protocol_partition(self.insertion_order(), self.pool_map());
    }
}

} // verus!
