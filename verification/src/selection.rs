//! Selections of registered pools: the pools, in registration order, whose
//! metadata satisfies a predicate, and the facts the registry's indices rest on.
use vstd::prelude::*;
use crate::primitives::Address;
use crate::pool_metadata::{PoolMetadata, ProtocolType};

verus! {

/// The addresses of `order`, in order, whose metadata in `table` satisfies
/// `pred`.
pub open spec fn select(
    order: Seq<Address>,
    table: Map<Address, PoolMetadata>,
    pred: spec_fn(PoolMetadata) -> bool,
) -> Seq<Address>
    decreases order.len(),
{
    if order.len() == 0 {
        Seq::empty()
    } else {
        let rest = select(order.drop_last(), table, pred);
        if pred(table[order.last()]) {
            rest.push(order.last())
        } else {
            rest
        }
    }
}

/// Pools of protocol `p`.
pub open spec fn protocol_is(p: ProtocolType) -> spec_fn(PoolMetadata) -> bool {
    |m: PoolMetadata| m.protocol_id == p
}

/// Pools whose token pair is `(token0, token1)`, in that order.
pub open spec fn pair_is(token0: Address, token1: Address) -> spec_fn(PoolMetadata) -> bool {
    |m: PoolMetadata| m.token0 == token0 && m.token1 == token1
}

/// Pools created in block `b`.
pub open spec fn block_is(b: int) -> spec_fn(PoolMetadata) -> bool {
    |m: PoolMetadata| m.created_block == b
}

/// For each block number from `from` to `to` in increasing order, the pools
/// created in that block, in registration order.
pub open spec fn blocks_in_range(
    order: Seq<Address>,
    table: Map<Address, PoolMetadata>,
    from: int,
    to: int,
) -> Seq<Address>
    decreases to - from + 1,
{
    if from > to {
        Seq::empty()
    } else {
        select(order, table, block_is(from)) + blocks_in_range(order, table, from + 1, to)
    }
}

/// A selection only depends on the metadata of the pools in `order`.
pub proof fn lemma_select_frame(
    order: Seq<Address>,
    t1: Map<Address, PoolMetadata>,
    t2: Map<Address, PoolMetadata>,
    pred: spec_fn(PoolMetadata) -> bool,
)
    requires
        forall|i: int| 0 <= i < order.len() ==> t1[order[i]] == t2[order[i]],
    ensures
        select(order, t1, pred) == select(order, t2, pred),
    decreases order.len(),
{
    if order.len() > 0 {
        let o = order.drop_last();
        assert forall|i: int| 0 <= i < o.len() implies t1[o[i]] == t2[o[i]] by {
            assert(o[i] == order[i]);
        }
        lemma_select_frame(o, t1, t2, pred);
        assert(t1[order.last()] == t2[order[order.len() - 1]]);
    }
}

/// Registering a new pool `a` with metadata `m` appends `a` to exactly the
/// selections whose predicate `m` satisfies.
pub proof fn lemma_select_push(
    order: Seq<Address>,
    table: Map<Address, PoolMetadata>,
    pred: spec_fn(PoolMetadata) -> bool,
    a: Address,
    m: PoolMetadata,
)
    requires
        !order.contains(a),
    ensures
        select(order.push(a), table.insert(a, m), pred) == (if pred(m) {
            select(order, table, pred).push(a)
        } else {
            select(order, table, pred)
        }),
{
    let o2 = order.push(a);
    let t2 = table.insert(a, m);
    assert(o2.drop_last() =~= order);
    assert forall|i: int| 0 <= i < order.len() implies t2[order[i]] == table[order[i]] by {
        assert(order.contains(order[i]));
    }
    lemma_select_frame(order, t2, table, pred);
}

/// A selection holds exactly the pools of `order` whose metadata satisfies
/// the predicate.
pub proof fn lemma_select_contains(
    order: Seq<Address>,
    table: Map<Address, PoolMetadata>,
    pred: spec_fn(PoolMetadata) -> bool,
    x: Address,
)
    ensures
        select(order, table, pred).contains(x) <==> (order.contains(x) && pred(table[x])),
    decreases order.len(),
{
    if order.len() > 0 {
        let o = order.drop_last();
        lemma_select_contains(o, table, pred, x);
        let rest = select(o, table, pred);
        if pred(table[order.last()]) {
            assert(rest.push(order.last()).contains(x) <==> (rest.contains(x) || x == order.last()))
                by {
                if rest.push(order.last()).contains(x) {
                    let k = choose|k: int|
                        0 <= k < rest.len() + 1 && rest.push(order.last())[k] == x;
                    if k < rest.len() {
                        assert(rest[k] == x);
                    }
                }
                if rest.contains(x) {
                    let k = choose|k: int| 0 <= k < rest.len() && rest[k] == x;
                    assert(rest.push(order.last())[k] == x);
                }
                if x == order.last() {
                    assert(rest.push(order.last())[rest.len() as int] == x);
                }
            }
        }
        assert(order.contains(x) <==> (o.contains(x) || x == order.last())) by {
            if order.contains(x) {
                let k = choose|k: int| 0 <= k < order.len() && order[k] == x;
                if k < o.len() {
                    assert(o[k] == x);
                }
            }
            if o.contains(x) {
                let k = choose|k: int| 0 <= k < o.len() && o[k] == x;
                assert(order[k] == x);
            }
            if x == order.last() {
                assert(order[order.len() - 1] == x);
            }
        }
    }
}

/// A selection from a sequence without repetitions has none either.
pub proof fn lemma_select_no_duplicates(
    order: Seq<Address>,
    table: Map<Address, PoolMetadata>,
    pred: spec_fn(PoolMetadata) -> bool,
)
    requires
        order.no_duplicates(),
    ensures
        select(order, table, pred).no_duplicates(),
    decreases order.len(),
{
    if order.len() > 0 {
        let o = order.drop_last();
        assert(o.no_duplicates()) by {
            assert forall|i: int, j: int|
                0 <= i < o.len() && 0 <= j < o.len() && i != j implies o[i] != o[j] by {
                assert(o[i] == order[i] && o[j] == order[j]);
            }
        }
        lemma_select_no_duplicates(o, table, pred);
        let rest = select(o, table, pred);
        if pred(table[order.last()]) {
            lemma_select_contains(o, table, pred, order.last());
            assert(!o.contains(order.last())) by {
                if o.contains(order.last()) {
                    let k = choose|k: int| 0 <= k < o.len() && o[k] == order.last();
                    assert(order[k] == order[order.len() - 1]);
                }
            }
            let s = rest.push(order.last());
            assert forall|i: int, j: int|
                0 <= i < s.len() && 0 <= j < s.len() && i != j implies s[i] != s[j] by {
                if i == rest.len() {
                    assert(rest.contains(s[j]));
                } else if j == rest.len() {
                    assert(rest.contains(s[i]));
                }
            }
        }
    }
}

/// Every pool is of exactly one protocol, so the two protocol selections
/// together are as long as `order`.
pub proof fn lemma_select_protocol_partition(
    order: Seq<Address>,
    table: Map<Address, PoolMetadata>,
)
    ensures
        select(order, table, protocol_is(ProtocolType::UniswapV2)).len() + select(
            order,
            table,
            protocol_is(ProtocolType::UniswapV3),
        ).len() == order.len(),
    decreases order.len(),
{
    if order.len() > 0 {
        lemma_select_protocol_partition(order.drop_last(), table);
    }
}

/// A block range splits at any block inside it.
pub proof fn lemma_blocks_in_range_split(
    order: Seq<Address>,
    table: Map<Address, PoolMetadata>,
    from: int,
    mid: int,
    to: int,
)
    requires
        from - 1 <= mid <= to,
    ensures
        blocks_in_range(order, table, from, to) == blocks_in_range(order, table, from, mid)
            + blocks_in_range(order, table, mid + 1, to),
    decreases mid - from + 1,
{
    if mid < from {
        assert(blocks_in_range(order, table, from, mid) =~= Seq::<Address>::empty());
        assert(mid + 1 == from);
        assert(Seq::<Address>::empty() + blocks_in_range(order, table, from, to) =~= blocks_in_range(
            order,
            table,
            from,
            to,
        ));
    } else {
        lemma_blocks_in_range_split(order, table, from + 1, mid, to);
        let head = select(order, table, block_is(from));
        assert(head + (blocks_in_range(order, table, from + 1, mid) + blocks_in_range(
            order,
            table,
            mid + 1,
            to,
        )) =~= (head + blocks_in_range(order, table, from + 1, mid)) + blocks_in_range(
            order,
            table,
            mid + 1,
            to,
        ));
    }
}

/// A block range in which no pool was created is empty.
pub proof fn lemma_blocks_in_range_empty(
    order: Seq<Address>,
    table: Map<Address, PoolMetadata>,
    from: int,
    to: int,
)
    requires
        forall|b: int|
            from <= b <= to ==> select(order, table, #[trigger] block_is(b)) == Seq::<
                Address,
            >::empty(),
    ensures
        blocks_in_range(order, table, from, to) == Seq::<Address>::empty(),
    decreases to - from + 1,
{
    if from <= to {
        lemma_blocks_in_range_empty(order, table, from + 1, to);
        assert(select(order, table, block_is(from)) == Seq::<Address>::empty());
        assert(Seq::<Address>::empty() + Seq::<Address>::empty() =~= Seq::<Address>::empty());
    }
}

/// A block range holds exactly the pools of `order` created in one of its
/// blocks.
pub proof fn lemma_blocks_in_range_contains(
    order: Seq<Address>,
    table: Map<Address, PoolMetadata>,
    from: int,
    to: int,
    x: Address,
)
    ensures
        blocks_in_range(order, table, from, to).contains(x) <==> (order.contains(x) && from
            <= table[x].created_block <= to),
    decreases to - from + 1,
{
    if from <= to {
        lemma_blocks_in_range_contains(order, table, from + 1, to, x);
        lemma_select_contains(order, table, block_is(from), x);
        let head = select(order, table, block_is(from));
        let rest = blocks_in_range(order, table, from + 1, to);
        let all = head + rest;
        if all.contains(x) {
            let k = choose|k: int| 0 <= k < all.len() && all[k] == x;
            if k < head.len() {
                assert(head[k] == x);
            } else {
                assert(rest[k - head.len()] == x);
            }
        }
        if head.contains(x) {
            let k = choose|k: int| 0 <= k < head.len() && head[k] == x;
            assert(all[k] == x);
        }
        if rest.contains(x) {
            let k = choose|k: int| 0 <= k < rest.len() && rest[k] == x;
            assert(all[k + head.len()] == x);
        }
    }
}

/// A block range lists its pools by block in increasing order, each pool
/// once when `order` has no repetitions.
pub proof fn lemma_blocks_in_range_sorted(
    order: Seq<Address>,
    table: Map<Address, PoolMetadata>,
    from: int,
    to: int,
)
    ensures
        forall|i: int, j: int|
            0 <= i < j < blocks_in_range(order, table, from, to).len() ==> table[blocks_in_range(
                order,
                table,
                from,
                to,
            )[i]].created_block <= table[blocks_in_range(order, table, from, to)[j]].created_block,
        order.no_duplicates() ==> blocks_in_range(order, table, from, to).no_duplicates(),
    decreases to - from + 1,
{
    if from <= to {
        lemma_blocks_in_range_sorted(order, table, from + 1, to);
        let head = select(order, table, block_is(from));
        let rest = blocks_in_range(order, table, from + 1, to);
        let all = head + rest;
        assert(all == blocks_in_range(order, table, from, to));
        assert forall|k: int| 0 <= k < head.len() implies table[head[k]].created_block == from by {
            lemma_select_contains(order, table, block_is(from), head[k]);
        }
        assert forall|k: int| 0 <= k < rest.len() implies table[rest[k]].created_block > from by {
            lemma_blocks_in_range_contains(order, table, from + 1, to, rest[k]);
        }
        assert forall|i: int, j: int| 0 <= i < j < all.len() implies table[all[i]].created_block
            <= table[all[j]].created_block by {
            if j < head.len() {
                assert(all[i] == head[i] && all[j] == head[j]);
            } else if i < head.len() {
                assert(all[i] == head[i] && all[j] == rest[j - head.len()]);
            } else {
                assert(all[i] == rest[i - head.len()] && all[j] == rest[j - head.len()]);
            }
        }
        if order.no_duplicates() {
            lemma_select_no_duplicates(order, table, block_is(from));
            assert forall|i: int, j: int|
                0 <= i < all.len() && 0 <= j < all.len() && i != j implies all[i] != all[j] by {
                if i < head.len() && j < head.len() {
                    assert(all[i] == head[i] && all[j] == head[j]);
                } else if i >= head.len() && j >= head.len() {
                    assert(all[i] == rest[i - head.len()] && all[j] == rest[j - head.len()]);
                } else if i < head.len() {
                    assert(all[i] == head[i] && all[j] == rest[j - head.len()]);
                } else {
                    assert(all[j] == head[j] && all[i] == rest[i - head.len()]);
                }
            }
        }
    }
}

} // verus!
