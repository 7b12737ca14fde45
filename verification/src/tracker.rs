//! The pool state tracker: which storage slot holds a pool's state, and what
//! the value read there means.
use vstd::prelude::*;
use crate::primitives::{Address, U256, be_value};
use crate::pool_metadata::ProtocolType;
use crate::raw_state::{
    RawPoolState, StateError, UniswapV2State, lemma_slot_fields_in_range, slot_reserve0, slot_reserve1,
    slot_timestamp, state_error, v2_state_from_slot,
};

verus! {

/// Storage slot of a UniswapV2 pair that packs `reserve0`, `reserve1` and
/// `blockTimestampLast`.
pub const UNISWAP_V2_RESERVES: u8 = 8;

/// Why the state of a pool could not be tracked.
#[derive(Debug)]
pub enum TrackerError {
    /// The slot name is not known for UniswapV2.
    UnknownSlotName { slot_name: String },
    /// Slot calculation for UniswapV3 is not implemented.
    UniswapV3SlotNotImplemented,
    /// No state is available at the requested block.
    StateUnavailable { block_number: u64, reason: String },
    /// Reading the pool's storage failed.
    StorageRead { pool_address: Address, reason: String },
    /// The state read does not validate.
    InvalidState(StateError),
}

/// The 32-byte storage key of slot number `n`, big-endian.
pub open spec fn slot_key(n: u8) -> Seq<u8> {
    Seq::new(32, |i: int| if i == 31 { n } else { 0u8 })
}

/// What reading the reserves slot answers: nothing for a missing or zero
/// slot, else the unpacked state if it validates.
pub open spec fn v2_read_outcome(
    pool_address: Address,
    block_number: u64,
    storage_value: Option<[u8; 32]>,
) -> Result<Option<RawPoolState>, TrackerError> {
    match storage_value {
        None => Ok(None),
        Some(w) => if be_value(w@) == 0 {
            Ok(None)
        } else {
            let s = v2_state_from_slot(pool_address, block_number, w);
            match state_error(s) {
                Some(e) => Err(TrackerError::InvalidState(e)),
                None => Ok(Some(RawPoolState::UniswapV2(s))),
            }
        },
    }
}

/// What tracking a pool answers, given the outcome of reading its reserves
/// slot at the block (or of opening the state at the block).
pub open spec fn track_outcome(
    pool_address: Address,
    block_number: u64,
    protocol: ProtocolType,
    slot_read: Result<Option<[u8; 32]>, TrackerError>,
) -> Result<Option<RawPoolState>, TrackerError> {
    match slot_read {
        Err(e) => Err(e),
        Ok(v) => match protocol {
            ProtocolType::UniswapV2 => v2_read_outcome(pool_address, block_number, v),
            ProtocolType::UniswapV3 => Ok(None),
        },
    }
}

/// The state that tracking a pool yields, if any.
pub open spec fn tracked_state(
    pool_address: Address,
    block_number: u64,
    protocol: ProtocolType,
    slot_read: Result<Option<[u8; 32]>, TrackerError>,
) -> Option<RawPoolState> {
    match track_outcome(pool_address, block_number, protocol, slot_read) {
        Ok(Some(s)) => Some(s),
        _ => None,
    }
}

/// The states yielded by the first `n` pools, in order; pools with no state
/// or an error are skipped.
pub open spec fn tracked_states(
    pools: Seq<(Address, ProtocolType)>,
    block_number: u64,
    reads: Seq<Result<Option<[u8; 32]>, TrackerError>>,
    n: nat,
) -> Seq<RawPoolState>
    decreases n,
{
    if n == 0 {
        Seq::empty()
    } else {
        let rest = tracked_states(pools, block_number, reads, (n - 1) as nat);
        match tracked_state(pools[n - 1].0, block_number, pools[n - 1].1, reads[n - 1]) {
            Some(s) => rest.push(s),
            None => rest,
        }
    }
}

/// Reads raw pool state through a state provider.
pub struct PoolStateTracker<P> {
    provider_factory: P,
}

impl<P> PoolStateTracker<P> {
    /// The provider the tracker reads through.
    pub closed spec fn spec_provider_factory(&self) -> P {
        self.provider_factory
    }

    /// A tracker reading through `provider_factory`.
    pub fn new(provider_factory: P) -> (r: Self)
        ensures
            r.spec_provider_factory() == provider_factory,
    {
        Self { provider_factory }
    }

    /// The provider the tracker reads through.
    pub fn provider_factory(&self) -> (r: &P)
        ensures
            *r == self.spec_provider_factory(),
    {
        &self.provider_factory
    }

    /// The storage key that holds a named part of a pool's state. For
    /// UniswapV2, `"reserves"` is slot 8; other names, and every UniswapV3
    /// slot, are refused.
    pub fn get_storage_slot(
        &self,
        _pool_address: Address,
        protocol: ProtocolType,
        slot_name: &str,
    ) -> (r: Result<[u8; 32], TrackerError>)
        ensures
            protocol == ProtocolType::UniswapV2 && slot_name@ == "reserves"@ ==> (r matches Ok(key)
                && key@ == slot_key(UNISWAP_V2_RESERVES)),
            protocol == ProtocolType::UniswapV2 && slot_name@ != "reserves"@ ==> (r matches Err(
                TrackerError::UnknownSlotName { slot_name: name },
            ) && name@ == slot_name@),
            protocol == ProtocolType::UniswapV3 ==> r matches Err(
                TrackerError::UniswapV3SlotNotImplemented,
            ),
    {
        match protocol {
            ProtocolType::UniswapV2 => {
                let name = slot_name.to_owned();
                let reserves = "reserves".to_owned();
                if name == reserves {
                    let mut key = [0u8; 32];
                    key[31] = UNISWAP_V2_RESERVES;
                    proof {
                        assert(key@ =~= slot_key(UNISWAP_V2_RESERVES));
                    }
                    Ok(key)
                } else {
                    Err(TrackerError::UnknownSlotName { slot_name: name })
                }
            },
            ProtocolType::UniswapV3 => Err(TrackerError::UniswapV3SlotNotImplemented),
        }
    }

    /// Interprets the value read from a UniswapV2 pool's reserves slot: no
    /// value or a zero value means the pool does not exist or is not
    /// initialised; otherwise the slot is unpacked and validated.
    pub fn read_uniswap_v2_state(
        &self,
        pool_address: Address,
        block_number: u64,
        storage_value: Option<[u8; 32]>,
    ) -> (r: Result<Option<RawPoolState>, TrackerError>)
        ensures
            r == v2_read_outcome(pool_address, block_number, storage_value),
            storage_value is None ==> r matches Ok(None),
            (storage_value matches Some(w) && be_value(w@) == 0) ==> r matches Ok(None),
            (storage_value matches Some(w) && be_value(w@) != 0 && pool_address.value() != 0)
                ==> {
                &&& r matches Ok(Some(RawPoolState::UniswapV2(v)))
                &&& v.pool_address == pool_address
                &&& v.block_number == block_number
                &&& v.reserve0.value() == slot_reserve0(be_value(storage_value->0@))
                &&& v.reserve1.value() == slot_reserve1(be_value(storage_value->0@))
                &&& v.block_timestamp_last == slot_timestamp(be_value(storage_value->0@))
            },
            (storage_value matches Some(w) && be_value(w@) != 0 && pool_address.value() == 0)
                ==> r matches Err(TrackerError::InvalidState(StateError::ZeroPoolAddress)),
    {
        proof {
            lemma_track_outcome(pool_address, block_number, ProtocolType::UniswapV2, Ok(storage_value));
            if let Some(w) = storage_value {
                lemma_slot_fields_in_range(w@);
            }
        }
        match storage_value {
            None => Ok(None),
            Some(value) => {
                if U256::from_be_bytes(value).is_zero() {
                    return Ok(None);
                }
                let state = UniswapV2State::from_slot8(pool_address, block_number, value);
                match state.validate() {
                    Err(e) => Err(TrackerError::InvalidState(e)),
                    Ok(()) => Ok(Some(RawPoolState::UniswapV2(state))),
                }
            },
        }
    }

    /// The state of one pool at a block, given the outcome of reading its
    /// reserves slot there (an error when the state at the block could not
    /// be opened or read). UniswapV3 state is not read yet.
    pub fn track_pool_state(
        &self,
        pool_address: Address,
        block_number: u64,
        protocol: ProtocolType,
        slot_read: Result<Option<[u8; 32]>, TrackerError>,
    ) -> (r: Result<Option<RawPoolState>, TrackerError>)
        ensures
            r == track_outcome(pool_address, block_number, protocol, slot_read),
            slot_read matches Err(e) ==> r == Err::<Option<RawPoolState>, TrackerError>(e),
            r matches Ok(None) ==> {
                &&& slot_read matches Ok(v)
                &&& (protocol == ProtocolType::UniswapV3 || v is None || be_value(v->0@) == 0)
            },
            r matches Ok(Some(st)) ==> {
                &&& protocol == ProtocolType::UniswapV2
                &&& slot_read matches Ok(Some(w))
                &&& st matches RawPoolState::UniswapV2(v)
                &&& v.pool_address == pool_address
                &&& v.block_number == block_number
                &&& v.reserve0.value() == slot_reserve0(be_value(w@))
                &&& v.reserve1.value() == slot_reserve1(be_value(w@))
                &&& v.block_timestamp_last == slot_timestamp(be_value(w@))
            },
            ({
                &&& protocol == ProtocolType::UniswapV2
                &&& pool_address.value() != 0
                &&& slot_read matches Ok(Some(w))
                &&& be_value(w@) != 0
            }) ==> r is Ok && r->Ok_0 is Some,
    {
        proof {
            lemma_track_outcome(pool_address, block_number, protocol, slot_read);
        }
        match slot_read {
            Err(e) => Err(e),
            Ok(value) => match protocol {
                ProtocolType::UniswapV2 => self.read_uniswap_v2_state(
                    pool_address,
                    block_number,
                    value,
                ),
                ProtocolType::UniswapV3 => Ok(None),
            },
        }
    }

    /// The state one pool yields, if any.
    fn tracked_state_of(
        &self,
        pool_address: Address,
        block_number: u64,
        protocol: ProtocolType,
        slot_read: &Result<Option<[u8; 32]>, TrackerError>,
    ) -> (r: Option<RawPoolState>)
        ensures
            r == tracked_state(pool_address, block_number, protocol, *slot_read),
    {
        match slot_read {
            Err(_) => None,
            Ok(value) => match protocol {
                ProtocolType::UniswapV2 => match self.read_uniswap_v2_state(
                    pool_address,
                    block_number,
                    *value,
                ) {
                    Ok(Some(s)) => Some(s),
                    _ => None,
                },
                ProtocolType::UniswapV3 => None,
            },
        }
    }

    /// The states of several pools at one block, given the outcome of
    /// reading each pool's reserves slot: the pools that yield a state, in
    /// order; pools without state or whose read failed are skipped.
    pub fn track_multiple_states(
        &self,
        pool_addresses: &Vec<(Address, ProtocolType)>,
        block_number: u64,
        slot_reads: &Vec<Result<Option<[u8; 32]>, TrackerError>>,
    ) -> (r: Result<Vec<RawPoolState>, TrackerError>)
        requires
            pool_addresses@.len() == slot_reads@.len(),
        ensures
            r matches Ok(states) && states@ == tracked_states(
                pool_addresses@,
                block_number,
                slot_reads@,
                pool_addresses@.len(),
            ),
            r matches Ok(states) ==> states@.len() <= pool_addresses@.len(),
            r matches Ok(states) ==> forall|i: int|
                0 <= i < pool_addresses@.len() ==> (#[trigger] track_outcome(
                    pool_addresses@[i].0,
                    block_number,
                    pool_addresses@[i].1,
                    slot_reads@[i],
                ) matches Ok(Some(st)) ==> states@.contains(st)),
            r matches Ok(states) ==> forall|k: int|
                #![trigger states@[k]]
                0 <= k < states@.len() ==> exists|i: int|
                    0 <= i < pool_addresses@.len() && #[trigger] track_outcome(
                        pool_addresses@[i].0,
                        block_number,
                        pool_addresses@[i].1,
                        slot_reads@[i],
                    ) == Ok::<Option<RawPoolState>, TrackerError>(Some(states@[k])),
            pool_addresses@.len() == 1 ==> (r matches Ok(states) && states@ == (match track_outcome(
                pool_addresses@[0].0,
                block_number,
                pool_addresses@[0].1,
                slot_reads@[0],
            ) {
                Ok(Some(st)) => seq![st],
                _ => Seq::<RawPoolState>::empty(),
            })),
    {
        let mut states: Vec<RawPoolState> = Vec::new();
        let mut i: usize = 0;
        while i < pool_addresses.len()
            invariant
                pool_addresses@.len() == slot_reads@.len(),
                i <= pool_addresses@.len(),
                states@ == tracked_states(pool_addresses@, block_number, slot_reads@, i as nat),
            decreases pool_addresses@.len() - i,
        {
            let (pool_address, protocol) = pool_addresses[i];
            match self.tracked_state_of(pool_address, block_number, protocol, &slot_reads[i]) {
                Some(s) => states.push(s),
                None => {},
            }
            i = i + 1;
        }
        proof {
            lemma_tracked_states_members(
                pool_addresses@,
                block_number,
                slot_reads@,
                pool_addresses@.len(),
            );
            if pool_addresses@.len() == 1 {
                assert(pool_addresses@ =~= seq![pool_addresses@[0]]);
                assert(slot_reads@ =~= seq![slot_reads@[0]]);
                lemma_tracked_states_single(pool_addresses@[0], block_number, slot_reads@[0]);
            }
        }
        Ok(states)
    }
}

/// A failed read is reported as that error whatever the protocol; no state
/// (`Ok(None)`) comes only from a missing or zero slot or a UniswapV3 pool;
/// a state is the UniswapV2 state unpacked from the slot read, for the pool
/// and block asked about; and a non-zero slot of a pool with a non-zero
/// address always yields that state.
pub proof fn lemma_track_outcome(
    pool_address: Address,
    block_number: u64,
    protocol: ProtocolType,
    slot_read: Result<Option<[u8; 32]>, TrackerError>,
)
    ensures
        slot_read matches Err(e) ==> track_outcome(pool_address, block_number, protocol, slot_read)
            == Err::<Option<RawPoolState>, TrackerError>(e),
        track_outcome(pool_address, block_number, protocol, slot_read) matches Ok(None) ==> {
            &&& slot_read matches Ok(v)
            &&& (protocol == ProtocolType::UniswapV3 || v is None || be_value(v->0@) == 0)
        },
        track_outcome(pool_address, block_number, protocol, slot_read) matches Ok(Some(st)) ==> {
            &&& protocol == ProtocolType::UniswapV2
            &&& slot_read matches Ok(Some(w))
            &&& st matches RawPoolState::UniswapV2(v)
            &&& v.pool_address == pool_address
            &&& v.block_number == block_number
            &&& v.reserve0.value() == slot_reserve0(be_value(w@))
            &&& v.reserve1.value() == slot_reserve1(be_value(w@))
            &&& v.block_timestamp_last == slot_timestamp(be_value(w@))
            &&& v.raw_slot8 == w
        },
        ({
            &&& protocol == ProtocolType::UniswapV2
            &&& pool_address.value() != 0
            &&& slot_read matches Ok(Some(w))
            &&& be_value(w@) != 0
        }) ==> track_outcome(pool_address, block_number, protocol, slot_read)
            == Ok::<Option<RawPoolState>, TrackerError>(
            Some(
                RawPoolState::UniswapV2(
                    v2_state_from_slot(pool_address, block_number, slot_read->Ok_0->Some_0),
                ),
            ),
        ),
{
    if let Ok(Some(w)) = slot_read {
        lemma_slot_fields_in_range(w@);
    }
}

/// The batch result for a single pool is that pool's state when it yields
/// one, and nothing otherwise.
pub proof fn lemma_tracked_states_single(
    pool: (Address, ProtocolType),
    block_number: u64,
    read: Result<Option<[u8; 32]>, TrackerError>,
)
    ensures
        tracked_states(seq![pool], block_number, seq![read], 1) == (match track_outcome(
            pool.0,
            block_number,
            pool.1,
            read,
        ) {
            Ok(Some(s)) => seq![s],
            _ => Seq::<RawPoolState>::empty(),
        }),
{
    assert(seq![pool][0] == pool);
    assert(seq![read][0] == read);
    assert(tracked_states(seq![pool], block_number, seq![read], 0) == Seq::<RawPoolState>::empty());
    assert(Seq::<RawPoolState>::empty().push(
        tracked_state(pool.0, block_number, pool.1, read)->0,
    ) =~= seq![tracked_state(pool.0, block_number, pool.1, read)->0]);
}

/// A batch splits at any pool: its result is the result for the pools
/// before the split followed by the result for the pools from there on.
pub proof fn lemma_tracked_states_split(
    pools: Seq<(Address, ProtocolType)>,
    block_number: u64,
    reads: Seq<Result<Option<[u8; 32]>, TrackerError>>,
    k: nat,
    n: nat,
)
    requires
        pools.len() == reads.len(),
        k <= n <= pools.len(),
    ensures
        tracked_states(pools, block_number, reads, n) == tracked_states(
            pools,
            block_number,
            reads,
            k,
        ) + tracked_states(pools.skip(k as int), block_number, reads.skip(k as int), (n - k) as nat),
    decreases n,
{
    if n == k {
        assert(tracked_states(pools.skip(k as int), block_number, reads.skip(k as int), 0)
            == Seq::<RawPoolState>::empty());
        assert(tracked_states(pools, block_number, reads, k) + Seq::<RawPoolState>::empty()
            =~= tracked_states(pools, block_number, reads, k));
    } else {
        lemma_tracked_states_split(pools, block_number, reads, k, (n - 1) as nat);
        let ps = pools.skip(k as int);
        let rs = reads.skip(k as int);
        assert(ps[(n - k - 1) as int] == pools[n - 1]);
        assert(rs[(n - k - 1) as int] == reads[n - 1]);
        let a = tracked_states(pools, block_number, reads, k);
        let b = tracked_states(ps, block_number, rs, (n - k - 1) as nat);
        match tracked_state(pools[n - 1].0, block_number, pools[n - 1].1, reads[n - 1]) {
            Some(st) => {
                assert((a + b).push(st) =~= a + b.push(st));
            },
            None => {},
        }
    }
}

/// Every state a pool yields is in the batch result, and every state in the
/// batch result is one that some pool of the batch yields; the result has
/// at most one state per pool.
pub proof fn lemma_tracked_states_members(
    pools: Seq<(Address, ProtocolType)>,
    block_number: u64,
    reads: Seq<Result<Option<[u8; 32]>, TrackerError>>,
    n: nat,
)
    requires
        pools.len() == reads.len(),
        n <= pools.len(),
    ensures
        tracked_states(pools, block_number, reads, n).len() <= n,
        forall|i: int|
            0 <= i < n ==> (#[trigger] track_outcome(pools[i].0, block_number, pools[i].1, reads[i]) matches Ok(
                Some(st),
            ) ==> tracked_states(pools, block_number, reads, n).contains(st)),
        forall|k: int|
            #![trigger tracked_states(pools, block_number, reads, n)[k]]
            0 <= k < tracked_states(pools, block_number, reads, n).len() ==> exists|i: int|
                0 <= i < n && #[trigger] track_outcome(pools[i].0, block_number, pools[i].1, reads[i])
                    == Ok::<Option<RawPoolState>, TrackerError>(
                    Some(tracked_states(pools, block_number, reads, n)[k]),
                ),
    decreases n,
{
    if n > 0 {
        let m = (n - 1) as nat;
        lemma_tracked_states_members(pools, block_number, reads, m);
        let rest = tracked_states(pools, block_number, reads, m);
        let all = tracked_states(pools, block_number, reads, n);
        let last = m as int;
        let o = track_outcome(pools[last].0, block_number, pools[last].1, reads[last]);
        assert forall|k: int| 0 <= k < rest.len() implies all[k] == rest[k] by {}
        assert forall|i: int|
            0 <= i < n && (#[trigger] track_outcome(pools[i].0, block_number, pools[i].1, reads[i]) matches Ok(
                Some(st),
            )) implies all.contains(
            track_outcome(pools[i].0, block_number, pools[i].1, reads[i])->Ok_0->Some_0,
        ) by {
            let st = track_outcome(pools[i].0, block_number, pools[i].1, reads[i])->Ok_0->Some_0;
            if i < last {
                assert(rest.contains(st));
                let k = choose|k: int| 0 <= k < rest.len() && rest[k] == st;
                assert(all[k] == st);
            } else {
                assert(all[rest.len() as int] == st);
            }
        }
        assert forall|k: int| #![trigger all[k]] 0 <= k < all.len() implies exists|i: int|
            0 <= i < n && #[trigger] track_outcome(pools[i].0, block_number, pools[i].1, reads[i])
                == Ok::<Option<RawPoolState>, TrackerError>(Some(all[k])) by {
            if k < rest.len() {
                let i = choose|i: int|
                    0 <= i < m && #[trigger] track_outcome(
                        pools[i].0,
                        block_number,
                        pools[i].1,
                        reads[i],
                    ) == Ok::<Option<RawPoolState>, TrackerError>(Some(rest[k]));
                assert(all[k] == rest[k]);
                assert(track_outcome(pools[i].0, block_number, pools[i].1, reads[i])
                    == Ok::<Option<RawPoolState>, TrackerError>(Some(all[k])));
            } else {
                assert(track_outcome(pools[last].0, block_number, pools[last].1, reads[last])
                    == Ok::<Option<RawPoolState>, TrackerError>(Some(all[k])));
            }
        }
        assert(all.contains(o->Ok_0->Some_0) || !(o matches Ok(Some(_))));
    }
}

/// A byte string of zeros denotes zero.
proof fn lemma_zeros_value(s: Seq<u8>)
    requires
        forall|i: int| 0 <= i < s.len() ==> s[i] == 0,
    ensures
        be_value(s) == 0,
    decreases s.len(),
{
    if s.len() > 0 {
        lemma_zeros_value(s.drop_last());
    }
}

/// The storage key of slot `n` is the 32-byte big-endian encoding of `n`.
pub proof fn lemma_slot_key_value(n: u8)
    ensures
        slot_key(n).len() == 32,
        be_value(slot_key(n)) == n,
{
    let k = slot_key(n);
    assert(k.drop_last() =~= Seq::new(31, |i: int| 0u8));
    lemma_zeros_value(k.drop_last());
}

} // verus!
