//! Raw pool state as read from contract storage, and the layout of the
//! UniswapV2 reserves slot.
use vstd::prelude::*;
use vstd::arithmetic::div_mod::{lemma_fundamental_div_mod, lemma_fundamental_div_mod_converse};
use crate::primitives::{Address, U256, be_value, two_112};
use crate::pool_metadata::ProtocolType;

verus! {

/// `2^224`, where the timestamp starts in the reserves slot.
pub open spec fn two_224() -> nat {
    0x1_0000_0000_0000_0000_0000_0000_0000_0000_0000_0000_0000_0000_0000_0000nat
}

/// Bits `[0, 112)` of a slot value: `reserve0`.
pub open spec fn slot_reserve0(v: nat) -> nat {
    v % two_112()
}

/// Bits `[112, 224)` of a slot value: `reserve1`.
pub open spec fn slot_reserve1(v: nat) -> nat {
    (v / two_112()) % two_112()
}

/// Bits `[224, 256)` of a slot value: `blockTimestampLast`.
pub open spec fn slot_timestamp(v: nat) -> nat {
    v / two_224()
}

/// The UniswapV2 state that slot 8 holding `slot` gives for a pool at a
/// block.
pub open spec fn v2_state_from_slot(pool_address: Address, block_number: u64, slot: [u8; 32]) -> UniswapV2State {
    let v = be_value(slot@);
    UniswapV2State {
        pool_address,
        block_number,
        reserve0: U256 { hi: 0, lo: slot_reserve0(v) as u128 },
        reserve1: U256 { hi: 0, lo: slot_reserve1(v) as u128 },
        block_timestamp_last: slot_timestamp(v) as u32,
        raw_slot8: slot,
    }
}

/// Pool state read directly from storage.
#[derive(Clone, Copy, PartialEq, Eq, Debug)]
pub enum RawPoolState {
    /// State of a UniswapV2 pool.
    UniswapV2(UniswapV2State),
    /// State of a UniswapV3 pool (not read yet).
    UniswapV3(UniswapV3State),
}

/// State of a UniswapV2 pool, unpacked from storage slot 8:
/// `reserve0` in bits `[0, 112)`, `reserve1` in bits `[112, 224)` and
/// `blockTimestampLast` in bits `[224, 256)`.
#[derive(Clone, Copy, PartialEq, Eq, Debug)]
pub struct UniswapV2State {
    /// Pool address.
    pub pool_address: Address,
    /// Block at which the state was read.
    pub block_number: u64,
    /// Reserve of token0 (112 bits).
    pub reserve0: U256,
    /// Reserve of token1 (112 bits).
    pub reserve1: U256,
    /// Timestamp of the last update (32 bits).
    pub block_timestamp_last: u32,
    /// The slot as read, big-endian.
    pub raw_slot8: [u8; 32],
}

/// State of a UniswapV3 pool (the layout is kept; reading is not
/// implemented).
#[derive(Clone, Copy, PartialEq, Eq, Debug)]
pub struct UniswapV3State {
    /// Pool address.
    pub pool_address: Address,
    /// Block at which the state was read.
    pub block_number: u64,
    /// Square root of the price (160 bits of slot 0).
    pub sqrt_price_x96: U256,
    /// Current tick (24 bits of slot 0).
    pub tick: i32,
    /// Observation index (16 bits of slot 0).
    pub observation_index: u16,
    /// Current liquidity (slot 4).
    pub liquidity: u128,
}

/// Why a UniswapV2 state is invalid.
#[derive(Clone, Copy, PartialEq, Eq, Debug, Structural)]
pub enum StateError {
    /// `reserve0` does not fit in 112 bits.
    Reserve0Exceeds112Bits { reserve0: U256 },
    /// `reserve1` does not fit in 112 bits.
    Reserve1Exceeds112Bits { reserve1: U256 },
    /// The pool address is zero.
    ZeroPoolAddress,
}

/// The first check that a UniswapV2 state fails, in the order in which
/// `validate` makes them, or `None` when it is valid.
pub open spec fn state_error(s: UniswapV2State) -> Option<StateError> {
    if s.reserve0.value() >= two_112() {
        Some(StateError::Reserve0Exceeds112Bits { reserve0: s.reserve0 })
    } else if s.reserve1.value() >= two_112() {
        Some(StateError::Reserve1Exceeds112Bits { reserve1: s.reserve1 })
    } else if s.pool_address.value() == 0 {
        Some(StateError::ZeroPoolAddress)
    } else {
        None
    }
}

/// Mixed-radix division: `(x * d + y) / (d * e) == x / e` for a digit
/// `0 <= y < d`.
proof fn lemma_div_mixed_radix(x: int, y: int, d: int, e: int)
    requires
        0 <= x,
        0 <= y < d,
        0 < e,
    ensures
        (x * d + y) / (d * e) == x / e,
{
    let q = x / e;
    let r = x % e;
    lemma_fundamental_div_mod(x, e);
    assert(x * d + y == q * (d * e) + (r * d + y)) by (nonlinear_arith)
        requires
            x == e * q + r,
    ;
    assert(0 <= r * d + y < d * e) by (nonlinear_arith)
        requires
            0 <= r < e,
            0 <= y < d,
    ;
    lemma_fundamental_div_mod_converse(x * d + y, d * e, q, r * d + y);
}

/// Three digits in radix `d`: `r0 + r1 * d + t * d * d` gives back each.
proof fn lemma_three_digits(r0: int, r1: int, t: int, d: int)
    requires
        0 <= r0 < d,
        0 <= r1 < d,
        0 <= t,
    ensures
        (r0 + r1 * d + t * (d * d)) % d == r0,
        ((r0 + r1 * d + t * (d * d)) / d) % d == r1,
        (r0 + r1 * d + t * (d * d)) / (d * d) == t,
{
    let v = r0 + r1 * d + t * (d * d);
    assert(v == (r1 + t * d) * d + r0) by (nonlinear_arith)
        requires
            v == r0 + r1 * d + t * (d * d),
    ;
    lemma_fundamental_div_mod_converse(v, d, r1 + t * d, r0);
    lemma_fundamental_div_mod_converse(r1 + t * d, d, t, r1);
    assert(0 <= r0 + r1 * d < d * d) by (nonlinear_arith)
        requires
            0 <= r0 < d,
            0 <= r1 < d,
    ;
    assert(v == t * (d * d) + (r0 + r1 * d));
    lemma_fundamental_div_mod_converse(v, d * d, t, r0 + r1 * d);
}

/// A number below `d * e` divided by `d` is below `e`.
proof fn lemma_div_below(v: int, d: int, e: int)
    requires
        0 <= v < d * e,
        0 < d,
    ensures
        v / d < e,
{
    lemma_fundamental_div_mod(v, d);
    let q = v / d;
    assert(q < e) by (nonlinear_arith)
        requires
            v == d * q + v % d,
            0 <= v % d,
            v < d * e,
            0 < d,
    ;
}

/// The fields of a slot value `hi * 2^128 + lo` in terms of its two halves.
proof fn lemma_slot_halves(hi: u128, lo: u128)
    ensures
        ({
            let v = (hi as int * 0x1_0000_0000_0000_0000_0000_0000_0000_0000int + lo as int) as nat;
            &&& slot_reserve0(v) == lo as nat % two_112()
            &&& slot_reserve1(v) == (hi as nat % 0x1_0000_0000_0000_0000_0000_0000) * 65536 + lo as nat
                / two_112()
            &&& slot_timestamp(v) == hi as nat / 0x1_0000_0000_0000_0000_0000_0000
        }),
{
    let v = hi as int * 0x1_0000_0000_0000_0000_0000_0000_0000_0000int + lo as int;
    let q = lo as int / 0x1_0000_0000_0000_0000_0000_0000_0000;
    let r = lo as int % 0x1_0000_0000_0000_0000_0000_0000_0000;
    lemma_fundamental_div_mod(lo as int, 0x1_0000_0000_0000_0000_0000_0000_0000);
    assert(q < 65536);
    let a = hi as int / 0x1_0000_0000_0000_0000_0000_0000;
    let b = hi as int % 0x1_0000_0000_0000_0000_0000_0000;
    lemma_fundamental_div_mod(hi as int, 0x1_0000_0000_0000_0000_0000_0000);
    // reserve0
    lemma_fundamental_div_mod_converse(v, 0x1_0000_0000_0000_0000_0000_0000_0000, hi as int * 65536 + q, r);
    // reserve1
    lemma_fundamental_div_mod_converse(hi as int * 65536 + q, 0x1_0000_0000_0000_0000_0000_0000_0000, a, b * 65536 + q);
    // timestamp
    lemma_div_mixed_radix(hi as int, lo as int, 0x1_0000_0000_0000_0000_0000_0000_0000_0000int, 0x1_0000_0000_0000_0000_0000_0000);
    assert(0x1_0000_0000_0000_0000_0000_0000_0000_0000int * 0x1_0000_0000_0000_0000_0000_0000 == 0x1_0000_0000_0000_0000_0000_0000_0000_0000_0000_0000_0000_0000_0000_0000int) by (nonlinear_arith);
}

impl UniswapV2State {
    /// Unpacks storage slot 8 of a UniswapV2 pair, given big-endian:
    /// `reserve0` is bits `[0, 112)`, `reserve1` bits `[112, 224)` and the
    /// timestamp bits `[224, 256)` of the number the slot denotes.
    pub fn from_slot8(pool_address: Address, block_number: u64, slot8_data: [u8; 32]) -> (r: Self)
        ensures
            r.pool_address == pool_address,
            r.block_number == block_number,
            r.reserve0.value() == slot_reserve0(be_value(slot8_data@)),
            r.reserve1.value() == slot_reserve1(be_value(slot8_data@)),
            r.block_timestamp_last == slot_timestamp(be_value(slot8_data@)),
            r.raw_slot8 == slot8_data,
            r == v2_state_from_slot(pool_address, block_number, slot8_data),
    {
        let slot8 = U256::from_be_bytes(slot8_data);
        let hi = slot8.hi;
        let lo = slot8.lo;
        let p112: u128 = 0x1_0000_0000_0000_0000_0000_0000_0000;
        let p96: u128 = 0x1_0000_0000_0000_0000_0000_0000;
        let reserve0 = lo % p112;
        let reserve1 = lo / p112 + (hi % p96) * 0x1_0000;
        let timestamp = hi / p96;
        proof {
            lemma_slot_halves(hi, lo);
            assert(timestamp < 0x1_0000_0000) by (nonlinear_arith)
                requires
                    timestamp == hi / p96,
                    p96 == 0x1_0000_0000_0000_0000_0000_0000,
            ;
        }
        UniswapV2State {
            pool_address,
            block_number,
            reserve0: U256 { hi: 0, lo: reserve0 },
            reserve1: U256 { hi: 0, lo: reserve1 },
            block_timestamp_last: timestamp as u32,
            raw_slot8: slot8_data,
        }
    }

    /// Checks that both reserves fit in 112 bits and that the pool address
    /// is not zero, reporting the first failing check.
    pub fn validate(&self) -> (r: Result<(), StateError>)
        ensures
            r == (match state_error(*self) {
                None => Ok(()),
                Some(e) => Err(e),
            }),
    {
        if self.reserve0.exceeds_112_bits() {
            return Err(StateError::Reserve0Exceeds112Bits { reserve0: self.reserve0 });
        }
        if self.reserve1.exceeds_112_bits() {
            return Err(StateError::Reserve1Exceeds112Bits { reserve1: self.reserve1 });
        }
        if self.pool_address.is_zero() {
            return Err(StateError::ZeroPoolAddress);
        }
        Ok(())
    }
}

impl RawPoolState {
    /// The pool address.
    pub fn pool_address(&self) -> (r: Address)
        ensures
            r == (match *self {
                RawPoolState::UniswapV2(s) => s.pool_address,
                RawPoolState::UniswapV3(s) => s.pool_address,
            }),
    {
        match self {
            RawPoolState::UniswapV2(state) => state.pool_address,
            RawPoolState::UniswapV3(state) => state.pool_address,
        }
    }

    /// The block at which the state was read.
    pub fn block_number(&self) -> (r: u64)
        ensures
            r == (match *self {
                RawPoolState::UniswapV2(s) => s.block_number,
                RawPoolState::UniswapV3(s) => s.block_number,
            }),
    {
        match self {
            RawPoolState::UniswapV2(state) => state.block_number,
            RawPoolState::UniswapV3(state) => state.block_number,
        }
    }

    /// The protocol the state belongs to.
    pub fn protocol(&self) -> (r: ProtocolType)
        ensures
            r == (match *self {
                RawPoolState::UniswapV2(_) => ProtocolType::UniswapV2,
                RawPoolState::UniswapV3(_) => ProtocolType::UniswapV3,
            }),
    {
        match self {
            RawPoolState::UniswapV2(_) => ProtocolType::UniswapV2,
            RawPoolState::UniswapV3(_) => ProtocolType::UniswapV3,
        }
    }
}

/// Unpacking undoes packing: a slot holding `reserve0 + reserve1 * 2^112 +
/// timestamp * 2^224`, each in range, gives back the three fields.
pub proof fn lemma_slot_pack_roundtrip(reserve0: nat, reserve1: nat, timestamp: nat)
    requires
        reserve0 < two_112(),
        reserve1 < two_112(),
        timestamp < 0x1_0000_0000,
    ensures
        ({
            let v = (reserve0 + reserve1 * 0x1_0000_0000_0000_0000_0000_0000_0000 + timestamp * 0x1_0000_0000_0000_0000_0000_0000_0000_0000_0000_0000_0000_0000_0000_0000int) as nat;
            &&& slot_reserve0(v) == reserve0
            &&& slot_reserve1(v) == reserve1
            &&& slot_timestamp(v) == timestamp
        }),
{
    lemma_three_digits(reserve0 as int, reserve1 as int, timestamp as int, 0x1_0000_0000_0000_0000_0000_0000_0000);
    assert(0x1_0000_0000_0000_0000_0000_0000_0000 * 0x1_0000_0000_0000_0000_0000_0000_0000 == 0x1_0000_0000_0000_0000_0000_0000_0000_0000_0000_0000_0000_0000_0000_0000int) by (nonlinear_arith);
}

/// Unpacked reserves always fit in 112 bits and the timestamp in 32 bits,
/// so a state unpacked from a slot fails validation only for a zero pool
/// address.
pub proof fn lemma_slot_fields_in_range(bytes: Seq<u8>)
    requires
        bytes.len() == 32,
    ensures
        slot_reserve0(be_value(bytes)) < two_112(),
        slot_reserve1(be_value(bytes)) < two_112(),
        slot_timestamp(be_value(bytes)) < 0x1_0000_0000,
{
    crate::primitives::lemma_be_value_bound(bytes);
    crate::primitives::lemma_pow256_values();
    let v = be_value(bytes);
    assert(0x1_0000_0000_0000_0000_0000_0000_0000_0000_0000_0000_0000_0000_0000_0000int * 0x1_0000_0000 == 0x1_0000_0000_0000_0000_0000_0000_0000_0000_0000_0000_0000_0000_0000_0000_0000_0000int) by (nonlinear_arith);
    lemma_div_below(v as int, 0x1_0000_0000_0000_0000_0000_0000_0000_0000_0000_0000_0000_0000_0000_0000int, 0x1_0000_0000);
}

} // verus!
