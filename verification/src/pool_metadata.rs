//! Pool metadata: what identifies a discovered pool, and when it is valid.
use vstd::prelude::*;
use crate::primitives::Address;

verus! {

/// DEX protocol of a pool.
#[derive(Clone, Copy, PartialEq, Eq, Hash, Debug, Structural)]
pub enum ProtocolType {
    /// UniswapV2 and compatible protocols.
    UniswapV2,
    /// UniswapV3.
    UniswapV3,
}

/// Metadata of a pool: its address, the factory that created it, its tokens
/// (ordered by address), fee, tick spacing (V3 only) and where it was found.
#[derive(Clone, Copy, PartialEq, Eq, Debug, Structural)]
pub struct PoolMetadata {
    /// Pool contract address.
    pub pool_address: Address,
    /// DEX protocol.
    pub protocol_id: ProtocolType,
    /// Factory that created the pool.
    pub factory_address: Address,
    /// Token0 (the smaller address).
    pub token0: Address,
    /// Token1.
    pub token1: Address,
    /// Fee: basis points for V2, the fee tier for V3.
    pub fee: u32,
    /// Tick spacing, V3 only.
    pub tick_spacing: Option<i32>,
    /// Block in which the pool was created.
    pub created_block: u64,
    /// Index of the creating transaction in its block.
    pub created_tx_index: u32,
    /// Unix timestamp of discovery.
    pub discovered_at: u64,
}

/// Why a piece of pool metadata is invalid.
#[derive(Clone, Copy, PartialEq, Eq, Debug, Structural)]
pub enum MetadataError {
    /// The pool address is zero.
    ZeroPoolAddress,
    /// Token0 is the zero address.
    ZeroToken0,
    /// Token1 is the zero address.
    ZeroToken1,
    /// The factory address is zero.
    ZeroFactoryAddress,
    /// Token0 is not smaller than token1.
    TokenOrder { token0: Address, token1: Address },
    /// A UniswapV3 pool without tick spacing.
    MissingTickSpacing,
}

/// The first check that `m` fails, in the order in which `validate` makes
/// them, or `None` when `m` is valid.
pub open spec fn metadata_error(m: PoolMetadata) -> Option<MetadataError> {
    if m.pool_address.value() == 0 {
        Some(MetadataError::ZeroPoolAddress)
    } else if m.token0.value() == 0 {
        Some(MetadataError::ZeroToken0)
    } else if m.token1.value() == 0 {
        Some(MetadataError::ZeroToken1)
    } else if m.factory_address.value() == 0 {
        Some(MetadataError::ZeroFactoryAddress)
    } else if !(m.token0.value() < m.token1.value()) {
        Some(MetadataError::TokenOrder { token0: m.token0, token1: m.token1 })
    } else if m.protocol_id == ProtocolType::UniswapV3 && m.tick_spacing is None {
        Some(MetadataError::MissingTickSpacing)
    } else {
        None
    }
}

/// Valid metadata: non-zero addresses, `token0 < token1`, and a tick
/// spacing for every V3 pool.
pub open spec fn valid_metadata(m: PoolMetadata) -> bool {
    metadata_error(m) is None
}

impl PoolMetadata {
    /// Checks the metadata: all addresses non-zero, `token0 < token1`, and
    /// a V3 pool has a tick spacing. Reports the first failing check.
    pub fn validate(&self) -> (r: Result<(), MetadataError>)
        ensures
            r == (match metadata_error(*self) {
                None => Ok(()),
                Some(e) => Err(e),
            }),
            r is Ok <==> (self.pool_address.value() != 0 && self.token0.value() != 0
                && self.token1.value() != 0 && self.factory_address.value() != 0
                && self.token0.value() < self.token1.value() && (self.protocol_id
                == ProtocolType::UniswapV3 ==> self.tick_spacing is Some)),
            (self.pool_address.value() != 0 && self.token0.value() != 0 && self.token1.value() != 0
                && self.factory_address.value() != 0 && self.token0.value() >= self.token1.value())
                ==> r == Err::<(), MetadataError>(
                MetadataError::TokenOrder { token0: self.token0, token1: self.token1 },
            ),
    {
        if self.pool_address.is_zero() {
            return Err(MetadataError::ZeroPoolAddress);
        }
        if self.token0.is_zero() {
            return Err(MetadataError::ZeroToken0);
        }
        if self.token1.is_zero() {
            return Err(MetadataError::ZeroToken1);
        }
        if self.factory_address.is_zero() {
            return Err(MetadataError::ZeroFactoryAddress);
        }
        if !self.token0.less_than(&self.token1) {
            return Err(MetadataError::TokenOrder { token0: self.token0, token1: self.token1 });
        }
        if self.protocol_id == ProtocolType::UniswapV3 && self.tick_spacing.is_none() {
            return Err(MetadataError::MissingTickSpacing);
        }
        Ok(())
    }

    /// Metadata of a UniswapV2 pool: fee 30 basis points, no tick spacing.
    pub fn new_v2(
        pool_address: Address,
        factory_address: Address,
        token0: Address,
        token1: Address,
        created_block: u64,
        created_tx_index: u32,
        discovered_at: u64,
    ) -> (r: Self)
        ensures
            r == (PoolMetadata {
                pool_address,
                protocol_id: ProtocolType::UniswapV2,
                factory_address,
                token0,
                token1,
                fee: 30,
                tick_spacing: None,
                created_block,
                created_tx_index,
                discovered_at,
            }),
    {
        PoolMetadata {
            pool_address,
            protocol_id: ProtocolType::UniswapV2,
            factory_address,
            token0,
            token1,
            fee: 30,
            tick_spacing: None,
            created_block,
            created_tx_index,
            discovered_at,
        }
    }

    /// Metadata of a UniswapV3 pool with the given fee tier and tick spacing.
    pub fn new_v3(
        pool_address: Address,
        factory_address: Address,
        token0: Address,
        token1: Address,
        fee: u32,
        tick_spacing: i32,
        created_block: u64,
        created_tx_index: u32,
        discovered_at: u64,
    ) -> (r: Self)
        ensures
            r == (PoolMetadata {
                pool_address,
                protocol_id: ProtocolType::UniswapV3,
                factory_address,
                token0,
                token1,
                fee,
                tick_spacing: Some(tick_spacing),
                created_block,
                created_tx_index,
                discovered_at,
            }),
    {
        PoolMetadata {
            pool_address,
            protocol_id: ProtocolType::UniswapV3,
            factory_address,
            token0,
            token1,
            fee,
            tick_spacing: Some(tick_spacing),
            created_block,
            created_tx_index,
            discovered_at,
        }
    }
}

/// A V2 pool built from non-zero addresses in token order is valid.
pub proof fn lemma_new_v2_valid(m: PoolMetadata)
    requires
        m.protocol_id == ProtocolType::UniswapV2,
        m.pool_address.value() != 0,
        m.factory_address.value() != 0,
        m.token0.value() != 0,
        m.token0.value() < m.token1.value(),
    ensures
        valid_metadata(m),
{
}

/// A V3 pool built by `new_v3` from non-zero addresses in token order is
/// valid, since it always carries a tick spacing.
pub proof fn lemma_new_v3_valid(m: PoolMetadata)
    requires
        m.protocol_id == ProtocolType::UniswapV3,
        m.tick_spacing is Some,
        m.pool_address.value() != 0,
        m.factory_address.value() != 0,
        m.token0.value() != 0,
        m.token0.value() < m.token1.value(),
    ensures
        valid_metadata(m),
{
}

/// Valid metadata, whatever its protocol, has non-zero pool, token and
/// factory addresses and its tokens strictly in order, and a V3 pool has a
/// tick spacing; metadata with all of these is valid.
pub proof fn lemma_valid_metadata_iff(m: PoolMetadata)
    ensures
        valid_metadata(m) <==> (m.pool_address.value() != 0 && m.token0.value() != 0
            && m.token1.value() != 0 && m.factory_address.value() != 0 && m.token0.value()
            < m.token1.value() && (m.protocol_id == ProtocolType::UniswapV3
            ==> m.tick_spacing is Some)),
        valid_metadata(m) ==> m.token0.value() < m.token1.value(),
{
}

/// Tokens out of order are refused as such, for every protocol, once the
/// addresses are non-zero.
pub proof fn lemma_token_order_refused(m: PoolMetadata)
    requires
        m.pool_address.value() != 0,
        m.token0.value() != 0,
        m.token1.value() != 0,
        m.factory_address.value() != 0,
        m.token0.value() >= m.token1.value(),
    ensures
        metadata_error(m) == Some(MetadataError::TokenOrder { token0: m.token0, token1: m.token1 }),
        !valid_metadata(m),
{
}

} // verus!
