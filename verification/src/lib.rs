//! Discovery and tracking of DEX liquidity pools: pool metadata and its
//! validation, a multi-index pool registry, factory event decoding, the
//! storage-slot layout of UniswapV2 pools, and the plumbing decisions of the
//! discovery service.
pub mod primitives;
pub mod pool_metadata;
pub mod selection;
pub mod pool_registry;
pub mod raw_state;
pub mod tracker;
pub mod monitors;
pub mod storage;
pub mod config;
pub mod exex;
