//! Factory monitors: recognising the pool-creation events of DEX factories in
//! transaction logs and turning them into pool metadata.
use vstd::prelude::*;
use vstd::string::StringSliceAdditionalSpecFns;
use alloy_sol_types::abi::token::WordToken;
use alloy_sol_types::{SolType, TopicList, sol_data};
use crate::primitives::{Address, address_from_be, be_value};
use crate::pool_metadata::{PoolMetadata, ProtocolType, valid_metadata};

verus! {

/// A log entry: the emitting contract, its topics and its data.
pub struct LogRecord {
    /// Contract that emitted the log.
    pub address: Address,
    /// Topics; the first is the event signature hash.
    pub topics: Vec<[u8; 32]>,
    /// ABI-encoded non-indexed fields.
    pub data: Vec<u8>,
}

/// The Keccak-256 digest of a byte string.
pub uninterp spec fn keccak256_of(data: Seq<u8>) -> Seq<u8>;

/// `alloy_primitives::keccak256`: the Keccak-256 digest of the bytes.
#[verifier::external_body]
fn keccak256(data: &[u8]) -> (r: [u8; 32])
    ensures
        r@ == keccak256_of(data@),
{
    alloy_primitives::keccak256(data).0
}

/// `TopicList::detokenize` for the topics `(bytes32, address, address)` of
/// UniswapV2's `PairCreated`, with the default (non-validating) decoder:
/// exactly three topics are needed; the signature is taken as it is and each
/// address from the low 20 bytes of its topic.
#[verifier::external_body]
fn decode_pair_created_topics(topics: &Vec<[u8; 32]>) -> (r: Option<([u8; 32], [u8; 20], [u8; 20])>)
    ensures
        r is Some <==> topics@.len() == 3,
        r matches Some((sig, token0, token1)) ==> sig == topics@[0] && token0@ == topics@[1]@.subrange(
            12,
            32,
        ) && token1@ == topics@[2]@.subrange(12, 32),
{
    <(sol_data::FixedBytes<32>, sol_data::Address, sol_data::Address) as TopicList>::detokenize(
        topics.iter().map(|t| WordToken::from(*t)),
    ).ok().map(|(sig, token0, token1)| (sig.0, token0.0.0, token1.0.0))
}

/// `SolType::abi_decode_sequence` for the data `(address, uint256)` of
/// UniswapV2's `PairCreated`, with the default (non-strict) decoder: two
/// words are needed and later bytes are ignored; the pair address is the low
/// 20 bytes of the first word, the pair index the second word.
#[verifier::external_body]
fn decode_pair_created_data(data: &Vec<u8>) -> (r: Option<([u8; 20], [u8; 32])>)
    ensures
        r is Some <==> data@.len() >= 64,
        r matches Some((pair, index)) ==> pair@ == data@.subrange(12, 32) && index@ == data@.subrange(
            32,
            64,
        ),
{
    <(sol_data::Address, sol_data::Uint<256>) as SolType>::abi_decode_sequence(data).ok().map(
        |(pair, index)| (pair.0.0, index.to_be_bytes::<32>()),
    )
}

/// `TopicList::detokenize` for the topics `(bytes32, address, address,
/// uint24)` of UniswapV3's `PoolCreated`, with the default decoder: exactly
/// four topics are needed; the fee is the low three bytes of the last topic.
#[verifier::external_body]
fn decode_pool_created_topics(topics: &Vec<[u8; 32]>) -> (r: Option<
    ([u8; 32], [u8; 20], [u8; 20], u32),
>)
    ensures
        r is Some <==> topics@.len() == 4,
        r matches Some((sig, token0, token1, fee)) ==> sig == topics@[0] && token0@
            == topics@[1]@.subrange(12, 32) && token1@ == topics@[2]@.subrange(12, 32) && fee
            == be_value(topics@[3]@.subrange(29, 32)),
{
    <(sol_data::FixedBytes<32>, sol_data::Address, sol_data::Address, sol_data::Uint<24>) as TopicList>::detokenize(
        topics.iter().map(|t| WordToken::from(*t)),
    ).ok().map(|(sig, token0, token1, fee)| (sig.0, token0.0.0, token1.0.0, fee.to::<u32>()))
}

/// A 24-bit two's-complement number.
pub open spec fn signed24(u: nat) -> int {
    if u >= 0x80_0000 {
        u - 0x100_0000
    } else {
        u as int
    }
}

/// `SolType::abi_decode_sequence` for the data `(int24, address)` of
/// UniswapV3's `PoolCreated`, with the default decoder: two words are needed
/// and later bytes are ignored; the tick spacing is the low three bytes of
/// the first word read as a signed number, the pool the low 20 bytes of the
/// second word.
#[verifier::external_body]
fn decode_pool_created_data(data: &Vec<u8>) -> (r: Option<(i32, [u8; 20])>)
    ensures
        r is Some <==> data@.len() >= 64,
        r matches Some((tick_spacing, pool)) ==> tick_spacing == signed24(
            be_value(data@.subrange(29, 32)),
        ) && pool@ == data@.subrange(44, 64),
{
    <(sol_data::Int<24>, sol_data::Address) as SolType>::abi_decode_sequence(data).ok().map(
        |(tick_spacing, pool)| (tick_spacing.as_i32(), pool.0.0),
    )
}

/// Whether two 32-byte words are equal.
fn words_equal(a: &[u8; 32], b: &[u8; 32]) -> (r: bool)
    ensures
        r == (a@ == b@),
{
    let mut i: usize = 0;
    while i < 32
        invariant
            i <= 32,
            a@.len() == 32,
            b@.len() == 32,
            forall|j: int| 0 <= j < i ==> a@[j] == b@[j],
        decreases 32 - i,
    {
        if a[i] != b[i] {
            return false;
        }
        i = i + 1;
    }
    proof {
        assert(a@ =~= b@);
    }
    true
}

/// Signature text of UniswapV2's pair-creation event.
pub open spec fn pair_created_signature_text() -> Seq<u8> {
    "PairCreated(address,address,address,uint256)".spec_bytes()
}

/// Signature text of UniswapV3's pool-creation event.
pub open spec fn pool_created_signature_text() -> Seq<u8> {
    "PoolCreated(address,address,uint24,int24,address)".spec_bytes()
}

/// A monitor of one DEX factory's pool-creation events.
pub trait FactoryMonitor {
    /// The factory contract.
    fn factory_address(&self) -> Address;

    /// The pool metadata that a log announces, or `None` when it is not the
    /// factory's pool-creation event.
    fn parse_pool_created_event(
        &self,
        log: &LogRecord,
        block_number: u64,
        tx_index: u32,
        discovered_at: u64,
    ) -> Option<PoolMetadata>;

    /// The hash of the pool-creation event's signature, its first topic.
    fn pool_created_event_signature(&self) -> [u8; 32];
}

/// What a UniswapV2 factory monitor reads from a log: the `PairCreated`
/// event emitted by the factory, with three topics and two data words and
/// tokens in order.
pub open spec fn v2_parse_spec(
    factory: Address,
    signature: Seq<u8>,
    address: Address,
    topics: Seq<[u8; 32]>,
    data: Seq<u8>,
    block_number: u64,
    tx_index: u32,
    discovered_at: u64,
) -> Option<PoolMetadata> {
    if address != factory || topics.len() == 0 || topics[0]@ != signature || topics.len() != 3
        || data.len() < 64 {
        None
    } else {
        let token0 = address_from_be(topics[1]@.subrange(12, 32));
        let token1 = address_from_be(topics[2]@.subrange(12, 32));
        let pair = address_from_be(data.subrange(12, 32));
        if !(token0.value() < token1.value()) {
            None
        } else {
            Some(
                PoolMetadata {
                    pool_address: pair,
                    protocol_id: ProtocolType::UniswapV2,
                    factory_address: factory,
                    token0,
                    token1,
                    fee: 30,
                    tick_spacing: None,
                    created_block: block_number,
                    created_tx_index: tx_index,
                    discovered_at,
                },
            )
        }
    }
}

/// What a UniswapV3 factory monitor reads from a log: the `PoolCreated`
/// event emitted by the factory, with four topics and two data words and
/// tokens in order.
pub open spec fn v3_parse_spec(
    factory: Address,
    signature: Seq<u8>,
    address: Address,
    topics: Seq<[u8; 32]>,
    data: Seq<u8>,
    block_number: u64,
    tx_index: u32,
    discovered_at: u64,
) -> Option<PoolMetadata> {
    if address != factory || topics.len() == 0 || topics[0]@ != signature || topics.len() != 4
        || data.len() < 64 {
        None
    } else {
        let token0 = address_from_be(topics[1]@.subrange(12, 32));
        let token1 = address_from_be(topics[2]@.subrange(12, 32));
        let pool = address_from_be(data.subrange(44, 64));
        if !(token0.value() < token1.value()) {
            None
        } else {
            Some(
                PoolMetadata {
                    pool_address: pool,
                    protocol_id: ProtocolType::UniswapV3,
                    factory_address: factory,
                    token0,
                    token1,
                    fee: be_value(topics[3]@.subrange(29, 32)) as u32,
                    tick_spacing: Some(signed24(be_value(data.subrange(29, 32))) as i32),
                    created_block: block_number,
                    created_tx_index: tx_index,
                    discovered_at,
                },
            )
        }
    }
}

/// Monitor of a UniswapV2 factory.
#[derive(Debug)]
pub struct UniswapV2Monitor {
    factory_address: Address,
}

impl UniswapV2Monitor {
    /// The factory this monitor watches.
    pub closed spec fn spec_factory_address(&self) -> Address {
        self.factory_address
    }

    /// A monitor of the factory at `factory_address`.
    pub fn new(factory_address: Address) -> (r: Self)
        ensures
            r.spec_factory_address() == factory_address,
    {
        Self { factory_address }
    }

    /// The UniswapV2 factory on mainnet,
    /// `0x5C69bEe701ef814a2B6a3EDD4B1652CB9cc5aA6f`.
    pub fn mainnet_factory() -> (r: Address)
        ensures
            r == (Address { hi: 0x5C69bEe701ef814a2B6a3EDD4B1652CB, lo: 0x9cc5aA6f }),
    {
        Address { hi: 0x5C69bEe701ef814a2B6a3EDD4B1652CB, lo: 0x9cc5aA6f }
    }
}

impl FactoryMonitor for UniswapV2Monitor {
    fn factory_address(&self) -> (r: Address)
        ensures
            r == self.spec_factory_address(),
    {
        self.factory_address
    }

    fn pool_created_event_signature(&self) -> (r: [u8; 32])
        ensures
            r@ == keccak256_of(pair_created_signature_text()),
    {
        let text = "PairCreated(address,address,address,uint256)".as_bytes();
        keccak256(text)
    }

    fn parse_pool_created_event(
        &self,
        log: &LogRecord,
        block_number: u64,
        tx_index: u32,
        discovered_at: u64,
    ) -> (r: Option<PoolMetadata>)
        ensures
            r == v2_parse_spec(
                self.spec_factory_address(),
                keccak256_of(pair_created_signature_text()),
                log.address,
                log.topics@,
                log.data@,
                block_number,
                tx_index,
                discovered_at,
            ),
            r matches Some(m) ==> {
                &&& log.address == self.spec_factory_address()
                &&& log.topics@.len() == 3 && log.data@.len() >= 64
                &&& m.protocol_id == ProtocolType::UniswapV2
                &&& m.factory_address == self.spec_factory_address()
                &&& m.pool_address == address_from_be(log.data@.subrange(12, 32))
                &&& m.token0 == address_from_be(log.topics@[1]@.subrange(12, 32))
                &&& m.token1 == address_from_be(log.topics@[2]@.subrange(12, 32))
                &&& m.token0.value() < m.token1.value()
                &&& m.fee == 30 && m.tick_spacing is None
                &&& m.created_block == block_number
                &&& m.created_tx_index == tx_index
                &&& m.discovered_at == discovered_at
            },
    {
        if log.address != self.factory_address {
            return None;
        }
        if log.topics.len() == 0 {
            return None;
        }
        let signature = self.pool_created_event_signature();
        if !words_equal(&log.topics[0], &signature) {
            return None;
        }
        let topics = match decode_pair_created_topics(&log.topics) {
            Some(t) => t,
            None => {
                return None;
            },
        };
        let decoded = match decode_pair_created_data(&log.data) {
            Some(d) => d,
            None => {
                return None;
            },
        };
        let token0 = Address::from_bytes(topics.1);
        let token1 = Address::from_bytes(topics.2);
        let pair = Address::from_bytes(decoded.0);
        if !token0.less_than(&token1) {
            return None;
        }
        Some(
            PoolMetadata::new_v2(
                pair,
                self.factory_address,
                token0,
                token1,
                block_number,
                tx_index,
                discovered_at,
            ),
        )
    }
}

/// Monitor of a UniswapV3 factory.
#[derive(Debug)]
pub struct UniswapV3Monitor {
    factory_address: Address,
}

impl UniswapV3Monitor {
    /// The factory this monitor watches.
    pub closed spec fn spec_factory_address(&self) -> Address {
        self.factory_address
    }

    /// A monitor of the factory at `factory_address`.
    pub fn new(factory_address: Address) -> (r: Self)
        ensures
            r.spec_factory_address() == factory_address,
    {
        Self { factory_address }
    }

    /// The UniswapV3 factory on mainnet,
    /// `0x1F98431c8aD98523631AE4a59f267346ea31F984`.
    pub fn mainnet_factory() -> (r: Address)
        ensures
            r == (Address { hi: 0x1F98431c8aD98523631AE4a59f267346, lo: 0xea31F984 }),
    {
        Address { hi: 0x1F98431c8aD98523631AE4a59f267346, lo: 0xea31F984 }
    }
}

impl FactoryMonitor for UniswapV3Monitor {
    fn factory_address(&self) -> (r: Address)
        ensures
            r == self.spec_factory_address(),
    {
        self.factory_address
    }

    fn pool_created_event_signature(&self) -> (r: [u8; 32])
        ensures
            r@ == keccak256_of(pool_created_signature_text()),
    {
        let text = "PoolCreated(address,address,uint24,int24,address)".as_bytes();
        keccak256(text)
    }

    fn parse_pool_created_event(
        &self,
        log: &LogRecord,
        block_number: u64,
        tx_index: u32,
        discovered_at: u64,
    ) -> (r: Option<PoolMetadata>)
        ensures
            r == v3_parse_spec(
                self.spec_factory_address(),
                keccak256_of(pool_created_signature_text()),
                log.address,
                log.topics@,
                log.data@,
                block_number,
                tx_index,
                discovered_at,
            ),
            r matches Some(m) ==> {
                &&& log.address == self.spec_factory_address()
                &&& log.topics@.len() == 4 && log.data@.len() >= 64
                &&& m.protocol_id == ProtocolType::UniswapV3
                &&& m.factory_address == self.spec_factory_address()
                &&& m.pool_address == address_from_be(log.data@.subrange(44, 64))
                &&& m.token0 == address_from_be(log.topics@[1]@.subrange(12, 32))
                &&& m.token1 == address_from_be(log.topics@[2]@.subrange(12, 32))
                &&& m.token0.value() < m.token1.value()
                &&& m.fee == be_value(log.topics@[3]@.subrange(29, 32))
                &&& m.tick_spacing == Some(signed24(be_value(log.data@.subrange(29, 32))) as i32)
                &&& m.created_block == block_number
                &&& m.created_tx_index == tx_index
                &&& m.discovered_at == discovered_at
            },
    {
        if log.address != self.factory_address {
            return None;
        }
        if log.topics.len() == 0 {
            return None;
        }
        let signature = self.pool_created_event_signature();
        if !words_equal(&log.topics[0], &signature) {
            return None;
        }
        let topics = match decode_pool_created_topics(&log.topics) {
            Some(t) => t,
            None => {
                return None;
            },
        };
        let decoded = match decode_pool_created_data(&log.data) {
            Some(d) => d,
            None => {
                return None;
            },
        };
        let token0 = Address::from_bytes(topics.1);
        let token1 = Address::from_bytes(topics.2);
        let pool = Address::from_bytes(decoded.1);
        if !token0.less_than(&token1) {
            return None;
        }
        Some(
            PoolMetadata::new_v3(
                pool,
                self.factory_address,
                token0,
                token1,
                topics.3,
                decoded.0,
                block_number,
                tx_index,
                discovered_at,
            ),
        )
    }
}

/// A monitor of either supported protocol.
#[derive(Debug)]
pub enum Monitor {
    /// A UniswapV2 factory monitor.
    UniswapV2(UniswapV2Monitor),
    /// A UniswapV3 factory monitor.
    UniswapV3(UniswapV3Monitor),
}

impl Monitor {
    /// The factory the monitor watches.
    pub open spec fn spec_factory_address(&self) -> Address {
        match self {
            Monitor::UniswapV2(m) => m.spec_factory_address(),
            Monitor::UniswapV3(m) => m.spec_factory_address(),
        }
    }

    /// The protocol the monitor reads.
    pub open spec fn spec_protocol(&self) -> ProtocolType {
        match self {
            Monitor::UniswapV2(_) => ProtocolType::UniswapV2,
            Monitor::UniswapV3(_) => ProtocolType::UniswapV3,
        }
    }

    /// The factory the monitor watches.
    pub fn factory_address(&self) -> (r: Address)
        ensures
            r == self.spec_factory_address(),
    {
        match self {
            Monitor::UniswapV2(m) => m.factory_address(),
            Monitor::UniswapV3(m) => m.factory_address(),
        }
    }

    /// The pool that a log announces, as the monitor's protocol reads it.
    pub fn parse_pool_created_event(
        &self,
        log: &LogRecord,
        block_number: u64,
        tx_index: u32,
        discovered_at: u64,
    ) -> (r: Option<PoolMetadata>)
        ensures
            r == (match self {
                Monitor::UniswapV2(m) => v2_parse_spec(
                    m.spec_factory_address(),
                    keccak256_of(pair_created_signature_text()),
                    log.address,
                    log.topics@,
                    log.data@,
                    block_number,
                    tx_index,
                    discovered_at,
                ),
                Monitor::UniswapV3(m) => v3_parse_spec(
                    m.spec_factory_address(),
                    keccak256_of(pool_created_signature_text()),
                    log.address,
                    log.topics@,
                    log.data@,
                    block_number,
                    tx_index,
                    discovered_at,
                ),
            }),
            r matches Some(m) ==> m.factory_address == self.spec_factory_address()
                && log.address == self.spec_factory_address() && m.protocol_id
                == self.spec_protocol() && m.created_block == block_number && m.created_tx_index
                == tx_index && m.discovered_at == discovered_at && m.token0.value()
                < m.token1.value(),
    {
        match self {
            Monitor::UniswapV2(m) => m.parse_pool_created_event(
                log,
                block_number,
                tx_index,
                discovered_at,
            ),
            Monitor::UniswapV3(m) => m.parse_pool_created_event(
                log,
                block_number,
                tx_index,
                discovered_at,
            ),
        }
    }

    /// The hash of the monitored event's signature.
    pub fn pool_created_event_signature(&self) -> (r: [u8; 32])
        ensures
            r@ == (match self {
                Monitor::UniswapV2(_) => keccak256_of(pair_created_signature_text()),
                Monitor::UniswapV3(_) => keccak256_of(pool_created_signature_text()),
            }),
    {
        match self {
            Monitor::UniswapV2(m) => m.pool_created_event_signature(),
            Monitor::UniswapV3(m) => m.pool_created_event_signature(),
        }
    }
}

/// A pool that a UniswapV2 monitor reads from a log is a V2 pool of the
/// monitor's factory, whose pair and tokens are those the log carries, and
/// which records the block, transaction index and discovery time it was
/// given, with its tokens in order;
/// it passes validation whenever the factory, pair and token0 addresses are
/// not zero.
pub proof fn lemma_v2_parsed_pool(
    factory: Address,
    signature: Seq<u8>,
    address: Address,
    topics: Seq<[u8; 32]>,
    data: Seq<u8>,
    block_number: u64,
    tx_index: u32,
    discovered_at: u64,
)
    requires
        v2_parse_spec(factory, signature, address, topics, data, block_number, tx_index, discovered_at) is Some,
    ensures
        ({
            let m = v2_parse_spec(factory, signature, address, topics, data, block_number, tx_index, discovered_at)->0;
            &&& m.protocol_id == ProtocolType::UniswapV2
            &&& m.factory_address == factory
            &&& address == factory
            &&& topics.len() == 3 && topics[0]@ == signature && data.len() >= 64
            &&& m.pool_address == address_from_be(data.subrange(12, 32))
            &&& m.token0 == address_from_be(topics[1]@.subrange(12, 32))
            &&& m.token1 == address_from_be(topics[2]@.subrange(12, 32))
            &&& m.fee == 30 && m.tick_spacing is None
            &&& m.created_block == block_number
            &&& m.created_tx_index == tx_index
            &&& m.discovered_at == discovered_at
            &&& m.token0.value() < m.token1.value()
            &&& (factory.value() != 0 && m.pool_address.value() != 0 && m.token0.value() != 0)
                ==> valid_metadata(m)
        }),
{
}

/// A pool that a UniswapV3 monitor reads from a log is a V3 pool of the
/// monitor's factory, whose pool, tokens, fee and tick spacing are those the
/// log carries, and which records the block, transaction index and discovery
/// time it was given, with its tokens in order; it passes validation whenever the factory, pool and
/// token0 addresses are not zero.
pub proof fn lemma_v3_parsed_pool(
    factory: Address,
    signature: Seq<u8>,
    address: Address,
    topics: Seq<[u8; 32]>,
    data: Seq<u8>,
    block_number: u64,
    tx_index: u32,
    discovered_at: u64,
)
    requires
        v3_parse_spec(factory, signature, address, topics, data, block_number, tx_index, discovered_at) is Some,
    ensures
        ({
            let m = v3_parse_spec(factory, signature, address, topics, data, block_number, tx_index, discovered_at)->0;
            &&& m.protocol_id == ProtocolType::UniswapV3
            &&& m.factory_address == factory
            &&& address == factory
            &&& topics.len() == 4 && topics[0]@ == signature && data.len() >= 64
            &&& m.pool_address == address_from_be(data.subrange(44, 64))
            &&& m.token0 == address_from_be(topics[1]@.subrange(12, 32))
            &&& m.token1 == address_from_be(topics[2]@.subrange(12, 32))
            &&& m.fee == be_value(topics[3]@.subrange(29, 32)) as u32
            &&& m.tick_spacing == Some(signed24(be_value(data.subrange(29, 32))) as i32)
            &&& m.created_block == block_number
            &&& m.created_tx_index == tx_index
            &&& m.discovered_at == discovered_at
            &&& m.tick_spacing is Some
            &&& m.token0.value() < m.token1.value()
            &&& (factory.value() != 0 && m.pool_address.value() != 0 && m.token0.value() != 0)
                ==> valid_metadata(m)
        }),
{
}

} // verus!
