use mev_pool_discovery::monitors::{
    FactoryMonitor, LogRecord, Monitor, UniswapV2Monitor, UniswapV3Monitor,
};
use mev_pool_discovery::pool_metadata::ProtocolType;
use mev_pool_discovery::primitives::Address;

fn address_from_hex_tail(n: u8) -> Address {
    let mut bytes = [0u8; 20];
    bytes[19] = n;
    Address::from_bytes(bytes)
}

fn word_of_address(a: &Address) -> [u8; 32] {
    let mut word = [0u8; 32];
    word[12..].copy_from_slice(&a.to_vec());
    word
}

fn word_of_u64(v: u64) -> [u8; 32] {
    let mut word = [0u8; 32];
    word[24..].copy_from_slice(&v.to_be_bytes());
    word
}

fn word_of_i24(v: i32) -> [u8; 32] {
    let fill = if v < 0 { 0xff } else { 0 };
    let mut word = [fill; 32];
    word[28..].copy_from_slice(&v.to_be_bytes());
    word
}

fn hex32(s: &str) -> [u8; 32] {
    let mut out = [0u8; 32];
    for i in 0..32 {
        out[i] = u8::from_str_radix(&s[2 * i..2 * i + 2], 16).unwrap();
    }
    out
}

fn pair_created_log(factory: Address, token0: Address, token1: Address, pair: Address) -> LogRecord {
    let monitor = UniswapV2Monitor::new(factory);
    let mut data = word_of_address(&pair).to_vec();
    data.extend_from_slice(&word_of_u64(1));
    LogRecord {
        address: factory,
        topics: vec![
            monitor.pool_created_event_signature(),
            word_of_address(&token0),
            word_of_address(&token1),
        ],
        data,
    }
}

fn pool_created_log(
    factory: Address,
    token0: Address,
    token1: Address,
    fee: u32,
    tick_spacing: i32,
    pool: Address,
) -> LogRecord {
    let monitor = UniswapV3Monitor::new(factory);
    let mut data = word_of_i24(tick_spacing).to_vec();
    data.extend_from_slice(&word_of_address(&pool));
    LogRecord {
        address: factory,
        topics: vec![
            monitor.pool_created_event_signature(),
            word_of_address(&token0),
            word_of_address(&token1),
            word_of_u64(fee as u64),
        ],
        data,
    }
}

#[test]
fn test_parse_pair_created_event() {
    let monitor = UniswapV2Monitor::new(UniswapV2Monitor::mainnet_factory());

    let token0 = address_from_hex_tail(1);
    let token1 = address_from_hex_tail(2);
    let pair = address_from_hex_tail(3);

    let log = pair_created_log(UniswapV2Monitor::mainnet_factory(), token0, token1, pair);

    let metadata = monitor.parse_pool_created_event(&log, 1000, 0, 1638360000);

    assert!(metadata.is_some());
    let metadata = metadata.unwrap();
    assert_eq!(metadata.pool_address, pair);
    assert_eq!(metadata.token0, token0);
    assert_eq!(metadata.token1, token1);
    assert_eq!(metadata.created_block, 1000);
}

#[test]
fn uniswap_v2_test_invalid_token_order() {
    let monitor = UniswapV2Monitor::new(UniswapV2Monitor::mainnet_factory());

    let token0 = address_from_hex_tail(2);
    let token1 = address_from_hex_tail(1);
    let pair = address_from_hex_tail(3);

    let log = pair_created_log(UniswapV2Monitor::mainnet_factory(), token0, token1, pair);

    let metadata = monitor.parse_pool_created_event(&log, 1000, 0, 1638360000);

    assert!(metadata.is_none());
}

#[test]
fn test_parse_pool_created_event() {
    let monitor = UniswapV3Monitor::new(UniswapV3Monitor::mainnet_factory());

    let token0 = address_from_hex_tail(1);
    let token1 = address_from_hex_tail(2);
    let pool = address_from_hex_tail(3);
    let fee = 3000u32;
    let tick_spacing = 60i32;

    let log = pool_created_log(UniswapV3Monitor::mainnet_factory(), token0, token1, fee, tick_spacing, pool);

    let metadata = monitor.parse_pool_created_event(&log, 1000, 0, 1638360000);

    assert!(metadata.is_some());
    let metadata = metadata.unwrap();
    assert_eq!(metadata.pool_address, pool);
    assert_eq!(metadata.token0, token0);
    assert_eq!(metadata.token1, token1);
    assert_eq!(metadata.fee, fee);
    assert_eq!(metadata.tick_spacing, Some(tick_spacing));
    assert_eq!(metadata.created_block, 1000);
}

#[test]
fn uniswap_v3_test_invalid_token_order() {
    let monitor = UniswapV3Monitor::new(UniswapV3Monitor::mainnet_factory());

    let token0 = address_from_hex_tail(2);
    let token1 = address_from_hex_tail(1);
    let pool = address_from_hex_tail(3);

    let log = pool_created_log(UniswapV3Monitor::mainnet_factory(), token0, token1, 3000, 60, pool);

    let metadata = monitor.parse_pool_created_event(&log, 1000, 0, 1638360000);

    assert!(metadata.is_none());
}

#[test]
fn event_signatures_are_the_keccak_topics() {
    let v2 = UniswapV2Monitor::new(UniswapV2Monitor::mainnet_factory());
    let v3 = UniswapV3Monitor::new(UniswapV3Monitor::mainnet_factory());
    assert_eq!(
        v2.pool_created_event_signature(),
        hex32("0d3648bd0f6ba80134a33ba9275ac585d9d315f0ad8355cddefde31afa28d0e9")
    );
    assert_eq!(
        v3.pool_created_event_signature(),
        hex32("783cca1c0412dd0d695e784568c96da2e9c22ff989357a2e8b1d9b2b4e6b7118")
    );
}

#[test]
fn logs_of_other_emitters_or_events_are_ignored() {
    let factory = UniswapV2Monitor::mainnet_factory();
    let monitor = UniswapV2Monitor::new(factory);
    let (t0, t1, pair) = (address_from_hex_tail(1), address_from_hex_tail(2), address_from_hex_tail(3));

    let mut log = pair_created_log(factory, t0, t1, pair);
    log.address = address_from_hex_tail(9);
    assert!(monitor.parse_pool_created_event(&log, 1, 0, 0).is_none());

    let mut log = pair_created_log(factory, t0, t1, pair);
    log.topics[0][0] ^= 1;
    assert!(monitor.parse_pool_created_event(&log, 1, 0, 0).is_none());

    let mut log = pair_created_log(factory, t0, t1, pair);
    log.topics.clear();
    assert!(monitor.parse_pool_created_event(&log, 1, 0, 0).is_none());

    let mut log = pair_created_log(factory, t0, t1, pair);
    log.topics.push([0u8; 32]);
    assert!(monitor.parse_pool_created_event(&log, 1, 0, 0).is_none());

    let mut log = pair_created_log(factory, t0, t1, pair);
    log.data.truncate(63);
    assert!(monitor.parse_pool_created_event(&log, 1, 0, 0).is_none());

    let mut log = pair_created_log(factory, t0, t1, pair);
    log.data.push(0xaa);
    assert!(monitor.parse_pool_created_event(&log, 1, 0, 0).is_some());

    let v3_log = pool_created_log(factory, t0, t1, 500, 10, pair);
    assert!(monitor.parse_pool_created_event(&v3_log, 1, 0, 0).is_none());
}

#[test]
fn v3_negative_tick_spacing_and_metadata_fields() {
    let factory = UniswapV3Monitor::mainnet_factory();
    let monitor = Monitor::UniswapV3(UniswapV3Monitor::new(factory));
    let log = pool_created_log(factory, address_from_hex_tail(1), address_from_hex_tail(2), 100, -1, address_from_hex_tail(3));
    let m = monitor.parse_pool_created_event(&log, 77, 5, 99).unwrap();
    assert_eq!(m.tick_spacing, Some(-1));
    assert_eq!(m.fee, 100);
    assert_eq!(m.protocol_id, ProtocolType::UniswapV3);
    assert_eq!(m.factory_address, factory);
    assert_eq!(m.created_tx_index, 5);
    assert_eq!(m.discovered_at, 99);
    assert_eq!(monitor.factory_address(), factory);
}

#[test]
fn v2_metadata_fields() {
    let factory = UniswapV2Monitor::mainnet_factory();
    let monitor = Monitor::UniswapV2(UniswapV2Monitor::new(factory));
    let log = pair_created_log(factory, address_from_hex_tail(1), address_from_hex_tail(2), address_from_hex_tail(3));
    let m = monitor.parse_pool_created_event(&log, 77, 5, 99).unwrap();
    assert_eq!(m.fee, 30);
    assert_eq!(m.tick_spacing, None);
    assert_eq!(m.protocol_id, ProtocolType::UniswapV2);
    assert_eq!(m.factory_address, factory);
    assert!(m.validate().is_ok());
}
