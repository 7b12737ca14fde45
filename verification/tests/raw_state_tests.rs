use alloy_primitives::U256 as AlloyU256;
use mev_pool_discovery::pool_metadata::ProtocolType;
use mev_pool_discovery::primitives::{Address, U256};
use mev_pool_discovery::raw_state::{RawPoolState, StateError, UniswapV2State};

fn mock_address(n: u8) -> Address {
    Address::from_bytes([n; 20])
}

fn pack(timestamp: AlloyU256, reserve1: AlloyU256, reserve0: AlloyU256) -> [u8; 32] {
    let slot8_value: AlloyU256 = (timestamp << 224) | (reserve1 << 112) | reserve0;
    slot8_value.to_be_bytes::<32>()
}

#[test]
fn test_uniswap_v2_slot8_parsing_basic() {
    let reserve0 = AlloyU256::from(1000u64);
    let reserve1 = AlloyU256::from(2000u64);
    let timestamp = AlloyU256::from(1234567890u64);

    let slot8_bytes = pack(timestamp, reserve1, reserve0);

    let state = UniswapV2State::from_slot8(mock_address(1), 100, slot8_bytes);

    assert_eq!(state.reserve0, U256::from_u128(1000));
    assert_eq!(state.reserve1, U256::from_u128(2000));
    assert_eq!(state.block_timestamp_last, 1234567890);
    assert_eq!(state.block_number, 100);
    assert_eq!(state.pool_address, mock_address(1));
}

#[test]
fn test_uniswap_v2_slot8_parsing_max_values() {
    let max_112_bits = (AlloyU256::from(1u128) << 112) - AlloyU256::from(1u128);
    let max_32_bits = AlloyU256::from(u32::MAX);

    let slot8_bytes = pack(max_32_bits, max_112_bits, max_112_bits);

    let state = UniswapV2State::from_slot8(mock_address(2), 200, slot8_bytes);

    let max = U256::from_u128((1u128 << 112) - 1);
    assert_eq!(state.reserve0, max);
    assert_eq!(state.reserve1, max);
    assert_eq!(state.block_timestamp_last, u32::MAX);
    assert!(state.validate().is_ok());
}

#[test]
fn test_uniswap_v2_slot8_parsing_zero_values() {
    let state = UniswapV2State::from_slot8(mock_address(3), 300, [0u8; 32]);

    assert_eq!(state.reserve0, U256::zero());
    assert_eq!(state.reserve1, U256::zero());
    assert_eq!(state.block_timestamp_last, 0);
}

#[test]
fn test_uniswap_v2_slot8_parsing_random() {
    let reserve0 = AlloyU256::from(123456789u64);
    let reserve1 = AlloyU256::from(987654321u64);
    let timestamp = AlloyU256::from(1700000000u64);

    let slot8_bytes = pack(timestamp, reserve1, reserve0);

    let state = UniswapV2State::from_slot8(mock_address(4), 400, slot8_bytes);

    assert_eq!(state.reserve0, U256::from_u128(123456789));
    assert_eq!(state.reserve1, U256::from_u128(987654321));
    assert_eq!(state.block_timestamp_last, 1700000000);
    assert!(state.validate().is_ok());
}

#[test]
fn test_validation_zero_address() {
    let state = UniswapV2State::from_slot8(Address::zero(), 100, [0u8; 32]);

    assert!(state.validate().is_err());
}

#[test]
fn test_raw_pool_state_accessors() {
    let state = UniswapV2State::from_slot8(mock_address(5), 500, [0u8; 32]);
    let raw_state = RawPoolState::UniswapV2(state.clone());

    assert_eq!(raw_state.pool_address(), state.pool_address);
    assert_eq!(raw_state.block_number(), state.block_number);
    assert_eq!(raw_state.protocol(), ProtocolType::UniswapV2);
}

#[test]
fn slot8_keeps_raw_bytes_and_splits_across_halves() {
    // reserve1 straddles the two 128-bit halves of the slot.
    let reserve1 = (AlloyU256::from(1u128) << 111) | AlloyU256::from(0xabcdu64);
    let bytes = pack(AlloyU256::from(7u64), reserve1, AlloyU256::from(5u64));
    let state = UniswapV2State::from_slot8(mock_address(6), 1, bytes);
    assert_eq!(state.reserve1, U256::from_u128((1u128 << 111) | 0xabcd));
    assert_eq!(state.reserve0, U256::from_u128(5));
    assert_eq!(state.block_timestamp_last, 7);
    assert_eq!(state.raw_slot8, bytes);
}

#[test]
fn validation_reports_oversized_reserves() {
    let mut state = UniswapV2State::from_slot8(mock_address(1), 1, [0u8; 32]);
    state.reserve0 = U256::from_u128(1u128 << 112);
    assert_eq!(
        state.validate(),
        Err(StateError::Reserve0Exceeds112Bits { reserve0: U256::from_u128(1u128 << 112) })
    );
    state.reserve0 = U256::zero();
    state.reserve1 = U256 { hi: 1, lo: 0 };
    assert_eq!(
        state.validate(),
        Err(StateError::Reserve1Exceeds112Bits { reserve1: U256 { hi: 1, lo: 0 } })
    );
    state.reserve1 = U256::zero();
    state.pool_address = Address::zero();
    assert_eq!(state.validate(), Err(StateError::ZeroPoolAddress));
}
