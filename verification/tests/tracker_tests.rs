use alloy_primitives::U256 as AlloyU256;
use mev_pool_discovery::pool_metadata::ProtocolType;
use mev_pool_discovery::primitives::{Address, U256};
use mev_pool_discovery::raw_state::{RawPoolState, StateError};
use mev_pool_discovery::tracker::{PoolStateTracker, TrackerError, UNISWAP_V2_RESERVES};

fn mock_address(n: u8) -> Address {
    Address::from_bytes([n; 20])
}

fn slot_bytes(ts: u64, r1: u64, r0: u64) -> [u8; 32] {
    let v: AlloyU256 = (AlloyU256::from(ts) << 224) | (AlloyU256::from(r1) << 112) | AlloyU256::from(r0);
    v.to_be_bytes::<32>()
}

#[test]
fn test_get_storage_slot_uniswap_v2_reserves() {
    let slot_number = UNISWAP_V2_RESERVES;
    assert_eq!(slot_number, 8);

    let tracker = PoolStateTracker::new(());
    let slot_bytes = tracker
        .get_storage_slot(mock_address(1), ProtocolType::UniswapV2, "reserves")
        .unwrap();

    assert_eq!(slot_bytes[31], 8);
    assert_eq!(slot_bytes, AlloyU256::from(slot_number).to_be_bytes::<32>());
}

#[test]
fn test_slot_calculation_for_reserves() {
    let expected_slot = 8u8;
    assert_eq!(UNISWAP_V2_RESERVES, expected_slot);
}

#[test]
fn storage_slot_refuses_unknown_names_and_v3() {
    let tracker = PoolStateTracker::new(());
    match tracker.get_storage_slot(mock_address(1), ProtocolType::UniswapV2, "price") {
        Err(TrackerError::UnknownSlotName { slot_name }) => assert_eq!(slot_name, "price"),
        other => panic!("unexpected {:?}", other),
    }
    assert!(matches!(
        tracker.get_storage_slot(mock_address(1), ProtocolType::UniswapV3, "reserves"),
        Err(TrackerError::UniswapV3SlotNotImplemented)
    ));
}

#[test]
fn missing_or_zero_slot_means_no_pool() {
    let tracker = PoolStateTracker::new(());
    assert!(matches!(tracker.read_uniswap_v2_state(mock_address(1), 5, None), Ok(None)));
    assert!(matches!(tracker.read_uniswap_v2_state(mock_address(1), 5, Some([0u8; 32])), Ok(None)));
}

#[test]
fn nonzero_slot_is_unpacked() {
    let tracker = PoolStateTracker::new(());
    let bytes = slot_bytes(11, 22, 33);
    match tracker.read_uniswap_v2_state(mock_address(1), 5, Some(bytes)) {
        Ok(Some(RawPoolState::UniswapV2(s))) => {
            assert_eq!(s.reserve0, U256::from_u128(33));
            assert_eq!(s.reserve1, U256::from_u128(22));
            assert_eq!(s.block_timestamp_last, 11);
            assert_eq!(s.block_number, 5);
        }
        other => panic!("unexpected {:?}", other),
    }
    assert!(matches!(
        tracker.read_uniswap_v2_state(Address::zero(), 5, Some(bytes)),
        Err(TrackerError::InvalidState(StateError::ZeroPoolAddress))
    ));
}

#[test]
fn track_pool_state_by_protocol() {
    let tracker = PoolStateTracker::new(());
    let bytes = slot_bytes(1, 2, 3);
    assert!(matches!(
        tracker.track_pool_state(mock_address(1), 9, ProtocolType::UniswapV2, Ok(Some(bytes))),
        Ok(Some(RawPoolState::UniswapV2(_)))
    ));
    assert!(matches!(
        tracker.track_pool_state(mock_address(1), 9, ProtocolType::UniswapV3, Ok(Some(bytes))),
        Ok(None)
    ));
    assert!(matches!(
        tracker.track_pool_state(
            mock_address(1),
            9,
            ProtocolType::UniswapV3,
            Err(TrackerError::StateUnavailable { block_number: 9, reason: "pruned".to_string() })
        ),
        Err(TrackerError::StateUnavailable { block_number: 9, .. })
    ));
}

#[test]
fn track_multiple_states_keeps_successes_in_order() {
    let tracker = PoolStateTracker::new(());
    let pools = vec![
        (mock_address(1), ProtocolType::UniswapV2),
        (mock_address(2), ProtocolType::UniswapV2),
        (mock_address(3), ProtocolType::UniswapV3),
        (mock_address(4), ProtocolType::UniswapV2),
        (Address::zero(), ProtocolType::UniswapV2),
    ];
    let reads = vec![
        Ok(Some(slot_bytes(1, 1, 1))),
        Err(TrackerError::StorageRead { pool_address: mock_address(2), reason: "io".to_string() }),
        Ok(None),
        Ok(Some(slot_bytes(4, 4, 4))),
        Ok(Some(slot_bytes(5, 5, 5))),
    ];
    let states = tracker.track_multiple_states(&pools, 42, &reads).unwrap();
    assert_eq!(states.len(), 2);
    assert_eq!(states[0].pool_address(), mock_address(1));
    assert_eq!(states[1].pool_address(), mock_address(4));
    assert!(states.iter().all(|s| s.block_number() == 42));
    assert_eq!(*tracker.provider_factory(), ());
}
