use mev_pool_discovery::pool_metadata::{MetadataError, PoolMetadata, ProtocolType};
use mev_pool_discovery::primitives::Address;

fn mock_address(n: u8) -> Address {
    Address::from_bytes([n; 20])
}

#[test]
fn test_pool_metadata_validation() {
    let metadata = PoolMetadata::new_v2(
        mock_address(1),
        mock_address(2),
        mock_address(3),
        mock_address(4),
        1000,
        0,
        1638360000,
    );

    assert!(metadata.validate().is_ok());
}

#[test]
fn test_pool_metadata_zero_address() {
    let metadata = PoolMetadata::new_v2(
        Address::zero(),
        mock_address(2),
        mock_address(3),
        mock_address(4),
        1000,
        0,
        1638360000,
    );

    assert!(metadata.validate().is_err());
}

#[test]
fn test_pool_metadata_token_order() {
    let metadata = PoolMetadata::new_v2(
        mock_address(1),
        mock_address(2),
        mock_address(5),
        mock_address(4),
        1000,
        0,
        1638360000,
    );

    assert!(metadata.validate().is_err());
}

#[test]
fn test_v3_requires_tick_spacing() {
    let mut metadata = PoolMetadata::new_v2(
        mock_address(1),
        mock_address(2),
        mock_address(3),
        mock_address(4),
        1000,
        0,
        1638360000,
    );
    metadata.protocol_id = ProtocolType::UniswapV3;
    metadata.tick_spacing = None;

    assert!(metadata.validate().is_err());
}

#[test]
fn new_v2_fixes_fee_and_protocol() {
    let m = PoolMetadata::new_v2(mock_address(1), mock_address(2), mock_address(3), mock_address(4), 7, 8, 9);
    assert_eq!(m.fee, 30);
    assert_eq!(m.tick_spacing, None);
    assert_eq!(m.protocol_id, ProtocolType::UniswapV2);
    assert_eq!(m.created_block, 7);
    assert_eq!(m.created_tx_index, 8);
    assert_eq!(m.discovered_at, 9);
}

#[test]
fn new_v3_keeps_fee_and_tick_spacing() {
    let m = PoolMetadata::new_v3(mock_address(1), mock_address(2), mock_address(3), mock_address(4), 500, -10, 7, 8, 9);
    assert_eq!(m.fee, 500);
    assert_eq!(m.tick_spacing, Some(-10));
    assert_eq!(m.protocol_id, ProtocolType::UniswapV3);
    assert_eq!(m.validate(), Ok(()));
}

#[test]
fn validate_reports_each_error_in_order() {
    let base = PoolMetadata::new_v2(mock_address(1), mock_address(2), mock_address(3), mock_address(4), 1, 0, 0);

    let mut m = base;
    m.pool_address = Address::zero();
    m.token0 = Address::zero();
    assert_eq!(m.validate(), Err(MetadataError::ZeroPoolAddress));

    let mut m = base;
    m.token0 = Address::zero();
    assert_eq!(m.validate(), Err(MetadataError::ZeroToken0));

    let mut m = base;
    m.token1 = Address::zero();
    assert_eq!(m.validate(), Err(MetadataError::ZeroToken1));

    let mut m = base;
    m.factory_address = Address::zero();
    assert_eq!(m.validate(), Err(MetadataError::ZeroFactoryAddress));

    let mut m = base;
    m.token1 = mock_address(3);
    assert_eq!(
        m.validate(),
        Err(MetadataError::TokenOrder { token0: mock_address(3), token1: mock_address(3) })
    );

    let mut m = base;
    m.protocol_id = ProtocolType::UniswapV3;
    assert_eq!(m.validate(), Err(MetadataError::MissingTickSpacing));
}
