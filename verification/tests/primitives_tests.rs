use mev_pool_discovery::primitives::{Address, U256};

#[test]
fn address_from_bytes_is_big_endian() {
    let mut bytes = [0u8; 20];
    bytes[19] = 1;
    assert_eq!(Address::from_bytes(bytes), Address { hi: 0, lo: 1 });
    bytes[0] = 0x12;
    assert_eq!(Address::from_bytes(bytes), Address { hi: 0x12 << 120, lo: 1 });
}

#[test]
fn address_to_vec_round_trips() {
    let a = Address::from_bytes([
        0x5C, 0x69, 0xbE, 0xe7, 0x01, 0xef, 0x81, 0x4a, 0x2B, 0x6a, 0x3E, 0xDD, 0x4B, 0x16, 0x52,
        0xCB, 0x9c, 0xc5, 0xaA, 0x6f,
    ]);
    assert_eq!(a, Address { hi: 0x5C69bEe701ef814a2B6a3EDD4B1652CB, lo: 0x9cc5aA6f });
    let v = a.to_vec();
    let mut arr = [0u8; 20];
    arr.copy_from_slice(&v);
    assert_eq!(Address::from_bytes(arr), a);
}

#[test]
fn address_order_is_byte_order() {
    let mut lo = [0u8; 20];
    let mut hi = [0u8; 20];
    lo[19] = 0xff;
    hi[18] = 0x01;
    let a = Address::from_bytes(lo);
    let b = Address::from_bytes(hi);
    assert!(a.less_than(&b));
    assert!(!b.less_than(&a));
    assert!(!a.less_than(&a));
    assert!(Address::zero().is_zero());
    assert!(!a.is_zero());
}

#[test]
fn address_from_word_takes_low_twenty_bytes() {
    let mut word = [0xffu8; 32];
    for b in word.iter_mut().skip(12) {
        *b = 0;
    }
    word[31] = 7;
    assert_eq!(Address::from_word(word), Address { hi: 0, lo: 7 });
}

#[test]
fn u256_from_be_bytes_splits_halves() {
    let mut bytes = [0u8; 32];
    bytes[15] = 2;
    bytes[31] = 3;
    let v = U256::from_be_bytes(bytes);
    assert_eq!(v, U256 { hi: 2, lo: 3 });
    assert!(!v.is_zero());
    assert!(v.exceeds_112_bits());
    assert!(U256::from_be_bytes([0u8; 32]).is_zero());
    assert!(!U256::from_u128((1u128 << 112) - 1).exceeds_112_bits());
    assert!(U256::from_u128(1u128 << 112).exceeds_112_bits());
}
