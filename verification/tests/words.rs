use snapshot_recovery::u256::U256;

#[test]
fn be_bytes_round_into_limbs() {
    let mut bytes = [0u8; 32];
    bytes[31] = 1;
    assert_eq!(U256::from_be_bytes(&bytes), U256::from_u64(1));

    let mut bytes = [0u8; 32];
    bytes[0] = 1;
    let top = U256::from_be_bytes(&bytes);
    assert_eq!((top.w3, top.w2, top.w1, top.w0), (1 << 56, 0, 0, 0));

    let mut bytes = [0u8; 32];
    bytes[24] = 0x12;
    bytes[31] = 0x34;
    let low = U256::from_be_bytes(&bytes);
    assert_eq!(low, U256::from_u64(0x1200_0000_0000_0034));
}

#[test]
fn addition_reports_wrap_around() {
    let (sum, carry) = U256::add_with_carry(&U256::max_value(), &U256::from_u64(1));
    assert!(carry);
    assert_eq!(sum, U256::zero());

    let (sum, carry) = U256::add_with_carry(&U256::from_u64(7), &U256::from_u64(8));
    assert!(!carry);
    assert_eq!(sum, U256::from_u64(15));

    let almost = U256 { w0: u64::MAX, w1: u64::MAX, w2: 0, w3: 0 };
    let (sum, carry) = U256::add_with_carry(&almost, &U256::from_u64(1));
    assert!(!carry);
    assert_eq!(sum, U256 { w0: 0, w1: 0, w2: 1, w3: 0 });
}

#[test]
fn multiplication_carries_across_limbs() {
    let (product, overflow) = U256::mul_u64(&U256::from_u64(1 << 63), 4);
    assert_eq!(overflow, 0);
    assert_eq!(product, U256 { w0: 0, w1: 2, w2: 0, w3: 0 });

    let (product, overflow) = U256::mul_u64(&U256::max_value(), 2);
    assert_eq!(overflow, 1);
    assert_eq!(product, U256 { w0: u64::MAX - 1, w1: u64::MAX, w2: u64::MAX, w3: u64::MAX });
}

#[test]
fn division_of_the_largest_word() {
    // (2^256 - 1) / 256 == 2^248 - 1.
    let q = U256::div_max_by(256);
    assert_eq!(
        q,
        U256 { w0: u64::MAX, w1: u64::MAX, w2: u64::MAX, w3: 0x00ff_ffff_ffff_ffff },
    );

    let q = U256::div_max_by(1);
    assert_eq!(q, U256::max_value());

    // (2^256 - 1) is divisible by 0xff: the quotient has every byte 0x01.
    let q = U256::div_max_by(0xff);
    let each_byte_one = 0x0101_0101_0101_0101u64;
    assert_eq!(
        q,
        U256 { w0: each_byte_one, w1: each_byte_one, w2: each_byte_one, w3: each_byte_one },
    );
}
