use wallet_snapshot::address::parse_address;
use wallet_snapshot::amount::RawAmount;
use wallet_snapshot::format::format_scaled;

#[test]
fn zero_formats_as_bare_zero() {
    let a = RawAmount::zero();
    assert_eq!(format_scaled(&a, 18), "0");
    assert_eq!(format_scaled(&a, 0), "0");
    assert_eq!(format_scaled(&a, 6), "0");
}

#[test]
fn one_and_a_half_ether_formats_exactly() {
    let a = RawAmount::from_u128(1_500_000_000_000_000_000);
    assert_eq!(format_scaled(&a, 18), "1.500000");
}

#[test]
fn whole_units_pad_six_fraction_digits() {
    let a = RawAmount::from_u64(7);
    assert_eq!(format_scaled(&a, 0), "7.000000");
    let b = RawAmount::from_u128(1_000_000);
    assert_eq!(format_scaled(&b, 6), "1.000000");
}

#[test]
fn fraction_is_truncated_not_rounded() {
    // 0.1234567 with seven decimals: the seventh digit is dropped.
    let a = RawAmount::from_u128(1_234_567);
    assert_eq!(format_scaled(&a, 7), "0.123456");
    // 0.9999999 truncates to 0.999999, it does not round to 1.
    let b = RawAmount::from_u128(9_999_999);
    assert_eq!(format_scaled(&b, 7), "0.999999");
}

#[test]
fn few_decimals_scale_up_exactly() {
    let a = RawAmount::from_u64(5);
    assert_eq!(format_scaled(&a, 2), "0.050000");
    let b = RawAmount::from_u64(123);
    assert_eq!(format_scaled(&b, 1), "12.300000");
}

#[test]
fn values_beyond_float_precision_keep_every_digit() {
    let a = RawAmount::from_u128(u128::MAX);
    assert_eq!(
        format_scaled(&a, 0),
        "340282366920938463463374607431768211455.000000"
    );
}

#[test]
fn full_256_bit_amount_formats_exactly() {
    let a = RawAmount::from_limbs(u64::MAX, u64::MAX, u64::MAX, u64::MAX);
    assert_eq!(
        format_scaled(&a, 18),
        "115792089237316195423570985008687907853269984665640564039457.584007"
    );
}

#[test]
fn tiny_amount_with_many_decimals_shows_zero_point() {
    let a = RawAmount::from_u64(1);
    assert_eq!(format_scaled(&a, 18), "0.000000");
}

#[test]
fn decimal_digits_round_trip_value() {
    let a = RawAmount::from_u128(90_210);
    let ds = a.to_decimal_digits();
    assert_eq!(ds, vec![0u8, 1, 2, 0, 9]);
    let z = RawAmount::zero();
    assert!(z.to_decimal_digits().is_empty());
    assert!(z.is_zero());
    assert!(!a.is_zero());
}

#[test]
fn addresses_parse_with_and_without_prefix() {
    assert!(parse_address("0xdAC17F958D2ee523a2206206994597C13D831ec7").is_some());
    assert!(parse_address("dAC17F958D2ee523a2206206994597C13D831ec7").is_some());
    assert!(parse_address("0x0000000000000000000000000000000000000001").is_some());
}

#[test]
fn bad_addresses_are_rejected() {
    assert!(parse_address("").is_none());
    assert!(parse_address("0x123").is_none());
    // One character short.
    assert!(parse_address("0xdAC17F958D2ee523a2206206994597C13D831ec").is_none());
    // One character long.
    assert!(parse_address("0xdAC17F958D2ee523a2206206994597C13D831ec77").is_none());
    // 'g' is not a hex digit.
    assert!(parse_address("0xgAC17F958D2ee523a2206206994597C13D831ec7").is_none());
}

#[test]
fn parsed_address_exposes_its_bytes() {
    let a = parse_address("0x0000000000000000000000000000000000000001").unwrap();
    let mut expected = vec![0u8; 19];
    expected.push(1);
    assert_eq!(a.bytes().clone(), expected);
    assert_eq!(a.text(), "0x0000000000000000000000000000000000000001");

    let b = parse_address("0xffFF000000000000000000000000000000000000").unwrap();
    assert_eq!(b.bytes()[0], 0xff);
    assert_eq!(b.bytes()[1], 0xff);
    assert_eq!(b.bytes().len(), 20);
}
