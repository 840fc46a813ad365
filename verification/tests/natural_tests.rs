use set_rollup::natural::Natural;

#[test]
fn decimal_round_trip() {
    let n = Natural::from_decimal("340282366920938463463374607431768211456").unwrap();
    assert_eq!(n.digits, vec![0, 0, 0, 0, 1]);
    assert_eq!(n.to_decimal(), "340282366920938463463374607431768211456");
}

#[test]
fn decimal_refuses_other_characters() {
    assert!(Natural::from_decimal("").is_none());
    assert!(Natural::from_decimal("+12").is_none());
    assert!(Natural::from_decimal("1_000").is_none());
    assert!(Natural::from_decimal("12a").is_none());
    assert!(Natural::from_decimal("-3").is_none());
}

#[test]
fn decimal_accepts_leading_zeros() {
    let n = Natural::from_decimal("007").unwrap();
    assert_eq!(n.digits, vec![7]);
    assert_eq!(n.to_decimal(), "7");
}

#[test]
fn zero_is_the_empty_digit_vector() {
    assert!(Natural::zero().digits.is_empty());
    assert!(Natural::zero().is_zero());
    assert_eq!(Natural::zero().to_decimal(), "0");
    assert!(Natural::from_decimal("0").unwrap().is_zero());
    assert!(!Natural::from_u64(1).is_zero());
    assert!(Natural { digits: vec![0, 0] }.is_zero());
}

#[test]
fn from_digits_drops_final_zeros() {
    let n = Natural::from_digits(vec![5, 0, 7, 0, 0]);
    assert_eq!(n.digits, vec![5, 0, 7]);
}

#[test]
fn from_u64_splits_into_two_digits() {
    assert_eq!(Natural::from_u64(0x1_0000_0002).digits, vec![2, 1]);
    assert_eq!(Natural::from_u64(u64::MAX).digits, vec![u32::MAX, u32::MAX]);
    assert_eq!(Natural::from_u64(9).digits, vec![9]);
}

#[test]
fn equals_ignores_final_zeros() {
    let a = Natural { digits: vec![5, 0, 0] };
    let b = Natural { digits: vec![5] };
    assert!(a.equals(&b));
    assert!(!a.equals(&Natural { digits: vec![5, 1] }));
    assert!(!a.equals(&Natural { digits: vec![6] }));
}

#[test]
fn modpow_small_values() {
    let base = Natural::from_u64(4);
    let exponent = Natural::from_u64(13);
    let modulus = Natural::from_u64(497);
    assert_eq!(base.modpow(&exponent, &modulus).digits, vec![445]);
}

#[test]
fn modpow_with_zero_exponent_is_one() {
    let base = Natural::from_u64(4);
    let r = base.modpow(&Natural::zero(), &Natural::from_u64(10));
    assert_eq!(r.digits, vec![1]);
    let r = base.modpow(&Natural::zero(), &Natural::from_u64(1));
    assert!(r.is_zero());
}

#[test]
fn bits_round_trip() {
    let n = Natural::from_u64(0b1011);
    let bits = n.to_bits();
    assert_eq!(bits.len(), 32);
    assert_eq!(&bits[..5], &[true, true, false, true, false]);
    assert!(Natural::from_bits(&bits).equals(&n));
    let low = n.low_bits(2);
    assert_eq!(low, vec![true, true]);
    let wide = n.low_bits(40);
    assert_eq!(wide.len(), 40);
    assert!(Natural::from_bits(&wide).equals(&n));
}

#[test]
fn from_bits_groups_by_thirty_two() {
    let mut bits = vec![false; 33];
    bits[0] = true;
    bits[32] = true;
    assert_eq!(Natural::from_bits(&bits).digits, vec![1, 1]);
    assert!(Natural::from_bits(&Vec::new()).is_zero());
}
