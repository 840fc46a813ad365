use set_rollup::text::zero_padded;

#[test]
fn zero_padded_pads_to_the_width() {
    assert_eq!(zero_padded(7, 3), "007");
    assert_eq!(zero_padded(0, 3), "000");
    assert_eq!(zero_padded(42, 6), "000042");
    assert_eq!(zero_padded(0, 0), "0");
    assert_eq!(zero_padded(0, 1), "0");
}

#[test]
fn zero_padded_keeps_longer_numerals() {
    assert_eq!(zero_padded(1234, 3), "1234");
    assert_eq!(zero_padded(1000000, 6), "1000000");
    assert_eq!(zero_padded(usize::MAX, 3), format!("{}", usize::MAX));
}
