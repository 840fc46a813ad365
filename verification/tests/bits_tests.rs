use set_rollup::bits::{digit_bits, fit_bits, word_from_bits};

#[test]
fn digit_bits_are_least_significant_first() {
    let bits = digit_bits(6);
    assert_eq!(bits.len(), 32);
    assert_eq!(&bits[..4], &[false, true, true, false]);
    assert!(bits[4..].iter().all(|b| !*b));
    assert!(digit_bits(u32::MAX).iter().all(|b| *b));
}

#[test]
fn word_from_bits_reads_a_window() {
    let bits = vec![true, false, true, true, false, true];
    assert_eq!(word_from_bits(&bits, 0, 6), 0b101101);
    assert_eq!(word_from_bits(&bits, 2, 3), 0b011);
    assert_eq!(word_from_bits(&bits, 6, 0), 0);
    let ones = vec![true; 64];
    assert_eq!(word_from_bits(&ones, 0, 64), u64::MAX);
}

#[test]
fn fit_bits_cuts_and_pads() {
    let bits = vec![true, false, true];
    assert_eq!(fit_bits(bits.clone(), 2), vec![true, false]);
    assert_eq!(fit_bits(bits.clone(), 5), vec![true, false, true, false, false]);
    assert_eq!(fit_bits(bits, 3), vec![true, false, true]);
}
