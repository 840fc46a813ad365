use set_rollup::accumulator::{check_transition, RsaGroup, SetBackend};
use set_rollup::natural::Natural;

fn n(value: u64) -> Natural {
    Natural::from_u64(value)
}

fn small_group() -> RsaGroup {
    // 3233 = 61 * 53
    RsaGroup::new(n(2), n(3233))
}

#[test]
fn digest_of_empty_set_is_the_generator() {
    let set = SetBackend::new(small_group());
    assert_eq!(set.digest().digits, vec![2]);
}

#[test]
fn digest_is_generator_to_the_product() {
    let set = SetBackend::new_with(small_group(), vec![n(3), n(5), n(7)]);
    // 2^105 mod 3233
    let expected = n(2).modpow(&n(105), &n(3233));
    assert!(set.digest().equals(&expected));
    assert_eq!(set.digest().digits, vec![2917]);
}

#[test]
fn power_all_multiplies_exponents() {
    let group = small_group();
    let r = group.power_all(&n(7), &vec![n(2), n(3)]);
    // 7^6 = 117649 = 36 * 3233 + 1261
    assert_eq!(r.digits, vec![1261]);
}

#[test]
fn remove_takes_the_first_occurrence() {
    let mut set = SetBackend::new_with(small_group(), vec![n(3), n(5), n(3)]);
    assert!(set.remove(&n(3)));
    assert_eq!(set.elements.len(), 2);
    assert_eq!(set.elements[0].digits, vec![5]);
    assert_eq!(set.elements[1].digits, vec![3]);
    assert!(!set.remove(&n(11)));
    assert_eq!(set.elements.len(), 2);
}

#[test]
fn insert_adds_an_occurrence() {
    let mut set = SetBackend::new(small_group());
    set.insert(n(3));
    set.insert(n(3));
    assert_eq!(set.elements.len(), 2);
    // 2^9 mod 3233
    assert_eq!(set.digest().digits, vec![512]);
}

#[test]
fn remove_all_reports_missing_members() {
    let mut set = SetBackend::new_with(small_group(), vec![n(3), n(5)]);
    assert!(!set.remove_all(&vec![n(5), n(7)]));
    assert_eq!(set.elements.len(), 1);
    assert_eq!(set.elements[0].digits, vec![3]);
    let mut other = SetBackend::new_with(small_group(), vec![n(3), n(5)]);
    assert!(other.remove_all(&vec![n(5), n(3)]));
    assert!(other.elements.is_empty());
}

#[test]
fn transition_accepts_the_honest_digest_only() {
    let group = small_group();
    let untouched = vec![n(3), n(5)];
    let removed = vec![n(7), n(11)];
    let inserted = vec![n(13)];
    let initial = group.power_all(&group.g, &vec![n(3), n(5), n(7), n(11)]);
    let reduced = group.power_all(&group.g, &untouched);
    let honest = group.power_all(&group.g, &vec![n(3), n(5), n(13)]);
    assert!(check_transition(&group, &initial, &reduced, &removed, &inserted, &honest));
    let other = n(honest.digits[0] as u64 + 1);
    assert!(!check_transition(&group, &initial, &reduced, &removed, &inserted, &other));
}

#[test]
fn transition_rejects_a_wrong_reduced_digest() {
    let group = small_group();
    let removed = vec![n(7)];
    let inserted = vec![n(13)];
    let initial = group.power_all(&group.g, &vec![n(3), n(7)]);
    // the prover keeps the initial digest as the reduced one
    let claimed = group.power_all(&initial, &inserted);
    assert!(!check_transition(&group, &initial, &initial, &removed, &inserted, &claimed));
}

#[test]
fn duplicate_keeps_members_and_group() {
    let set = SetBackend::new_with(small_group(), vec![n(3), n(5)]);
    let copy = set.duplicate();
    assert_eq!(copy.elements.len(), 2);
    assert!(copy.digest().equals(&set.digest()));
    assert!(copy.group.m.equals(&set.group.m));
}

#[test]
fn group_from_decimal_refuses_malformed_numbers() {
    let group = RsaGroup::from_decimal("2", "3233").unwrap();
    assert_eq!(group.g.digits, vec![2]);
    assert_eq!(group.m.digits, vec![3233]);
    assert!(RsaGroup::from_decimal("2", "32x3").is_none());
    assert!(RsaGroup::from_decimal("", "3233").is_none());
    assert!(RsaGroup::from_decimal("2", "").is_none());
    assert!(RsaGroup::from_decimal("2", "0").is_none());
    assert!(RsaGroup::from_decimal("2", "000").is_none());
    assert!(RsaGroup::from_decimal("0", "7").is_some());
}
