use set_rollup::accumulator::RsaGroup;
use set_rollup::limbs::{nat_to_limbs, pack_public_inputs, SynthesisError};
use set_rollup::natural::Natural;

fn values(limbs: &[Natural]) -> Vec<String> {
    limbs.iter().map(|l| l.to_decimal()).collect()
}

#[test]
fn nat_to_limbs_splits_least_significant_first() {
    let n = Natural::from_u64(0x0003_0002_0001);
    let limbs = nat_to_limbs(&n, 16, 4).unwrap();
    assert_eq!(values(&limbs), vec!["1", "2", "3", "0"]);
}

#[test]
fn nat_to_limbs_with_odd_width() {
    // 0b110_101_011 at three bits per limb
    let n = Natural::from_u64(0b110_101_011);
    let limbs = nat_to_limbs(&n, 3, 3).unwrap();
    assert_eq!(values(&limbs), vec!["3", "5", "6"]);
}

#[test]
fn nat_to_limbs_refuses_what_does_not_fit() {
    let n = Natural::from_u64(256);
    assert_eq!(nat_to_limbs(&n, 4, 2).err(), Some(SynthesisError::Unsatisfiable));
    let limbs = nat_to_limbs(&Natural::from_u64(255), 4, 2).unwrap();
    assert_eq!(values(&limbs), vec!["15", "15"]);
    assert_eq!(
        nat_to_limbs(&Natural::from_u64(1), 8, 0).err(),
        Some(SynthesisError::Unsatisfiable)
    );
    assert!(nat_to_limbs(&Natural::zero(), 8, 0).unwrap().is_empty());
}

#[test]
fn nat_to_limbs_with_wide_limbs() {
    let n = Natural::from_decimal("340282366920938463463374607431768211457").unwrap();
    let limbs = nat_to_limbs(&n, 128, 2).unwrap();
    assert_eq!(values(&limbs), vec!["1", "1"]);
}

#[test]
fn pack_public_inputs_orders_generator_modulus_digest() {
    let group = RsaGroup::new(Natural::from_u64(2), Natural::from_u64(0x0101));
    let digest = Natural::from_u64(0x0207);
    let limbs = pack_public_inputs(&group, &digest, 8, 2).unwrap();
    assert_eq!(values(&limbs), vec!["2", "0", "1", "1", "7", "2"]);
}

#[test]
fn pack_public_inputs_refuses_what_does_not_fit() {
    let group = RsaGroup::new(Natural::from_u64(2), Natural::from_u64(0x1_0000));
    let digest = Natural::from_u64(7);
    assert_eq!(
        pack_public_inputs(&group, &digest, 8, 2).err(),
        Some(SynthesisError::Unsatisfiable)
    );
}
