use sapling_crypto_ce::bellman::pairing::bn256::{Bn256, Fr, FrRepr};
use sapling_crypto_ce::bellman::pairing::ff::PrimeField;
use sapling_crypto_ce::poseidon::PoseidonHashParams;
use set_rollup::field::{poseidon, PoseidonParams, Scalar};

const MODULUS: &str =
    "21888242871839275222246405745257275088548364400416034343698204186575808495617";

#[test]
fn scalar_from_decimal_reads_canonical_numerals() {
    assert_eq!(Scalar::from_decimal("0").unwrap().limbs, [0, 0, 0, 0]);
    assert_eq!(Scalar::from_decimal("18446744073709551616").unwrap().limbs, [0, 1, 0, 0]);
    assert!(Scalar::from_decimal("").is_none());
    assert!(Scalar::from_decimal("007").is_none());
    assert!(Scalar::from_decimal("00").is_none());
    assert!(Scalar::from_decimal("1a").is_none());
    assert!(Scalar::from_decimal("+1").is_none());
}

#[test]
fn scalar_from_decimal_reduces_modulo_the_order() {
    assert_eq!(Scalar::from_decimal(MODULUS).unwrap().limbs, [0, 0, 0, 0]);
    let next = "21888242871839275222246405745257275088548364400416034343698204186575808495619";
    assert_eq!(Scalar::from_decimal(next).unwrap().limbs, [2, 0, 0, 0]);
}

#[test]
fn scalar_from_limbs_checks_the_order() {
    let modulus = [
        0x43e1_f593_f000_0001u64,
        0x2833_e848_79b9_7091u64,
        0xb850_45b6_8181_585du64,
        0x3064_4e72_e131_a029u64,
    ];
    assert!(Scalar::from_limbs(modulus).is_none());
    let mut below = modulus;
    below[0] -= 1;
    assert_eq!(Scalar::from_limbs(below).unwrap().limbs, below);
    assert!(Scalar::from_limbs([u64::MAX; 4]).is_none());
    assert!(Scalar::from_limbs([u64::MAX, u64::MAX, u64::MAX, 0]).is_some());
}

#[test]
fn scalar_to_natural_keeps_the_number() {
    let s = Scalar::from_decimal("340282366920938463463374607431768211457").unwrap();
    assert_eq!(s.limbs, [1, 0, 1, 0]);
    assert_eq!(s.to_natural().to_decimal(), "340282366920938463463374607431768211457");
    assert_eq!(Scalar::from_u64(77).to_natural().digits, vec![77]);
}

#[test]
fn poseidon_is_a_function_of_its_inputs() {
    let params = PoseidonParams::new();
    let item: Vec<Scalar> = (0..5).map(Scalar::from_u64).collect();
    let a = poseidon(&params, &item).unwrap();
    let b = poseidon(&PoseidonParams::new(), &item).unwrap();
    assert_eq!(a.limbs, b.limbs);
    let other: Vec<Scalar> = (1..6).map(Scalar::from_u64).collect();
    let c = poseidon(&params, &other).unwrap();
    assert_ne!(a.limbs, c.limbs);
    assert!(item.iter().all(|x| x.limbs != a.limbs));
    assert!(Scalar::from_limbs(a.limbs).is_some());
}

#[test]
fn poseidon_refuses_limbs_outside_the_field() {
    let params = PoseidonParams::new();
    let bad = Scalar { limbs: [u64::MAX; 4] };
    assert!(poseidon(&params, &vec![Scalar::from_u64(1), bad]).is_none());
    assert!(poseidon(&params, &Vec::new()).is_some());
}

#[test]
fn the_parameter_set_is_the_standard_one() {
    let shape = PoseidonParams::new().shape();
    assert_eq!((shape.t, shape.r_f, shape.r_p, shape.security_level), (6, 8, 84, 126));
    let outside = sapling_crypto_ce::poseidon::bn256::Bn256PoseidonParams::new::<
        sapling_crypto_ce::group_hash::Keccak256Hasher,
    >();
    assert_eq!(outside.t(), shape.t);
    assert_eq!(outside.r_f(), shape.r_f);
    assert_eq!(outside.r_p(), shape.r_p);
    assert_eq!(outside.security_level(), shape.security_level);
}

#[test]
fn poseidon_is_the_hash_under_the_numbers_of_its_parameter_set() {
    let params = PoseidonParams::new();
    let shape = params.shape();
    let outside = sapling_crypto_ce::poseidon::bn256::Bn256PoseidonParams::new_for_params::<
        sapling_crypto_ce::group_hash::Keccak256Hasher,
    >(shape.t, shape.r_f, shape.r_p, shape.security_level);
    let item: Vec<Scalar> = (0..5).map(Scalar::from_u64).collect();
    let elements: Vec<Fr> =
        item.iter().map(|s| Fr::from_repr(FrRepr(s.limbs)).unwrap()).collect();
    let expected = sapling_crypto_ce::poseidon::poseidon_hash::<Bn256>(&outside, &elements);
    assert_eq!(expected.len(), 1);
    assert_eq!(poseidon(&params, &item).unwrap().limbs, expected[0].into_repr().0);
}
