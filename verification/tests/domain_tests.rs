use set_rollup::domain::{embed, hash_to_rsa_element, HashDomain};
use set_rollup::field::{poseidon, PoseidonParams, Scalar};
use set_rollup::natural::Natural;

#[test]
fn embed_forces_the_low_bits() {
    // stream 5 = 0b101; six free bits above two ones: 3 + 4 * 5
    let domain = HashDomain { n_bits: 8, n_trailing_ones: 2 };
    let element = embed(&vec![Scalar::from_u64(5)], &domain);
    assert_eq!(element.digits, vec![23]);
}

#[test]
fn embed_cuts_the_stream_to_the_free_bits() {
    // stream 0xff cut to two bits is 3: 3 + 4 * 3
    let domain = HashDomain { n_bits: 4, n_trailing_ones: 2 };
    let element = embed(&vec![Scalar::from_u64(0xff)], &domain);
    assert_eq!(element.digits, vec![15]);
}

#[test]
fn embed_joins_chunks_at_253_bits() {
    // the second chunk starts at bit 253 of the stream, bit 254 of the element
    let domain = HashDomain { n_bits: 256, n_trailing_ones: 1 };
    let element = embed(&vec![Scalar::from_u64(0), Scalar::from_u64(1)], &domain);
    let mut bits = vec![false; 256];
    bits[0] = true;
    bits[254] = true;
    assert!(element.equals(&Natural::from_bits(&bits)));
}

#[test]
fn embed_with_no_free_bits_is_all_ones() {
    let domain = HashDomain { n_bits: 3, n_trailing_ones: 3 };
    assert_eq!(embed(&vec![Scalar::from_u64(0)], &domain).digits, vec![7]);
    let empty = HashDomain { n_bits: 0, n_trailing_ones: 0 };
    assert!(embed(&Vec::new(), &empty).is_zero());
}

#[test]
fn hash_to_rsa_element_is_deterministic_and_in_the_domain() {
    let item: Vec<Scalar> = (0..5).map(Scalar::from_u64).collect();
    let domain = HashDomain { n_bits: 128, n_trailing_ones: 1 };
    let a = hash_to_rsa_element(&item, &domain, &PoseidonParams::new()).unwrap();
    let b = hash_to_rsa_element(&item, &domain, &PoseidonParams::new()).unwrap();
    assert!(a.equals(&b));
    assert!(a.digits.len() <= 4);
    assert_eq!(a.digits[0] & 1, 1);
}

#[test]
fn hash_to_rsa_element_takes_the_hash_as_its_stream() {
    let item: Vec<Scalar> = (0..5).map(Scalar::from_u64).collect();
    let domain = HashDomain { n_bits: 128, n_trailing_ones: 1 };
    let element = hash_to_rsa_element(&item, &domain, &PoseidonParams::new()).unwrap();
    let chunk = poseidon(&PoseidonParams::new(), &item).unwrap();
    assert!(element.equals(&embed(&vec![chunk], &domain)));
}

#[test]
fn hash_to_rsa_element_chains_hashes_for_long_elements() {
    let item: Vec<Scalar> = (0..5).map(Scalar::from_u64).collect();
    let domain = HashDomain { n_bits: 600, n_trailing_ones: 3 };
    let element = hash_to_rsa_element(&item, &domain, &PoseidonParams::new()).unwrap();
    let first = poseidon(&PoseidonParams::new(), &item).unwrap();
    let second = poseidon(&PoseidonParams::new(), &vec![first]).unwrap();
    let third = poseidon(&PoseidonParams::new(), &vec![second]).unwrap();
    assert!(element.equals(&embed(&vec![first, second, third], &domain)));
    assert_eq!(element.digits[0] & 7, 7);
    assert!(element.digits.len() <= 19);
    let bits = element.to_bits();
    assert!(bits[600..].iter().all(|b| !*b));
}

#[test]
fn hash_to_rsa_element_differs_between_items() {
    let domain = HashDomain { n_bits: 128, n_trailing_ones: 1 };
    let a: Vec<Scalar> = [0u64, 1, 2, 3, 4].iter().map(|v| Scalar::from_u64(*v)).collect();
    let b: Vec<Scalar> = [0u64, 1, 2, 3, 5].iter().map(|v| Scalar::from_u64(*v)).collect();
    let ea = hash_to_rsa_element(&a, &domain, &PoseidonParams::new()).unwrap();
    let eb = hash_to_rsa_element(&b, &domain, &PoseidonParams::new()).unwrap();
    assert!(!ea.equals(&eb));
}

#[test]
fn hash_to_rsa_element_refuses_bad_domains_and_scalars() {
    let item = vec![Scalar::from_u64(1)];
    let bad_domain = HashDomain { n_bits: 1, n_trailing_ones: 2 };
    assert!(hash_to_rsa_element(&item, &bad_domain, &PoseidonParams::new()).is_none());
    let domain = HashDomain { n_bits: 128, n_trailing_ones: 1 };
    let bad_item = vec![Scalar { limbs: [u64::MAX; 4] }];
    assert!(hash_to_rsa_element(&bad_item, &domain, &PoseidonParams::new()).is_none());
}
