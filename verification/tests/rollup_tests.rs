use set_rollup::accumulator::{RsaGroup, SetBackend};
use set_rollup::domain::{hash_to_rsa_element, HashDomain};
use set_rollup::field::{PoseidonParams, Scalar};
use set_rollup::limbs::SynthesisError;
use set_rollup::natural::Natural;
use set_rollup::rollup::{
    challenge, generate_items, grab, hash_items, item_steps, ItemKind, Rollup, RollupInputs,
    RollupParams, Step,
};

const RSA_512: &str = "11834783464130424096695514462778870280264989938857328737807205623069291535525952722847913694296392927890261736769191982212777933726583565708193466779811767";

fn group() -> RsaGroup {
    RsaGroup {
        g: Natural::from_u64(2),
        m: Natural::from_decimal(RSA_512).unwrap(),
    }
}

fn item(values: [&str; 5]) -> Vec<String> {
    values.iter().map(|s| s.to_string()).collect()
}

fn params(n_removes: usize, n_inserts: usize) -> RollupParams {
    RollupParams {
        group: group(),
        limb_width: 32,
        n_bits_elem: 128,
        n_bits_challenge: 128,
        n_bits_base: 512,
        item_size: 5,
        n_inserts,
        n_removes,
        hash: PoseidonParams::new(),
    }
}

fn one_swap() -> RollupInputs {
    RollupInputs::new(
        Vec::new(),
        vec![item(["0", "1", "2", "3", "4"])],
        vec![item(["0", "1", "2", "3", "5"])],
        &PoseidonParams::new(),
        128,
        group(),
    )
}

fn shape_of(step: &Step) -> String {
    match step {
        Step::Group { limb_width, n_limbs, .. } => format!("group {} {}", limb_width, n_limbs),
        Step::Challenge { limb_width, n_limbs, .. } => {
            format!("challenge {} {}", limb_width, n_limbs)
        }
        Step::SetInit { .. } => "set init".to_string(),
        Step::ItemValue { kind, item, position, .. } => {
            format!("value {:?} {} {}", kind, item, position)
        }
        Step::ItemHash { kind, item, limb_width, domain } => format!(
            "hash {:?} {} {} {} {}",
            kind, item, limb_width, domain.n_bits, domain.n_trailing_ones
        ),
        Step::Remove => "remove".to_string(),
        Step::Insert => "insert".to_string(),
        Step::ExpectedDigest { limb_width, n_limbs, .. } => {
            format!("expected_digest {} {}", limb_width, n_limbs)
        }
        Step::Check => "check".to_string(),
    }
}

#[test]
fn small_rsa_1_swap() {
    let circuit = Rollup { inputs: Some(one_swap()), params: params(1, 1) };
    assert_eq!(circuit.witness_satisfies(), Ok(true));
    let steps = circuit.synthesize().expect("synthesis failed");
    assert_eq!(steps.len(), 19);
}

#[test]
fn removing_an_item_that_was_never_a_member_is_unsatisfiable() {
    let mut inputs = one_swap();
    inputs.initial_state = SetBackend::new(group());
    let circuit = Rollup { inputs: Some(inputs), params: params(1, 1) };
    assert_eq!(circuit.witness_satisfies(), Ok(false));
    assert!(circuit.synthesize().is_ok());
}

#[test]
fn a_wrong_final_digest_is_unsatisfiable() {
    let mut inputs = one_swap();
    inputs.final_digest = Natural::from_u64(12345);
    let circuit = Rollup { inputs: Some(inputs), params: params(1, 1) };
    assert_eq!(circuit.witness_satisfies(), Ok(false));
}

#[test]
fn new_builds_the_set_and_the_final_digest() {
    let inputs = RollupInputs::new(
        vec![item(["9", "9", "9", "9", "9"])],
        vec![item(["0", "1", "2", "3", "4"])],
        vec![item(["0", "1", "2", "3", "5"])],
        &PoseidonParams::new(),
        128,
        group(),
    );
    let domain = HashDomain { n_bits: 128, n_trailing_ones: 1 };
    let scalars = |v: [u64; 5]| v.iter().map(|x| Scalar::from_u64(*x)).collect::<Vec<Scalar>>();
    let untouched = hash_to_rsa_element(&scalars([9, 9, 9, 9, 9]), &domain, &PoseidonParams::new()).unwrap();
    let removed = hash_to_rsa_element(&scalars([0, 1, 2, 3, 4]), &domain, &PoseidonParams::new()).unwrap();
    let inserted = hash_to_rsa_element(&scalars([0, 1, 2, 3, 5]), &domain, &PoseidonParams::new()).unwrap();
    assert_eq!(inputs.initial_state.elements.len(), 2);
    assert!(inputs.initial_state.elements[0].equals(&untouched));
    assert!(inputs.initial_state.elements[1].equals(&removed));
    let g = group();
    let expected = g.g.modpow(&untouched, &g.m).modpow(&inserted, &g.m);
    assert!(inputs.final_digest.equals(&expected));
    assert_eq!(inputs.to_remove.len(), 1);
    assert_eq!(inputs.to_remove[0].len(), 5);
    assert_eq!(inputs.to_remove[0][4].limbs, [4, 0, 0, 0]);
    assert_eq!(inputs.to_insert[0][4].limbs, [5, 0, 0, 0]);
    let circuit = Rollup { inputs: Some(inputs), params: params(1, 1) };
    assert_eq!(circuit.witness_satisfies(), Ok(true));
}

#[test]
fn generated_items_are_labelled_by_index_and_position() {
    let items = generate_items(2, 3);
    assert_eq!(items.len(), 2);
    assert_eq!(items[0], vec!["1000000000", "1000000001", "1000000002"]);
    assert_eq!(items[1], vec!["1000001000", "1000001001", "1000001002"]);
    assert!(generate_items(0, 3).is_empty());
    assert_eq!(generate_items(1, 0), vec![Vec::<String>::new()]);
}

#[test]
fn from_counts_is_new_on_generated_items() {
    let hash = PoseidonParams::new();
    let a = RollupInputs::from_counts(1, 2, 2, 5, &hash, 128, group());
    let b = RollupInputs::new(
        generate_items(1, 5),
        generate_items(2, 5),
        generate_items(2, 5),
        &hash,
        128,
        group(),
    );
    assert_eq!(a.initial_state.elements.len(), 3);
    assert!(a.final_digest.equals(&b.final_digest));
    assert_eq!(a.to_remove.len(), 2);
    assert_eq!(a.to_insert.len(), 2);
    assert_eq!(a.to_remove[1][2].limbs, [1000001002, 0, 0, 0]);
    for (x, y) in a.initial_state.elements.iter().zip(b.initial_state.elements.iter()) {
        assert!(x.equals(y));
    }
}

#[test]
fn shape_does_not_depend_on_the_witness() {
    let with_witness = Rollup { inputs: Some(one_swap()), params: params(1, 1) };
    let other = RollupInputs::new(
        vec![item(["7", "7", "7", "7", "7"])],
        vec![item(["10", "11", "12", "13", "14"])],
        vec![item(["20", "21", "22", "23", "24"])],
        &PoseidonParams::new(),
        128,
        group(),
    );
    let other_witness = Rollup { inputs: Some(other), params: params(1, 1) };
    let shape_only = Rollup { inputs: None, params: params(1, 1) };
    let a: Vec<String> = with_witness.synthesize().unwrap().iter().map(shape_of).collect();
    let b: Vec<String> = other_witness.synthesize().unwrap().iter().map(shape_of).collect();
    let c: Vec<String> = shape_only.synthesize().unwrap().iter().map(shape_of).collect();
    assert_eq!(a, b);
    assert_eq!(a, c);
    assert_eq!(
        a,
        vec![
            "group 32 16",
            "challenge 32 4",
            "set init",
            "value Removal 0 0",
            "value Removal 0 1",
            "value Removal 0 2",
            "value Removal 0 3",
            "value Removal 0 4",
            "hash Removal 0 32 128 1",
            "value Insertion 0 0",
            "value Insertion 0 1",
            "value Insertion 0 2",
            "value Insertion 0 3",
            "value Insertion 0 4",
            "hash Insertion 0 32 128 1",
            "remove",
            "insert",
            "expected_digest 32 16",
            "check",
        ]
    );
}

#[test]
fn synthesize_carries_the_witness_values() {
    let inputs = one_swap();
    let digest = inputs.final_digest.duplicate();
    let circuit = Rollup { inputs: Some(inputs), params: params(1, 1) };
    let steps = circuit.synthesize().unwrap();
    match &steps[0] {
        Step::Group { g, m, .. } => {
            assert_eq!(g.digits, vec![2]);
            assert_eq!(m.to_decimal(), RSA_512);
        }
        _ => panic!("the first step allocates the group"),
    }
    match &steps[1] {
        Step::Challenge { number, .. } => {
            assert_eq!(number.to_decimal(), "274481455456098291870407972073878126369");
        }
        _ => panic!("the second step allocates the challenge"),
    }
    match &steps[2] {
        Step::SetInit { state } => assert_eq!(state.as_ref().unwrap().elements.len(), 1),
        _ => panic!("the third step allocates the set"),
    }
    match &steps[7] {
        Step::ItemValue { kind, item, position, value } => {
            assert_eq!(*kind, ItemKind::Removal);
            assert_eq!((*item, *position), (0, 4));
            assert_eq!(value.unwrap().limbs, [4, 0, 0, 0]);
        }
        _ => panic!("the eighth step allocates a value"),
    }
    match &steps[13] {
        Step::ItemValue { kind, value, .. } => {
            assert_eq!(*kind, ItemKind::Insertion);
            assert_eq!(value.unwrap().limbs, [5, 0, 0, 0]);
        }
        _ => panic!("the fourteenth step allocates a value"),
    }
    match &steps[17] {
        Step::ExpectedDigest { digest: claimed, .. } => {
            assert!(claimed.as_ref().unwrap().equals(&digest));
        }
        _ => panic!("the last but one step allocates the digest"),
    }
}

#[test]
fn shape_only_steps_carry_no_values() {
    let circuit = Rollup { inputs: None, params: params(2, 1) };
    let steps = circuit.synthesize().unwrap();
    assert_eq!(steps.len(), 3 + 2 * 6 + 6 + 4);
    for step in &steps {
        match step {
            Step::SetInit { state } => assert!(state.is_none()),
            Step::ItemValue { value, .. } => assert!(value.is_none()),
            Step::ExpectedDigest { digest, .. } => assert!(digest.is_none()),
            _ => {}
        }
    }
}

#[test]
fn a_witness_that_lacks_a_value_is_refused() {
    let circuit = Rollup { inputs: Some(one_swap()), params: params(2, 1) };
    assert_eq!(circuit.witness_satisfies(), Err(SynthesisError::AssignmentMissing));
    assert_eq!(circuit.synthesize().err(), Some(SynthesisError::AssignmentMissing));
    let mut short = one_swap();
    short.to_insert[0].pop();
    let circuit = Rollup { inputs: Some(short), params: params(1, 1) };
    assert_eq!(circuit.synthesize().err(), Some(SynthesisError::AssignmentMissing));
    let none = Rollup { inputs: None, params: params(1, 1) };
    assert_eq!(none.witness_satisfies(), Err(SynthesisError::AssignmentMissing));
}

#[test]
fn item_steps_without_items_has_the_same_shape() {
    let p = params(2, 2);
    let items = vec![
        vec![Scalar::from_u64(1); 5],
        vec![Scalar::from_u64(2); 5],
    ];
    let with = item_steps(Some(&items), ItemKind::Removal, 2, &p).unwrap();
    let without = item_steps(None, ItemKind::Removal, 2, &p).unwrap();
    assert_eq!(with.len(), 12);
    let a: Vec<String> = with.iter().map(shape_of).collect();
    let b: Vec<String> = without.iter().map(shape_of).collect();
    assert_eq!(a, b);
    assert_eq!(
        item_steps(Some(&items), ItemKind::Removal, 3, &p).err(),
        Some(SynthesisError::AssignmentMissing)
    );
}

#[test]
fn hash_items_hashes_each_item() {
    let domain = HashDomain { n_bits: 128, n_trailing_ones: 1 };
    let params = PoseidonParams::new();
    let items = vec![vec![Scalar::from_u64(1)], vec![Scalar::from_u64(2)]];
    let elements = hash_items(&items, &domain, &params);
    assert_eq!(elements.len(), 2);
    assert!(elements[0].equals(&hash_to_rsa_element(&items[0], &domain, &params).unwrap()));
    assert!(elements[1].equals(&hash_to_rsa_element(&items[1], &domain, &params).unwrap()));
    assert!(hash_items(&Vec::new(), &domain, &params).is_empty());
}

#[test]
fn challenge_is_the_fixed_number() {
    assert_eq!(challenge().to_decimal(), "274481455456098291870407972073878126369");
}

#[test]
fn a_witness_from_counts_is_satisfied() {
    let hash = PoseidonParams::new();
    let inputs = RollupInputs::from_counts(0, 2, 2, 5, &hash, 128, group());
    let circuit = Rollup { inputs: Some(inputs), params: params(2, 2) };
    assert_eq!(circuit.witness_satisfies(), Ok(true));
}

#[test]
fn grab_hands_out_the_value_or_the_missing_error() {
    let some: Option<u32> = Some(7);
    let none: Option<u32> = None;
    assert_eq!(grab(&some), Ok(&7));
    assert_eq!(grab(&none), Err(SynthesisError::AssignmentMissing));
}

#[test]
fn only_the_group_and_the_claimed_digest_are_public_inputs() {
    let circuit = Rollup { inputs: Some(one_swap()), params: params(1, 1) };
    let steps = circuit.synthesize().unwrap();
    let public: Vec<usize> =
        (0..steps.len()).filter(|k| steps[*k].is_public_input()).collect();
    assert_eq!(public, vec![0, steps.len() - 2]);
    assert!(matches!(steps[0], Step::Group { n_limbs: 16, .. }));
    assert!(matches!(steps[steps.len() - 2], Step::ExpectedDigest { n_limbs: 16, .. }));
    let shape_only = Rollup { inputs: None, params: params(2, 3) };
    let steps = shape_only.synthesize().unwrap();
    let public: Vec<usize> =
        (0..steps.len()).filter(|k| steps[*k].is_public_input()).collect();
    assert_eq!(public, vec![0, steps.len() - 2]);
}

#[test]
fn from_elements_takes_the_elements_as_they_are_given() {
    let n = Natural::from_u64;
    let small = RsaGroup { g: n(2), m: n(3233) };
    let to_remove = vec![vec![Scalar::from_u64(1)], vec![Scalar::from_u64(2)]];
    let to_insert = vec![vec![Scalar::from_u64(3)]];
    let inputs = RollupInputs::from_elements(
        vec![n(3)],
        vec![n(5), n(7)],
        vec![n(11)],
        to_remove,
        to_insert,
        small,
    );
    let members: Vec<Vec<u32>> =
        inputs.initial_state.elements.iter().map(|e| e.digits.clone()).collect();
    assert_eq!(members, vec![vec![3], vec![5], vec![7]]);
    // 2^33 mod 3233
    assert_eq!(inputs.final_digest.digits, vec![2310]);
    assert_eq!(inputs.to_remove.len(), 2);
    assert_eq!(inputs.to_remove[1][0].limbs, [2, 0, 0, 0]);
    assert_eq!(inputs.to_insert[0][0].limbs, [3, 0, 0, 0]);
    assert_eq!(inputs.initial_state.group.m.digits, vec![3233]);
}

#[test]
fn elements_satisfy_decides_by_the_elements_handed_in() {
    let n = Natural::from_u64;
    let small = RsaGroup { g: n(2), m: n(3233) };
    let inputs = RollupInputs::from_elements(
        vec![n(3)],
        vec![n(5), n(7)],
        vec![n(11)],
        Vec::new(),
        Vec::new(),
        RsaGroup { g: n(2), m: n(3233) },
    );
    assert!(inputs.elements_satisfy(&small, &vec![n(5), n(7)], &vec![n(11)]));
    assert!(inputs.elements_satisfy(&small, &vec![n(7), n(5)], &vec![n(11)]));
    assert!(!inputs.elements_satisfy(&small, &vec![n(5), n(7)], &vec![n(13)]));
    assert!(!inputs.elements_satisfy(&small, &vec![n(5), n(9)], &vec![n(11)]));
    let other = RsaGroup { g: n(2), m: n(3127) };
    assert!(!inputs.elements_satisfy(&other, &vec![n(5), n(7)], &vec![n(11)]));
}
