use set_rollup::export::{
    construct_circuit, generate_bench_params, rsa_2048_group, ELEMENT_SIZE, RSA_SIZE,
};
use set_rollup::limbs::pack_public_inputs;
use set_rollup::natural::Natural;

const RSA_2048: &str = "25195908475657893494027183240048398571429282126204032027777137836043662020707595556264018525880784406918290641249515082189298559149176184502808489120072844992687392807287776735971418347270261896375014971824691165077613379859095700097330459748808428401797429100642458691817195118746121515172654632282216869987549182422433637259085141865462043576798423387184774447920739934236584823824281198163815010674810451660377306056201619676256133844143603833904414952634432190114657544454178424020924616515723350778707749817125772467962926386356373289912154831438167899885040445364023527381951378636564391212010397122822120720357";

#[test]
fn the_group_is_rsa_2048_with_generator_two() {
    let group = rsa_2048_group();
    assert_eq!(group.g.digits, vec![2]);
    assert_eq!(group.m.to_decimal(), RSA_2048);
    assert!(group.m.equals(&Natural::from_decimal(RSA_2048).unwrap()));
}

#[test]
fn bench_params_fix_the_shape() {
    let group = rsa_2048_group();
    let params = generate_bench_params(&group);
    assert_eq!(params.limb_width, 32);
    assert_eq!(params.n_bits_elem, RSA_SIZE);
    assert_eq!(params.n_bits_challenge, 128);
    assert_eq!(params.n_bits_base, 2048);
    assert_eq!(params.item_size, ELEMENT_SIZE);
    assert_eq!(params.n_inserts, 5);
    assert_eq!(params.n_removes, 5);
    assert!(params.group.m.equals(&group.m));
    assert!(params.group.g.equals(&group.g));
}

#[test]
fn the_sample_circuit_has_a_complete_witness() {
    let group = rsa_2048_group();
    let circuit = construct_circuit(&group);
    let inputs = circuit.inputs.as_ref().unwrap();
    assert_eq!(inputs.to_remove.len(), 5);
    assert_eq!(inputs.to_insert.len(), 5);
    assert_eq!(inputs.initial_state.elements.len(), 5);
    let packed = pack_public_inputs(&group, &inputs.final_digest, 32, 64).unwrap();
    assert_eq!(packed.len(), 192);
    assert_eq!(packed[0].digits, vec![2]);
    assert!(packed[1].is_zero());
    assert_eq!(packed[64].digits, vec![group.m.digits[0]]);
    let steps = circuit.synthesize().unwrap();
    assert_eq!(steps.len(), 3 + 10 * 6 + 4);
}

#[test]
fn the_sample_witness_is_built_over_the_group_given() {
    let modulus = "11834783464130424096695514462778870280264989938857328737807205623069291535525952722847913694296392927890261736769191982212777933726583565708193466779811767";
    let group = set_rollup::accumulator::RsaGroup::from_decimal("3", modulus).unwrap();
    let circuit = construct_circuit(&group);
    let inputs = circuit.inputs.as_ref().unwrap();
    assert_eq!(inputs.initial_state.group.g.digits, vec![3]);
    assert!(inputs.initial_state.group.m.equals(&group.m));
    assert!(circuit.params.group.g.equals(&group.g));
    assert!(circuit.params.group.m.equals(&group.m));
    let expected = group.power_all(&group.g, &inputs.initial_state.elements);
    assert!(inputs.initial_state.digest().equals(&expected));
    assert_eq!(circuit.witness_satisfies(), Ok(true));
}
