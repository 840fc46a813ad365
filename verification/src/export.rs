//! The fixed shape and the sample witness of the export run: a 2048-bit
//! group, items of five values, five removals and five insertions.

use vstd::prelude::*;
use vstd::arithmetic::power2::pow2;
use crate::accumulator::{RsaGroup, values_of};
use crate::field::{PoseidonParams, scalar_rows, standard_shape};
use crate::limbs::{SynthesisError, limbs_of, pack_public_inputs};
use crate::natural::{Natural, digits_value, lemma_nonzero_digit};
use crate::rollup::{
    Rollup,
    RollupInputs,
    RollupParams,
    built_from,
    generated,
    parsed_item,
    witness_complete,
};
use crate::witness::lemma_built_witness_accepted;

verus! {

/// The bit length of the modulus, and of the elements of the domain.
pub const RSA_SIZE: usize = 2048;

/// The number of values of an item.
pub const ELEMENT_SIZE: usize = 5;

/// The number of removals, and of insertions, of the shape.
pub const N_SWAPS: usize = 5;

/// The width of a limb.
pub const LIMB_WIDTH: usize = 32;

/// The digits of the RSA-2048 challenge number, least significant first.
pub open spec fn rsa_2048_digit_seq() -> Seq<u32> {
    seq![
        0x361c_c7e5u32, 0x399d_48c6u32, 0x17f7_bc16u32, 0x33a5_eb68u32,
        0x54c8_24e7u32, 0xcc30_f950u32, 0x1728_66bcu32, 0x31f5_5615u32,
        0xfc0f_1b31u32, 0x721f_24a3u32, 0xd9d3_73d8u32, 0xe56b_16a4u32,
        0x3c3b_7923u32, 0x4c61_dc5bu32, 0x6429_20f2u32, 0xbc72_9592u32,
        0x25bd_ad32u32, 0x872c_9095u32, 0x6a95_ad65u32, 0x609f_10acu32,
        0xdc80_cd05u32, 0xcb18_13adu32, 0xf853_34b5u32, 0xf613_5809u32,
        0xa37d_5159u32, 0xeb95_5f3eu32, 0x439d_e66cu32, 0x3f44_2709u32,
        0x89d6_4d37u32, 0x02c4_79afu32, 0xd26c_66fcu32, 0xf7e8_daefu32,
        0xbdef_524au32, 0xbe35_f592u32, 0xc4d7_30bbu32, 0x8eb9_91c2u32,
        0x6731_64bau32, 0x781b_e4d1u32, 0xb51f_7bfdu32, 0xb4f1_4a04u32,
        0x8003_9f35u32, 0xd40e_a33cu32, 0xcf5e_8592u32, 0x46eb_09c7u32,
        0xc933_84b6u32, 0x44b4_b6ffu32, 0x7765_ff8bu32, 0xa31f_5b0bu32,
        0x648c_2813u32, 0xa041_07f0u32, 0xc2ac_de32u32, 0x721a_eeacu32,
        0x6500_11bdu32, 0xc72f_93d1u32, 0x1ea1_189eu32, 0x7ff0_db8eu32,
        0x3550_bb5bu32, 0xa872_6f46u32, 0xc790_f5f1u32, 0x7391_1081u32,
        0x7aa6_13cdu32, 0x4490_201au32, 0xdcc3_b075u32, 0xc797_0ceeu32,
    ]
}

/// The digits of the RSA-2048 challenge number, least significant first.
pub fn rsa_2048_digits() -> (r: Vec<u32>)
    ensures
        r@ == rsa_2048_digit_seq(),
        digits_value(r@) > 0,
{
    let digits: Vec<u32> = vec![
        0x361c_c7e5u32, 0x399d_48c6u32, 0x17f7_bc16u32, 0x33a5_eb68u32,
        0x54c8_24e7u32, 0xcc30_f950u32, 0x1728_66bcu32, 0x31f5_5615u32,
        0xfc0f_1b31u32, 0x721f_24a3u32, 0xd9d3_73d8u32, 0xe56b_16a4u32,
        0x3c3b_7923u32, 0x4c61_dc5bu32, 0x6429_20f2u32, 0xbc72_9592u32,
        0x25bd_ad32u32, 0x872c_9095u32, 0x6a95_ad65u32, 0x609f_10acu32,
        0xdc80_cd05u32, 0xcb18_13adu32, 0xf853_34b5u32, 0xf613_5809u32,
        0xa37d_5159u32, 0xeb95_5f3eu32, 0x439d_e66cu32, 0x3f44_2709u32,
        0x89d6_4d37u32, 0x02c4_79afu32, 0xd26c_66fcu32, 0xf7e8_daefu32,
        0xbdef_524au32, 0xbe35_f592u32, 0xc4d7_30bbu32, 0x8eb9_91c2u32,
        0x6731_64bau32, 0x781b_e4d1u32, 0xb51f_7bfdu32, 0xb4f1_4a04u32,
        0x8003_9f35u32, 0xd40e_a33cu32, 0xcf5e_8592u32, 0x46eb_09c7u32,
        0xc933_84b6u32, 0x44b4_b6ffu32, 0x7765_ff8bu32, 0xa31f_5b0bu32,
        0x648c_2813u32, 0xa041_07f0u32, 0xc2ac_de32u32, 0x721a_eeacu32,
        0x6500_11bdu32, 0xc72f_93d1u32, 0x1ea1_189eu32, 0x7ff0_db8eu32,
        0x3550_bb5bu32, 0xa872_6f46u32, 0xc790_f5f1u32, 0x7391_1081u32,
        0x7aa6_13cdu32, 0x4490_201au32, 0xdcc3_b075u32, 0xc797_0ceeu32,
    ];
    proof {
        assert(digits@ =~= rsa_2048_digit_seq());
        lemma_nonzero_digit(digits@, 0);
    }
    digits
}

/// The group of the export run: generator 2, and the RSA-2048 challenge
/// number as modulus.
pub fn rsa_2048_group() -> (r: RsaGroup)
    ensures
        r.wf(),
        r.g@ == 2,
        r.m.digits@ == rsa_2048_digit_seq(),
        r.g.digits@.len() <= 2,
{
    let g = Natural::from_u64(2);
    let m = Natural { digits: rsa_2048_digits() };
    RsaGroup { g, m }
}

/// The shape of the export run over `group`.
pub fn generate_bench_params(group: &RsaGroup) -> (r: RollupParams)
    ensures
        r.group.g@ == group.g@,
        r.group.m@ == group.m@,
        r.group.wf() == group.wf(),
        r.limb_width == 32,
        r.n_bits_elem == 2048,
        r.n_bits_challenge == 128,
        r.n_bits_base == 2048,
        r.item_size == 5,
        r.n_inserts == 5,
        r.n_removes == 5,
        r.hash@ == standard_shape(),
{
    let n_swaps: usize = N_SWAPS;
    RollupParams {
        group: group.duplicate(),
        limb_width: LIMB_WIDTH,
        n_bits_elem: RSA_SIZE,
        n_bits_challenge: 128,
        n_bits_base: RSA_SIZE,
        item_size: ELEMENT_SIZE,
        n_inserts: n_swaps,
        n_removes: n_swaps,
        hash: PoseidonParams::new(),
    }
}

/// The circuit of the export run with its sample witness: over `group`, a
/// set of the generated items that leave, and as many generated items that
/// enter. The witness is one that the circuit accepts.
pub fn construct_circuit(group: &RsaGroup) -> (r: Rollup)
    requires
        group.wf(),
    ensures
        r.wf(),
        r.params.group.g@ == group.g@,
        r.params.group.m@ == group.m@,
        r.params.limb_width == 32,
        r.params.n_bits_elem == 2048,
        r.params.n_bits_challenge == 128,
        r.params.n_bits_base == 2048,
        r.params.item_size == 5,
        r.params.n_inserts == 5,
        r.params.n_removes == 5,
        r.params.hash@ == standard_shape(),
        r.inputs matches Some(w) && witness_complete(w, r.params.key())
            && w.initial_state.group.g@ == group.g@ && w.initial_state.group.m@ == group.m@
            && exists|removed: Seq<Vec<String>>, inserted: Seq<Vec<String>>|
            {
                &&& generated(removed, 5, 5)
                &&& generated(inserted, 5, 5)
                &&& #[trigger] built_from(
                    w,
                    Seq::empty(),
                    removed,
                    inserted,
                    2048,
                    *group,
                    standard_shape(),
                )
            },
        r.accepts(),
{
    let params = generate_bench_params(group);
    let over = group.duplicate();
    let ghost witness_group = over;
    let inputs = RollupInputs::from_counts(
        0,
        params.n_removes,
        params.n_inserts,
        ELEMENT_SIZE,
        &params.hash,
        RSA_SIZE,
        over,
    );
    let r = Rollup { inputs: Some(inputs), params };
    proof {
        let w = r.inputs.unwrap();
        let (untouched, removed, inserted) = choose|
            untouched: Seq<Vec<String>>,
            removed: Seq<Vec<String>>,
            inserted: Seq<Vec<String>>,
        |
            {
                &&& generated(untouched, 0, 5)
                &&& generated(removed, 5, 5)
                &&& generated(inserted, 5, 5)
                &&& #[trigger] built_from(
                    w,
                    untouched,
                    removed,
                    inserted,
                    RSA_SIZE,
                    witness_group,
                    standard_shape(),
                )
            };
        assert(untouched =~= Seq::empty());
        assert(built_from(w, Seq::empty(), removed, inserted, 2048, *group, standard_shape()));
        assert forall|i: int| 0 <= i < 5 implies (#[trigger] w.to_remove@[i])@.len() >= 5 by {
            assert(scalar_rows(w.to_remove@[i]@).len() == parsed_item(removed[i]@).len());
        }
        assert forall|i: int| 0 <= i < 5 implies (#[trigger] w.to_insert@[i])@.len() >= 5 by {
            assert(scalar_rows(w.to_insert@[i]@).len() == parsed_item(inserted[i]@).len());
        }
        lemma_built_witness_accepted(r, untouched, removed, inserted, witness_group);
    }
    r
}

/// The public inputs of a transition of the export run's shape: 64 limbs of
/// 32 bits for each of the generator, the modulus and the final digest.
pub fn public_inputs(group: &RsaGroup, final_digest: &Natural) -> (r: Result<
    Vec<Natural>,
    SynthesisError,
>)
    requires
        32 * group.g.digits@.len() <= usize::MAX,
        32 * group.m.digits@.len() <= usize::MAX,
        32 * final_digest.digits@.len() <= usize::MAX,
    ensures
        r.is_ok() == (group.g@ < pow2(2048) && group.m@ < pow2(2048) && final_digest@ < pow2(2048)),
        r matches Ok(limbs) ==> values_of(limbs@) == limbs_of(group.g@, 32, 64) + limbs_of(
            group.m@,
            32,
            64,
        ) + limbs_of(final_digest@, 32, 64),
        r matches Err(e) ==> e == SynthesisError::Unsatisfiable,
{
    pack_public_inputs(group, final_digest, LIMB_WIDTH, RSA_SIZE / LIMB_WIDTH)
}

} // verus!
