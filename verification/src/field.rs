//! Elements of the scalar field over which circuits are built, and the
//! compression function on them.

use vstd::prelude::*;
use sapling_crypto_ce::bellman::pairing::bn256::{Bn256, Fr, FrRepr};
use sapling_crypto_ce::bellman::pairing::ff::PrimeField;
use sapling_crypto_ce::group_hash::Keccak256Hasher;
use sapling_crypto_ce::poseidon::bn256::Bn256PoseidonParams;
use sapling_crypto_ce::poseidon::poseidon_hash;
use crate::natural::{Natural, digit_base, digits_value, is_canonical_decimal, decimal_value};

verus! {

/// The weight of the second of a scalar's four 64-bit limbs.
pub open spec fn limb_base() -> nat {
    0x1_0000_0000_0000_0000
}

/// The number that four 64-bit limbs denote, least significant limb first.
pub open spec fn limbs_value(limbs: Seq<u64>) -> nat
    recommends
        limbs.len() == 4,
{
    limbs[0] as nat + limb_base() * (limbs[1] as nat + limb_base() * (limbs[2] as nat
        + limb_base() * (limbs[3] as nat)))
}

/// The order of the scalar field.
pub open spec fn scalar_modulus() -> nat {
    limbs_value(
        seq![
            0x43e1_f593_f000_0001u64,
            0x2833_e848_79b9_7091u64,
            0xb850_45b6_8181_585du64,
            0x3064_4e72_e131_a029u64,
        ],
    )
}

/// The four limbs of a number below `2^256`, least significant limb first.
pub open spec fn value_limbs(v: nat) -> Seq<u64> {
    seq![
        (v % limb_base()) as u64,
        ((v / limb_base()) % limb_base()) as u64,
        ((v / limb_base() / limb_base()) % limb_base()) as u64,
        ((v / limb_base() / limb_base() / limb_base()) % limb_base()) as u64,
    ]
}

/// Four limbs are the limbs of the number that they denote.
pub proof fn lemma_limbs_unique(limbs: Seq<u64>)
    requires
        limbs.len() == 4,
    ensures
        value_limbs(limbs_value(limbs)) =~= limbs,
{
    let b = limb_base() as int;
    let l0 = limbs[0] as int;
    let l1 = limbs[1] as int;
    let l2 = limbs[2] as int;
    let l3 = limbs[3] as int;
    let v2 = l2 + b * l3;
    let v1 = l1 + b * v2;
    let v0 = l0 + b * v1;
    assert(v0 == limbs_value(limbs));
    assert(l3 * b == b * l3 && v2 * b == b * v2 && v1 * b == b * v1) by (nonlinear_arith);
    vstd::arithmetic::div_mod::lemma_fundamental_div_mod_converse(v0, b, v1, l0);
    vstd::arithmetic::div_mod::lemma_fundamental_div_mod_converse(v1, b, v2, l1);
    vstd::arithmetic::div_mod::lemma_fundamental_div_mod_converse(v2, b, l3, l2);
    vstd::arithmetic::div_mod::lemma_small_mod(l3 as nat, b as nat);
}

/// The limbs of each scalar of a vector.
pub open spec fn limb_rows(scalars: Seq<[u64; 4]>) -> Seq<Seq<u64>> {
    scalars.map_values(|limbs: [u64; 4]| limbs@)
}

/// The numbers that fix a parameter set of the Poseidon hash: the width of
/// the state, the full rounds on either side, the partial rounds, and the
/// bits of security.
#[derive(Clone, Copy, Debug, PartialEq, Eq, Structural)]
pub struct PoseidonShape {
    pub t: u32,
    pub r_f: u32,
    pub r_p: u32,
    pub security_level: u32,
}

/// The parameter set that the library hashes with: a state of six elements,
/// eight full and 84 partial rounds, at 126 bits of security.
pub open spec fn standard_shape() -> PoseidonShape {
    PoseidonShape { t: 6, r_f: 8, r_p: 84, security_level: 126 }
}

/// What the Poseidon hash of sapling-crypto returns for a sequence of field
/// elements, under the parameters that `Bn256PoseidonParams` derives with the
/// Keccak hasher for a state of `t` elements, `r_f` full and `r_p` partial
/// rounds. Elements are given and returned by the limbs of their canonical
/// representation.
pub uninterp spec fn poseidon_output(
    t: u32,
    r_f: u32,
    r_p: u32,
    security_level: u32,
    inputs: Seq<Seq<u64>>,
) -> Seq<Seq<u64>>;

/// The hash of `inputs` under the parameter set `shape`.
pub open spec fn poseidon_of(shape: PoseidonShape, inputs: Seq<Seq<u64>>) -> Seq<Seq<u64>> {
    poseidon_output(shape.t, shape.r_f, shape.r_p, shape.security_level, inputs)
}

/// Calls `Fr::from_str` of the ff crate and hands out the limbs of the
/// element's canonical representation (`into_repr`). The contract restates
/// that function: it accepts exactly the canonical decimal numerals (no
/// blank string, no superfluous leading zero, ASCII digits only) and reads
/// them modulo the field's order.
#[verifier::external_body]
fn parse_scalar_limbs(s: &str) -> (r: Option<[u64; 4]>)
    ensures
        r.is_some() == is_canonical_decimal(s@),
        r.is_some() ==> limbs_value(r.unwrap()@) == decimal_value(s@) % scalar_modulus(),
        r.is_some() ==> limbs_value(r.unwrap()@) < scalar_modulus(),
{
    Fr::from_str(s).map(|f| f.into_repr().0)
}

/// The type `Bn256PoseidonParams` of sapling-crypto: round constants and
/// matrix of the Poseidon hash over the scalar field.
#[verifier::external_type_specification]
#[verifier::external_body]
pub struct ExBn256PoseidonParams(Bn256PoseidonParams);

/// A parameter set of the Poseidon hash: the numbers that fix it, and the
/// round constants and the matrix that sapling-crypto derives for them with
/// the Keccak hasher. A value of this type is made by [`PoseidonParams::new`]
/// and in no other way.
pub struct PoseidonParams {
    shape: PoseidonShape,
    inner: Bn256PoseidonParams,
}

impl View for PoseidonParams {
    type V = PoseidonShape;

    closed spec fn view(&self) -> PoseidonShape {
        self.shape
    }
}

/// Calls `Bn256PoseidonParams::new::<Keccak256Hasher>()` of sapling-crypto,
/// which derives the constants of the set of width 6 with 8 full and 84
/// partial rounds. The value is opaque: nothing is claimed of it here.
#[verifier::external_body]
fn standard_parameters() -> (r: Bn256PoseidonParams) {
    Bn256PoseidonParams::new::<Keccak256Hasher>()
}

impl PoseidonParams {
    /// The parameter set that the library hashes with.
    pub fn new() -> (r: PoseidonParams)
        ensures
            r@ == standard_shape(),
    {
        PoseidonParams {
            shape: PoseidonShape { t: 6, r_f: 8, r_p: 84, security_level: 126 },
            inner: standard_parameters(),
        }
    }

    /// The numbers that fix this parameter set.
    pub fn shape(&self) -> (r: PoseidonShape)
        ensures
            r == self@,
    {
        self.shape
    }
}

/// Calls `poseidon_hash` of sapling-crypto for the curve BN256, with the
/// constants that a `PoseidonParams` holds for its numbers. The inputs go
/// through `Fr::from_repr`, which refuses limbs that denote a number not
/// below the field's order; then the call is made and its output named. The
/// hash hands out one element, in canonical representation.
#[verifier::external_body]
fn poseidon_limbs(params: &PoseidonParams, inputs: &Vec<[u64; 4]>) -> (r: Option<Vec<[u64; 4]>>)
    ensures
        r.is_some() == (forall|i: int|
            0 <= i < inputs@.len() ==> limbs_value(#[trigger] inputs@[i]@) < scalar_modulus()),
        r.is_some() ==> limb_rows(r.unwrap()@) == poseidon_output(
            params@.t,
            params@.r_f,
            params@.r_p,
            params@.security_level,
            limb_rows(inputs@),
        ),
        r.is_some() ==> r.unwrap()@.len() == 1,
        r.is_some() ==> limbs_value(r.unwrap()@[0]@) < scalar_modulus(),
{
    let mut elements: Vec<Fr> = Vec::with_capacity(inputs.len());
    for limbs in inputs.iter() {
        elements.push(Fr::from_repr(FrRepr(*limbs)).ok()?);
    }
    let output = poseidon_hash::<Bn256>(&params.inner, &elements);
    Some(output.iter().map(|f| f.into_repr().0).collect())
}

/// An element of the scalar field, by the four limbs of its canonical
/// representation.
#[derive(Clone, Copy, Debug)]
pub struct Scalar {
    pub limbs: [u64; 4],
}

impl View for Scalar {
    type V = nat;

    open spec fn view(&self) -> nat {
        limbs_value(self.limbs@)
    }
}

/// The numbers that a vector of scalars holds.
pub open spec fn scalar_values(scalars: Seq<Scalar>) -> Seq<nat> {
    scalars.map_values(|s: Scalar| s@)
}

/// The limbs of the scalars of a vector.
pub open spec fn scalar_rows(scalars: Seq<Scalar>) -> Seq<Seq<u64>> {
    scalars.map_values(|s: Scalar| s.limbs@)
}

impl Scalar {
    /// The limbs denote a number below the field's order.
    pub open spec fn wf(&self) -> bool {
        self@ < scalar_modulus()
    }

    /// The element whose canonical representation has these limbs, if they
    /// denote a number below the field's order.
    pub fn from_limbs(limbs: [u64; 4]) -> (r: Option<Scalar>)
        ensures
            r.is_some() == (limbs_value(limbs@) < scalar_modulus()),
            r matches Some(s) ==> s.limbs == limbs,
    {
        let below = if limbs[3] != 0x3064_4e72_e131_a029u64 {
            limbs[3] < 0x3064_4e72_e131_a029u64
        } else if limbs[2] != 0xb850_45b6_8181_585du64 {
            limbs[2] < 0xb850_45b6_8181_585du64
        } else if limbs[1] != 0x2833_e848_79b9_7091u64 {
            limbs[1] < 0x2833_e848_79b9_7091u64
        } else {
            limbs[0] < 0x43e1_f593_f000_0001u64
        };
        if below {
            Some(Scalar { limbs })
        } else {
            None
        }
    }

    /// The element `value`.
    pub fn from_u64(value: u64) -> (r: Scalar)
        ensures
            r@ == value,
            r.wf(),
    {
        Scalar { limbs: [value, 0, 0, 0] }
    }

    /// Reads a canonical decimal numeral, modulo the field's order.
    pub fn from_decimal(s: &str) -> (r: Option<Scalar>)
        ensures
            r.is_some() == is_canonical_decimal(s@),
            r matches Some(x) ==> x@ == decimal_value(s@) % scalar_modulus() && x.wf()
                && x.limbs@ == value_limbs(decimal_value(s@) % scalar_modulus()),
    {
        match parse_scalar_limbs(s) {
            Some(limbs) => {
                proof {
                    lemma_limbs_unique(limbs@);
                }
                Some(Scalar { limbs })
            },
            None => None,
        }
    }

    /// The element as a natural number.
    pub fn to_natural(&self) -> (r: Natural)
        ensures
            r@ == self@,
            r.canonical(),
            r.digits@.len() <= 8,
    {
        let mut digits: Vec<u32> = Vec::new();
        let mut i: usize = 0;
        while i < 4
            invariant
                i <= 4,
                digits@.len() == 2 * i,
                forall|k: int|
                    0 <= k < i ==> (#[trigger] self.limbs@[k]) == digits@[2 * k] as nat
                        + digit_base() * (digits@[2 * k + 1] as nat),
            decreases 4 - i,
        {
            let limb = self.limbs[i];
            let low: u32 = (limb & 0xffff_ffff) as u32;
            let high: u32 = (limb >> 32) as u32;
            proof {
                assert(limb == (limb & 0xffff_ffff) + 0x1_0000_0000 * (limb >> 32))
                    by (bit_vector);
                assert((limb & 0xffff_ffff) < 0x1_0000_0000) by (bit_vector);
                assert((limb >> 32) < 0x1_0000_0000) by (bit_vector);
            }
            digits.push(low);
            digits.push(high);
            i += 1;
        }
        proof {
            lemma_eight_digits(digits@);
            assert(self.limbs@[0] == digits@[0] as nat + digit_base() * (digits@[1] as nat));
            assert(self.limbs@[1] == digits@[2] as nat + digit_base() * (digits@[3] as nat));
            assert(self.limbs@[2] == digits@[4] as nat + digit_base() * (digits@[5] as nat));
            assert(self.limbs@[3] == digits@[6] as nat + digit_base() * (digits@[7] as nat));
        }
        Natural::from_digits(digits)
    }
}

/// The value of eight digits, written out.
pub proof fn lemma_eight_digits(d: Seq<u32>)
    requires
        d.len() == 8,
    ensures
        digits_value(d) == (d[0] as nat + digit_base() * (d[1] as nat)) + limb_base() * ((d[2] as nat
            + digit_base() * (d[3] as nat)) + limb_base() * ((d[4] as nat + digit_base() * (
        d[5] as nat)) + limb_base() * (d[6] as nat + digit_base() * (d[7] as nat)))),
{
    let d1 = d.drop_first();
    let d2 = d1.drop_first();
    let d3 = d2.drop_first();
    let d4 = d3.drop_first();
    let d5 = d4.drop_first();
    let d6 = d5.drop_first();
    let d7 = d6.drop_first();
    let d8 = d7.drop_first();
    assert(digits_value(d8) == 0);
    assert(digits_value(d7) == d[7] as nat);
    assert(digits_value(d6) == d[6] as nat + digit_base() * digits_value(d7));
    assert(digits_value(d5) == d[5] as nat + digit_base() * digits_value(d6));
    assert(digits_value(d4) == d[4] as nat + digit_base() * digits_value(d5));
    assert(digits_value(d3) == d[3] as nat + digit_base() * digits_value(d4));
    assert(digits_value(d2) == d[2] as nat + digit_base() * digits_value(d3));
    assert(digits_value(d1) == d[1] as nat + digit_base() * digits_value(d2));
    assert(digits_value(d) == d[0] as nat + digit_base() * digits_value(d1));
}

/// The Poseidon hash of a sequence of scalars. Fails when a scalar's limbs
/// denote no element of the field.
pub fn poseidon(params: &PoseidonParams, inputs: &Vec<Scalar>) -> (r: Option<Scalar>)
    ensures
        r.is_some() == (forall|i: int| 0 <= i < inputs@.len() ==> (#[trigger] inputs@[i]).wf()),
        r matches Some(h) ==> h.limbs@ == poseidon_of(params@, scalar_rows(inputs@))[0] && h.wf(),
{
    let mut rows: Vec<[u64; 4]> = Vec::new();
    let mut i: usize = 0;
    while i < inputs.len()
        invariant
            i <= inputs.len(),
            rows@.len() == i,
            forall|k: int| 0 <= k < i ==> (#[trigger] rows@[k]) == inputs@[k].limbs,
        decreases inputs.len() - i,
    {
        rows.push(inputs[i].limbs);
        i += 1;
    }
    assert(limb_rows(rows@) =~= scalar_rows(inputs@));
    match poseidon_limbs(params, &rows) {
        Some(output) => {
            assert(limb_rows(output@)[0] == output@[0]@);
            assert forall|k: int| 0 <= k < inputs@.len() implies (#[trigger] inputs@[k]).wf() by {
                assert(limbs_value(rows@[k]@) < scalar_modulus());
            }
            Some(Scalar { limbs: output[0] })
        },
        None => {
            proof {
                if forall|k: int| 0 <= k < inputs@.len() ==> (#[trigger] inputs@[k]).wf() {
                    assert forall|k: int| 0 <= k < rows@.len() implies limbs_value(
                        #[trigger] rows@[k]@,
                    ) < scalar_modulus() by {
                        assert(inputs@[k].wf());
                    }
                }
            }
            None
        },
    }
}

} // verus!
