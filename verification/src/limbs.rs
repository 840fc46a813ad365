//! The packing of big numbers into limbs of a fixed width, least significant
//! limb first, as a verifier takes its public inputs.

use vstd::prelude::*;
use vstd::arithmetic::power2::{pow2, lemma_pow2_pos};
use vstd::arithmetic::div_mod::{
    lemma_fundamental_div_mod_converse,
    lemma_mod_bound,
    lemma_small_mod,
};
use crate::accumulator::{RsaGroup, values_of};
use crate::bits::{bits_value, fit_bits, lemma_bits_bound, lemma_bits_concat, lemma_bits_take};
use crate::natural::Natural;

verus! {

/// Why a circuit could not be built.
#[derive(Clone, Copy, Debug, PartialEq, Eq, Structural)]
pub enum SynthesisError {
    /// A value of the witness is absent.
    AssignmentMissing,
    /// A value does not fit the shape that the circuit gives it.
    Unsatisfiable,
}

/// The `i`-th limb of `x` at `width` bits per limb.
pub open spec fn limb_of(x: nat, width: nat, i: nat) -> nat {
    (x / pow2(width * i)) % pow2(width)
}

/// The first `n` limbs of `x` at `width` bits per limb.
pub open spec fn limbs_of(x: nat, width: nat, n: nat) -> Seq<nat> {
    Seq::new(n, |i: int| limb_of(x, width, i as nat))
}

/// A window of bits denotes the quotient by the weight of its start, modulo
/// the weight of its width.
pub proof fn lemma_bits_window(bits: Seq<bool>, start: int, width: int)
    requires
        0 <= start,
        0 <= width,
        start + width <= bits.len(),
    ensures
        bits_value(bits.subrange(start, start + width)) == (bits_value(bits) / pow2(start as nat))
            % pow2(width as nat),
{
    let low = bits.take(start);
    let high = bits.skip(start);
    assert(bits =~= low + high);
    lemma_bits_concat(low, high);
    lemma_bits_bound(low);
    lemma_pow2_pos(start as nat);
    let d = pow2(start as nat) as int;
    let q = bits_value(high) as int;
    assert(d * q == q * d) by (nonlinear_arith);
    lemma_fundamental_div_mod_converse(bits_value(bits) as int, d, q, bits_value(low) as int);
    lemma_bits_take(high, width);
    assert(high.take(width) =~= bits.subrange(start, start + width));
}

/// Splits `number` into `n_limbs` limbs of `limb_width` bits, least significant
/// limb first. A number that does not fit into that many limbs is refused.
pub fn nat_to_limbs(number: &Natural, limb_width: usize, n_limbs: usize) -> (r: Result<
    Vec<Natural>,
    SynthesisError,
>)
    requires
        n_limbs * limb_width <= usize::MAX,
        32 * number.digits@.len() <= usize::MAX,
    ensures
        r.is_ok() == (number@ < pow2((n_limbs * limb_width) as nat)),
        r matches Ok(limbs) ==> values_of(limbs@) == limbs_of(
            number@,
            limb_width as nat,
            n_limbs as nat,
        ),
        r matches Err(e) ==> e == SynthesisError::Unsatisfiable,
{
    proof {
        assert(n_limbs * limb_width >= 0) by (nonlinear_arith)
            requires
                n_limbs >= 0,
                limb_width >= 0,
        ;
    }
    let total: usize = n_limbs * limb_width;
    let bits = fit_bits(number.to_bits(), total);
    let low = Natural::from_bits(&bits);
    proof {
        lemma_pow2_pos(total as nat);
        lemma_mod_bound(number@ as int, pow2(total as nat) as int);
        if number@ < pow2(total as nat) {
            lemma_small_mod(number@, pow2(total as nat));
        }
    }
    if !low.equals(number) {
        return Err(SynthesisError::Unsatisfiable);
    }
    let mut limbs: Vec<Natural> = Vec::new();
    let mut i: usize = 0;
    let mut position: usize = 0;
    while i < n_limbs
        invariant
            i <= n_limbs,
            position == i * limb_width,
            total == n_limbs * limb_width,
            bits@.len() == total,
            bits_value(bits@) == number@,
            limbs@.len() == i,
            forall|k: int|
                0 <= k < i ==> (#[trigger] limbs@[k])@ == limb_of(
                    number@,
                    limb_width as nat,
                    k as nat,
                ),
        decreases n_limbs - i,
    {
        proof {
            assert((i + 1) * limb_width == i * limb_width + limb_width) by (nonlinear_arith);
            assert((i + 1) * limb_width <= n_limbs * limb_width) by (nonlinear_arith)
                requires
                    i + 1 <= n_limbs,
            ;
        }
        let mut window: Vec<bool> = Vec::new();
        let mut j: usize = 0;
        while j < limb_width
            invariant
                j <= limb_width,
                bits@.len() == total,
                position + limb_width <= bits@.len(),
                window@ == bits@.subrange(position as int, position + j),
            decreases limb_width - j,
        {
            window.push(bits[position + j]);
            assert(window@ =~= bits@.subrange(position as int, position + j + 1));
            j += 1;
        }
        proof {
            lemma_bits_window(bits@, position as int, limb_width as int);
            assert(limb_width * i == i * limb_width) by (nonlinear_arith);
        }
        limbs.push(Natural::from_bits(&window));
        position += limb_width;
        i += 1;
    }
    assert(values_of(limbs@) =~= limbs_of(number@, limb_width as nat, n_limbs as nat));
    Ok(limbs)
}

/// The public inputs of a transition: the limbs of the generator, then of
/// the modulus, then of the final digest.
pub fn pack_public_inputs(
    group: &RsaGroup,
    final_digest: &Natural,
    limb_width: usize,
    n_limbs: usize,
) -> (r: Result<Vec<Natural>, SynthesisError>)
    requires
        n_limbs * limb_width <= usize::MAX,
        32 * group.g.digits@.len() <= usize::MAX,
        32 * group.m.digits@.len() <= usize::MAX,
        32 * final_digest.digits@.len() <= usize::MAX,
    ensures
        r.is_ok() == (group.g@ < pow2((n_limbs * limb_width) as nat) && group.m@ < pow2(
            (n_limbs * limb_width) as nat,
        ) && final_digest@ < pow2((n_limbs * limb_width) as nat)),
        r matches Ok(limbs) ==> values_of(limbs@) == limbs_of(
            group.g@,
            limb_width as nat,
            n_limbs as nat,
        ) + limbs_of(group.m@, limb_width as nat, n_limbs as nat) + limbs_of(
            final_digest@,
            limb_width as nat,
            n_limbs as nat,
        ),
        r matches Err(e) ==> e == SynthesisError::Unsatisfiable,
{
    let mut g = match nat_to_limbs(&group.g, limb_width, n_limbs) {
        Ok(limbs) => limbs,
        Err(e) => {
            return Err(e);
        },
    };
    let mut m = match nat_to_limbs(&group.m, limb_width, n_limbs) {
        Ok(limbs) => limbs,
        Err(e) => {
            return Err(e);
        },
    };
    let mut d = match nat_to_limbs(final_digest, limb_width, n_limbs) {
        Ok(limbs) => limbs,
        Err(e) => {
            return Err(e);
        },
    };
    let ghost gv = values_of(g@);
    let ghost mv = values_of(m@);
    let ghost dv = values_of(d@);
    g.append(&mut m);
    g.append(&mut d);
    assert(values_of(g@) =~= gv + mv + dv);
    Ok(g)
}

} // verus!
