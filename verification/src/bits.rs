//! Numbers as sequences of bits, least significant bit first.

use vstd::prelude::*;
use vstd::arithmetic::power2::{
    pow2,
    lemma_pow2_pos,
    lemma_pow2_unfold,
    lemma_pow2_adds,
    lemma_pow2_strictly_increases,
    lemma2_to64,
};
use vstd::arithmetic::div_mod::{lemma_fundamental_div_mod_converse, lemma_small_mod};
use crate::natural::{Natural, digits_value, lemma_value_push};

verus! {

/// What a bit at `position` adds to a number.
pub open spec fn bit_weight(bit: bool, position: nat) -> nat {
    if bit {
        pow2(position)
    } else {
        0
    }
}

/// The number that a sequence of bits denotes, least significant bit first.
pub open spec fn bits_value(bits: Seq<bool>) -> nat
    decreases bits.len(),
{
    if bits.len() == 0 {
        0
    } else {
        bits_value(bits.drop_last()) + bit_weight(bits.last(), (bits.len() - 1) as nat)
    }
}

/// Appending a bit adds its weight.
pub proof fn lemma_bits_push(bits: Seq<bool>, bit: bool)
    ensures
        bits_value(bits.push(bit)) == bits_value(bits) + bit_weight(bit, bits.len()),
{
    assert(bits.push(bit).drop_last() =~= bits);
}

/// A sequence of `n` bits denotes a number below `2^n`.
pub proof fn lemma_bits_bound(bits: Seq<bool>)
    ensures
        bits_value(bits) < pow2(bits.len()),
    decreases bits.len(),
{
    if bits.len() == 0 {
        lemma2_to64();
    } else {
        lemma_bits_bound(bits.drop_last());
        lemma_pow2_unfold(bits.len());
    }
}

/// The value of a concatenation: the second part counts from the length of
/// the first.
pub proof fn lemma_bits_concat(a: Seq<bool>, b: Seq<bool>)
    ensures
        bits_value(a + b) == bits_value(a) + pow2(a.len()) * bits_value(b),
    decreases b.len(),
{
    if b.len() == 0 {
        assert(a + b =~= a);
        assert(pow2(a.len()) * 0 == 0);
    } else {
        let init = b.drop_last();
        assert((a + b).drop_last() =~= a + init);
        assert((a + b).last() == b.last());
        lemma_bits_concat(a, init);
        lemma_pow2_adds(a.len(), init.len());
        let w = pow2(a.len());
        let top = bit_weight(b.last(), init.len());
        assert(bit_weight(b.last(), (a.len() + init.len()) as nat) == w * top) by {
            if b.last() {
            } else {
                assert(w * 0 == 0);
            }
        }
        assert(w * (bits_value(init) + top) == w * bits_value(init) + w * top)
            by (nonlinear_arith);
    }
}

/// Bits that are all clear denote zero.
pub proof fn lemma_bits_all_clear(bits: Seq<bool>)
    requires
        forall|i: int| 0 <= i < bits.len() ==> !bits[i],
    ensures
        bits_value(bits) == 0,
    decreases bits.len(),
{
    if bits.len() > 0 {
        lemma_bits_all_clear(bits.drop_last());
    }
}

/// `n` bits that are all set denote `2^n - 1`.
pub proof fn lemma_bits_all_set(bits: Seq<bool>)
    requires
        forall|i: int| 0 <= i < bits.len() ==> bits[i],
    ensures
        bits_value(bits) + 1 == pow2(bits.len()),
    decreases bits.len(),
{
    if bits.len() == 0 {
        lemma2_to64();
    } else {
        lemma_bits_all_set(bits.drop_last());
        lemma_pow2_unfold(bits.len());
    }
}

/// A set bit at position `k` makes the number at least `2^k`.
pub proof fn lemma_bit_set_lower_bound(bits: Seq<bool>, k: int)
    requires
        0 <= k < bits.len(),
        bits[k],
    ensures
        bits_value(bits) >= pow2(k as nat),
    decreases bits.len(),
{
    if k < bits.len() - 1 {
        lemma_bit_set_lower_bound(bits.drop_last(), k);
    }
}

/// The 32 bits of a digit.
pub fn digit_bits(d: u32) -> (r: Vec<bool>)
    ensures
        r@.len() == 32,
        bits_value(r@) == d,
{
    let mut r: Vec<bool> = Vec::new();
    let mut rest: u32 = d;
    let mut j: usize = 0;
    proof {
        lemma2_to64();
        assert(pow2(0) * (rest as nat) == rest) by (nonlinear_arith)
            requires
                pow2(0) == 1,
        ;
    }
    while j < 32
        invariant
            j <= 32,
            r@.len() == j,
            d == bits_value(r@) + pow2(j as nat) * rest,
        decreases 32 - j,
    {
        let bit = rest % 2 == 1;
        proof {
            lemma_pow2_unfold((j + 1) as nat);
            lemma_bits_push(r@, bit);
            let w = pow2(j as nat);
            let low: nat = if bit {
                1
            } else {
                0
            };
            assert(rest == 2 * (rest / 2) + low);
            assert(w * rest == w * low + (2 * w) * (rest / 2) as nat) by (nonlinear_arith)
                requires
                    rest == 2 * (rest / 2) + low,
            ;
            assert(w * low == bit_weight(bit, j as nat)) by (nonlinear_arith)
                requires
                    low == 0 || low == 1,
                    bit_weight(bit, j as nat) == if low == 1 {
                        w
                    } else {
                        0
                    },
            ;
        }
        r.push(bit);
        rest = rest / 2;
        j += 1;
    }
    proof {
        lemma2_to64();
        assert(rest == 0) by (nonlinear_arith)
            requires
                d == bits_value(r@) + 0x1_0000_0000 * rest,
                d < 0x1_0000_0000,
        ;
    }
    r
}

/// The number that `width` bits denote, from position `start` on.
pub fn word_from_bits(bits: &Vec<bool>, start: usize, width: usize) -> (r: u64)
    requires
        start + width <= bits@.len(),
        width <= 64,
    ensures
        r == bits_value(bits@.subrange(start as int, start + width)),
{
    let mut acc: u64 = 0;
    let mut weight: u64 = 1;
    let mut j: usize = 0;
    let n = bits.len();
    proof {
        lemma2_to64();
    }
    while j < width
        invariant
            j <= width,
            width <= 64,
            n == bits@.len(),
            start + width <= n,
            acc == bits_value(bits@.subrange(start as int, start + j)),
            j < width ==> weight == pow2(j as nat),
        decreases width - j,
    {
        proof {
            let done = bits@.subrange(start as int, start + j);
            lemma_bits_bound(done);
            lemma_bits_push(done, bits@[start + j]);
            assert(bits@.subrange(start as int, start + j + 1) =~= done.push(bits@[start + j]));
            lemma_pow2_unfold((j + 1) as nat);
            lemma2_to64();
            if j + 1 < 64 {
                lemma_pow2_strictly_increases((j + 1) as nat, 64);
            }
        }
        if bits[start + j] {
            acc = acc + weight;
        }
        if j + 1 < width {
            weight = weight * 2;
        }
        j += 1;
    }
    acc
}

impl Natural {
    /// The bits of the number, 32 for each digit that the value holds.
    pub fn to_bits(&self) -> (r: Vec<bool>)
        requires
            32 * self.digits@.len() <= usize::MAX,
        ensures
            r@.len() == 32 * self.digits@.len(),
            bits_value(r@) == self@,
    {
        let mut bits: Vec<bool> = Vec::new();
        let mut i: usize = 0;
        proof {
            assert(self.digits@.take(0) =~= Seq::<u32>::empty());
        }
        while i < self.digits.len()
            invariant
                i <= self.digits.len(),
                32 * self.digits@.len() <= usize::MAX,
                bits@.len() == 32 * i,
                bits_value(bits@) == digits_value(self.digits@.take(i as int)),
            decreases self.digits.len() - i,
        {
            let d = self.digits[i];
            let mut next = digit_bits(d);
            proof {
                lemma_bits_concat(bits@, next@);
                lemma_value_push(self.digits@.take(i as int), d);
                assert(self.digits@.take(i + 1) =~= self.digits@.take(i as int).push(d));
                assert(pow2(bits@.len()) * (d as nat) == (d as nat) * pow2(32 * (i as nat)))
                    by (nonlinear_arith)
                    requires
                        bits@.len() == 32 * i,
                ;
            }
            bits.append(&mut next);
            i += 1;
        }
        proof {
            assert(self.digits@.take(self.digits@.len() as int) =~= self.digits@);
        }
        bits
    }

    /// The number that the bits denote.
    pub fn from_bits(bits: &Vec<bool>) -> (r: Natural)
        ensures
            r@ == bits_value(bits@),
            r.canonical(),
    {
        let mut digits: Vec<u32> = Vec::new();
        let mut i: usize = 0;
        proof {
            assert(bits@.take(0) =~= Seq::<bool>::empty());
        }
        while i < bits.len()
            invariant
                i <= bits.len(),
                i == 32 * digits@.len() || i == bits@.len(),
                digits_value(digits@) == bits_value(bits@.take(i as int)),
            decreases bits.len() - i,
        {
            let width: usize = if bits.len() - i < 32 {
                bits.len() - i
            } else {
                32
            };
            let word = word_from_bits(bits, i, width);
            proof {
                let part = bits@.subrange(i as int, i + width);
                lemma_bits_bound(part);
                lemma2_to64();
                if width < 32 {
                    lemma_pow2_strictly_increases(width as nat, 32);
                }
                lemma_bits_concat(bits@.take(i as int), part);
                assert(bits@.take(i + width) =~= bits@.take(i as int) + part);
                lemma_value_push(digits@, word as u32);
                assert((word as nat) * pow2(32 * digits@.len()) == pow2(i as nat) * (word as nat))
                    by (nonlinear_arith)
                    requires
                        i == 32 * digits@.len(),
                ;
            }
            digits.push(word as u32);
            i += width;
        }
        proof {
            assert(bits@.take(bits@.len() as int) =~= bits@);
        }
        Natural::from_digits(digits)
    }
}


/// `2^a <= 2^b` for `a <= b`.
pub proof fn lemma_pow2_monotone(a: nat, b: nat)
    requires
        a <= b,
    ensures
        pow2(a) <= pow2(b),
{
    if a < b {
        lemma_pow2_strictly_increases(a, b);
    }
}

/// The first `width` bits of a sequence denote its value modulo `2^width`.
pub proof fn lemma_bits_take(bits: Seq<bool>, width: int)
    requires
        0 <= width <= bits.len(),
    ensures
        bits_value(bits.take(width)) == bits_value(bits) % pow2(width as nat),
{
    let low = bits.take(width);
    let high = bits.skip(width);
    assert(bits =~= low + high);
    lemma_bits_concat(low, high);
    lemma_bits_bound(low);
    lemma_pow2_pos(width as nat);
    let d = pow2(width as nat) as int;
    let q = bits_value(high) as int;
    assert(d * q == q * d) by (nonlinear_arith);
    lemma_fundamental_div_mod_converse(bits_value(bits) as int, d, q, bits_value(low) as int);
}

/// Cuts or pads the bits to `width` of them. The number that they denote is
/// taken modulo `2^width`.
pub fn fit_bits(bits: Vec<bool>, width: usize) -> (r: Vec<bool>)
    ensures
        r@.len() == width,
        bits_value(r@) == bits_value(bits@) % pow2(width as nat),
        forall|i: int| 0 <= i < width && i < bits@.len() ==> r@[i] == bits@[i],
        forall|i: int| bits@.len() <= i < width ==> !r@[i],
{
    let mut bits = bits;
    let ghost start = bits@;
    if bits.len() >= width {
        proof {
            lemma_bits_take(start, width as int);
        }
        bits.truncate(width);
        assert(bits@ =~= start.take(width as int));
        return bits;
    }
    while bits.len() < width
        invariant
            bits@.len() <= width,
            start.len() <= bits@.len(),
            bits_value(bits@) == bits_value(start),
            forall|i: int| 0 <= i < start.len() ==> bits@[i] == start[i],
            forall|i: int| start.len() <= i < bits@.len() ==> !bits@[i],
        decreases width - bits.len(),
    {
        proof {
            lemma_bits_push(bits@, false);
        }
        bits.push(false);
    }
    proof {
        lemma_bits_bound(start);
        lemma_pow2_monotone(start.len(), width as nat);
        lemma_small_mod(bits_value(start), pow2(width as nat));
    }
    bits
}

impl Natural {
    /// The lowest `width` bits of the number.
    pub fn low_bits(&self, width: usize) -> (r: Vec<bool>)
        requires
            32 * self.digits@.len() <= usize::MAX,
        ensures
            r@.len() == width,
            bits_value(r@) == self@ % pow2(width as nat),
    {
        fit_bits(self.to_bits(), width)
    }
}

} // verus!
