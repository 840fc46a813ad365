//! Natural numbers of arbitrary size, held as base-2^32 digits, least
//! significant digit first.

use vstd::prelude::*;
use vstd::arithmetic::power::pow;
use vstd::arithmetic::power2::{pow2, lemma_pow2_adds, lemma2_to64};
use num_bigint::BigUint;

verus! {

/// The base of the digits of a [`Natural`].
pub open spec fn digit_base() -> nat {
    0x1_0000_0000
}

/// The number that a sequence of base-2^32 digits denotes, least significant
/// digit first.
pub open spec fn digits_value(digits: Seq<u32>) -> nat
    decreases digits.len(),
{
    if digits.len() == 0 {
        0
    } else {
        digits[0] as nat + digit_base() * digits_value(digits.drop_first())
    }
}

/// A digit sequence is canonical when it does not end in a zero digit. Zero is
/// the empty sequence.
pub open spec fn is_canonical(digits: Seq<u32>) -> bool {
    digits.len() > 0 ==> digits.last() != 0
}

/// `base^exponent mod modulus`, for a positive modulus.
pub open spec fn pow_mod(base: nat, exponent: nat, modulus: nat) -> nat
    recommends
        modulus > 0,
{
    (pow(base as int, exponent) % (modulus as int)) as nat
}

/// A natural number of arbitrary size.
pub struct Natural {
    pub digits: Vec<u32>,
}

impl View for Natural {
    type V = nat;

    open spec fn view(&self) -> nat {
        digits_value(self.digits@)
    }
}

/// Appending a digit adds it at the weight of its position.
pub proof fn lemma_value_push(digits: Seq<u32>, d: u32)
    ensures
        digits_value(digits.push(d)) == digits_value(digits) + d as nat * pow2(32 * digits.len()),
    decreases digits.len(),
{
    lemma2_to64();
    if digits.len() == 0 {
        assert(digits.push(d).drop_first() =~= Seq::<u32>::empty());
        assert(digits_value(digits.push(d).drop_first()) == 0);
        assert(digits_value(digits.push(d)) == d as nat);
        assert(pow2(0) == 1);
        assert(d as nat * pow2(0) == d as nat) by (nonlinear_arith)
            requires
                pow2(0) == 1,
        ;
    } else {
        let rest = digits.drop_first();
        assert(digits.push(d).drop_first() =~= rest.push(d));
        assert(digits.push(d)[0] == digits[0]);
        lemma_value_push(rest, d);
        let w = pow2(32 * rest.len());
        lemma_pow2_adds(32, 32 * rest.len());
        assert(32 + 32 * rest.len() == 32 * digits.len());
        assert(pow2(32 * digits.len()) == digit_base() * w);
        let b = digit_base();
        let v = digits_value(rest);
        let dn = d as nat;
        assert(digits_value(digits.push(d)) == digits[0] as nat + b * (v + dn * w));
        assert(digits_value(digits) == digits[0] as nat + b * v);
        assert(b * (v + dn * w) == b * v + dn * (b * w)) by (nonlinear_arith);
    }
}

/// Dropping a final zero digit leaves the value as it was.
pub proof fn lemma_value_drop_zero(digits: Seq<u32>)
    requires
        digits.len() > 0,
        digits.last() == 0,
    ensures
        digits_value(digits.drop_last()) == digits_value(digits),
{
    lemma_value_push(digits.drop_last(), 0);
    assert(digits.drop_last().push(0) =~= digits);
}

/// A canonical sequence that is not empty denotes a positive number.
pub proof fn lemma_canonical_positive(digits: Seq<u32>)
    requires
        is_canonical(digits),
        digits.len() > 0,
    ensures
        digits_value(digits) > 0,
    decreases digits.len(),
{
    if digits.len() == 1 {
        assert(digits[0] == digits.last());
    } else {
        let rest = digits.drop_first();
        assert(rest.last() == digits.last());
        lemma_canonical_positive(rest);
        assert(digit_base() * digits_value(rest) > 0) by (nonlinear_arith)
            requires
                digits_value(rest) > 0,
                digit_base() > 0,
        ;
    }
}

/// Two canonical sequences that denote the same number are the same sequence.
pub proof fn lemma_canonical_unique(a: Seq<u32>, b: Seq<u32>)
    requires
        is_canonical(a),
        is_canonical(b),
        digits_value(a) == digits_value(b),
    ensures
        a =~= b,
    decreases a.len(),
{
    if a.len() == 0 {
        if b.len() > 0 {
            lemma_canonical_positive(b);
        }
    } else if b.len() == 0 {
        lemma_canonical_positive(a);
    } else {
        let ra = a.drop_first();
        let rb = b.drop_first();
        let va = digits_value(ra);
        let vb = digits_value(rb);
        assert(a[0] as nat + digit_base() * va == b[0] as nat + digit_base() * vb);
        assert(va == vb && a[0] == b[0]) by (nonlinear_arith)
            requires
                a[0] as nat + 0x1_0000_0000 * va == b[0] as nat + 0x1_0000_0000 * vb,
                a[0] < 0x1_0000_0000,
                b[0] < 0x1_0000_0000,
        ;
        if ra.len() > 0 {
            assert(ra.last() == a.last());
        }
        if rb.len() > 0 {
            assert(rb.last() == b.last());
        }
        lemma_canonical_unique(ra, rb);
        assert(a =~= seq![a[0]] + ra);
        assert(b =~= seq![b[0]] + rb);
    }
}


/// A sequence of characters is a decimal numeral when it is not empty and all
/// its characters are ASCII digits.
pub open spec fn is_decimal(s: Seq<char>) -> bool {
    s.len() > 0 && forall|i: int| 0 <= i < s.len() ==> '0' <= #[trigger] s[i] <= '9'
}

/// A decimal numeral is canonical when it has no leading zero, but for the
/// numeral "0" itself.
pub open spec fn is_canonical_decimal(s: Seq<char>) -> bool {
    is_decimal(s) && (s.len() > 1 ==> s[0] != '0')
}

/// The number that a decimal numeral denotes.
pub open spec fn decimal_value(s: Seq<char>) -> nat
    decreases s.len(),
{
    if s.len() == 0 {
        0
    } else {
        10 * decimal_value(s.drop_last()) + (s.last() as nat - '0' as nat) as nat
    }
}

/// Calls `BigUint::modpow` of num-bigint on the numbers that the three digit
/// vectors denote. The contract restates that function's documentation: the
/// result is `base^exponent mod modulus`; a zero modulus, on which it panics,
/// is excluded. The digits come from `BigUint::to_u32_digits`, which hands out
/// the number's normalized digits.
#[verifier::external_body]
fn modpow_digits(base: &Vec<u32>, exponent: &Vec<u32>, modulus: &Vec<u32>) -> (r: Vec<u32>)
    requires
        digits_value(modulus@) > 0,
    ensures
        digits_value(r@) == pow_mod(
            digits_value(base@),
            digits_value(exponent@),
            digits_value(modulus@),
        ),
        is_canonical(r@),
{
    let b = BigUint::from_slice(base);
    let e = BigUint::from_slice(exponent);
    let m = BigUint::from_slice(modulus);
    b.modpow(&e, &m).to_u32_digits()
}

/// Calls `BigUint::from_str` of num-bigint. The contract covers the numerals
/// made of ASCII digits alone: on those the parser succeeds with the number
/// they denote. On other strings nothing is claimed.
#[verifier::external_body]
fn parse_decimal_digits(s: &str) -> (parsed: Option<Vec<u32>>)
    ensures
        is_decimal(s@) ==> parsed.is_some(),
        is_decimal(s@) && parsed.is_some() ==> digits_value(parsed.unwrap()@) == decimal_value(s@),
        is_decimal(s@) && parsed.is_some() ==> is_canonical(parsed.unwrap()@),
{
    s.parse::<BigUint>().ok().map(|n| n.to_u32_digits())
}

/// Calls `BigUint::to_str_radix` of num-bigint with radix 10. The contract
/// says that the string is the canonical decimal numeral of the number.
#[verifier::external_body]
fn format_decimal_digits(digits: &Vec<u32>) -> (r: String)
    ensures
        is_canonical_decimal(r@),
        decimal_value(r@) == digits_value(digits@),
{
    BigUint::from_slice(digits).to_str_radix(10)
}

impl Natural {
    /// The number that this value holds has no superfluous digit.
    pub open spec fn canonical(&self) -> bool {
        is_canonical(self.digits@)
    }

    /// Zero.
    pub fn zero() -> (r: Natural)
        ensures
            r@ == 0,
            r.canonical(),
    {
        Natural { digits: Vec::new() }
    }

    /// The number that the digits denote, least significant digit first.
    /// Final zero digits are dropped.
    pub fn from_digits(digits: Vec<u32>) -> (r: Natural)
        ensures
            r@ == digits_value(digits@),
            r.canonical(),
            r.digits@.len() <= digits@.len(),
    {
        let mut digits = digits;
        let ghost start = digits@;
        while digits.len() > 0 && digits[digits.len() - 1] == 0
            invariant
                digits_value(digits@) == digits_value(start),
                digits@.len() <= start.len(),
            decreases digits.len(),
        {
            proof {
                lemma_value_drop_zero(digits@);
            }
            digits.pop();
        }
        Natural { digits }
    }

    /// The number `value`.
    pub fn from_u64(value: u64) -> (r: Natural)
        ensures
            r@ == value as nat,
            r.canonical(),
            r.digits@.len() <= 2,
    {
        let low: u32 = (value & 0xffff_ffff) as u32;
        let high: u32 = (value >> 32) as u32;
        let mut digits: Vec<u32> = Vec::new();
        digits.push(low);
        digits.push(high);
        proof {
            assert(value == (value & 0xffff_ffff) + 0x1_0000_0000 * (value >> 32)) by (bit_vector);
            assert((value & 0xffff_ffff) < 0x1_0000_0000) by (bit_vector);
            assert((value >> 32) < 0x1_0000_0000) by (bit_vector);
            let s = digits@;
            assert(s.drop_first() =~= seq![high]);
            assert(s.drop_first().drop_first() =~= Seq::<u32>::empty());
            assert(digits_value(s.drop_first().drop_first()) == 0);
            assert(digits_value(s.drop_first()) == high as nat);
            assert(digits_value(s) == low as nat + digit_base() * (high as nat));
        }
        Natural::from_digits(digits)
    }

    /// Whether the number is zero.
    pub fn is_zero(&self) -> (r: bool)
        ensures
            r == (self@ == 0),
    {
        let mut i: usize = 0;
        while i < self.digits.len()
            invariant
                i <= self.digits.len(),
                forall|k: int| 0 <= k < i ==> self.digits@[k] == 0,
            decreases self.digits.len() - i,
        {
            if self.digits[i] != 0 {
                proof {
                    lemma_nonzero_digit(self.digits@, i as int);
                }
                return false;
            }
            i += 1;
        }
        proof {
            lemma_zero_digits(self.digits@);
        }
        true
    }

    /// Whether two values hold the same number.
    pub fn equals(&self, other: &Natural) -> (r: bool)
        ensures
            r == (self@ == other@),
    {
        let a = Natural::from_digits(self.digits.clone());
        let b = Natural::from_digits(other.digits.clone());
        if a.digits.len() != b.digits.len() {
            proof {
                if a@ == b@ {
                    lemma_canonical_unique(a.digits@, b.digits@);
                }
            }
            return false;
        }
        let mut i: usize = 0;
        while i < a.digits.len()
            invariant
                i <= a.digits.len(),
                a.digits.len() == b.digits.len(),
                a.canonical(),
                b.canonical(),
                a@ == self@,
                b@ == other@,
                forall|k: int| 0 <= k < i ==> a.digits@[k] == b.digits@[k],
            decreases a.digits.len() - i,
        {
            if a.digits[i] != b.digits[i] {
                proof {
                    if a@ == b@ {
                        lemma_canonical_unique(a.digits@, b.digits@);
                    }
                }
                return false;
            }
            i += 1;
        }
        assert(a.digits@ =~= b.digits@);
        true
    }

    /// A copy of the number.
    pub fn duplicate(&self) -> (r: Natural)
        ensures
            r.digits@ == self.digits@,
            r@ == self@,
    {
        Natural { digits: self.digits.clone() }
    }

    /// `self^exponent mod modulus`.
    pub fn modpow(&self, exponent: &Natural, modulus: &Natural) -> (r: Natural)
        requires
            modulus@ > 0,
        ensures
            r@ == pow_mod(self@, exponent@, modulus@),
            r.canonical(),
    {
        Natural { digits: modpow_digits(&self.digits, &exponent.digits, &modulus.digits) }
    }

    /// Reads a decimal numeral. Any string that is empty or holds another
    /// character than an ASCII digit is refused.
    pub fn from_decimal(s: &str) -> (r: Option<Natural>)
        ensures
            r.is_some() == is_decimal(s@),
            r matches Some(n) ==> n@ == decimal_value(s@) && n.canonical(),
    {
        let n = s.unicode_len();
        if n == 0 {
            return None;
        }
        let mut i: usize = 0;
        while i < n
            invariant
                i <= n,
                n == s@.len(),
                forall|k: int| 0 <= k < i ==> '0' <= #[trigger] s@[k] <= '9',
            decreases n - i,
        {
            let c = s.get_char(i);
            if c < '0' || c > '9' {
                return None;
            }
            i += 1;
        }
        match parse_decimal_digits(s) {
            Some(digits) => Some(Natural { digits }),
            None => None,
        }
    }

    /// The canonical decimal numeral of the number.
    pub fn to_decimal(&self) -> (r: String)
        ensures
            is_canonical_decimal(r@),
            decimal_value(r@) == self@,
    {
        format_decimal_digits(&self.digits)
    }
}

/// A sequence with a digit that is not zero denotes a positive number.
pub proof fn lemma_nonzero_digit(digits: Seq<u32>, i: int)
    requires
        0 <= i < digits.len(),
        digits[i] != 0,
    ensures
        digits_value(digits) > 0,
    decreases digits.len(),
{
    if i > 0 {
        let rest = digits.drop_first();
        assert(rest[i - 1] == digits[i]);
        lemma_nonzero_digit(rest, i - 1);
        assert(digit_base() * digits_value(rest) > 0) by (nonlinear_arith)
            requires
                digits_value(rest) > 0,
                digit_base() > 0,
        ;
    }
}

/// A sequence of zero digits denotes zero.
pub proof fn lemma_zero_digits(digits: Seq<u32>)
    requires
        forall|k: int| 0 <= k < digits.len() ==> digits[k] == 0,
    ensures
        digits_value(digits) == 0,
    decreases digits.len(),
{
    if digits.len() > 0 {
        let rest = digits.drop_first();
        assert forall|k: int| 0 <= k < rest.len() implies rest[k] == 0 by {
            assert(rest[k] == digits[k + 1]);
        }
        lemma_zero_digits(rest);
    }
}

} // verus!
