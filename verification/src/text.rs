//! Decimal numerals of machine integers, padded with zeros to a width.

use vstd::prelude::*;
use vstd::string::*;

verus! {

/// The character of a decimal digit.
pub open spec fn digit_char(d: nat) -> char {
    if d == 0 {
        '0'
    } else if d == 1 {
        '1'
    } else if d == 2 {
        '2'
    } else if d == 3 {
        '3'
    } else if d == 4 {
        '4'
    } else if d == 5 {
        '5'
    } else if d == 6 {
        '6'
    } else if d == 7 {
        '7'
    } else if d == 8 {
        '8'
    } else {
        '9'
    }
}

/// The decimal numeral of `n`, without leading zeros.
pub open spec fn decimal_text(n: nat) -> Seq<char>
    decreases n,
{
    if n < 10 {
        seq![digit_char(n)]
    } else {
        decimal_text(n / 10).push(digit_char(n % 10))
    }
}

/// `count` zeros.
pub open spec fn zeros(count: nat) -> Seq<char> {
    Seq::new(count, |i: int| '0')
}

/// The decimal numeral of `n`, with zeros in front of it where it has fewer
/// than `width` digits.
pub open spec fn zero_padded_text(n: nat, width: nat) -> Seq<char> {
    let text = decimal_text(n);
    if text.len() >= width {
        text
    } else {
        zeros((width - text.len()) as nat) + text
    }
}

/// The digits `low`, given least significant first, as text.
pub open spec fn digits_text(low: Seq<usize>) -> Seq<char> {
    Seq::new(low.len(), |i: int| digit_char(low[low.len() - 1 - i] as nat))
}

/// The one-character string of a digit.
fn digit_str(d: usize) -> (r: &'static str)
    requires
        d < 10,
    ensures
        r@ == seq![digit_char(d as nat)],
{
    proof {
        reveal_strlit("0");
        reveal_strlit("1");
        reveal_strlit("2");
        reveal_strlit("3");
        reveal_strlit("4");
        reveal_strlit("5");
        reveal_strlit("6");
        reveal_strlit("7");
        reveal_strlit("8");
        reveal_strlit("9");
    }
    let r = if d == 0 {
        "0"
    } else if d == 1 {
        "1"
    } else if d == 2 {
        "2"
    } else if d == 3 {
        "3"
    } else if d == 4 {
        "4"
    } else if d == 5 {
        "5"
    } else if d == 6 {
        "6"
    } else if d == 7 {
        "7"
    } else if d == 8 {
        "8"
    } else {
        "9"
    };
    assert(r@ =~= seq![digit_char(d as nat)]);
    r
}

/// The decimal numeral of `n`, padded with zeros to at least `width`
/// characters.
pub fn zero_padded(n: usize, width: usize) -> (r: String)
    ensures
        r@ == zero_padded_text(n as nat, width as nat),
{
    let mut low: Vec<usize> = Vec::new();
    let mut rest: usize = n;
    proof {
        assert(decimal_text(rest as nat) + digits_text(low@) =~= decimal_text(n as nat));
    }
    while rest >= 10
        invariant
            decimal_text(n as nat) == decimal_text(rest as nat) + digits_text(low@),
            forall|i: int| 0 <= i < low@.len() ==> low@[i] < 10,
        decreases rest,
    {
        let d: usize = rest % 10;
        proof {
            let next = low@.push(d);
            assert(digits_text(next) =~= seq![digit_char(d as nat)] + digits_text(low@));
            assert(decimal_text(rest as nat) == decimal_text((rest / 10) as nat).push(
                digit_char(d as nat),
            ));
            assert(decimal_text((rest / 10) as nat).push(digit_char(d as nat)) + digits_text(low@)
                =~= decimal_text((rest / 10) as nat) + digits_text(next));
        }
        low.push(d);
        rest = rest / 10;
    }
    proof {
        let next = low@.push(rest);
        assert(digits_text(next) =~= seq![digit_char(rest as nat)] + digits_text(low@));
    }
    low.push(rest);
    let mut r = String::new();
    let mut pad: usize = 0;
    let missing: usize = if low.len() < width {
        width - low.len()
    } else {
        0
    };
    assert(r@ =~= zeros(0));
    while pad < missing
        invariant
            pad <= missing,
            r@ == zeros(pad as nat),
        decreases missing - pad,
    {
        proof {
            reveal_strlit("0");
        }
        r.append("0");
        pad += 1;
        assert(r@ =~= zeros(pad as nat));
    }
    let mut k: usize = low.len();
    while k > 0
        invariant
            k <= low@.len(),
            forall|i: int| 0 <= i < low@.len() ==> low@[i] < 10,
            r@ == zeros(missing as nat) + digits_text(low@).take(low@.len() - k),
        decreases k,
    {
        k -= 1;
        let ghost before = r@;
        r.append(digit_str(low[k]));
        assert(digits_text(low@).take(low@.len() - k) =~= digits_text(low@).take(
            low@.len() - k - 1,
        ).push(digit_char(low@[k as int] as nat)));
        assert(r@ =~= zeros(missing as nat) + digits_text(low@).take(low@.len() - k));
    }
    assert(digits_text(low@).take(low@.len() as int) =~= digits_text(low@));
    assert(zeros(0) + decimal_text(n as nat) =~= decimal_text(n as nat));
    r
}

} // verus!
