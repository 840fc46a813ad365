//! The RSA accumulator: a group of unknown order, the commitment to a
//! collection of domain elements, and the equations by which a batch of
//! removals and insertions moves one commitment to the next.

use vstd::prelude::*;
use vstd::seq_lib::{
    lemma_multiset_commutative,
    to_multiset_build,
    to_multiset_contains,
    to_multiset_remove,
};
use vstd::arithmetic::power::{pow, lemma_pow_multiplies, lemma_pow_mod_noop, lemma_pow1};
use vstd::arithmetic::div_mod::{lemma_mod_bound, lemma_small_mod};
use crate::natural::{Natural, decimal_value, is_decimal, pow_mod};

verus! {

/// The product of a sequence of numbers; 1 for the empty sequence.
pub open spec fn product(elements: Seq<nat>) -> nat
    decreases elements.len(),
{
    if elements.len() == 0 {
        1
    } else {
        product(elements.drop_last()) * elements.last()
    }
}

/// The commitment to `elements` in the group with generator `g` and modulus
/// `m`: `g^(product of the elements) mod m`.
pub open spec fn digest_of(g: nat, m: nat, elements: Seq<nat>) -> nat {
    pow_mod(g, product(elements), m)
}

/// The removal equation: `reduced^(product of removed) = current (mod m)`.
pub open spec fn removal_holds(m: nat, current: nat, reduced: nat, removed: Seq<nat>) -> bool {
    pow_mod(reduced, product(removed), m) == current % m
}

/// The digest that inserting `inserted` into the set committed to by `reduced`
/// yields: `reduced^(product of inserted) mod m`.
pub open spec fn expanded_digest(m: nat, reduced: nat, inserted: Seq<nat>) -> nat {
    pow_mod(reduced, product(inserted), m)
}

/// The transition from `initial` is accepted with the claimed final digest
/// when the removal equation holds for the reduced digest that the prover
/// supplies, and the claimed digest is the one that the insertions yield from
/// that reduced digest.
pub open spec fn transition_accepts(
    m: nat,
    initial: nat,
    reduced: nat,
    removed: Seq<nat>,
    inserted: Seq<nat>,
    claimed: nat,
) -> bool {
    removal_holds(m, initial, reduced, removed) && claimed == expanded_digest(
        m,
        reduced,
        inserted,
    )
}

/// The numbers that a vector of naturals holds.
pub open spec fn values_of(elements: Seq<Natural>) -> Seq<nat> {
    elements.map_values(|n: Natural| n@)
}

/// The product of a concatenation is the product of the products.
pub proof fn lemma_product_concat(a: Seq<nat>, b: Seq<nat>)
    ensures
        product(a + b) == product(a) * product(b),
    decreases b.len(),
{
    if b.len() == 0 {
        assert(a + b =~= a);
        assert(product(b) == 1);
        assert(product(a) * 1 == product(a));
    } else {
        let init = b.drop_last();
        assert((a + b).drop_last() =~= a + init);
        assert((a + b).last() == b.last());
        lemma_product_concat(a, init);
        assert(product(a + b) == product(a + init) * b.last());
        assert(product(b) == product(init) * b.last());
        assert((product(a) * product(init)) * b.last() == product(a) * (product(init) * b.last()))
            by (nonlinear_arith);
    }
}

/// Raising a residue of a power to a power multiplies the exponents.
pub proof fn lemma_pow_mod_chain(g: nat, a: nat, b: nat, m: nat)
    requires
        m > 0,
    ensures
        pow_mod(pow_mod(g, a, m), b, m) == pow_mod(g, a * b, m),
{
    let inner = pow(g as int, a);
    lemma_mod_bound(inner, m as int);
    lemma_pow_mod_noop(inner, b, m as int);
    lemma_pow_multiplies(g as int, a, b);
}

/// A power taken modulo `m` is a residue of `m`.
pub proof fn lemma_pow_mod_bound(g: nat, e: nat, m: nat)
    requires
        m > 0,
    ensures
        pow_mod(g, e, m) < m,
{
    lemma_mod_bound(pow(g as int, e), m as int);
}

/// A commitment scheme's group: a generator and a modulus.
pub struct RsaGroup {
    pub g: Natural,
    pub m: Natural,
}

impl RsaGroup {
    /// The modulus is positive, so that residues exist.
    pub open spec fn wf(&self) -> bool {
        self.m@ > 0
    }

    /// The group with this generator and modulus.
    pub fn new(g: Natural, m: Natural) -> (r: RsaGroup)
        ensures
            r.g == g,
            r.m == m,
    {
        RsaGroup { g, m }
    }

    /// Reads a group from the decimal numerals of its generator and its
    /// modulus. A string that is no numeral is refused, and so is a modulus
    /// of zero.
    pub fn from_decimal(g: &str, m: &str) -> (r: Option<RsaGroup>)
        ensures
            r.is_some() == (is_decimal(g@) && is_decimal(m@) && decimal_value(m@) > 0),
            r matches Some(group) ==> group.wf() && group.g@ == decimal_value(g@) && group.m@
                == decimal_value(m@),
    {
        let g = match Natural::from_decimal(g) {
            Some(g) => g,
            None => {
                return None;
            },
        };
        let m = match Natural::from_decimal(m) {
            Some(m) => m,
            None => {
                return None;
            },
        };
        if m.is_zero() {
            return None;
        }
        Some(RsaGroup { g, m })
    }

    /// A copy of the group.
    pub fn duplicate(&self) -> (r: RsaGroup)
        ensures
            r.g@ == self.g@,
            r.m@ == self.m@,
            r.wf() == self.wf(),
    {
        RsaGroup { g: self.g.duplicate(), m: self.m.duplicate() }
    }

    /// `base^(product of exponents) mod m`, one exponentiation per exponent.
    pub fn power_all(&self, base: &Natural, exponents: &Vec<Natural>) -> (r: Natural)
        requires
            self.wf(),
        ensures
            r@ == pow_mod(base@, product(values_of(exponents@)), self.m@),
            r.canonical(),
    {
        let one = Natural::from_u64(1);
        let mut acc = base.modpow(&one, &self.m);
        let mut i: usize = 0;
        proof {
            assert(values_of(exponents@).take(0) =~= Seq::<nat>::empty());
        }
        while i < exponents.len()
            invariant
                i <= exponents.len(),
                self.wf(),
                acc.canonical(),
                acc@ == pow_mod(base@, product(values_of(exponents@).take(i as int)), self.m@),
            decreases exponents.len() - i,
        {
            let ghost done = values_of(exponents@).take(i as int);
            let next = acc.modpow(&exponents[i], &self.m);
            proof {
                let all = values_of(exponents@);
                assert(all.take(i + 1).drop_last() =~= done);
                assert(all.take(i + 1).last() == exponents@[i as int]@);
                lemma_pow_mod_chain(base@, product(done), exponents@[i as int]@, self.m@);
            }
            acc = next;
            i += 1;
        }
        proof {
            assert(values_of(exponents@).take(exponents.len() as int) =~= values_of(exponents@));
        }
        acc
    }
}


/// The position of the first occurrence of `x` in `s`; the length of `s` when
/// `x` does not occur.
pub open spec fn first_index_of(s: Seq<nat>, x: nat) -> int
    decreases s.len(),
{
    if s.len() == 0 {
        0
    } else if s[0] == x {
        0
    } else {
        1 + first_index_of(s.drop_first(), x)
    }
}

/// `first_index_of` is the least position that holds `x`, or the length.
pub proof fn lemma_first_index_of(s: Seq<nat>, x: nat, i: int)
    requires
        0 <= i <= s.len(),
        forall|j: int| 0 <= j < i ==> s[j] != x,
        i < s.len() ==> s[i] == x,
    ensures
        first_index_of(s, x) == i,
    decreases s.len(),
{
    if s.len() > 0 && i > 0 {
        let rest = s.drop_first();
        assert forall|j: int| 0 <= j < i - 1 implies rest[j] != x by {
            assert(rest[j] == s[j + 1]);
        }
        lemma_first_index_of(rest, x, i - 1);
    }
}

/// The accumulator's explicit state: the group and the domain elements that
/// are members, with their multiplicity.
pub struct SetBackend {
    pub group: RsaGroup,
    pub elements: Vec<Natural>,
}

impl SetBackend {
    /// The group is well formed.
    pub open spec fn wf(&self) -> bool {
        self.group.wf()
    }

    /// The members, in the order in which they are held.
    pub open spec fn members(&self) -> Seq<nat> {
        values_of(self.elements@)
    }

    /// The empty set over `group`.
    pub fn new(group: RsaGroup) -> (r: SetBackend)
        ensures
            r.group == group,
            r.members() == Seq::<nat>::empty(),
    {
        let r = SetBackend { group, elements: Vec::new() };
        assert(r.members() =~= Seq::<nat>::empty());
        r
    }

    /// The set over `group` that holds `items`.
    pub fn new_with(group: RsaGroup, items: Vec<Natural>) -> (r: SetBackend)
        ensures
            r.group == group,
            r.elements == items,
            r.members() == values_of(items@),
    {
        SetBackend { group, elements: items }
    }

    /// Adds one occurrence of `n`.
    pub fn insert(&mut self, n: Natural)
        ensures
            final(self).group == old(self).group,
            final(self).members() == old(self).members().push(n@),
    {
        self.elements.push(n);
        assert(self.members() =~= old(self).members().push(n@));
    }

    /// Takes out the first occurrence of `n`, and says whether there was one.
    pub fn remove(&mut self, n: &Natural) -> (r: bool)
        ensures
            final(self).group == old(self).group,
            r == old(self).members().contains(n@),
            r ==> final(self).members() == old(self).members().remove(
                first_index_of(old(self).members(), n@),
            ),
            !r ==> final(self).members() == old(self).members(),
    {
        let mut i: usize = 0;
        while i < self.elements.len()
            invariant
                i <= self.elements.len(),
                *self == *old(self),
                forall|j: int| 0 <= j < i ==> self.members()[j] != n@,
            decreases self.elements.len() - i,
        {
            if self.elements[i].equals(n) {
                proof {
                    assert(self.members()[i as int] == n@);
                    lemma_first_index_of(self.members(), n@, i as int);
                }
                let _ = self.elements.remove(i);
                assert(self.members() =~= old(self).members().remove(i as int));
                return true;
            }
            i += 1;
        }
        proof {
            if self.members().contains(n@) {
                let k = choose|k: int| 0 <= k < self.members().len() && self.members()[k] == n@;
                assert(self.members()[k] != n@);
            }
        }
        false
    }

    /// A copy of the set.
    pub fn duplicate(&self) -> (r: SetBackend)
        ensures
            r.members() == self.members(),
            r.group.g@ == self.group.g@,
            r.group.m@ == self.group.m@,
            r.wf() == self.wf(),
    {
        let mut elements: Vec<Natural> = Vec::new();
        let mut i: usize = 0;
        while i < self.elements.len()
            invariant
                i <= self.elements.len(),
                elements@.len() == i,
                forall|k: int| 0 <= k < i ==> (#[trigger] elements@[k])@ == self.elements@[k]@,
            decreases self.elements.len() - i,
        {
            elements.push(self.elements[i].duplicate());
            i += 1;
        }
        assert(values_of(elements@) =~= values_of(self.elements@));
        SetBackend { group: self.group.duplicate(), elements }
    }

    /// The commitment to the members.
    pub fn digest(&self) -> (r: Natural)
        requires
            self.wf(),
        ensures
            r@ == digest_of(self.group.g@, self.group.m@, self.members()),
            r.canonical(),
    {
        self.group.power_all(&self.group.g, &self.elements)
    }
}

/// Decides whether the transition is accepted: the removal equation for the
/// reduced digest, and the claimed digest against the one that the insertions
/// yield.
pub fn check_transition(
    group: &RsaGroup,
    initial: &Natural,
    reduced: &Natural,
    removed: &Vec<Natural>,
    inserted: &Vec<Natural>,
    claimed: &Natural,
) -> (r: bool)
    requires
        group.wf(),
    ensures
        r == transition_accepts(
            group.m@,
            initial@,
            reduced@,
            values_of(removed@),
            values_of(inserted@),
            claimed@,
        ),
{
    let one = Natural::from_u64(1);
    let restored = group.power_all(reduced, removed);
    let residue = initial.modpow(&one, &group.m);
    proof {
        lemma_pow1(initial@ as int);
    }
    if !restored.equals(&residue) {
        return false;
    }
    let expanded = group.power_all(reduced, inserted);
    expanded.equals(claimed)
}

/// Let a set hold the elements `untouched` and `removed`, and let the prover
/// supply the commitment to `untouched` as the reduced digest. Then the
/// transition that removes `removed` and inserts `inserted` is accepted with
/// exactly one claimed final digest: the commitment to `untouched` and
/// `inserted`. Every other claim is rejected.
pub proof fn lemma_transition_accepts_exactly(
    g: nat,
    m: nat,
    untouched: Seq<nat>,
    removed: Seq<nat>,
    inserted: Seq<nat>,
    claimed: nat,
)
    requires
        m > 0,
    ensures
        transition_accepts(
            m,
            digest_of(g, m, untouched + removed),
            digest_of(g, m, untouched),
            removed,
            inserted,
            claimed,
        ) <==> claimed == digest_of(g, m, untouched + inserted),
{
    let reduced = digest_of(g, m, untouched);
    let initial = digest_of(g, m, untouched + removed);
    lemma_product_concat(untouched, removed);
    lemma_product_concat(untouched, inserted);
    lemma_pow_mod_chain(g, product(untouched), product(removed), m);
    lemma_pow_mod_chain(g, product(untouched), product(inserted), m);
    lemma_pow_mod_bound(g, product(untouched + removed), m);
    lemma_small_mod(initial, m);
}


/// The members that are left when `removed` are taken out one after the
/// other, each at its first occurrence, and skipped where it is no member.
pub open spec fn remove_each(members: Seq<nat>, removed: Seq<nat>) -> Seq<nat>
    decreases removed.len(),
{
    if removed.len() == 0 {
        members
    } else {
        let rest = remove_each(members, removed.drop_last());
        if rest.contains(removed.last()) {
            rest.remove(first_index_of(rest, removed.last()))
        } else {
            rest
        }
    }
}

/// Each of `removed` is a member at its turn, when they are taken out of
/// `members` one after the other.
pub open spec fn all_present(members: Seq<nat>, removed: Seq<nat>) -> bool
    decreases removed.len(),
{
    if removed.len() == 0 {
        true
    } else {
        all_present(members, removed.drop_last()) && remove_each(
            members,
            removed.drop_last(),
        ).contains(removed.last())
    }
}

impl SetBackend {
    /// Takes out each of `items`, in order, and says whether all of them
    /// were members.
    pub fn remove_all(&mut self, items: &Vec<Natural>) -> (r: bool)
        ensures
            final(self).group == old(self).group,
            final(self).members() == remove_each(old(self).members(), values_of(items@)),
            r == all_present(old(self).members(), values_of(items@)),
    {
        let mut all = true;
        let mut i: usize = 0;
        proof {
            assert(values_of(items@).take(0) =~= Seq::<nat>::empty());
        }
        while i < items.len()
            invariant
                i <= items.len(),
                self.group == old(self).group,
                self.members() == remove_each(
                    old(self).members(),
                    values_of(items@).take(i as int),
                ),
                all == all_present(old(self).members(), values_of(items@).take(i as int)),
            decreases items.len() - i,
        {
            proof {
                let done = values_of(items@).take(i + 1);
                assert(done.drop_last() =~= values_of(items@).take(i as int));
                assert(done.last() == items@[i as int]@);
            }
            let found = self.remove(&items[i]);
            all = all && found;
            i += 1;
        }
        proof {
            assert(values_of(items@).take(items@.len() as int) =~= values_of(items@));
        }
        all
    }
}


/// Taking one element out of a sequence divides its product by that element.
pub proof fn lemma_product_remove(s: Seq<nat>, i: int)
    requires
        0 <= i < s.len(),
    ensures
        product(s.remove(i)) * s[i] == product(s),
{
    let before = s.subrange(0, i);
    let after = s.subrange(i + 1, s.len() as int);
    let one = seq![s[i]];
    assert(s =~= before + one + after);
    assert(s.remove(i) =~= before + after);
    lemma_product_concat(before, after);
    lemma_product_concat(before, one);
    lemma_product_concat(before + one, after);
    assert(one.drop_last() =~= Seq::<nat>::empty());
    assert(one.last() == s[i]);
    assert(product(one.drop_last()) == 1);
    assert(product(one) == product(one.drop_last()) * one.last());
    assert(product(one) == 1 * s[i]);
    let a = product(before);
    let b = product(after);
    let x = s[i];
    assert((a * b) * x == (a * (1 * x)) * b) by (nonlinear_arith);
}

/// Where every removed element is a member at its turn, the product of the
/// members that are left, times the product of the removed ones, is the
/// product of the members.
pub proof fn lemma_product_remove_each(members: Seq<nat>, removed: Seq<nat>)
    requires
        all_present(members, removed),
    ensures
        product(remove_each(members, removed)) * product(removed) == product(members),
    decreases removed.len(),
{
    if removed.len() == 0 {
        assert(product(members) * 1 == product(members));
    } else {
        let init = removed.drop_last();
        let x = removed.last();
        let rest = remove_each(members, init);
        lemma_product_remove_each(members, init);
        let i = choose|i: int| 0 <= i < rest.len() && rest[i] == x;
        lemma_first_index_bound(rest, x, i);
        let k = first_index_of(rest, x);
        lemma_product_remove(rest, k);
        let p = product(rest.remove(k));
        let q = product(init);
        assert((p * x) * q == p * (q * x)) by (nonlinear_arith);
    }
}

/// `first_index_of` gives a position that holds `x`, where `x` occurs.
pub proof fn lemma_first_index_bound(s: Seq<nat>, x: nat, i: int)
    requires
        0 <= i < s.len(),
        s[i] == x,
    ensures
        0 <= first_index_of(s, x) <= i,
        s[first_index_of(s, x)] == x,
    decreases s.len(),
{
    if s[0] != x {
        let rest = s.drop_first();
        assert(rest[i - 1] == s[i]);
        lemma_first_index_bound(rest, x, i - 1);
        assert(rest[first_index_of(rest, x)] == s[first_index_of(rest, x) + 1]);
    }
}

/// Let a set hold `members`, let `removed` be members of it, each at its
/// turn, and let the prover supply the commitment to the members that are
/// left as the reduced digest. Then the transition that removes `removed`
/// and inserts `inserted` is accepted with exactly one claimed final digest:
/// the commitment to the members that are left and the inserted elements.
/// Every other claim is rejected.
pub proof fn lemma_transition_of_members(
    g: nat,
    m: nat,
    members: Seq<nat>,
    removed: Seq<nat>,
    inserted: Seq<nat>,
    claimed: nat,
)
    requires
        m > 0,
        all_present(members, removed),
    ensures
        transition_accepts(
            m,
            digest_of(g, m, members),
            digest_of(g, m, remove_each(members, removed)),
            removed,
            inserted,
            claimed,
        ) <==> claimed == digest_of(g, m, remove_each(members, removed) + inserted),
{
    let left = remove_each(members, removed);
    lemma_product_remove_each(members, removed);
    lemma_product_concat(left, inserted);
    lemma_pow_mod_chain(g, product(left), product(removed), m);
    lemma_pow_mod_chain(g, product(left), product(inserted), m);
    lemma_pow_mod_bound(g, product(members), m);
    lemma_small_mod(digest_of(g, m, members), m);
}


/// Where every removed element is a member at its turn, the members that
/// are left and the removed ones together are the members, counted with
/// multiplicity.
pub proof fn lemma_remove_each_counts(members: Seq<nat>, removed: Seq<nat>)
    requires
        all_present(members, removed),
    ensures
        remove_each(members, removed).to_multiset().add(removed.to_multiset())
            =~= members.to_multiset(),
    decreases removed.len(),
{
    broadcast use vstd::multiset::group_multiset_axioms;

    if removed.len() == 0 {
        lemma_multiset_commutative(members, removed);
        assert(members + removed =~= members);
    } else {
        let init = removed.drop_last();
        let x = removed.last();
        let rest = remove_each(members, init);
        lemma_remove_each_counts(members, init);
        let i = choose|i: int| 0 <= i < rest.len() && rest[i] == x;
        lemma_first_index_bound(rest, x, i);
        let k = first_index_of(rest, x);
        to_multiset_remove(rest, k);
        to_multiset_build(init, x);
        assert(removed =~= init.push(x));
        to_multiset_contains(rest, x);
    }
}

/// In a set that holds `untouched` and `removed`, every element of a prefix
/// of `removed` is a member at its turn.
pub proof fn lemma_prefix_present(untouched: Seq<nat>, removed: Seq<nat>, k: int)
    requires
        0 <= k <= removed.len(),
    ensures
        all_present(untouched + removed, removed.take(k)),
    decreases k,
{
    broadcast use vstd::multiset::group_multiset_axioms;

    if k > 0 {
        let members = untouched + removed;
        let init = removed.take(k - 1);
        let x = removed[k - 1];
        lemma_prefix_present(untouched, removed, k - 1);
        assert(removed.take(k).drop_last() =~= init);
        assert(removed.take(k).last() == x);
        let rest = remove_each(members, init);
        lemma_remove_each_counts(members, init);
        let tail = removed.skip(k - 1);
        assert(removed =~= init + tail);
        lemma_multiset_commutative(init, tail);
        lemma_multiset_commutative(untouched, removed);
        assert(tail[0] == x);
        to_multiset_contains(tail, x);
        to_multiset_contains(rest, x);
        assert(rest.to_multiset().count(x) + init.to_multiset().count(x)
            == members.to_multiset().count(x));
    }
}

/// The product of positive numbers is positive.
pub proof fn lemma_product_positive(elements: Seq<nat>)
    requires
        forall|i: int| 0 <= i < elements.len() ==> elements[i] > 0,
    ensures
        product(elements) > 0,
    decreases elements.len(),
{
    if elements.len() > 0 {
        lemma_product_positive(elements.drop_last());
        assert(product(elements.drop_last()) * elements.last() > 0) by (nonlinear_arith)
            requires
                product(elements.drop_last()) > 0,
                elements.last() > 0,
        ;
    }
}

/// Taking the positive elements `removed` out of a set that holds
/// `untouched` and `removed` finds each of them, and leaves members whose
/// product is that of `untouched`.
pub proof fn lemma_remove_what_was_added(untouched: Seq<nat>, removed: Seq<nat>)
    requires
        forall|i: int| 0 <= i < removed.len() ==> removed[i] > 0,
    ensures
        all_present(untouched + removed, removed),
        product(remove_each(untouched + removed, removed)) == product(untouched),
{
    lemma_prefix_present(untouched, removed, removed.len() as int);
    assert(removed.take(removed.len() as int) =~= removed);
    lemma_product_remove_each(untouched + removed, removed);
    lemma_product_concat(untouched, removed);
    lemma_product_positive(removed);
    let a = product(remove_each(untouched + removed, removed));
    let b = product(untouched);
    let p = product(removed);
    assert(a == b) by (nonlinear_arith)
        requires
            a * p == b * p,
            p > 0,
    ;
}

} // verus!
