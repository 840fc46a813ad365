//! The check of a witness outside the circuit: whether the transition that
//! it describes is one that the circuit accepts.

use vstd::prelude::*;
use vstd::arithmetic::power2::lemma2_to64;
use crate::accumulator::{
    RsaGroup,
    all_present,
    check_transition,
    digest_of,
    values_of,
    lemma_product_concat,
    lemma_remove_what_was_added,
    lemma_transition_of_members,
    remove_each,
    transition_accepts,
};
use crate::domain::{HashDomain, item_element, lemma_item_element_shape};
use crate::field::{PoseidonShape, Scalar, scalar_rows};
use crate::limbs::SynthesisError;
use crate::natural::Natural;
use crate::rollup::{
    Rollup,
    RollupInputs,
    all_scalars_wf,
    grab,
    built_from,
    parsed_elements,
    parsed_item,
    element_domain,
    hash_items,
    item_elements,
    items_complete,
    witness_complete,
};

verus! {

/// The domain elements of the items that a circuit reads from a list: of
/// the first `count` items, and of each its first `item_size` values.
pub open spec fn used_elements(
    items: Seq<Vec<Scalar>>,
    count: usize,
    item_size: usize,
    domain: HashDomain,
    hash: PoseidonShape,
) -> Seq<nat> {
    Seq::new(
        count as nat,
        |i: int| item_element(hash, scalar_rows(items[i]@.take(item_size as int)), domain),
    )
}

/// The items that a circuit reads from a list.
fn take_items(items: &Vec<Vec<Scalar>>, count: usize, item_size: usize) -> (r: Vec<Vec<Scalar>>)
    requires
        items_complete(items@, count, item_size),
        all_scalars_wf(items@),
    ensures
        r@.len() == count,
        forall|i: int| 0 <= i < count ==> (#[trigger] r@[i])@ == items@[i]@.take(item_size as int),
        all_scalars_wf(r@),
{
    let mut taken: Vec<Vec<Scalar>> = Vec::new();
    let mut i: usize = 0;
    while i < count
        invariant
            i <= count,
            items_complete(items@, count, item_size),
            all_scalars_wf(items@),
            taken@.len() == i,
            forall|k: int|
                0 <= k < i ==> (#[trigger] taken@[k])@ == items@[k]@.take(item_size as int),
            all_scalars_wf(taken@),
        decreases count - i,
    {
        let mut item: Vec<Scalar> = Vec::new();
        let mut j: usize = 0;
        assert(items@[i as int]@.len() >= item_size);
        while j < item_size
            invariant
                j <= item_size,
                i < items@.len(),
                items@[i as int]@.len() >= item_size,
                all_scalars_wf(items@),
                item@ == items@[i as int]@.take(j as int),
            decreases item_size - j,
        {
            item.push(items[i][j]);
            assert(item@ =~= items@[i as int]@.take(j + 1));
            j += 1;
        }
        proof {
            assert forall|p: int| 0 <= p < item@.len() implies (#[trigger] item@[p]).wf() by {
                assert(item@[p] == items@[i as int]@[p]);
            }
        }
        taken.push(item);
        i += 1;
    }
    taken
}

impl Rollup {
    /// The witness is well formed, where there is one, and so is the shape's
    /// group; an element of the domain has a bit for its forced one.
    pub open spec fn wf(&self) -> bool {
        &&& self.params.group.wf()
        &&& self.params.n_bits_elem >= 1
        &&& self.inputs matches Some(w) ==> w.wf()
    }

    /// Whether the circuit accepts the witness: with the digest of the
    /// initial set, the digest of the set without the leaving items as the
    /// reduced digest, and the elements of the leaving and entering items,
    /// the transition holds for the claimed final digest. Without a witness,
    /// or with one that lacks a value, there is nothing to decide.
    pub fn witness_satisfies(&self) -> (r: Result<bool, SynthesisError>)
        requires
            self.wf(),
        ensures
            r.is_ok() == (self.inputs matches Some(w) && witness_complete(w, self.params.key())),
            r matches Err(e) ==> e == SynthesisError::AssignmentMissing,
            r matches Ok(accepted) ==> accepted == self.accepts(),
    {
        let w = match grab(&self.inputs) {
            Ok(w) => w,
            Err(e) => {
                return Err(e);
            },
        };
        let params = &self.params;
        if !has_items(&w.to_remove, params.n_removes, params.item_size) || !has_items(
            &w.to_insert,
            params.n_inserts,
            params.item_size,
        ) {
            return Err(SynthesisError::AssignmentMissing);
        }
        let domain = HashDomain { n_bits: params.n_bits_elem, n_trailing_ones: 1 };
        let leaving = take_items(&w.to_remove, params.n_removes, params.item_size);
        let entering = take_items(&w.to_insert, params.n_inserts, params.item_size);
        let removed = hash_items(&leaving, &domain, &params.hash);
        let inserted = hash_items(&entering, &domain, &params.hash);
        proof {
            assert(item_elements(leaving@, domain, params.hash@) =~= used_elements(
                w.to_remove@,
                params.n_removes,
                params.item_size,
                domain,
                params.hash@,
            ));
            assert(item_elements(entering@, domain, params.hash@) =~= used_elements(
                w.to_insert@,
                params.n_inserts,
                params.item_size,
                domain,
                params.hash@,
            ));
        }
        Ok(w.elements_satisfy(&params.group, &removed, &inserted))
    }

    /// The transition of the witness is accepted.
    pub open spec fn accepts(&self) -> bool
        recommends
            self.inputs.is_some(),
    {
        let w = self.inputs.unwrap();
        let domain = element_domain(self.params.n_bits_elem);
        let set_g = w.initial_state.group.g@;
        let set_m = w.initial_state.group.m@;
        let removed = used_elements(
            w.to_remove@,
            self.params.n_removes,
            self.params.item_size,
            domain,
            self.params.hash@,
        );
        let inserted = used_elements(
            w.to_insert@,
            self.params.n_inserts,
            self.params.item_size,
            domain,
            self.params.hash@,
        );
        w.accepts_elements(self.params.group.m@, removed, inserted)
    }
}

impl RollupInputs {
    /// The transition of the witness is accepted modulo `m` when `removed`
    /// and `inserted` are the elements of the items that leave and enter:
    /// with the digest of the initial set, and the digest of the set without
    /// `removed` as the reduced digest, the two equations hold for the
    /// claimed final digest.
    pub open spec fn accepts_elements(&self, m: nat, removed: Seq<nat>, inserted: Seq<nat>) -> bool {
        let set_g = self.initial_state.group.g@;
        let set_m = self.initial_state.group.m@;
        transition_accepts(
            m,
            digest_of(set_g, set_m, self.initial_state.members()),
            digest_of(set_g, set_m, remove_each(self.initial_state.members(), removed)),
            removed,
            inserted,
            self.final_digest@,
        )
    }

    /// Whether the circuit over `group` accepts the witness, given the
    /// elements that the items that leave and enter are hashed to.
    pub fn elements_satisfy(
        &self,
        group: &RsaGroup,
        removed: &Vec<Natural>,
        inserted: &Vec<Natural>,
    ) -> (r: bool)
        requires
            group.wf(),
            self.initial_state.wf(),
        ensures
            r == self.accepts_elements(group.m@, values_of(removed@), values_of(inserted@)),
    {
        let initial = self.initial_state.digest();
        let mut reduced_state = self.initial_state.duplicate();
        let _ = reduced_state.remove_all(removed);
        let reduced = reduced_state.digest();
        check_transition(group, &initial, &reduced, removed, inserted, &self.final_digest)
    }
}

/// Whether the first `count` items hold `item_size` values each.
pub fn has_items(items: &Vec<Vec<Scalar>>, count: usize, item_size: usize) -> (r: bool)
    ensures
        r == items_complete(items@, count, item_size),
{
    if items.len() < count {
        return false;
    }
    let mut i: usize = 0;
    while i < count
        invariant
            i <= count,
            count <= items@.len(),
            forall|k: int| 0 <= k < i ==> (#[trigger] items@[k])@.len() >= item_size,
        decreases count - i,
    {
        if items[i].len() < item_size {
            return false;
        }
        i += 1;
    }
    true
}


/// Where the initial set is over the circuit's group and holds every item
/// that leaves, the circuit accepts the witness if and only if the claimed
/// final digest is the commitment to the members that are left and the
/// entering items' elements.
pub proof fn lemma_accepts_exactly(rollup: Rollup)
    requires
        rollup.wf(),
        rollup.inputs.is_some(),
        rollup.inputs.unwrap().initial_state.group.g@ == rollup.params.group.g@,
        rollup.inputs.unwrap().initial_state.group.m@ == rollup.params.group.m@,
        all_present(
            rollup.inputs.unwrap().initial_state.members(),
            used_elements(
                rollup.inputs.unwrap().to_remove@,
                rollup.params.n_removes,
                rollup.params.item_size,
                element_domain(rollup.params.n_bits_elem),
                rollup.params.hash@,
            ),
        ),
    ensures
        rollup.accepts() <==> rollup.inputs.unwrap().final_digest@ == digest_of(
            rollup.params.group.g@,
            rollup.params.group.m@,
            remove_each(
                rollup.inputs.unwrap().initial_state.members(),
                used_elements(
                    rollup.inputs.unwrap().to_remove@,
                    rollup.params.n_removes,
                    rollup.params.item_size,
                    element_domain(rollup.params.n_bits_elem),
                    rollup.params.hash@,
                ),
            ) + used_elements(
                rollup.inputs.unwrap().to_insert@,
                rollup.params.n_inserts,
                rollup.params.item_size,
                element_domain(rollup.params.n_bits_elem),
                rollup.params.hash@,
            ),
        ),
{
    let w = rollup.inputs.unwrap();
    let domain = element_domain(rollup.params.n_bits_elem);
    lemma_transition_of_members(
        rollup.params.group.g@,
        rollup.params.group.m@,
        w.initial_state.members(),
        used_elements(
            w.to_remove@,
            rollup.params.n_removes,
            rollup.params.item_size,
            domain,
            rollup.params.hash@,
        ),
        used_elements(
            w.to_insert@,
            rollup.params.n_inserts,
            rollup.params.item_size,
            domain,
            rollup.params.hash@,
        ),
        w.final_digest@,
    );
}


/// An element of a domain with a forced bit is positive.
pub proof fn lemma_element_positive(item: Seq<Seq<u64>>, n_bits_elem: usize, hash: PoseidonShape)
    requires
        n_bits_elem >= 1,
    ensures
        item_element(hash, item, element_domain(n_bits_elem)) > 0,
{
    let domain = element_domain(n_bits_elem);
    lemma2_to64();
    lemma_item_element_shape(hash, item, domain);
}

/// The witness that is built from three lists of items satisfies the
/// circuit over the same group whose shape asks for just these items: as
/// many as leave and enter, with as many values each, at the same bit length
/// of an element.
pub proof fn lemma_built_witness_accepted(
    rollup: Rollup,
    untouched: Seq<Vec<String>>,
    removed: Seq<Vec<String>>,
    inserted: Seq<Vec<String>>,
    group: RsaGroup,
)
    requires
        rollup.inputs.is_some(),
        built_from(
            rollup.inputs.unwrap(),
            untouched,
            removed,
            inserted,
            rollup.params.n_bits_elem,
            group,
            rollup.params.hash@,
        ),
        group.wf(),
        rollup.params.n_bits_elem >= 1,
        rollup.params.group.g@ == group.g@,
        rollup.params.group.m@ == group.m@,
        rollup.inputs.unwrap().initial_state.group.g@ == group.g@,
        rollup.inputs.unwrap().initial_state.group.m@ == group.m@,
        rollup.params.n_removes == removed.len(),
        rollup.params.n_inserts == inserted.len(),
        forall|i: int| 0 <= i < removed.len() ==> (#[trigger] removed[i])@.len() == rollup.params.item_size,
        forall|i: int|
            0 <= i < inserted.len() ==> (#[trigger] inserted[i])@.len() == rollup.params.item_size,
    ensures
        rollup.accepts(),
{
    let w = rollup.inputs.unwrap();
    let params = rollup.params;
    let domain = element_domain(params.n_bits_elem);
    let kept = parsed_elements(untouched, domain, params.hash@);
    let leaving = item_elements(w.to_remove@, domain, params.hash@);
    let entering = item_elements(w.to_insert@, domain, params.hash@);
    assert forall|i: int| 0 <= i < params.n_removes implies (#[trigger] w.to_remove@[i])@.take(
        params.item_size as int,
    ) =~= w.to_remove@[i]@ by {
        assert(scalar_rows(w.to_remove@[i]@).len() == parsed_item(removed[i]@).len());
    }
    assert forall|i: int| 0 <= i < params.n_inserts implies (#[trigger] w.to_insert@[i])@.take(
        params.item_size as int,
    ) =~= w.to_insert@[i]@ by {
        assert(scalar_rows(w.to_insert@[i]@).len() == parsed_item(inserted[i]@).len());
    }
    assert(used_elements(
        w.to_remove@,
        params.n_removes,
        params.item_size,
        domain,
        params.hash@,
    ) =~= leaving);
    assert(used_elements(
        w.to_insert@,
        params.n_inserts,
        params.item_size,
        domain,
        params.hash@,
    ) =~= entering);
    assert forall|i: int| 0 <= i < leaving.len() implies leaving[i] > 0 by {
        lemma_element_positive(scalar_rows(w.to_remove@[i]@), params.n_bits_elem, params.hash@);
    }
    lemma_remove_what_was_added(kept, leaving);
    let left = remove_each(kept + leaving, leaving);
    lemma_transition_of_members(
        group.g@,
        group.m@,
        kept + leaving,
        leaving,
        entering,
        w.final_digest@,
    );
    lemma_product_concat(left, entering);
    lemma_product_concat(kept, entering);
}


/// A witness whose set holds `untouched` and the positive elements
/// `removed`, and whose final digest is the commitment to `untouched` and
/// `inserted`, is accepted over the group of its set when `removed` leave
/// and `inserted` enter.
pub proof fn lemma_elements_witness_accepted(
    w: RollupInputs,
    untouched: Seq<nat>,
    removed: Seq<nat>,
    inserted: Seq<nat>,
)
    requires
        w.initial_state.wf(),
        w.initial_state.members() == untouched + removed,
        w.final_digest@ == digest_of(
            w.initial_state.group.g@,
            w.initial_state.group.m@,
            untouched + inserted,
        ),
        forall|i: int| 0 <= i < removed.len() ==> removed[i] > 0,
    ensures
        w.accepts_elements(w.initial_state.group.m@, removed, inserted),
{
    lemma_remove_what_was_added(untouched, removed);
    let left = remove_each(untouched + removed, removed);
    lemma_transition_of_members(
        w.initial_state.group.g@,
        w.initial_state.group.m@,
        untouched + removed,
        removed,
        inserted,
        w.final_digest@,
    );
    lemma_product_concat(left, inserted);
    lemma_product_concat(untouched, inserted);
}

} // verus!
