//! The witness of one batch of removals and insertions, and the shape of the
//! circuit that proves it.

use vstd::prelude::*;
use vstd::string::*;
use crate::accumulator::{RsaGroup, SetBackend, digest_of, values_of};
use crate::domain::{HashDomain, hash_to_rsa_element, item_element};
use crate::limbs::SynthesisError;
use crate::field::{
    PoseidonParams,
    PoseidonShape,
    Scalar,
    scalar_modulus,
    scalar_rows,
    value_limbs,
};
use crate::natural::{Natural, decimal_value, is_canonical_decimal};
use crate::text::{decimal_text, zero_padded, zero_padded_text};

verus! {

/// The value of the witness that `value` holds, or the error of a value
/// that is missing.
pub fn grab<T>(value: &Option<T>) -> (r: Result<&T, SynthesisError>)
    ensures
        value matches Some(x) ==> r == Ok::<&T, SynthesisError>(x),
        value.is_none() ==> r == Err::<&T, SynthesisError>(SynthesisError::AssignmentMissing),
{
    match value {
        Some(x) => Ok(x),
        None => Err(SynthesisError::AssignmentMissing),
    }
}

/// The domain of the elements that items are hashed to: `n_bits_elem` bits,
/// the lowest of them one.
pub open spec fn element_domain(n_bits_elem: usize) -> HashDomain {
    HashDomain { n_bits: n_bits_elem, n_trailing_ones: 1 }
}

/// The rows of limbs that the numerals of an item are read as.
pub open spec fn parsed_item(item: Seq<String>) -> Seq<Seq<u64>> {
    item.map_values(|s: String| value_limbs(decimal_value(s@) % scalar_modulus()))
}

/// The domain elements of items that are given as numerals.
pub open spec fn parsed_elements(
    items: Seq<Vec<String>>,
    domain: HashDomain,
    hash: PoseidonShape,
) -> Seq<nat> {
    items.map_values(|item: Vec<String>| item_element(hash, parsed_item(item@), domain))
}

/// The domain elements of items that are given as scalars.
pub open spec fn item_elements(
    items: Seq<Vec<Scalar>>,
    domain: HashDomain,
    hash: PoseidonShape,
) -> Seq<nat> {
    items.map_values(|item: Vec<Scalar>| item_element(hash, scalar_rows(item@), domain))
}

/// Every value of every item is a canonical decimal numeral.
pub open spec fn all_numerals(items: Seq<Vec<String>>) -> bool {
    forall|i: int, j: int|
        0 <= i < items.len() && 0 <= j < items[i]@.len() ==> is_canonical_decimal(
            #[trigger] items[i]@[j]@,
        )
}

/// Every value of every item denotes an element of the field.
pub open spec fn all_scalars_wf(items: Seq<Vec<Scalar>>) -> bool {
    forall|i: int, j: int|
        0 <= i < items.len() && 0 <= j < items[i]@.len() ==> (#[trigger] items[i]@[j]).wf()
}

/// `scalars` holds what the numerals of `items` are read as, item by item.
pub open spec fn parses(items: Seq<Vec<String>>, scalars: Seq<Vec<Scalar>>) -> bool {
    &&& items.len() == scalars.len()
    &&& forall|i: int|
        0 <= i < items.len() ==> scalar_rows(#[trigger] scalars[i]@) == parsed_item(items[i]@)
}

/// Reads the numerals of one item.
fn parse_item(item: &Vec<String>) -> (r: Vec<Scalar>)
    requires
        forall|j: int| 0 <= j < item@.len() ==> is_canonical_decimal(#[trigger] item@[j]@),
    ensures
        scalar_rows(r@) == parsed_item(item@),
        forall|j: int| 0 <= j < r@.len() ==> (#[trigger] r@[j]).wf(),
{
    let mut scalars: Vec<Scalar> = Vec::new();
    let mut j: usize = 0;
    while j < item.len()
        invariant
            j <= item.len(),
            scalars@.len() == j,
            forall|k: int| 0 <= k < item@.len() ==> is_canonical_decimal(#[trigger] item@[k]@),
            forall|k: int| 0 <= k < j ==> (#[trigger] scalars@[k]).wf(),
            forall|k: int|
                0 <= k < j ==> (#[trigger] scalars@[k]).limbs@ == value_limbs(
                    decimal_value(item@[k]@) % scalar_modulus(),
                ),
        decreases item.len() - j,
    {
        assert(is_canonical_decimal(item@[j as int]@));
        match Scalar::from_decimal(item[j].as_str()) {
            Some(x) => {
                scalars.push(x);
            },
            None => {
                assert(false);
            },
        }
        j += 1;
    }
    assert(scalar_rows(scalars@) =~= parsed_item(item@));
    scalars
}

/// Reads the numerals of every item.
fn parse_items(items: &Vec<Vec<String>>) -> (r: Vec<Vec<Scalar>>)
    requires
        all_numerals(items@),
    ensures
        parses(items@, r@),
        all_scalars_wf(r@),
{
    let mut parsed: Vec<Vec<Scalar>> = Vec::new();
    let mut i: usize = 0;
    while i < items.len()
        invariant
            i <= items.len(),
            parsed@.len() == i,
            all_numerals(items@),
            all_scalars_wf(parsed@),
            forall|k: int|
                0 <= k < i ==> scalar_rows(#[trigger] parsed@[k]@) == parsed_item(items@[k]@),
        decreases items.len() - i,
    {
        assert forall|j: int| 0 <= j < items@[i as int]@.len() implies is_canonical_decimal(
            #[trigger] items@[i as int]@[j]@,
        ) by {}
        let item = parse_item(&items[i]);
        parsed.push(item);
        i += 1;
    }
    parsed
}

/// Hashes every item into the domain.
pub fn hash_items(items: &Vec<Vec<Scalar>>, domain: &HashDomain, params: &PoseidonParams) -> (r:
    Vec<Natural>)
    requires
        domain.wf(),
        all_scalars_wf(items@),
    ensures
        values_of(r@) == item_elements(items@, *domain, params@),
{
    let mut elements: Vec<Natural> = Vec::new();
    let mut i: usize = 0;
    while i < items.len()
        invariant
            i <= items.len(),
            elements@.len() == i,
            domain.wf(),
            all_scalars_wf(items@),
            forall|k: int|
                0 <= k < i ==> (#[trigger] elements@[k])@ == item_element(
                    params@,
                    scalar_rows(items@[k]@),
                    *domain,
                ),
        decreases items.len() - i,
    {
        assert forall|j: int| 0 <= j < items@[i as int]@.len() implies (
        #[trigger] items@[i as int]@[j]).wf() by {}
        match hash_to_rsa_element(&items[i], domain, params) {
            Some(e) => {
                elements.push(e);
            },
            None => {
                assert(false);
            },
        }
        i += 1;
    }
    assert(values_of(elements@) =~= item_elements(items@, *domain, params@));
    elements
}

/// The witness of one transition: the set before it, the items that leave
/// and that enter, and the digest that is claimed for the set after it.
pub struct RollupInputs {
    /// The initial state of the set.
    pub initial_state: SetBackend,
    pub final_digest: Natural,
    /// The items to remove from the set.
    pub to_remove: Vec<Vec<Scalar>>,
    /// The items to insert into the set.
    pub to_insert: Vec<Vec<Scalar>>,
}

/// The text of the `j`-th value of the `i`-th generated item: a one, then
/// `i` on six digits, then `j` on three.
pub open spec fn label_text(i: nat, j: nat) -> Seq<char> {
    seq!['1'] + zero_padded_text(i, 6) + zero_padded_text(j, 3)
}

/// `items` holds `count` generated items of `item_len` values each.
pub open spec fn generated(items: Seq<Vec<String>>, count: nat, item_len: nat) -> bool {
    &&& items.len() == count
    &&& forall|i: int| 0 <= i < count ==> (#[trigger] items[i])@.len() == item_len
    &&& forall|i: int, j: int|
        0 <= i < count && 0 <= j < item_len ==> (#[trigger] items[i]@[j])@ == label_text(
            i as nat,
            j as nat,
        )
}

/// The numeral of a number is made of digits.
pub proof fn lemma_decimal_text_digits(n: nat)
    ensures
        decimal_text(n).len() > 0,
        forall|k: int| 0 <= k < decimal_text(n).len() ==> '0' <= #[trigger] decimal_text(n)[k] <= '9',
    decreases n,
{
    if n >= 10 {
        lemma_decimal_text_digits(n / 10);
    }
}

/// The text of a generated value is a canonical decimal numeral.
pub proof fn lemma_label_is_numeral(i: nat, j: nat)
    ensures
        is_canonical_decimal(label_text(i, j)),
{
    lemma_decimal_text_digits(i);
    lemma_decimal_text_digits(j);
    let a = zero_padded_text(i, 6);
    let b = zero_padded_text(j, 3);
    assert forall|k: int| 0 <= k < a.len() implies '0' <= #[trigger] a[k] <= '9' by {
        let text = decimal_text(i);
        if text.len() < 6 {
            if k >= 6 - text.len() {
                assert(a[k] == text[k - (6 - text.len())]);
            }
        }
    }
    assert forall|k: int| 0 <= k < b.len() implies '0' <= #[trigger] b[k] <= '9' by {
        let text = decimal_text(j);
        if text.len() < 3 {
            if k >= 3 - text.len() {
                assert(b[k] == text[k - (3 - text.len())]);
            }
        }
    }
    let label = label_text(i, j);
    assert forall|k: int| 0 <= k < label.len() implies '0' <= #[trigger] label[k] <= '9' by {
        if k == 0 {
        } else if k < 1 + a.len() {
            assert(label[k] == a[k - 1]);
        } else {
            assert(label[k] == b[k - 1 - a.len()]);
        }
    }
    assert(label[0] == '1');
}

/// The `count` generated items of `item_len` values each.
pub fn generate_items(count: usize, item_len: usize) -> (r: Vec<Vec<String>>)
    ensures
        generated(r@, count as nat, item_len as nat),
        all_numerals(r@),
{
    let mut items: Vec<Vec<String>> = Vec::new();
    let mut i: usize = 0;
    while i < count
        invariant
            i <= count,
            generated(items@, i as nat, item_len as nat),
        decreases count - i,
    {
        let mut item: Vec<String> = Vec::new();
        let mut j: usize = 0;
        while j < item_len
            invariant
                j <= item_len,
                item@.len() == j,
                forall|k: int| 0 <= k < j ==> (#[trigger] item@[k])@ == label_text(i as nat, k as nat),
            decreases item_len - j,
        {
            proof {
                reveal_strlit("1");
            }
            let mut label = String::from_str("1");
            let index = zero_padded(i, 6);
            let position = zero_padded(j, 3);
            label.append(index.as_str());
            label.append(position.as_str());
            assert(label@ =~= label_text(i as nat, j as nat));
            item.push(label);
            j += 1;
        }
        items.push(item);
        i += 1;
    }
    proof {
        assert forall|a: int, b: int|
            0 <= a < items@.len() && 0 <= b < items@[a]@.len() implies is_canonical_decimal(
            #[trigger] items@[a]@[b]@,
        ) by {
            lemma_label_is_numeral(a as nat, b as nat);
        }
    }
    items
}

impl RollupInputs {
    /// The scalars of the witness denote elements of the field, and the
    /// group of the initial state is well formed.
    pub open spec fn wf(&self) -> bool {
        &&& self.initial_state.wf()
        &&& all_scalars_wf(self.to_remove@)
        &&& all_scalars_wf(self.to_insert@)
    }

    /// The witness of a transition on generated items: a set of
    /// `n_untouched + n_removed` of them, of which `n_removed` leave, and
    /// `n_inserted` that enter.
    pub fn from_counts(
        n_untouched: usize,
        n_removed: usize,
        n_inserted: usize,
        item_len: usize,
        hash: &PoseidonParams,
        n_bits_elem: usize,
        group: RsaGroup,
    ) -> (r: RollupInputs)
        requires
            group.wf(),
            n_bits_elem >= 1,
        ensures
            r.wf(),
            r.initial_state.group == group,
            exists|untouched: Seq<Vec<String>>, removed: Seq<Vec<String>>, inserted: Seq<Vec<String>>|
                {
                    &&& generated(untouched, n_untouched as nat, item_len as nat)
                    &&& generated(removed, n_removed as nat, item_len as nat)
                    &&& generated(inserted, n_inserted as nat, item_len as nat)
                    &&& #[trigger] built_from(
                        r,
                        untouched,
                        removed,
                        inserted,
                        n_bits_elem,
                        group,
                        hash@,
                    )
                },
    {
        let untouched_items = generate_items(n_untouched, item_len);
        let removed_items = generate_items(n_removed, item_len);
        let inserted_items = generate_items(n_inserted, item_len);
        let ghost untouched = untouched_items@;
        let ghost removed = removed_items@;
        let ghost inserted = inserted_items@;
        let r = RollupInputs::new(
            untouched_items,
            removed_items,
            inserted_items,
            hash,
            n_bits_elem,
            group,
        );
        assert(built_from(r, untouched, removed, inserted, n_bits_elem, group, hash@));
        r
    }

    /// The witness of the transition that takes `removed_items` out of the
    /// set of `untouched_items` and `removed_items`, and puts `inserted_items`
    /// in. Every value of an item is a canonical decimal numeral.
    pub fn new(
        untouched_items: Vec<Vec<String>>,
        removed_items: Vec<Vec<String>>,
        inserted_items: Vec<Vec<String>>,
        hash: &PoseidonParams,
        n_bits_elem: usize,
        group: RsaGroup,
    ) -> (r: RollupInputs)
        requires
            all_numerals(untouched_items@),
            all_numerals(removed_items@),
            all_numerals(inserted_items@),
            group.wf(),
            n_bits_elem >= 1,
        ensures
            r.wf(),
            r.initial_state.group == group,
            built_from(
                r,
                untouched_items@,
                removed_items@,
                inserted_items@,
                n_bits_elem,
                group,
                hash@,
            ),
    {
        let untouched = parse_items(&untouched_items);
        let removed = parse_items(&removed_items);
        let inserted = parse_items(&inserted_items);
        let hash_domain = HashDomain { n_bits: n_bits_elem, n_trailing_ones: 1 };
        let untouched_hashes = hash_items(&untouched, &hash_domain, hash);
        let removed_hashes = hash_items(&removed, &hash_domain, hash);
        let inserted_hashes = hash_items(&inserted, &hash_domain, hash);
        proof {
            lemma_parsed_elements(untouched_items@, untouched@, hash_domain, hash@);
        }
        RollupInputs::from_elements(
            untouched_hashes,
            removed_hashes,
            inserted_hashes,
            removed,
            inserted,
            group,
        )
    }

    /// The witness of a transition whose items are hashed already: the set
    /// holds the untouched and the leaving elements, and the final digest is
    /// the commitment to the untouched and the entering elements. The items
    /// that leave and enter are kept as they are given.
    pub fn from_elements(
        untouched: Vec<Natural>,
        removed: Vec<Natural>,
        inserted: Vec<Natural>,
        to_remove: Vec<Vec<Scalar>>,
        to_insert: Vec<Vec<Scalar>>,
        group: RsaGroup,
    ) -> (r: RollupInputs)
        requires
            group.wf(),
        ensures
            r.initial_state.group == group,
            r.initial_state.members() == values_of(untouched@) + values_of(removed@),
            r.final_digest@ == digest_of(
                group.g@,
                group.m@,
                values_of(untouched@) + values_of(inserted@),
            ),
            r.to_remove == to_remove,
            r.to_insert == to_insert,
    {
        let mut removed = removed;
        let mut inserted = inserted;
        let ghost u = values_of(untouched@);
        let ghost rm = values_of(removed@);
        let ghost ins = values_of(inserted@);
        let mut kept = copy_elements(&untouched);
        kept.append(&mut inserted);
        assert(values_of(kept@) =~= u + ins);
        let final_digest = group.power_all(&group.g, &kept);
        let mut members = untouched;
        members.append(&mut removed);
        assert(values_of(members@) =~= u + rm);
        let set = SetBackend::new_with(group, members);
        RollupInputs { initial_state: set, final_digest, to_remove, to_insert }
    }
}

/// `r` is the witness that the three lists of items give over `group`, at
/// `n_bits_elem` bits per element and hashed under the parameter set `hash`:
/// the scalars of the items that leave and enter, the set of the untouched
/// and the leaving items' elements, and the commitment to the untouched and
/// the entering items' elements.
pub open spec fn built_from(
    r: RollupInputs,
    untouched: Seq<Vec<String>>,
    removed: Seq<Vec<String>>,
    inserted: Seq<Vec<String>>,
    n_bits_elem: usize,
    group: RsaGroup,
    hash: PoseidonShape,
) -> bool {
    let domain = element_domain(n_bits_elem);
    &&& parses(removed, r.to_remove@)
    &&& parses(inserted, r.to_insert@)
    &&& r.initial_state.members() == parsed_elements(untouched, domain, hash) + item_elements(
        r.to_remove@,
        domain,
        hash,
    )
    &&& r.final_digest@ == digest_of(
        group.g@,
        group.m@,
        parsed_elements(untouched, domain, hash) + item_elements(r.to_insert@, domain, hash),
    )
}

/// The elements of parsed items are the elements of the numerals that they
/// were read from.
pub proof fn lemma_parsed_elements(
    items: Seq<Vec<String>>,
    scalars: Seq<Vec<Scalar>>,
    domain: HashDomain,
    hash: PoseidonShape,
)
    requires
        parses(items, scalars),
    ensures
        item_elements(scalars, domain, hash) == parsed_elements(items, domain, hash),
{
    assert(item_elements(scalars, domain, hash) =~= parsed_elements(items, domain, hash));
}

/// A copy of the elements.
fn copy_elements(elements: &Vec<Natural>) -> (r: Vec<Natural>)
    ensures
        values_of(r@) == values_of(elements@),
{
    let mut copy: Vec<Natural> = Vec::new();
    let mut i: usize = 0;
    while i < elements.len()
        invariant
            i <= elements.len(),
            copy@.len() == i,
            forall|k: int| 0 <= k < i ==> (#[trigger] copy@[k])@ == elements@[k]@,
        decreases elements.len() - i,
    {
        copy.push(elements[i].duplicate());
        i += 1;
    }
    assert(values_of(copy@) =~= values_of(elements@));
    copy
}


/// The shape of a transition circuit. Two circuits can share keys only if
/// every field agrees.
pub struct RollupParams {
    pub group: RsaGroup,
    pub limb_width: usize,
    pub n_bits_base: usize,
    pub n_bits_elem: usize,
    pub n_bits_challenge: usize,
    pub item_size: usize,
    pub n_removes: usize,
    pub n_inserts: usize,
    pub hash: PoseidonParams,
}

/// A transition circuit: its shape, and its witness when it is built to be
/// proved.
pub struct Rollup {
    pub inputs: Option<RollupInputs>,
    pub params: RollupParams,
}

/// Whether an item leaves the set or enters it.
#[derive(Clone, Copy, Debug, PartialEq, Eq, Structural)]
pub enum ItemKind {
    Removal,
    Insertion,
}

/// One request of the circuit to the constraint system, in the order in
/// which the circuit makes them. A value is absent when the circuit is built
/// for its shape alone.
pub enum Step {
    /// The group's generator and modulus, as public inputs.
    Group { g: Natural, m: Natural, limb_width: usize, n_limbs: usize },
    /// The challenge that batches the exponentiation checks.
    Challenge { number: Natural, limb_width: usize, n_limbs: usize },
    /// The set, from the initial state of the witness.
    SetInit { state: Option<SetBackend> },
    /// One value of one item.
    ItemValue { kind: ItemKind, item: usize, position: usize, value: Option<Scalar> },
    /// The hash of the values of one item into the domain.
    ItemHash { kind: ItemKind, item: usize, limb_width: usize, domain: HashDomain },
    /// The removal of the hashed leaving items from the set.
    Remove,
    /// The insertion of the hashed entering items into the reduced set.
    Insert,
    /// The digest that is claimed for the final set.
    ExpectedDigest { digest: Option<Natural>, limb_width: usize, n_limbs: usize },
    /// The comparison of the final set's digest with the claimed one.
    Check,
}

/// A step without the values that it carries.
pub enum StepShape {
    Group { limb_width: usize, n_limbs: usize },
    Challenge { limb_width: usize, n_limbs: usize },
    SetInit,
    ItemValue { kind: ItemKind, item: usize, position: usize },
    ItemHash { kind: ItemKind, item: usize, limb_width: usize, domain: HashDomain },
    Remove,
    Insert,
    ExpectedDigest { limb_width: usize, n_limbs: usize },
    Check,
}

impl Step {
    /// The step without its values.
    pub open spec fn shape(&self) -> StepShape {
        match *self {
            Step::Group { g, m, limb_width, n_limbs } => StepShape::Group { limb_width, n_limbs },
            Step::Challenge { number, limb_width, n_limbs } => StepShape::Challenge {
                limb_width,
                n_limbs,
            },
            Step::SetInit { state } => StepShape::SetInit,
            Step::ItemValue { kind, item, position, value } => StepShape::ItemValue {
                kind,
                item,
                position,
            },
            Step::ItemHash { kind, item, limb_width, domain } => StepShape::ItemHash {
                kind,
                item,
                limb_width,
                domain,
            },
            Step::Remove => StepShape::Remove,
            Step::Insert => StepShape::Insert,
            Step::ExpectedDigest { digest, limb_width, n_limbs } => StepShape::ExpectedDigest {
                limb_width,
                n_limbs,
            },
            Step::Check => StepShape::Check,
        }
    }
}

impl StepShape {
    /// Whether what the step allocates is a public input of the circuit:
    /// the group's generator and modulus, and the digest that is claimed for
    /// the final set. Every other allocation is private to the prover.
    pub open spec fn is_public_input(&self) -> bool {
        match *self {
            StepShape::Group { limb_width, n_limbs } => true,
            StepShape::ExpectedDigest { limb_width, n_limbs } => true,
            _ => false,
        }
    }

    /// The number of limbs that the step adds to the public inputs: those of
    /// the generator and of the modulus, or those of the claimed digest.
    pub open spec fn public_limbs(&self) -> nat {
        match *self {
            StepShape::Group { limb_width, n_limbs } => 2 * (n_limbs as nat),
            StepShape::ExpectedDigest { limb_width, n_limbs } => n_limbs as nat,
            _ => 0,
        }
    }
}

/// The shapes of a sequence of steps.
pub open spec fn shapes_of(steps: Seq<Step>) -> Seq<StepShape> {
    steps.map_values(|step: Step| step.shape())
}

/// The numbers of a shape that fix the circuit's topology.
pub struct ShapeKey {
    pub limb_width: usize,
    pub n_bits_base: usize,
    pub n_bits_elem: usize,
    pub n_bits_challenge: usize,
    pub item_size: usize,
    pub n_removes: usize,
    pub n_inserts: usize,
}

/// The steps for one item: its values in order, then its hash.
pub open spec fn item_shape(key: ShapeKey, kind: ItemKind, item: usize) -> Seq<StepShape> {
    Seq::new(
        key.item_size as nat,
        |j: int| StepShape::ItemValue { kind, item, position: j as usize },
    ).push(
        StepShape::ItemHash {
            kind,
            item,
            limb_width: key.limb_width,
            domain: element_domain(key.n_bits_elem),
        },
    )
}

/// The steps for the first `count` items of a kind.
pub open spec fn items_shape(key: ShapeKey, kind: ItemKind, count: nat) -> Seq<StepShape>
    decreases count,
{
    if count == 0 {
        Seq::empty()
    } else {
        items_shape(key, kind, (count - 1) as nat) + item_shape(key, kind, (count - 1) as usize)
    }
}

/// The steps of the circuit of a shape: the group and the challenge, the
/// set, the leaving and then the entering items with their hashes, the
/// removal, the insertion on the reduced set, and the comparison with the
/// claimed digest.
pub open spec fn circuit_shape(key: ShapeKey) -> Seq<StepShape>
    recommends
        key.limb_width > 0,
{
    seq![
        StepShape::Group {
            limb_width: key.limb_width,
            n_limbs: (key.n_bits_base / key.limb_width) as usize,
        },
        StepShape::Challenge {
            limb_width: key.limb_width,
            n_limbs: (key.n_bits_challenge / key.limb_width) as usize,
        },
        StepShape::SetInit,
    ] + items_shape(key, ItemKind::Removal, key.n_removes as nat) + items_shape(
        key,
        ItemKind::Insertion,
        key.n_inserts as nat,
    ) + seq![
        StepShape::Remove,
        StepShape::Insert,
        StepShape::ExpectedDigest {
            limb_width: key.limb_width,
            n_limbs: (key.n_bits_base / key.limb_width) as usize,
        },
        StepShape::Check,
    ]
}

impl RollupParams {
    /// Limbs have a width, and the group is well formed.
    pub open spec fn wf(&self) -> bool {
        self.limb_width > 0 && self.group.wf()
    }

    /// The numbers that fix the circuit's topology.
    pub open spec fn key(&self) -> ShapeKey {
        ShapeKey {
            limb_width: self.limb_width,
            n_bits_base: self.n_bits_base,
            n_bits_elem: self.n_bits_elem,
            n_bits_challenge: self.n_bits_challenge,
            item_size: self.item_size,
            n_removes: self.n_removes,
            n_inserts: self.n_inserts,
        }
    }
}

/// The item of a kind at an index, in a witness.
pub open spec fn witness_items(inputs: RollupInputs, kind: ItemKind) -> Seq<Vec<Scalar>> {
    match kind {
        ItemKind::Removal => inputs.to_remove@,
        ItemKind::Insertion => inputs.to_insert@,
    }
}

/// The first `count` items hold `item_size` values each.
pub open spec fn items_complete(items: Seq<Vec<Scalar>>, count: usize, item_size: usize) -> bool {
    &&& items.len() >= count
    &&& forall|i: int| 0 <= i < count ==> (#[trigger] items[i])@.len() >= item_size
}

/// The witness holds every value that the shape asks for.
pub open spec fn witness_complete(inputs: RollupInputs, key: ShapeKey) -> bool {
    &&& items_complete(inputs.to_remove@, key.n_removes, key.item_size)
    &&& items_complete(inputs.to_insert@, key.n_inserts, key.item_size)
}

/// The challenge, 274481455456098291870407972073878126369.
pub fn challenge() -> (r: Natural)
    ensures
        r.digits@ == seq![0x1d80_ff21u32, 0x6834_de9eu32, 0xadfd_f71eu32, 0xce7f_3496u32],
{
    let mut digits: Vec<u32> = Vec::new();
    digits.push(0x1d80_ff21u32);
    digits.push(0x6834_de9eu32);
    digits.push(0xadfd_f71eu32);
    digits.push(0xce7f_3496u32);
    assert(digits@ =~= seq![0x1d80_ff21u32, 0x6834_de9eu32, 0xadfd_f71eu32, 0xce7f_3496u32]);
    Natural { digits }
}


/// The value that the witness gives for a position of an item, where it
/// gives one.
pub open spec fn witness_value(items: Option<Seq<Vec<Scalar>>>, item: usize, position: usize)
    -> Option<Scalar> {
    match items {
        Some(list) => if item < list.len() && position < list[item as int]@.len() {
            Some(list[item as int]@[position as int])
        } else {
            None
        },
        None => None,
    }
}

/// A step for an item carries the value that the witness gives for it.
pub open spec fn item_step_carries(
    step: Step,
    of_kind: ItemKind,
    items: Option<Seq<Vec<Scalar>>>,
) -> bool {
    match step {
        Step::ItemValue { kind, item, position, value } => kind == of_kind && value
            == witness_value(items, item, position),
        Step::ItemHash { kind, item, limb_width, domain } => kind == of_kind,
        _ => false,
    }
}

/// The items of a witness, where there is one.
pub open spec fn optional_items(items: Option<&Vec<Vec<Scalar>>>) -> Option<Seq<Vec<Scalar>>> {
    match items {
        Some(list) => Some(list@),
        None => None,
    }
}

/// The steps for the first `count` items of a kind: for each item its values
/// in order, then its hash. With a witness, a value that it lacks ends the
/// construction.
pub fn item_steps(
    items: Option<&Vec<Vec<Scalar>>>,
    kind: ItemKind,
    count: usize,
    params: &RollupParams,
) -> (r: Result<Vec<Step>, SynthesisError>)
    ensures
        r.is_ok() == (items matches Some(list) ==> items_complete(
            list@,
            count,
            params.item_size,
        )),
        r matches Err(e) ==> e == SynthesisError::AssignmentMissing,
        r matches Ok(steps) ==> {
            &&& shapes_of(steps@) == items_shape(params.key(), kind, count as nat)
            &&& forall|k: int|
                0 <= k < steps@.len() ==> item_step_carries(
                    #[trigger] steps@[k],
                    kind,
                    optional_items(items),
                )
        },
{
    let mut steps: Vec<Step> = Vec::new();
    let mut i: usize = 0;
    proof {
        assert(shapes_of(steps@) =~= items_shape(params.key(), kind, 0));
    }
    while i < count
        invariant
            i <= count,
            shapes_of(steps@) == items_shape(params.key(), kind, i as nat),
            items matches Some(list) ==> items_complete(list@, i, params.item_size),
            forall|k: int|
                0 <= k < steps@.len() ==> item_step_carries(
                    #[trigger] steps@[k],
                    kind,
                    optional_items(items),
                ),
        decreases count - i,
    {
        let ghost before = steps@;
        let mut j: usize = 0;
        if let Some(list) = items {
            if i >= list.len() || list[i].len() < params.item_size {
                return Err(SynthesisError::AssignmentMissing);
            }
        }
        while j < params.item_size
            invariant
                j <= params.item_size,
                i < count,
                items matches Some(list) ==> items_complete(
                    list@,
                    (i + 1) as usize,
                    params.item_size,
                ),
                shapes_of(steps@) == shapes_of(before) + Seq::new(
                    j as nat,
                    |p: int|
                        StepShape::ItemValue { kind, item: i, position: p as usize },
                ),
                forall|k: int|
                    0 <= k < steps@.len() ==> item_step_carries(
                        #[trigger] steps@[k],
                        kind,
                        optional_items(items),
                    ),
            decreases params.item_size - j,
        {
            let value = match items {
                Some(list) => Some(list[i][j]),
                None => None,
            };
            let ghost old_steps = steps@;
            steps.push(Step::ItemValue { kind, item: i, position: j, value });
            proof {
                assert(shapes_of(steps@) =~= shapes_of(old_steps).push(
                    StepShape::ItemValue { kind, item: i, position: j },
                ));
                assert(shapes_of(steps@) =~= shapes_of(before) + Seq::new(
                    (j + 1) as nat,
                    |p: int|
                        StepShape::ItemValue { kind, item: i, position: p as usize },
                ));
            }
            j += 1;
        }
        let ghost old_steps = steps@;
        steps.push(
            Step::ItemHash {
                kind,
                item: i,
                limb_width: params.limb_width,
                domain: HashDomain { n_bits: params.n_bits_elem, n_trailing_ones: 1 },
            },
        );
        proof {
            assert(shapes_of(steps@) =~= shapes_of(old_steps).push(
                StepShape::ItemHash {
                    kind,
                    item: i,
                    limb_width: params.limb_width,
                    domain: element_domain(params.n_bits_elem),
                },
            ));
            assert(shapes_of(steps@) =~= shapes_of(before) + item_shape(params.key(), kind, i));
        }
        i += 1;
    }
    Ok(steps)
}

impl Rollup {
    /// The values that the steps `Group`, `Challenge`, `SetInit` and
    /// `ExpectedDigest` carry for this circuit.
    pub open spec fn step_carries(&self, step: Step) -> bool {
        match step {
            Step::Group { g, m, limb_width, n_limbs } => g.digits@ == self.params.group.g.digits@
                && m.digits@ == self.params.group.m.digits@,
            Step::Challenge { number, limb_width, n_limbs } => number.digits@ == seq![
                0x1d80_ff21u32,
                0x6834_de9eu32,
                0xadfd_f71eu32,
                0xce7f_3496u32,
            ],
            Step::SetInit { state } => state == match self.inputs {
                Some(w) => Some(w.initial_state),
                None => None,
            },
            Step::ItemValue { kind, item, position, value } => value == witness_value(
                match self.inputs {
                    Some(w) => Some(witness_items(w, kind)),
                    None => None,
                },
                item,
                position,
            ),
            Step::ExpectedDigest { digest, limb_width, n_limbs } => digest == match self.inputs {
                Some(w) => Some(w.final_digest),
                None => None,
            },
            _ => true,
        }
    }

    /// Builds the circuit: the requests to the constraint system, in order.
    /// Without a witness the steps carry no values; their shapes are the
    /// same. With a witness that lacks a value that the shape asks for,
    /// nothing is built.
    pub fn synthesize(self) -> (r: Result<Vec<Step>, SynthesisError>)
        requires
            self.params.limb_width > 0,
        ensures
            r.is_ok() == (self.inputs matches Some(w) ==> witness_complete(w, self.params.key())),
            r matches Err(e) ==> e == SynthesisError::AssignmentMissing,
            r matches Ok(steps) ==> {
                &&& shapes_of(steps@) == circuit_shape(self.params.key())
                &&& forall|k: int| 0 <= k < steps@.len() ==> self.step_carries(#[trigger] steps@[k])
                &&& steps@.len() >= 7
                &&& forall|k: int|
                    0 <= k < steps@.len() ==> ((#[trigger] steps@[k]).shape().is_public_input()
                        <==> (k == 0 || k == steps@.len() - 2))
                &&& steps@[0].shape() == (StepShape::Group {
                    limb_width: self.params.limb_width,
                    n_limbs: self.params.n_bits_base / self.params.limb_width,
                })
                &&& steps@[steps@.len() - 2].shape() == (StepShape::ExpectedDigest {
                    limb_width: self.params.limb_width,
                    n_limbs: self.params.n_bits_base / self.params.limb_width,
                })
                &&& public_limb_count(shapes_of(steps@)) == 3 * (self.params.n_bits_base
                    / self.params.limb_width)
            },
    {
        let Rollup { inputs, params } = self;
        let n_limbs_base: usize = params.n_bits_base / params.limb_width;
        let n_limbs_challenge: usize = params.n_bits_challenge / params.limb_width;
        let mut steps: Vec<Step> = Vec::new();
        steps.push(
            Step::Group {
                g: params.group.g.duplicate(),
                m: params.group.m.duplicate(),
                limb_width: params.limb_width,
                n_limbs: n_limbs_base,
            },
        );
        steps.push(
            Step::Challenge {
                number: challenge(),
                limb_width: params.limb_width,
                n_limbs: n_limbs_challenge,
            },
        );
        let (state, digest, to_remove, to_insert) = match inputs {
            Some(w) => {
                let RollupInputs { initial_state, final_digest, to_remove, to_insert } = w;
                (Some(initial_state), Some(final_digest), Some(to_remove), Some(to_insert))
            },
            None => (None, None, None, None),
        };
        steps.push(Step::SetInit { state });
        let ghost head = steps@;
        let leaving: Option<&Vec<Vec<Scalar>>> = to_remove.as_ref();
        let entering: Option<&Vec<Vec<Scalar>>> = to_insert.as_ref();
        let mut removals = match item_steps(
            leaving,
            ItemKind::Removal,
            params.n_removes,
            &params,
        ) {
            Ok(list) => list,
            Err(e) => {
                return Err(e);
            },
        };
        let mut insertions = match item_steps(
            entering,
            ItemKind::Insertion,
            params.n_inserts,
            &params,
        ) {
            Ok(list) => list,
            Err(e) => {
                return Err(e);
            },
        };
        let ghost removal_steps = removals@;
        let ghost insertion_steps = insertions@;
        steps.append(&mut removals);
        steps.append(&mut insertions);
        steps.push(Step::Remove);
        steps.push(Step::Insert);
        steps.push(
            Step::ExpectedDigest {
                digest,
                limb_width: params.limb_width,
                n_limbs: n_limbs_base,
            },
        );
        steps.push(Step::Check);
        proof {
            let tail = steps@.subrange(
                (head.len() + removal_steps.len() + insertion_steps.len()) as int,
                steps@.len() as int,
            );
            assert(steps@ =~= head + removal_steps + insertion_steps + tail);
            assert(shapes_of(steps@) =~= shapes_of(head) + shapes_of(removal_steps) + shapes_of(
                insertion_steps,
            ) + shapes_of(tail));
            assert(shapes_of(head) =~= seq![
                StepShape::Group { limb_width: params.limb_width, n_limbs: n_limbs_base },
                StepShape::Challenge {
                    limb_width: params.limb_width,
                    n_limbs: n_limbs_challenge,
                },
                StepShape::SetInit,
            ]);
            assert(shapes_of(tail) =~= seq![
                StepShape::Remove,
                StepShape::Insert,
                StepShape::ExpectedDigest {
                    limb_width: params.limb_width,
                    n_limbs: n_limbs_base,
                },
                StepShape::Check,
            ]);
            assert forall|k: int| 0 <= k < steps@.len() implies self.step_carries(
                #[trigger] steps@[k],
            ) by {
                if k < head.len() {
                    assert(steps@[k] == head[k]);
                } else if k < head.len() + removal_steps.len() {
                    assert(steps@[k] == removal_steps[k - head.len()]);
                    assert(item_step_carries(
                        removal_steps[k - head.len()],
                        ItemKind::Removal,
                        optional_items(leaving),
                    ));
                } else if k < head.len() + removal_steps.len() + insertion_steps.len() {
                    let p = k - head.len() - removal_steps.len();
                    assert(steps@[k] == insertion_steps[p]);
                    assert(item_step_carries(
                        insertion_steps[p],
                        ItemKind::Insertion,
                        optional_items(entering),
                    ));
                } else {
                    assert(steps@[k] == tail[k - head.len() - removal_steps.len()
                        - insertion_steps.len()]);
                }
            }
            lemma_public_inputs(self.params.key());
            assert forall|k: int| 0 <= k < steps@.len() implies ((
            #[trigger] steps@[k]).shape().is_public_input() <==> (k == 0 || k == steps@.len()
                - 2)) by {
                assert(shapes_of(steps@)[k] == steps@[k].shape());
            }
            assert(shapes_of(steps@)[0] == steps@[0].shape());
            assert(shapes_of(steps@)[steps@.len() - 2] == steps@[steps@.len() - 2].shape());
        }
        Ok(steps)
    }
}


/// The number of limbs that a sequence of steps adds to the public inputs.
pub open spec fn public_limb_count(shapes: Seq<StepShape>) -> nat
    decreases shapes.len(),
{
    if shapes.len() == 0 {
        0
    } else {
        public_limb_count(shapes.drop_last()) + shapes.last().public_limbs()
    }
}

/// The public limbs of a concatenation are those of its parts.
pub proof fn lemma_public_limb_count_concat(a: Seq<StepShape>, b: Seq<StepShape>)
    ensures
        public_limb_count(a + b) == public_limb_count(a) + public_limb_count(b),
    decreases b.len(),
{
    if b.len() == 0 {
        assert(a + b =~= a);
    } else {
        assert((a + b).drop_last() =~= a + b.drop_last());
        assert((a + b).last() == b.last());
        lemma_public_limb_count_concat(a, b.drop_last());
    }
}

/// Steps of which none is a public input add no public limb.
pub proof fn lemma_private_steps(shapes: Seq<StepShape>)
    requires
        forall|k: int| 0 <= k < shapes.len() ==> !(#[trigger] shapes[k]).is_public_input(),
    ensures
        public_limb_count(shapes) == 0,
    decreases shapes.len(),
{
    if shapes.len() > 0 {
        assert(!shapes[shapes.len() - 1].is_public_input());
        lemma_private_steps(shapes.drop_last());
    }
}

/// No step for an item is a public input.
pub proof fn lemma_items_private(key: ShapeKey, kind: ItemKind, count: nat)
    ensures
        forall|k: int|
            0 <= k < items_shape(key, kind, count).len() ==> !(#[trigger] items_shape(
                key,
                kind,
                count,
            )[k]).is_public_input(),
    decreases count,
{
    if count > 0 {
        lemma_items_private(key, kind, (count - 1) as nat);
        let before = items_shape(key, kind, (count - 1) as nat);
        let item = item_shape(key, kind, (count - 1) as usize);
        let all = items_shape(key, kind, count);
        assert(all =~= before + item);
        assert forall|k: int| 0 <= k < all.len() implies !(#[trigger] all[k]).is_public_input() by {
            if k < before.len() {
                assert(all[k] == before[k]);
            } else {
                assert(all[k] == item[k - before.len()]);
            }
        }
    }
}

/// The public inputs of a circuit are what its first step and its last but
/// one allocate, and nothing else: the generator and the modulus of the
/// group, and the digest that is claimed for the final set, each in as many
/// limbs as the base has.
pub proof fn lemma_public_inputs(key: ShapeKey)
    requires
        key.limb_width > 0,
    ensures
        circuit_shape(key).len() >= 7,
        circuit_shape(key)[0] == (StepShape::Group {
            limb_width: key.limb_width,
            n_limbs: (key.n_bits_base / key.limb_width) as usize,
        }),
        circuit_shape(key)[circuit_shape(key).len() - 2] == (StepShape::ExpectedDigest {
            limb_width: key.limb_width,
            n_limbs: (key.n_bits_base / key.limb_width) as usize,
        }),
        forall|k: int|
            0 <= k < circuit_shape(key).len() ==> ((#[trigger] circuit_shape(
                key,
            )[k]).is_public_input() <==> (k == 0 || k == circuit_shape(key).len() - 2)),
        public_limb_count(circuit_shape(key)) == 3 * (key.n_bits_base / key.limb_width),
{
    let n = (key.n_bits_base / key.limb_width) as usize;
    let head = seq![
        StepShape::Group { limb_width: key.limb_width, n_limbs: n },
        StepShape::Challenge {
            limb_width: key.limb_width,
            n_limbs: (key.n_bits_challenge / key.limb_width) as usize,
        },
        StepShape::SetInit,
    ];
    let removals = items_shape(key, ItemKind::Removal, key.n_removes as nat);
    let insertions = items_shape(key, ItemKind::Insertion, key.n_inserts as nat);
    let tail = seq![
        StepShape::Remove,
        StepShape::Insert,
        StepShape::ExpectedDigest { limb_width: key.limb_width, n_limbs: n },
        StepShape::Check,
    ];
    let all = circuit_shape(key);
    assert(all =~= head + removals + insertions + tail);
    lemma_items_private(key, ItemKind::Removal, key.n_removes as nat);
    lemma_items_private(key, ItemKind::Insertion, key.n_inserts as nat);
    lemma_private_steps(removals);
    lemma_private_steps(insertions);
    lemma_public_limb_count_concat(head + removals + insertions, tail);
    lemma_public_limb_count_concat(head + removals, insertions);
    lemma_public_limb_count_concat(head, removals);
    assert(public_limb_count(head) == 2 * n) by {
        let h2 = head.drop_last();
        let h1 = h2.drop_last();
        assert(h1.drop_last() =~= Seq::<StepShape>::empty());
        assert(public_limb_count(h1.drop_last()) == 0);
        assert(public_limb_count(h1) == 2 * n);
        assert(public_limb_count(h2) == 2 * n);
    }
    assert(public_limb_count(tail) == n) by {
        let t3 = tail.drop_last();
        let t2 = t3.drop_last();
        let t1 = t2.drop_last();
        assert(t1.drop_last() =~= Seq::<StepShape>::empty());
        assert(public_limb_count(t1.drop_last()) == 0);
        assert(public_limb_count(t1) == 0);
        assert(public_limb_count(t2) == 0);
        assert(public_limb_count(t3) == n);
    }
    assert forall|k: int| 0 <= k < all.len() implies ((#[trigger] all[k]).is_public_input() <==> (k
        == 0 || k == all.len() - 2)) by {
        if k < head.len() {
            assert(all[k] == head[k]);
        } else if k < head.len() + removals.len() {
            assert(all[k] == removals[k - head.len()]);
        } else if k < head.len() + removals.len() + insertions.len() {
            assert(all[k] == insertions[k - head.len() - removals.len()]);
        } else {
            assert(all[k] == tail[k - head.len() - removals.len() - insertions.len()]);
        }
    }
    assert(all[0] == head[0]);
    assert(all[all.len() - 2] == tail[2]);
}

/// The steps for `count` items are `item_size + 1` each.
pub proof fn lemma_items_shape_len(key: ShapeKey, kind: ItemKind, count: nat)
    ensures
        items_shape(key, kind, count).len() == count * (key.item_size + 1),
    decreases count,
{
    if count > 0 {
        lemma_items_shape_len(key, kind, (count - 1) as nat);
        assert(item_shape(key, kind, (count - 1) as usize).len() == key.item_size + 1);
        assert(count * (key.item_size + 1) == (count - 1) * (key.item_size + 1) + (key.item_size
            + 1)) by (nonlinear_arith);
    } else {
        assert(items_shape(key, kind, count).len() == 0);
        assert(0 * (key.item_size + 1) == 0);
    }
}

/// The number of steps of a circuit is fixed by its shape: seven, and
/// `item_size + 1` for every item that leaves or enters.
pub proof fn lemma_circuit_shape_len(key: ShapeKey)
    ensures
        circuit_shape(key).len() == 7 + (key.n_removes + key.n_inserts) * (key.item_size + 1),
{
    lemma_items_shape_len(key, ItemKind::Removal, key.n_removes as nat);
    lemma_items_shape_len(key, ItemKind::Insertion, key.n_inserts as nat);
    assert((key.n_removes + key.n_inserts) * (key.item_size + 1) == key.n_removes * (key.item_size
        + 1) + key.n_inserts * (key.item_size + 1)) by (nonlinear_arith);
}

/// Two circuits of one shape are built of the same steps, whatever their
/// witnesses, and whether they have one: the steps that `synthesize` gives
/// for them are as many, and agree in everything but the values that they
/// carry.
pub proof fn lemma_shape_determinism(a: Rollup, b: Rollup, steps_a: Seq<Step>, steps_b: Seq<Step>)
    requires
        a.params.key() == b.params.key(),
        shapes_of(steps_a) == circuit_shape(a.params.key()),
        shapes_of(steps_b) == circuit_shape(b.params.key()),
    ensures
        steps_a.len() == steps_b.len(),
        steps_a.len() == 7 + (a.params.n_removes + a.params.n_inserts) * (a.params.item_size + 1),
        forall|k: int| 0 <= k < steps_a.len() ==> (#[trigger] steps_a[k]).shape() == steps_b[k].shape(),
{
    lemma_circuit_shape_len(a.params.key());
    assert(shapes_of(steps_a).len() == steps_a.len());
    assert(shapes_of(steps_b).len() == steps_b.len());
    assert forall|k: int| 0 <= k < steps_a.len() implies (#[trigger] steps_a[k]).shape()
        == steps_b[k].shape() by {
        assert(shapes_of(steps_a)[k] == steps_a[k].shape());
        assert(shapes_of(steps_b)[k] == steps_b[k].shape());
    }
}

/// The name under which a step's part of the circuit is entered.
pub open spec fn label_of(shape: StepShape) -> Seq<char> {
    match shape {
        StepShape::Group { limb_width, n_limbs } => "group"@,
        StepShape::Challenge { limb_width, n_limbs } => "challenge"@,
        StepShape::SetInit => "set init"@,
        StepShape::ItemValue { kind, item, position } => match kind {
            ItemKind::Removal => "remove "@ + decimal_text(item as nat) + " "@ + decimal_text(
                position as nat,
            ),
            ItemKind::Insertion => "inset "@ + decimal_text(item as nat) + " "@ + decimal_text(
                position as nat,
            ),
        },
        StepShape::ItemHash { kind, item, limb_width, domain } => match kind {
            ItemKind::Removal => "hash remove "@ + decimal_text(item as nat),
            ItemKind::Insertion => "hash insert "@ + decimal_text(item as nat),
        },
        StepShape::Remove => "remove"@,
        StepShape::Insert => "insert"@,
        StepShape::ExpectedDigest { limb_width, n_limbs } => "expected_digest"@,
        StepShape::Check => "check"@,
    }
}

impl Step {
    /// Whether what the step allocates is a public input of the circuit.
    pub fn is_public_input(&self) -> (r: bool)
        ensures
            r == self.shape().is_public_input(),
    {
        match self {
            Step::Group { .. } => true,
            Step::ExpectedDigest { .. } => true,
            _ => false,
        }
    }

    /// The name under which the step's part of the circuit is entered.
    pub fn label(&self) -> (r: String)
        ensures
            r@ == label_of(self.shape()),
    {
        match self {
            Step::Group { .. } => String::from_str("group"),
            Step::Challenge { .. } => String::from_str("challenge"),
            Step::SetInit { .. } => String::from_str("set init"),
            Step::ItemValue { kind, item, position, .. } => {
                let mut r = match kind {
                    ItemKind::Removal => String::from_str("remove "),
                    ItemKind::Insertion => String::from_str("inset "),
                };
                let index = zero_padded(*item, 0);
                let place = zero_padded(*position, 0);
                r.append(index.as_str());
                r.append(" ");
                r.append(place.as_str());
                r
            },
            Step::ItemHash { kind, item, .. } => {
                let mut r = match kind {
                    ItemKind::Removal => String::from_str("hash remove "),
                    ItemKind::Insertion => String::from_str("hash insert "),
                };
                let index = zero_padded(*item, 0);
                r.append(index.as_str());
                r
            },
            Step::Remove => String::from_str("remove"),
            Step::Insert => String::from_str("insert"),
            Step::ExpectedDigest { .. } => String::from_str("expected_digest"),
            Step::Check => String::from_str("check"),
        }
    }
}

} // verus!
