//! The portable form of proving and verifying keys: every curve point as
//! decimal numerals and a flag, grouped as the interchange format names them.

use vstd::prelude::*;
use vstd::string::*;
use crate::natural::{Natural, is_decimal, is_canonical_decimal, decimal_value};

verus! {

/// A point of the first curve group in affine coordinates.
pub struct G1Point {
    pub x: Natural,
    pub y: Natural,
    pub infinity: bool,
}

/// An element of the quadratic extension field: `c0 + c1 * u`.
pub struct Fq2Element {
    pub c0: Natural,
    pub c1: Natural,
}

/// A point of the second curve group in affine coordinates.
pub struct G2Point {
    pub x: Fq2Element,
    pub y: Fq2Element,
    pub infinity: bool,
}

/// What a point of the first group is, as numbers.
pub struct G1Value {
    pub x: nat,
    pub y: nat,
    pub infinity: bool,
}

/// What a point of the second group is, as numbers.
pub struct G2Value {
    pub x0: nat,
    pub x1: nat,
    pub y0: nat,
    pub y1: nat,
    pub infinity: bool,
}

impl View for G1Point {
    type V = G1Value;

    open spec fn view(&self) -> G1Value {
        G1Value { x: self.x@, y: self.y@, infinity: self.infinity }
    }
}

impl View for G2Point {
    type V = G2Value;

    open spec fn view(&self) -> G2Value {
        G2Value {
            x0: self.x.c0@,
            x1: self.x.c1@,
            y0: self.y.c0@,
            y1: self.y.c1@,
            infinity: self.infinity,
        }
    }
}

/// The text "0".
pub open spec fn zero_text() -> Seq<char> {
    seq!['0']
}

/// The text "1".
pub open spec fn one_text() -> Seq<char> {
    seq!['1']
}

/// The last entry of an encoded point, which says whether it is the point
/// at infinity: "1" for the point at infinity, "0" for every other point.
pub open spec fn flag_text(infinity: bool) -> Seq<char> {
    if infinity {
        one_text()
    } else {
        zero_text()
    }
}

/// `text` is the canonical decimal numeral of `n`.
pub open spec fn numeral_of(text: Seq<char>, n: nat) -> bool {
    is_canonical_decimal(text) && decimal_value(text) == n
}

/// `entries` is the encoding of the point `p`: its two coordinates as
/// numerals, then the flag.
pub open spec fn g1_encodes(entries: Seq<String>, p: G1Value) -> bool {
    &&& entries.len() == 3
    &&& numeral_of(entries[0]@, p.x)
    &&& numeral_of(entries[1]@, p.y)
    &&& entries[2]@ == flag_text(p.infinity)
}

/// `entries` is the encoding of the point `p`: each coordinate as a pair of
/// numerals, then the flag paired with "0".
pub open spec fn g2_encodes(entries: Seq<Vec<String>>, p: G2Value) -> bool {
    &&& entries.len() == 3
    &&& entries[0]@.len() == 2
    &&& entries[1]@.len() == 2
    &&& entries[2]@.len() == 2
    &&& numeral_of(entries[0]@[0]@, p.x0)
    &&& numeral_of(entries[0]@[1]@, p.x1)
    &&& numeral_of(entries[1]@[0]@, p.y0)
    &&& numeral_of(entries[1]@[1]@, p.y1)
    &&& entries[2]@[0]@ == flag_text(p.infinity)
    &&& entries[2]@[1]@ == zero_text()
}

/// The point that `entries` denotes, if it denotes one: three entries, two
/// decimal numerals and a flag that is "0" or "1".
pub open spec fn g1_decoded(entries: Seq<String>) -> Option<G1Value> {
    if entries.len() == 3 && is_decimal(entries[0]@) && is_decimal(entries[1]@) && (entries[2]@
        == zero_text() || entries[2]@ == one_text()) {
        Some(
            G1Value {
                x: decimal_value(entries[0]@),
                y: decimal_value(entries[1]@),
                infinity: entries[2]@ == one_text(),
            },
        )
    } else {
        None
    }
}

/// The point that `entries` denotes, if it denotes one: three pairs, the
/// first two of decimal numerals, the last of a flag and "0".
pub open spec fn g2_decoded(entries: Seq<Vec<String>>) -> Option<G2Value> {
    if entries.len() == 3 && entries[0]@.len() == 2 && entries[1]@.len() == 2 && entries[2]@.len()
        == 2 && is_decimal(entries[0]@[0]@) && is_decimal(entries[0]@[1]@) && is_decimal(
        entries[1]@[0]@,
    ) && is_decimal(entries[1]@[1]@) && (entries[2]@[0]@ == zero_text() || entries[2]@[0]@
        == one_text()) && entries[2]@[1]@ == zero_text() {
        Some(
            G2Value {
                x0: decimal_value(entries[0]@[0]@),
                x1: decimal_value(entries[0]@[1]@),
                y0: decimal_value(entries[1]@[0]@),
                y1: decimal_value(entries[1]@[1]@),
                infinity: entries[2]@[0]@ == one_text(),
            },
        )
    } else {
        None
    }
}

/// Reading an encoded point of the first group gives the point back,
/// coordinates and flag.
pub proof fn lemma_g1_round_trip(entries: Seq<String>, p: G1Value)
    requires
        g1_encodes(entries, p),
    ensures
        g1_decoded(entries) == Some(p),
{
    assert(zero_text()[0] != one_text()[0]);
}

/// Reading an encoded point of the second group gives the point back,
/// coordinates and flag.
pub proof fn lemma_g2_round_trip(entries: Seq<Vec<String>>, p: G2Value)
    requires
        g2_encodes(entries, p),
    ensures
        g2_decoded(entries) == Some(p),
{
    assert(zero_text()[0] != one_text()[0]);
}

/// The text "0" or "1" that stands for the flag.
fn flag_string(infinity: bool) -> (r: String)
    ensures
        r@ == flag_text(infinity),
{
    proof {
        reveal_strlit("0");
        reveal_strlit("1");
    }
    let r = if infinity {
        String::from_str("1")
    } else {
        String::from_str("0")
    };
    assert(r@ =~= flag_text(infinity));
    r
}

/// Whether the string is the one character `c`.
fn is_single(s: &String, c: char) -> (r: bool)
    ensures
        r == (s@ == seq![c]),
{
    let t = s.as_str();
    if t.unicode_len() != 1 {
        return false;
    }
    let r = t.get_char(0) == c;
    assert(r ==> s@ =~= seq![c]);
    r
}

impl G1Point {
    /// The point as three strings: `x`, `y`, and the flag.
    pub fn to_strings(&self) -> (r: Vec<String>)
        ensures
            g1_encodes(r@, self@),
    {
        let mut v: Vec<String> = Vec::new();
        v.push(self.x.to_decimal());
        v.push(self.y.to_decimal());
        v.push(flag_string(self.infinity));
        v
    }

    /// Reads a point from three strings, if they denote one.
    pub fn from_strings(entries: &Vec<String>) -> (r: Option<G1Point>)
        ensures
            r.is_some() == g1_decoded(entries@).is_some(),
            r matches Some(p) ==> Some(p@) == g1_decoded(entries@),
    {
        if entries.len() != 3 {
            return None;
        }
        let x = Natural::from_decimal(entries[0].as_str());
        let y = Natural::from_decimal(entries[1].as_str());
        let at_infinity = is_single(&entries[2], '1');
        let finite = is_single(&entries[2], '0');
        match (x, y) {
            (Some(x), Some(y)) => {
                if at_infinity || finite {
                    Some(G1Point { x, y, infinity: at_infinity })
                } else {
                    None
                }
            },
            _ => None,
        }
    }
}


impl Fq2Element {
    /// The element as two strings: `c0`, then `c1`.
    pub fn to_strings(&self) -> (r: Vec<String>)
        ensures
            r@.len() == 2,
            numeral_of(r@[0]@, self.c0@),
            numeral_of(r@[1]@, self.c1@),
    {
        let mut v: Vec<String> = Vec::new();
        v.push(self.c0.to_decimal());
        v.push(self.c1.to_decimal());
        v
    }

    /// Reads an element from two decimal numerals.
    pub fn from_strings(entries: &Vec<String>) -> (r: Option<Fq2Element>)
        ensures
            r.is_some() == (entries@.len() == 2 && is_decimal(entries@[0]@) && is_decimal(
                entries@[1]@,
            )),
            r matches Some(e) ==> e.c0@ == decimal_value(entries@[0]@) && e.c1@ == decimal_value(
                entries@[1]@,
            ),
    {
        if entries.len() != 2 {
            return None;
        }
        let c0 = Natural::from_decimal(entries[0].as_str());
        let c1 = Natural::from_decimal(entries[1].as_str());
        match (c0, c1) {
            (Some(c0), Some(c1)) => Some(Fq2Element { c0, c1 }),
            _ => None,
        }
    }
}

impl G2Point {
    /// The point as three pairs of strings: `x`, `y`, and the flag with "0".
    pub fn to_strings(&self) -> (r: Vec<Vec<String>>)
        ensures
            g2_encodes(r@, self@),
    {
        let mut flags: Vec<String> = Vec::new();
        flags.push(flag_string(self.infinity));
        flags.push(flag_string(false));
        let mut v: Vec<Vec<String>> = Vec::new();
        v.push(self.x.to_strings());
        v.push(self.y.to_strings());
        v.push(flags);
        v
    }

    /// Reads a point from three pairs of strings, if they denote one.
    pub fn from_strings(entries: &Vec<Vec<String>>) -> (r: Option<G2Point>)
        ensures
            r.is_some() == g2_decoded(entries@).is_some(),
            r matches Some(p) ==> Some(p@) == g2_decoded(entries@),
    {
        if entries.len() != 3 {
            return None;
        }
        let x = Fq2Element::from_strings(&entries[0]);
        let y = Fq2Element::from_strings(&entries[1]);
        if entries[2].len() != 2 {
            return None;
        }
        let at_infinity = is_single(&entries[2][0], '1');
        let finite = is_single(&entries[2][0], '0');
        let padded = is_single(&entries[2][1], '0');
        match (x, y) {
            (Some(x), Some(y)) => {
                if (at_infinity || finite) && padded {
                    Some(G2Point { x, y, infinity: at_infinity })
                } else {
                    None
                }
            },
            _ => None,
        }
    }
}

/// The points of a vector, as numbers.
pub open spec fn g1_values(points: Seq<G1Point>) -> Seq<G1Value> {
    points.map_values(|p: G1Point| p@)
}

/// The points of a vector, as numbers.
pub open spec fn g2_values(points: Seq<G2Point>) -> Seq<G2Value> {
    points.map_values(|p: G2Point| p@)
}

/// `list` holds the encodings of `points`, in order.
pub open spec fn g1_list_encodes(list: Seq<Vec<String>>, points: Seq<G1Value>) -> bool {
    &&& list.len() == points.len()
    &&& forall|i: int| 0 <= i < list.len() ==> g1_encodes(#[trigger] list[i]@, points[i])
}

/// `list` holds the encodings of `points`, in order.
pub open spec fn g2_list_encodes(list: Seq<Vec<Vec<String>>>, points: Seq<G2Value>) -> bool {
    &&& list.len() == points.len()
    &&& forall|i: int| 0 <= i < list.len() ==> g2_encodes(#[trigger] list[i]@, points[i])
}

/// The points that `list` denotes, if every entry denotes one.
pub open spec fn g1_list_decoded(list: Seq<Vec<String>>) -> Option<Seq<G1Value>> {
    if forall|i: int| 0 <= i < list.len() ==> g1_decoded(#[trigger] list[i]@).is_some() {
        Some(Seq::new(list.len(), |i: int| g1_decoded(list[i]@).unwrap()))
    } else {
        None
    }
}

/// The points that `list` denotes, if every entry denotes one.
pub open spec fn g2_list_decoded(list: Seq<Vec<Vec<String>>>) -> Option<Seq<G2Value>> {
    if forall|i: int| 0 <= i < list.len() ==> g2_decoded(#[trigger] list[i]@).is_some() {
        Some(Seq::new(list.len(), |i: int| g2_decoded(list[i]@).unwrap()))
    } else {
        None
    }
}

/// Reading a list of encoded points of the first group gives the points back.
pub proof fn lemma_g1_list_round_trip(list: Seq<Vec<String>>, points: Seq<G1Value>)
    requires
        g1_list_encodes(list, points),
    ensures
        g1_list_decoded(list) == Some(points),
{
    assert forall|i: int| 0 <= i < list.len() implies g1_decoded(#[trigger] list[i]@) == Some(
        points[i],
    ) by {
        lemma_g1_round_trip(list[i]@, points[i]);
    }
    assert(g1_list_decoded(list).unwrap() =~= points);
}

/// Reading a list of encoded points of the second group gives the points
/// back.
pub proof fn lemma_g2_list_round_trip(list: Seq<Vec<Vec<String>>>, points: Seq<G2Value>)
    requires
        g2_list_encodes(list, points),
    ensures
        g2_list_decoded(list) == Some(points),
{
    assert forall|i: int| 0 <= i < list.len() implies g2_decoded(#[trigger] list[i]@) == Some(
        points[i],
    ) by {
        lemma_g2_round_trip(list[i]@, points[i]);
    }
    assert(g2_list_decoded(list).unwrap() =~= points);
}

/// Encodes the points of the first group, in order.
pub fn encode_g1_list(points: &Vec<G1Point>) -> (r: Vec<Vec<String>>)
    ensures
        g1_list_encodes(r@, g1_values(points@)),
{
    let mut list: Vec<Vec<String>> = Vec::new();
    let mut i: usize = 0;
    while i < points.len()
        invariant
            i <= points.len(),
            list@.len() == i,
            forall|k: int| 0 <= k < i ==> g1_encodes(#[trigger] list@[k]@, points@[k]@),
        decreases points.len() - i,
    {
        list.push(points[i].to_strings());
        i += 1;
    }
    list
}

/// Encodes the points of the second group, in order.
pub fn encode_g2_list(points: &Vec<G2Point>) -> (r: Vec<Vec<Vec<String>>>)
    ensures
        g2_list_encodes(r@, g2_values(points@)),
{
    let mut list: Vec<Vec<Vec<String>>> = Vec::new();
    let mut i: usize = 0;
    while i < points.len()
        invariant
            i <= points.len(),
            list@.len() == i,
            forall|k: int| 0 <= k < i ==> g2_encodes(#[trigger] list@[k]@, points@[k]@),
        decreases points.len() - i,
    {
        list.push(points[i].to_strings());
        i += 1;
    }
    list
}

/// Reads the points of the first group that `list` denotes. Fails when an
/// entry denotes none.
pub fn decode_g1_list(list: &Vec<Vec<String>>) -> (r: Option<Vec<G1Point>>)
    ensures
        r.is_some() == g1_list_decoded(list@).is_some(),
        r matches Some(points) ==> Some(g1_values(points@)) == g1_list_decoded(list@),
{
    let mut points: Vec<G1Point> = Vec::new();
    let mut i: usize = 0;
    while i < list.len()
        invariant
            i <= list.len(),
            points@.len() == i,
            forall|k: int| 0 <= k < i ==> g1_decoded(#[trigger] list@[k]@) == Some(points@[k]@),
        decreases list.len() - i,
    {
        match G1Point::from_strings(&list[i]) {
            Some(p) => {
                points.push(p);
            },
            None => {
                assert(g1_decoded(list@[i as int]@).is_none());
                return None;
            },
        }
        i += 1;
    }
    assert(g1_values(points@) =~= g1_list_decoded(list@).unwrap());
    Some(points)
}

/// Reads the points of the second group that `list` denotes. Fails when an
/// entry denotes none.
pub fn decode_g2_list(list: &Vec<Vec<Vec<String>>>) -> (r: Option<Vec<G2Point>>)
    ensures
        r.is_some() == g2_list_decoded(list@).is_some(),
        r matches Some(points) ==> Some(g2_values(points@)) == g2_list_decoded(list@),
{
    let mut points: Vec<G2Point> = Vec::new();
    let mut i: usize = 0;
    while i < list.len()
        invariant
            i <= list.len(),
            points@.len() == i,
            forall|k: int| 0 <= k < i ==> g2_decoded(#[trigger] list@[k]@) == Some(points@[k]@),
        decreases list.len() - i,
    {
        match G2Point::from_strings(&list[i]) {
            Some(p) => {
                points.push(p);
            },
            None => {
                assert(g2_decoded(list@[i as int]@).is_none());
                return None;
            },
        }
        i += 1;
    }
    assert(g2_values(points@) =~= g2_list_decoded(list@).unwrap());
    Some(points)
}


/// The points that make up a verifying key.
pub struct VerifyingKey {
    pub alpha_g1: G1Point,
    pub beta_g1: G1Point,
    pub beta_g2: G2Point,
    pub gamma_g2: G2Point,
    pub delta_g1: G1Point,
    pub delta_g2: G2Point,
    pub ic: Vec<G1Point>,
}

/// The points that a setup yields for one circuit shape: the verifying key
/// and the prover's query vectors.
pub struct Parameters {
    pub vk: VerifyingKey,
    pub h: Vec<G1Point>,
    pub l: Vec<G1Point>,
    pub a: Vec<G1Point>,
    pub b_g1: Vec<G1Point>,
    pub b_g2: Vec<G2Point>,
}

/// The proving key in its interchange form.
pub struct ProvingKeyJson {
    pub a: Vec<Vec<String>>,
    pub b1: Vec<Vec<String>>,
    pub b2: Vec<Vec<Vec<String>>>,
    pub c: Vec<Option<Vec<String>>>,
    pub vk_alfa_1: Vec<String>,
    pub vk_beta_1: Vec<String>,
    pub vk_delta_1: Vec<String>,
    pub vk_beta_2: Vec<Vec<String>>,
    pub vk_delta_2: Vec<Vec<String>>,
    pub h: Vec<Vec<String>>,
}

/// The verifying key in its interchange form.
pub struct VerifyingKeyJson {
    pub ic: Vec<Vec<String>>,
    pub vk_alfa_1: Vec<String>,
    pub vk_beta_2: Vec<Vec<String>>,
    pub vk_gamma_2: Vec<Vec<String>>,
    pub vk_delta_2: Vec<Vec<String>>,
}

/// `c` holds one empty slot for each of the `n_public` public-input
/// positions, and after them the encodings of `l`, in order.
pub open spec fn c_encodes(c: Seq<Option<Vec<String>>>, n_public: nat, l: Seq<G1Value>) -> bool {
    &&& c.len() == n_public + l.len()
    &&& forall|i: int| 0 <= i < n_public ==> (#[trigger] c[i]).is_none()
    &&& forall|i: int|
        0 <= i < l.len() ==> (#[trigger] c[n_public + i]).is_some() && g1_encodes(
            c[n_public + i].unwrap()@,
            l[i],
        )
}

/// `pk` is the interchange form of the proving key of `params`.
pub open spec fn proving_key_encodes(pk: ProvingKeyJson, params: Parameters) -> bool {
    &&& g1_list_encodes(pk.a@, g1_values(params.a@))
    &&& g1_list_encodes(pk.b1@, g1_values(params.b_g1@))
    &&& g2_list_encodes(pk.b2@, g2_values(params.b_g2@))
    &&& c_encodes(pk.c@, params.vk.ic@.len(), g1_values(params.l@))
    &&& g1_encodes(pk.vk_alfa_1@, params.vk.alpha_g1@)
    &&& g1_encodes(pk.vk_beta_1@, params.vk.beta_g1@)
    &&& g1_encodes(pk.vk_delta_1@, params.vk.delta_g1@)
    &&& g2_encodes(pk.vk_beta_2@, params.vk.beta_g2@)
    &&& g2_encodes(pk.vk_delta_2@, params.vk.delta_g2@)
    &&& g1_list_encodes(pk.h@, g1_values(params.h@))
}

/// `vk` is the interchange form of the verifying key `key`.
pub open spec fn verifying_key_encodes(vk: VerifyingKeyJson, key: VerifyingKey) -> bool {
    &&& g1_list_encodes(vk.ic@, g1_values(key.ic@))
    &&& g1_encodes(vk.vk_alfa_1@, key.alpha_g1@)
    &&& g2_encodes(vk.vk_beta_2@, key.beta_g2@)
    &&& g2_encodes(vk.vk_gamma_2@, key.gamma_g2@)
    &&& g2_encodes(vk.vk_delta_2@, key.delta_g2@)
}

/// The slots of the proving key's `C` field: empty ones for the public
/// inputs, then the encoded points of `l`.
pub fn encode_c(n_public: usize, l: &Vec<G1Point>) -> (r: Vec<Option<Vec<String>>>)
    ensures
        c_encodes(r@, n_public as nat, g1_values(l@)),
{
    let mut c: Vec<Option<Vec<String>>> = Vec::new();
    let mut i: usize = 0;
    while i < n_public
        invariant
            i <= n_public,
            c@.len() == i,
            forall|k: int| 0 <= k < i ==> (#[trigger] c@[k]).is_none(),
        decreases n_public - i,
    {
        c.push(None);
        i += 1;
    }
    let mut j: usize = 0;
    while j < l.len()
        invariant
            j <= l.len(),
            c@.len() == n_public + j,
            forall|k: int| 0 <= k < n_public ==> (#[trigger] c@[k]).is_none(),
            forall|k: int|
                0 <= k < j ==> (#[trigger] c@[n_public + k]).is_some() && g1_encodes(
                    c@[n_public + k].unwrap()@,
                    l@[k]@,
                ),
        decreases l.len() - j,
    {
        let ghost before = c@;
        c.push(Some(l[j].to_strings()));
        proof {
            assert forall|k: int| 0 <= k < j + 1 implies (#[trigger] c@[n_public + k]).is_some()
                && g1_encodes(c@[n_public + k].unwrap()@, l@[k]@) by {
                if k < j {
                    assert(c@[n_public + k] == before[n_public + k]);
                }
            }
        }
        j += 1;
    }
    c
}

/// Turns the points of a setup into the two keys' interchange forms.
pub fn generate_keys(params: &Parameters) -> (r: (ProvingKeyJson, VerifyingKeyJson))
    ensures
        proving_key_encodes(r.0, *params),
        verifying_key_encodes(r.1, params.vk),
{
    let proving_key = ProvingKeyJson {
        a: encode_g1_list(&params.a),
        b1: encode_g1_list(&params.b_g1),
        b2: encode_g2_list(&params.b_g2),
        c: encode_c(params.vk.ic.len(), &params.l),
        vk_alfa_1: params.vk.alpha_g1.to_strings(),
        vk_beta_1: params.vk.beta_g1.to_strings(),
        vk_delta_1: params.vk.delta_g1.to_strings(),
        vk_beta_2: params.vk.beta_g2.to_strings(),
        vk_delta_2: params.vk.delta_g2.to_strings(),
        h: encode_g1_list(&params.h),
    };
    let verification_key = VerifyingKeyJson {
        ic: encode_g1_list(&params.vk.ic),
        vk_alfa_1: params.vk.alpha_g1.to_strings(),
        vk_beta_2: params.vk.beta_g2.to_strings(),
        vk_gamma_2: params.vk.gamma_g2.to_strings(),
        vk_delta_2: params.vk.delta_g2.to_strings(),
    };
    (proving_key, verification_key)
}


/// The points that a verifying key in interchange form holds.
pub struct VerifyingKeyPoints {
    pub ic: Vec<G1Point>,
    pub alpha_g1: G1Point,
    pub beta_g2: G2Point,
    pub gamma_g2: G2Point,
    pub delta_g2: G2Point,
}

/// The points of a verifying key in interchange form, as numbers.
pub struct VerifyingKeyValue {
    pub ic: Seq<G1Value>,
    pub alpha_g1: G1Value,
    pub beta_g2: G2Value,
    pub gamma_g2: G2Value,
    pub delta_g2: G2Value,
}

impl View for VerifyingKeyPoints {
    type V = VerifyingKeyValue;

    open spec fn view(&self) -> VerifyingKeyValue {
        VerifyingKeyValue {
            ic: g1_values(self.ic@),
            alpha_g1: self.alpha_g1@,
            beta_g2: self.beta_g2@,
            gamma_g2: self.gamma_g2@,
            delta_g2: self.delta_g2@,
        }
    }
}

/// The points that a proving key in interchange form holds. A slot of `c`
/// is empty where the key holds none.
pub struct ProvingKeyPoints {
    pub a: Vec<G1Point>,
    pub b1: Vec<G1Point>,
    pub b2: Vec<G2Point>,
    pub c: Vec<Option<G1Point>>,
    pub alpha_g1: G1Point,
    pub beta_g1: G1Point,
    pub delta_g1: G1Point,
    pub beta_g2: G2Point,
    pub delta_g2: G2Point,
    pub h: Vec<G1Point>,
}

/// The points of a proving key in interchange form, as numbers.
pub struct ProvingKeyValue {
    pub a: Seq<G1Value>,
    pub b1: Seq<G1Value>,
    pub b2: Seq<G2Value>,
    pub c: Seq<Option<G1Value>>,
    pub alpha_g1: G1Value,
    pub beta_g1: G1Value,
    pub delta_g1: G1Value,
    pub beta_g2: G2Value,
    pub delta_g2: G2Value,
    pub h: Seq<G1Value>,
}

/// A slot of the `C` field, as numbers.
pub open spec fn slot_value(slot: Option<G1Point>) -> Option<G1Value> {
    match slot {
        Some(p) => Some(p@),
        None => None,
    }
}

/// The slots of the `C` field, as numbers.
pub open spec fn slot_values(slots: Seq<Option<G1Point>>) -> Seq<Option<G1Value>> {
    slots.map_values(|slot: Option<G1Point>| slot_value(slot))
}

impl View for ProvingKeyPoints {
    type V = ProvingKeyValue;

    open spec fn view(&self) -> ProvingKeyValue {
        ProvingKeyValue {
            a: g1_values(self.a@),
            b1: g1_values(self.b1@),
            b2: g2_values(self.b2@),
            c: slot_values(self.c@),
            alpha_g1: self.alpha_g1@,
            beta_g1: self.beta_g1@,
            delta_g1: self.delta_g1@,
            beta_g2: self.beta_g2@,
            delta_g2: self.delta_g2@,
            h: g1_values(self.h@),
        }
    }
}

/// What one slot of the `C` field denotes: nothing for an empty slot, else
/// the point of its entries.
pub open spec fn slot_decoded(slot: Option<Vec<String>>) -> Option<G1Value> {
    match slot {
        Some(entries) => g1_decoded(entries@),
        None => None,
    }
}

/// A slot can be read when it is empty or its entries denote a point.
pub open spec fn slot_readable(slot: Option<Vec<String>>) -> bool {
    slot matches Some(entries) ==> g1_decoded(entries@).is_some()
}

/// The slots that the `C` field denotes, if every filled slot denotes a
/// point.
pub open spec fn c_decoded(c: Seq<Option<Vec<String>>>) -> Option<Seq<Option<G1Value>>> {
    if forall|i: int| 0 <= i < c.len() ==> slot_readable(#[trigger] c[i]) {
        Some(Seq::new(c.len(), |i: int| slot_decoded(c[i])))
    } else {
        None
    }
}

/// The slots that the `C` field of a key for `n_public` public inputs and
/// the points `l` holds.
pub open spec fn c_of(n_public: nat, l: Seq<G1Value>) -> Seq<Option<G1Value>> {
    Seq::new(
        n_public + l.len(),
        |i: int|
            if i < n_public {
                None
            } else {
                Some(l[i - n_public])
            },
    )
}

impl VerifyingKeyJson {
    /// The key that this interchange form denotes, if every entry of it
    /// denotes a point.
    pub open spec fn decoded(&self) -> Option<VerifyingKeyValue> {
        if g1_list_decoded(self.ic@).is_some() && g1_decoded(self.vk_alfa_1@).is_some()
            && g2_decoded(self.vk_beta_2@).is_some() && g2_decoded(self.vk_gamma_2@).is_some()
            && g2_decoded(self.vk_delta_2@).is_some() {
            Some(
                VerifyingKeyValue {
                    ic: g1_list_decoded(self.ic@).unwrap(),
                    alpha_g1: g1_decoded(self.vk_alfa_1@).unwrap(),
                    beta_g2: g2_decoded(self.vk_beta_2@).unwrap(),
                    gamma_g2: g2_decoded(self.vk_gamma_2@).unwrap(),
                    delta_g2: g2_decoded(self.vk_delta_2@).unwrap(),
                },
            )
        } else {
            None
        }
    }

    /// Reads the points back. Fails when an entry denotes no point.
    pub fn read(&self) -> (r: Option<VerifyingKeyPoints>)
        ensures
            r.is_some() == self.decoded().is_some(),
            r matches Some(key) ==> Some(key@) == self.decoded(),
    {
        let ic = decode_g1_list(&self.ic);
        let alpha_g1 = G1Point::from_strings(&self.vk_alfa_1);
        let beta_g2 = G2Point::from_strings(&self.vk_beta_2);
        let gamma_g2 = G2Point::from_strings(&self.vk_gamma_2);
        let delta_g2 = G2Point::from_strings(&self.vk_delta_2);
        match (ic, alpha_g1, beta_g2, gamma_g2, delta_g2) {
            (Some(ic), Some(alpha_g1), Some(beta_g2), Some(gamma_g2), Some(delta_g2)) => Some(
                VerifyingKeyPoints { ic, alpha_g1, beta_g2, gamma_g2, delta_g2 },
            ),
            _ => None,
        }
    }
}

/// Reads the slots of a `C` field. Fails when a filled slot denotes no
/// point.
pub fn decode_c(c: &Vec<Option<Vec<String>>>) -> (r: Option<Vec<Option<G1Point>>>)
    ensures
        r.is_some() == c_decoded(c@).is_some(),
        r matches Some(slots) ==> Some(slot_values(slots@)) == c_decoded(c@),
{
    let mut slots: Vec<Option<G1Point>> = Vec::new();
    let mut i: usize = 0;
    while i < c.len()
        invariant
            i <= c.len(),
            slots@.len() == i,
            forall|k: int| 0 <= k < i ==> slot_readable(#[trigger] c@[k]),
            forall|k: int| 0 <= k < i ==> slot_decoded(#[trigger] c@[k]) == slot_value(slots@[k]),
        decreases c.len() - i,
    {
        match &c[i] {
            Some(entries) => {
                match G1Point::from_strings(entries) {
                    Some(p) => {
                        slots.push(Some(p));
                    },
                    None => {
                        assert(!slot_readable(c@[i as int]));
                        return None;
                    },
                }
            },
            None => {
                slots.push(None);
            },
        }
        i += 1;
    }
    assert(slot_values(slots@) =~= c_decoded(c@).unwrap());
    Some(slots)
}

impl ProvingKeyJson {
    /// The key that this interchange form denotes, if every entry of it
    /// denotes a point.
    pub open spec fn decoded(&self) -> Option<ProvingKeyValue> {
        if g1_list_decoded(self.a@).is_some() && g1_list_decoded(self.b1@).is_some()
            && g2_list_decoded(self.b2@).is_some() && c_decoded(self.c@).is_some() && g1_decoded(
            self.vk_alfa_1@,
        ).is_some() && g1_decoded(self.vk_beta_1@).is_some() && g1_decoded(
            self.vk_delta_1@,
        ).is_some() && g2_decoded(self.vk_beta_2@).is_some() && g2_decoded(
            self.vk_delta_2@,
        ).is_some() && g1_list_decoded(self.h@).is_some() {
            Some(
                ProvingKeyValue {
                    a: g1_list_decoded(self.a@).unwrap(),
                    b1: g1_list_decoded(self.b1@).unwrap(),
                    b2: g2_list_decoded(self.b2@).unwrap(),
                    c: c_decoded(self.c@).unwrap(),
                    alpha_g1: g1_decoded(self.vk_alfa_1@).unwrap(),
                    beta_g1: g1_decoded(self.vk_beta_1@).unwrap(),
                    delta_g1: g1_decoded(self.vk_delta_1@).unwrap(),
                    beta_g2: g2_decoded(self.vk_beta_2@).unwrap(),
                    delta_g2: g2_decoded(self.vk_delta_2@).unwrap(),
                    h: g1_list_decoded(self.h@).unwrap(),
                },
            )
        } else {
            None
        }
    }

    /// Reads the points back. Fails when an entry denotes no point.
    pub fn read(&self) -> (r: Option<ProvingKeyPoints>)
        ensures
            r.is_some() == self.decoded().is_some(),
            r matches Some(key) ==> Some(key@) == self.decoded(),
    {
        let a = decode_g1_list(&self.a);
        let b1 = decode_g1_list(&self.b1);
        let b2 = decode_g2_list(&self.b2);
        let c = decode_c(&self.c);
        let alpha_g1 = G1Point::from_strings(&self.vk_alfa_1);
        let beta_g1 = G1Point::from_strings(&self.vk_beta_1);
        let delta_g1 = G1Point::from_strings(&self.vk_delta_1);
        let beta_g2 = G2Point::from_strings(&self.vk_beta_2);
        let delta_g2 = G2Point::from_strings(&self.vk_delta_2);
        let h = decode_g1_list(&self.h);
        match (a, b1, b2, c, alpha_g1) {
            (Some(a), Some(b1), Some(b2), Some(c), Some(alpha_g1)) => {
                match (beta_g1, delta_g1, beta_g2, delta_g2, h) {
                    (Some(beta_g1), Some(delta_g1), Some(beta_g2), Some(delta_g2), Some(h)) => {
                        Some(
                            ProvingKeyPoints {
                                a,
                                b1,
                                b2,
                                c,
                                alpha_g1,
                                beta_g1,
                                delta_g1,
                                beta_g2,
                                delta_g2,
                                h,
                            },
                        )
                    },
                    _ => None,
                }
            },
            _ => None,
        }
    }
}

/// Reading the slots of an encoded `C` field gives the empty slots and the
/// points back.
pub proof fn lemma_c_round_trip(c: Seq<Option<Vec<String>>>, n_public: nat, l: Seq<G1Value>)
    requires
        c_encodes(c, n_public, l),
    ensures
        c_decoded(c) == Some(c_of(n_public, l)),
{
    assert forall|i: int| 0 <= i < c.len() implies slot_readable(#[trigger] c[i]) && slot_decoded(
        c[i],
    ) == c_of(n_public, l)[i] by {
        if i >= n_public {
            let k = i - n_public;
            assert(c[n_public + k].is_some());
            lemma_g1_round_trip(c[n_public + k].unwrap()@, l[k]);
        }
    }
    assert(c_decoded(c).unwrap() =~= c_of(n_public, l));
}

/// Reading the interchange form of a verifying key gives every point of the
/// key back, coordinates and flag.
pub proof fn lemma_verifying_key_round_trip(vk: VerifyingKeyJson, key: VerifyingKey)
    requires
        verifying_key_encodes(vk, key),
    ensures
        vk.decoded() == Some(
            VerifyingKeyValue {
                ic: g1_values(key.ic@),
                alpha_g1: key.alpha_g1@,
                beta_g2: key.beta_g2@,
                gamma_g2: key.gamma_g2@,
                delta_g2: key.delta_g2@,
            },
        ),
{
    lemma_g1_list_round_trip(vk.ic@, g1_values(key.ic@));
    lemma_g1_round_trip(vk.vk_alfa_1@, key.alpha_g1@);
    lemma_g2_round_trip(vk.vk_beta_2@, key.beta_g2@);
    lemma_g2_round_trip(vk.vk_gamma_2@, key.gamma_g2@);
    lemma_g2_round_trip(vk.vk_delta_2@, key.delta_g2@);
}

/// Reading the interchange form of a proving key gives every point of the
/// setup that it holds back, coordinates and flag, and an empty slot for
/// each public input.
pub proof fn lemma_proving_key_round_trip(pk: ProvingKeyJson, params: Parameters)
    requires
        proving_key_encodes(pk, params),
    ensures
        pk.decoded() == Some(
            ProvingKeyValue {
                a: g1_values(params.a@),
                b1: g1_values(params.b_g1@),
                b2: g2_values(params.b_g2@),
                c: c_of(params.vk.ic@.len(), g1_values(params.l@)),
                alpha_g1: params.vk.alpha_g1@,
                beta_g1: params.vk.beta_g1@,
                delta_g1: params.vk.delta_g1@,
                beta_g2: params.vk.beta_g2@,
                delta_g2: params.vk.delta_g2@,
                h: g1_values(params.h@),
            },
        ),
{
    lemma_g1_list_round_trip(pk.a@, g1_values(params.a@));
    lemma_g1_list_round_trip(pk.b1@, g1_values(params.b_g1@));
    lemma_g2_list_round_trip(pk.b2@, g2_values(params.b_g2@));
    lemma_c_round_trip(pk.c@, params.vk.ic@.len(), g1_values(params.l@));
    lemma_g1_round_trip(pk.vk_alfa_1@, params.vk.alpha_g1@);
    lemma_g1_round_trip(pk.vk_beta_1@, params.vk.beta_g1@);
    lemma_g1_round_trip(pk.vk_delta_1@, params.vk.delta_g1@);
    lemma_g2_round_trip(pk.vk_beta_2@, params.vk.beta_g2@);
    lemma_g2_round_trip(pk.vk_delta_2@, params.vk.delta_g2@);
    lemma_g1_list_round_trip(pk.h@, g1_values(params.h@));
}

} // verus!
