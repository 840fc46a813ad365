//! The embedding of application items into the accumulator's domain: numbers
//! of a bounded bit length whose lowest bits are forced to one.

use vstd::prelude::*;
use vstd::arithmetic::power2::{pow2, lemma_pow2_pos, lemma_pow2_adds};
use vstd::arithmetic::div_mod::lemma_fundamental_div_mod_converse;
use crate::bits::{
    bits_value,
    fit_bits,
    lemma_bits_all_set,
    lemma_bits_bound,
    lemma_bits_concat,
};
use crate::field::{
    PoseidonParams,
    PoseidonShape,
    Scalar,
    limbs_value,
    poseidon,
    poseidon_of,
    scalar_rows,
    scalar_values,
};
use crate::natural::Natural;

verus! {

/// The domain of an accumulator's elements: their bit length, and how many
/// of their lowest bits are one.
#[derive(Clone, Copy, Debug)]
pub struct HashDomain {
    pub n_bits: usize,
    pub n_trailing_ones: usize,
}

impl HashDomain {
    /// The forced bits fit into the bit length.
    pub open spec fn wf(&self) -> bool {
        self.n_trailing_ones <= self.n_bits
    }

    /// The number of bits that the hash fills.
    pub open spec fn free_bits(&self) -> nat {
        (self.n_bits - self.n_trailing_ones) as nat
    }
}

/// The number of bits that one hash output gives to the stream.
pub open spec fn chunk_bits() -> nat {
    253
}

/// The number of hash outputs that `bits` bits take.
pub open spec fn chunks_needed(bits: nat) -> nat {
    if bits % chunk_bits() == 0 {
        bits / chunk_bits()
    } else {
        bits / chunk_bits() + 1
    }
}

/// The stream that hash outputs make up: the lowest 253 bits of the first,
/// then those of the second, and so on.
pub open spec fn stream_value(chunks: Seq<nat>) -> nat
    decreases chunks.len(),
{
    if chunks.len() == 0 {
        0
    } else {
        stream_value(chunks.drop_last()) + pow2(chunk_bits() * (chunks.len() - 1) as nat) * (
        chunks.last() % pow2(chunk_bits()))
    }
}

/// The element of the domain that a stream gives: `n_trailing_ones` one-bits,
/// and above them the lowest bits of the stream, up to `n_bits` in all.
pub open spec fn domain_element(stream: nat, n_bits: nat, n_trailing_ones: nat) -> nat
    recommends
        n_trailing_ones <= n_bits,
{
    (pow2(n_trailing_ones) - 1 + pow2(n_trailing_ones) * (stream % pow2(
        (n_bits - n_trailing_ones) as nat,
    ))) as nat
}

/// The `k`-th hash output for an item under the parameter set `hash`: the
/// hash of the item, then the hash of each output in turn.
pub open spec fn hash_chunk(hash: PoseidonShape, item: Seq<Seq<u64>>, k: nat) -> Seq<u64>
    decreases k,
{
    if k == 0 {
        poseidon_of(hash, item)[0]
    } else {
        poseidon_of(hash, seq![hash_chunk(hash, item, (k - 1) as nat)])[0]
    }
}

/// The first `n` hash outputs for an item, as numbers.
pub open spec fn hash_chunks(hash: PoseidonShape, item: Seq<Seq<u64>>, n: nat) -> Seq<nat> {
    Seq::new(n, |k: int| limbs_value(hash_chunk(hash, item, k as nat)))
}

/// The element of the domain that an item is hashed to under the parameter
/// set `hash`.
pub open spec fn item_element(hash: PoseidonShape, item: Seq<Seq<u64>>, domain: HashDomain) -> nat {
    domain_element(
        stream_value(hash_chunks(hash, item, chunks_needed(domain.free_bits()))),
        domain.n_bits as nat,
        domain.n_trailing_ones as nat,
    )
}

/// An element of the domain is below `2^n_bits`, and its lowest
/// `n_trailing_ones` bits are set.
pub proof fn lemma_domain_element_shape(stream: nat, n_bits: nat, n_trailing_ones: nat)
    requires
        n_trailing_ones <= n_bits,
    ensures
        domain_element(stream, n_bits, n_trailing_ones) < pow2(n_bits),
        domain_element(stream, n_bits, n_trailing_ones) % pow2(n_trailing_ones) == pow2(
            n_trailing_ones,
        ) - 1,
{
    let t = n_trailing_ones;
    let free = (n_bits - t) as nat;
    let w = pow2(t) as int;
    let body = (stream % pow2(free)) as int;
    lemma_pow2_pos(t);
    lemma_pow2_pos(free);
    lemma_pow2_adds(t, free);
    assert(body < pow2(free));
    assert(w - 1 + w * body < w * pow2(free)) by (nonlinear_arith)
        requires
            body + 1 <= pow2(free),
            w > 0,
    ;
    assert(w * body == body * w) by (nonlinear_arith);
    lemma_fundamental_div_mod_converse(w - 1 + w * body, w, body, w - 1);
}

/// The element that an item is hashed to is a function of the parameter
/// set, the item's values and the domain alone: hashing the same values
/// twice gives the same element. It is below `2^n_bits`, and its lowest
/// `n_trailing_ones` bits are set.
pub proof fn lemma_item_element_shape(hash: PoseidonShape, item: Seq<Seq<u64>>, domain: HashDomain)
    requires
        domain.wf(),
    ensures
        item_element(hash, item, domain) < pow2(domain.n_bits as nat),
        item_element(hash, item, domain) % pow2(domain.n_trailing_ones as nat) == pow2(
            domain.n_trailing_ones as nat,
        ) - 1,
{
    lemma_domain_element_shape(
        stream_value(hash_chunks(hash, item, chunks_needed(domain.free_bits()))),
        domain.n_bits as nat,
        domain.n_trailing_ones as nat,
    );
}

/// The element of the domain that the hash outputs `chunks` give.
pub fn embed(chunks: &Vec<Scalar>, domain: &HashDomain) -> (r: Natural)
    requires
        domain.wf(),
    ensures
        r@ == domain_element(
            stream_value(scalar_values(chunks@)),
            domain.n_bits as nat,
            domain.n_trailing_ones as nat,
        ),
        r@ < pow2(domain.n_bits as nat),
        r@ % pow2(domain.n_trailing_ones as nat) == pow2(domain.n_trailing_ones as nat) - 1,
        r.canonical(),
{
    let ghost values = scalar_values(chunks@);
    let mut stream: Vec<bool> = Vec::new();
    let mut i: usize = 0;
    proof {
        assert(values.take(0) =~= Seq::<nat>::empty());
    }
    while i < chunks.len()
        invariant
            i <= chunks.len(),
            values == scalar_values(chunks@),
            stream@.len() == chunk_bits() * i,
            bits_value(stream@) == stream_value(values.take(i as int)),
        decreases chunks.len() - i,
    {
        let mut low = chunks[i].to_natural().low_bits(253);
        proof {
            lemma_bits_concat(stream@, low@);
            assert(values.take(i + 1).drop_last() =~= values.take(i as int));
            assert(values.take(i + 1).last() == chunks@[i as int]@);
        }
        stream.append(&mut low);
        i += 1;
    }
    proof {
        assert(values.take(chunks@.len() as int) =~= values);
    }
    let free = domain.n_bits - domain.n_trailing_ones;
    let mut body = fit_bits(stream, free);
    let mut bits: Vec<bool> = Vec::new();
    let mut j: usize = 0;
    while j < domain.n_trailing_ones
        invariant
            j <= domain.n_trailing_ones,
            bits@.len() == j,
            forall|k: int| 0 <= k < j ==> bits@[k],
        decreases domain.n_trailing_ones - j,
    {
        bits.push(true);
        j += 1;
    }
    proof {
        lemma_bits_all_set(bits@);
        lemma_bits_concat(bits@, body@);
        lemma_bits_bound(bits@ + body@);
        lemma_domain_element_shape(
            stream_value(values),
            domain.n_bits as nat,
            domain.n_trailing_ones as nat,
        );
    }
    bits.append(&mut body);
    Natural::from_bits(&bits)
}

/// Hashes an item into the domain. Fails when the domain's forced bits
/// exceed its bit length, or when the limbs of a value of the item denote no
/// element of the field.
pub fn hash_to_rsa_element(
    inputs: &Vec<Scalar>,
    domain: &HashDomain,
    params: &PoseidonParams,
) -> (r: Option<Natural>)
    ensures
        r.is_some() == (domain.wf() && forall|i: int|
            0 <= i < inputs@.len() ==> (#[trigger] inputs@[i]).wf()),
        r matches Some(e) ==> {
            &&& e@ == item_element(params@, scalar_rows(inputs@), *domain)
            &&& e@ < pow2(domain.n_bits as nat)
            &&& e@ % pow2(domain.n_trailing_ones as nat) == pow2(domain.n_trailing_ones as nat)
                - 1
            &&& e.canonical()
        },
{
    if domain.n_trailing_ones > domain.n_bits {
        return None;
    }
    let free = domain.n_bits - domain.n_trailing_ones;
    let needed: usize = if free % 253 == 0 {
        free / 253
    } else {
        free / 253 + 1
    };
    let first = match poseidon(params, inputs) {
        Some(h) => h,
        None => {
            return None;
        },
    };
    let ghost item = scalar_rows(inputs@);
    let mut chunks: Vec<Scalar> = Vec::new();
    if needed > 0 {
        chunks.push(first);
    }
    while chunks.len() < needed
        invariant
            chunks@.len() <= needed,
            needed > 0 ==> chunks@.len() > 0,
            forall|i: int| 0 <= i < chunks@.len() ==> (#[trigger] chunks@[i]).wf(),
            forall|i: int|
                0 <= i < chunks@.len() ==> (#[trigger] chunks@[i]).limbs@ == hash_chunk(
                    params@,
                    item,
                    i as nat,
                ),
        decreases needed - chunks@.len(),
    {
        let last = chunks[chunks.len() - 1];
        let mut link: Vec<Scalar> = Vec::new();
        link.push(last);
        assert(scalar_rows(link@) =~= seq![last.limbs@]);
        assert(link@[0].wf());
        match poseidon(params, &link) {
            Some(h) => {
                chunks.push(h);
            },
            None => {
                assert(false);
            },
        }
    }
    assert(scalar_values(chunks@) =~= hash_chunks(params@, item, needed as nat));
    Some(embed(&chunks, domain))
}

} // verus!
