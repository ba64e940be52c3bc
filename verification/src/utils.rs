//! Hashing, randomness, and the small numeric helpers shared by the
//! protocol components.

use vstd::prelude::*;
use vstd::arithmetic::div_mod::{
    lemma_add_mod_noop, lemma_mul_mod_noop_left, lemma_small_mod,
};
use crate::group::{Element, Scalar, Q, elem_views, elems_wf};
use crate::bytes::{be8, bytes_to_nat, push_be8};
use crate::sums::sum_seq;
use sha2::Digest;

verus! {

/// The SHA-256 digest of a byte string, named but not written out: the
/// protocol only relies on it being one fixed function of the bytes.
pub uninterp spec fn sha256_of(bytes: Seq<u8>) -> Seq<u8>;

/// Relies on sha2::Sha256::digest: a deterministic function of the input
/// bytes alone, with a 32-byte output.
#[verifier::external_body]
pub fn sha256(bytes: &Vec<u8>) -> (r: Vec<u8>)
    ensures
        r@ == sha256_of(bytes@),
        r@.len() == 32,
{
    sha2::Sha256::digest(bytes.as_slice()).to_vec()
}

/// Relies on rand::random_range: a draw from the thread's cryptographically
/// secure generator, somewhere in the given half-open range.
#[verifier::external_body]
pub fn random_range_u64(lo: u64, hi: u64) -> (r: u64)
    requires
        lo < hi,
    ensures
        lo <= r < hi,
{
    rand::random_range(lo..hi)
}

/// Relies on chrono::Utc::now: the current time, formatted per RFC 3339.
#[verifier::external_body]
pub fn now_rfc3339() -> (r: String)
{
    chrono::Utc::now().to_rfc3339()
}

/// A uniformly random scalar, freshly drawn.
pub fn random_scalar() -> (r: Scalar)
    ensures
        r.wf(),
{
    Scalar { value: random_range_u64(0, Q) }
}

/// A uniformly random group element, obtained as `G` times a fresh scalar.
pub fn random_element() -> (r: Element)
    ensures
        r.wf(),
{
    let s = random_scalar();
    Element::mul_generator(&s)
}

/// The group sum of a list of elements.
pub fn summation(list: Vec<Element>) -> (r: Element)
    requires
        elems_wf(list@),
    ensures
        r.wf(),
        r@ == sum_seq(elem_views(list@)) % (Q as int),
{
    let ghost views = elem_views(list@);
    let mut sum = Element::identity();
    let n = list.len();
    assert(views.take(0) =~= Seq::<int>::empty());
    for i in 0..n
        invariant
            n == list@.len(),
            views == elem_views(list@),
            elems_wf(list@),
            sum.wf(),
            sum@ == sum_seq(views.take(i as int)) % (Q as int),
    {
        let ghost prev = sum_seq(views.take(i as int));
        sum = sum.add(&list[i]);
        proof {
            assert(views.take(i + 1).drop_last() =~= views.take(i as int));
            lemma_add_mod_noop(prev, views[i as int], Q as int);
            lemma_small_mod(views[i as int] as nat, Q as nat);
        }
    }
    proof {
        assert(views.take(views.len() as int) =~= views);
    }
    sum
}

/// The scalar obtained by reducing a big-endian byte string modulo the group
/// order: the Fiat–Shamir challenge-derivation primitive.
pub fn scalar_from_bytes(bytes: &Vec<u8>) -> (r: Scalar)
    ensures
        r.wf(),
        r@ == bytes_to_nat(bytes@) % (Q as int),
{
    let mut acc: u64 = 0;
    let n = bytes.len();
    assert(bytes@.take(0) =~= Seq::<u8>::empty());
    for i in 0..n
        invariant
            n == bytes@.len(),
            acc < Q,
            acc == bytes_to_nat(bytes@.take(i as int)) % (Q as int),
    {
        let ghost prev = bytes_to_nat(bytes@.take(i as int));
        acc = (acc * 256 + bytes[i] as u64) % Q;
        proof {
            assert(bytes@.take(i + 1).drop_last() =~= bytes@.take(i as int));
            lemma_mul_mod_noop_left(prev, 256, Q as int);
            lemma_add_mod_noop(prev * 256, bytes@[i as int] as int, Q as int);
            lemma_small_mod(bytes@[i as int] as nat, Q as nat);
        }
    }
    proof {
        assert(bytes@.take(bytes@.len() as int) =~= bytes@);
    }
    Scalar { value: acc }
}

/// The group sum `sum(elems[i] * weights[i])`, each term weighted by the
/// scalar at its position.
pub fn weighted_sum(elems: &Vec<Element>, weights: &Vec<Scalar>) -> (r: Element)
    requires
        elems@.len() == weights@.len(),
        elems_wf(elems@),
        crate::group::scalars_wf(weights@),
    ensures
        r.wf(),
        r@ == sum_seq(
            Seq::new(elems@.len(), |i: int| elems@[i]@ * weights@[i]@),
        ) % (Q as int),
{
    let ghost terms = Seq::new(elems@.len(), |i: int| elems@[i]@ * weights@[i]@);
    let mut sum = Element::identity();
    let n = elems.len();
    assert(terms.take(0) =~= Seq::<int>::empty());
    for i in 0..n
        invariant
            n == elems@.len(),
            n == weights@.len(),
            elems_wf(elems@),
            crate::group::scalars_wf(weights@),
            terms == Seq::new(elems@.len(), |j: int| elems@[j]@ * weights@[j]@),
            sum.wf(),
            sum@ == sum_seq(terms.take(i as int)) % (Q as int),
    {
        let ghost prev = sum_seq(terms.take(i as int));
        let term = elems[i].mul_scalar(&weights[i]);
        sum = sum.add(&term);
        proof {
            assert(terms.take(i + 1).drop_last() =~= terms.take(i as int));
            lemma_add_mod_noop(prev, terms[i as int], Q as int);
            vstd::arithmetic::div_mod::lemma_mod_twice(prev + terms[i as int], Q as int);
        }
    }
    proof {
        assert(terms.take(terms.len() as int) =~= terms);
    }
    sum
}

/// The field sum of a list of scalars.
pub fn scalar_sum(list: &Vec<Scalar>) -> (r: Scalar)
    requires
        crate::group::scalars_wf(list@),
    ensures
        r.wf(),
        r@ == sum_seq(crate::group::scalar_views(list@)) % (Q as int),
{
    let ghost views = crate::group::scalar_views(list@);
    let mut sum = Scalar::zero();
    let n = list.len();
    assert(views.take(0) =~= Seq::<int>::empty());
    for i in 0..n
        invariant
            n == list@.len(),
            views == crate::group::scalar_views(list@),
            crate::group::scalars_wf(list@),
            sum.wf(),
            sum@ == sum_seq(views.take(i as int)) % (Q as int),
    {
        let ghost prev = sum_seq(views.take(i as int));
        sum = sum.add(&list[i]);
        proof {
            assert(views.take(i + 1).drop_last() =~= views.take(i as int));
            lemma_add_mod_noop(prev, views[i as int], Q as int);
            lemma_small_mod(views[i as int] as nat, Q as nat);
        }
    }
    proof {
        assert(views.take(views.len() as int) =~= views);
    }
    sum
}

/// The field sum `sum(a[i] * b[i])` of two scalar lists, position by
/// position.
pub fn scalar_weighted_sum(a: &Vec<Scalar>, b: &Vec<Scalar>) -> (r: Scalar)
    requires
        a@.len() == b@.len(),
        crate::group::scalars_wf(a@),
        crate::group::scalars_wf(b@),
    ensures
        r.wf(),
        r@ == sum_seq(Seq::new(a@.len(), |i: int| a@[i]@ * b@[i]@)) % (Q as int),
{
    let ghost terms = Seq::new(a@.len(), |i: int| a@[i]@ * b@[i]@);
    let mut sum = Scalar::zero();
    let n = a.len();
    assert(terms.take(0) =~= Seq::<int>::empty());
    for i in 0..n
        invariant
            n == a@.len(),
            n == b@.len(),
            crate::group::scalars_wf(a@),
            crate::group::scalars_wf(b@),
            terms == Seq::new(a@.len(), |j: int| a@[j]@ * b@[j]@),
            sum.wf(),
            sum@ == sum_seq(terms.take(i as int)) % (Q as int),
    {
        let ghost prev = sum_seq(terms.take(i as int));
        let term = a[i].mul(&b[i]);
        sum = sum.add(&term);
        proof {
            assert(terms.take(i + 1).drop_last() =~= terms.take(i as int));
            lemma_add_mod_noop(prev, terms[i as int], Q as int);
            vstd::arithmetic::div_mod::lemma_mod_twice(prev + terms[i as int], Q as int);
        }
    }
    proof {
        assert(terms.take(terms.len() as int) =~= terms);
    }
    sum
}

/// A list of freshly drawn random scalars.
pub fn random_scalars(count: usize) -> (r: Vec<Scalar>)
    ensures
        r@.len() == count,
        crate::group::scalars_wf(r@),
{
    let mut out: Vec<Scalar> = Vec::new();
    for i in 0..count
        invariant
            out@.len() == i,
            crate::group::scalars_wf(out@),
    {
        out.push(random_scalar());
    }
    out
}

/// Whether every element of the list is a canonical residue.
pub fn elements_in_range(v: &Vec<Element>) -> (r: bool)
    ensures
        r == elems_wf(v@),
{
    for i in 0..v.len()
        invariant
            forall|j: int| 0 <= j < i ==> (#[trigger] v@[j]).wf(),
    {
        if v[i].value >= Q {
            return false;
        }
    }
    true
}

/// Whether every scalar of the list is a canonical residue.
pub fn scalars_in_range(v: &Vec<Scalar>) -> (r: bool)
    ensures
        r == crate::group::scalars_wf(v@),
{
    for i in 0..v.len()
        invariant
            forall|j: int| 0 <= j < i ==> (#[trigger] v@[j]).wf(),
    {
        if v[i].value >= Q {
            return false;
        }
    }
    true
}

/// The `i`-th nonce derived from a seed: the seed and the index hashed, then
/// reduced into the scalar field.
pub open spec fn nonce_spec(seed: Seq<u8>, i: int) -> int {
    bytes_to_nat(sha256_of(seed + be8(i as u64))) % (Q as int)
}

/// Expands one nonce seed into `count` scalar nonces, deterministically, so
/// that revealing the seed reveals every opening.
pub fn derive_nonces(seed: &Vec<u8>, count: usize) -> (r: Vec<Scalar>)
    ensures
        r@.len() == count,
        forall|i: int| 0 <= i < count ==> (#[trigger] r@[i]).wf() && r@[i]@ == nonce_spec(
            seed@,
            i,
        ),
{
    let mut nonces: Vec<Scalar> = Vec::new();
    for i in 0..count
        invariant
            nonces@.len() == i,
            forall|j: int| 0 <= j < i ==> (#[trigger] nonces@[j]).wf() && nonces@[j]@
                == nonce_spec(seed@, j),
    {
        let mut buf: Vec<u8> = Vec::new();
        for k in 0..seed.len()
            invariant
                buf@ == seed@.take(k as int),
        {
            buf.push(seed[k]);
            proof {
                assert(seed@.take(k + 1) =~= seed@.take(k as int).push(seed@[k as int]));
            }
        }
        proof {
            assert(seed@.take(seed@.len() as int) =~= seed@);
        }
        push_be8(&mut buf, i as u64);
        let digest = sha256(&buf);
        let nonce = scalar_from_bytes(&digest);
        nonces.push(nonce);
    }
    nonces
}

} // verus!
