//! Canonical byte encoding of the values that enter a hash.
//!
//! Every hashed structure is encoded by one fixed, length-prefixed,
//! order-preserving encoding, used identically by the prover and the
//! verifier: a 64-bit big-endian length followed by the items, each group
//! element as its fixed-width big-endian value.

use vstd::prelude::*;
use crate::group::{Element, elem_views};

verus! {

/// The eight big-endian bytes of a 64-bit value.
pub open spec fn be8(x: u64) -> Seq<u8> {
    seq![
        (x >> 56) as u8,
        (x >> 48) as u8,
        (x >> 40) as u8,
        (x >> 32) as u8,
        (x >> 24) as u8,
        (x >> 16) as u8,
        (x >> 8) as u8,
        x as u8,
    ]
}

/// The big-endian value of a byte string.
pub open spec fn bytes_to_nat(s: Seq<u8>) -> int
    decreases s.len(),
{
    if s.len() == 0 {
        0
    } else {
        bytes_to_nat(s.drop_last()) * 256 + s.last()
    }
}

/// The bare concatenation of the encoded elements.
pub open spec fn enc_elems(s: Seq<int>) -> Seq<u8>
    decreases s.len(),
{
    if s.len() == 0 {
        Seq::empty()
    } else {
        enc_elems(s.drop_last()) + be8(s.last() as u64)
    }
}

/// A list of group elements: a length prefix, then each element.
pub open spec fn enc_elem_list(s: Seq<int>) -> Seq<u8> {
    be8(s.len() as u64) + enc_elems(s)
}

/// A variable-length byte string: a length prefix, then the bytes.
pub open spec fn enc_bytes(b: Seq<u8>) -> Seq<u8> {
    be8(b.len() as u64) + b
}

/// Appends the eight big-endian bytes of `x`.
pub fn push_be8(out: &mut Vec<u8>, x: u64)
    ensures
        final(out)@ == old(out)@ + be8(x),
{
    out.push((x >> 56) as u8);
    out.push((x >> 48) as u8);
    out.push((x >> 40) as u8);
    out.push((x >> 32) as u8);
    out.push((x >> 24) as u8);
    out.push((x >> 16) as u8);
    out.push((x >> 8) as u8);
    out.push(x as u8);
    proof {
        assert(out@ =~= old(out)@ + be8(x));
    }
}

/// Appends the canonical encoding of an element list.
pub fn push_elem_list(out: &mut Vec<u8>, elems: &Vec<Element>)
    ensures
        final(out)@ == old(out)@ + enc_elem_list(elem_views(elems@)),
{
    push_be8(out, elems.len() as u64);
    let ghost views = elem_views(elems@);
    let ghost header = old(out)@ + be8(elems.len() as u64);
    assert(views.take(0) =~= Seq::<int>::empty());
    for i in 0..elems.len()
        invariant
            views == elem_views(elems@),
            views.len() == elems@.len(),
            out@ == header + enc_elems(views.take(i as int)),
    {
        push_be8(out, elems[i].value);
        proof {
            assert(views.take(i + 1).drop_last() =~= views.take(i as int));
            assert(views[i as int] == elems@[i as int]@);
        }
    }
    proof {
        assert(views.take(views.len() as int) =~= views);
        assert(out@ =~= old(out)@ + enc_elem_list(views));
    }
}

/// Appends the canonical encoding of a variable-length byte string.
pub fn push_byte_string(out: &mut Vec<u8>, b: &Vec<u8>)
    ensures
        final(out)@ == old(out)@ + enc_bytes(b@),
{
    push_be8(out, b.len() as u64);
    let ghost header = old(out)@ + be8(b.len() as u64);
    for i in 0..b.len()
        invariant
            out@ == header + b@.take(i as int),
    {
        out.push(b[i]);
        proof {
            assert(header + b@.take(i + 1) =~= (header + b@.take(i as int)).push(b@[i as int]));
        }
    }
    proof {
        assert(b@.take(b@.len() as int) =~= b@);
        assert(out@ =~= old(out)@ + enc_bytes(b@));
    }
}

/// Byte-string equality.
pub fn bytes_eq(a: &Vec<u8>, b: &Vec<u8>) -> (r: bool)
    ensures
        r == (a@ == b@),
{
    if a.len() != b.len() {
        assert(a@ != b@);
        return false;
    }
    for i in 0..a.len()
        invariant
            a@.len() == b@.len(),
            forall|j: int| 0 <= j < i ==> a@[j] == b@[j],
    {
        if a[i] != b[i] {
            return false;
        }
    }
    proof {
        assert(a@ =~= b@);
    }
    true
}

} // verus!
