//! Fiat–Shamir challenge derivation.
//!
//! The prover and the verifier derive every challenge by hashing the same
//! canonical encoding of the transcript, through the same functions, so the
//! two sides are byte-exact by construction.

use vstd::prelude::*;
use crate::group::{Element, Scalar, Q, elem_views};
use crate::bytes::{be8, bytes_to_nat, enc_elem_list, push_be8, push_elem_list};
use crate::utils::{sha256, sha256_of, scalar_from_bytes};

verus! {

/// The bytes hashed for the per-index challenge `u_list[i]`.
pub open spec fn fs_u_bytes(cl: Seq<int>, cpl: Seq<int>, c_list: Seq<int>, i: int) -> Seq<u8> {
    enc_elem_list(cl) + enc_elem_list(cpl) + enc_elem_list(c_list) + be8(i as u64)
}

/// The per-index challenge: a hash of both commitment lists, the permutation
/// commitment, and the index, reduced into the scalar field.
pub open spec fn u_challenge(cl: Seq<int>, cpl: Seq<int>, c_list: Seq<int>, i: int) -> int {
    bytes_to_nat(sha256_of(fs_u_bytes(cl, cpl, c_list, i))) % (Q as int)
}

/// The bytes hashed for the global challenge: the full statement and the
/// prover's first-move commitments.
pub open spec fn fs_c_bytes(
    cl: Seq<int>,
    cpl: Seq<int>,
    c_list: Seq<int>,
    c_hat_list: Seq<int>,
    t0: int,
    t1: int,
    t2: int,
    t3: int,
    t_hat: Seq<int>,
) -> Seq<u8> {
    enc_elem_list(cl) + enc_elem_list(cpl) + enc_elem_list(c_list) + enc_elem_list(c_hat_list)
        + be8(t0 as u64) + be8(t1 as u64) + be8(t2 as u64) + be8(t3 as u64) + enc_elem_list(t_hat)
}

/// The global challenge, reduced into the scalar field.
pub open spec fn global_challenge(
    cl: Seq<int>,
    cpl: Seq<int>,
    c_list: Seq<int>,
    c_hat_list: Seq<int>,
    t0: int,
    t1: int,
    t2: int,
    t3: int,
    t_hat: Seq<int>,
) -> int {
    bytes_to_nat(sha256_of(fs_c_bytes(cl, cpl, c_list, c_hat_list, t0, t1, t2, t3, t_hat))) % (
    Q as int)
}

/// Derives the whole vector of per-index challenges.
pub fn derive_u_list(cl: &Vec<Element>, cpl: &Vec<Element>, c_list: &Vec<Element>) -> (r: Vec<
    Scalar,
>)
    ensures
        r@.len() == cl@.len(),
        forall|i: int| 0 <= i < r@.len() ==> (#[trigger] r@[i]).wf() && r@[i]@ == u_challenge(
            elem_views(cl@),
            elem_views(cpl@),
            elem_views(c_list@),
            i,
        ),
{
    let mut prefix: Vec<u8> = Vec::new();
    push_elem_list(&mut prefix, cl);
    push_elem_list(&mut prefix, cpl);
    push_elem_list(&mut prefix, c_list);
    let mut out: Vec<Scalar> = Vec::new();
    let n = cl.len();
    for i in 0..n
        invariant
            n == cl@.len(),
            prefix@ == enc_elem_list(elem_views(cl@)) + enc_elem_list(elem_views(cpl@))
                + enc_elem_list(elem_views(c_list@)),
            out@.len() == i,
            forall|j: int| 0 <= j < i ==> (#[trigger] out@[j]).wf() && out@[j]@ == u_challenge(
                elem_views(cl@),
                elem_views(cpl@),
                elem_views(c_list@),
                j,
            ),
    {
        let mut buf = prefix.clone();
        push_be8(&mut buf, i as u64);
        let digest = sha256(&buf);
        let u = scalar_from_bytes(&digest);
        proof {
            assert(buf@ =~= fs_u_bytes(
                elem_views(cl@),
                elem_views(cpl@),
                elem_views(c_list@),
                i as int,
            ));
        }
        out.push(u);
    }
    out
}

/// Derives the global challenge from the statement and the first move
/// `t = (t0, t1, t2, t3, t_hat_list)`.
pub fn derive_global_challenge(
    cl: &Vec<Element>,
    cpl: &Vec<Element>,
    c_list: &Vec<Element>,
    c_hat_list: &Vec<Element>,
    t: &(Element, Element, Element, Element, Vec<Element>),
) -> (r: Scalar)
    ensures
        r.wf(),
        r@ == global_challenge(
            elem_views(cl@),
            elem_views(cpl@),
            elem_views(c_list@),
            elem_views(c_hat_list@),
            t.0@,
            t.1@,
            t.2@,
            t.3@,
            elem_views(t.4@),
        ),
{
    let mut buf: Vec<u8> = Vec::new();
    push_elem_list(&mut buf, cl);
    push_elem_list(&mut buf, cpl);
    push_elem_list(&mut buf, c_list);
    push_elem_list(&mut buf, c_hat_list);
    push_be8(&mut buf, t.0.value);
    push_be8(&mut buf, t.1.value);
    push_be8(&mut buf, t.2.value);
    push_be8(&mut buf, t.3.value);
    push_elem_list(&mut buf, &t.4);
    let digest = sha256(&buf);
    proof {
        assert(buf@ =~= fs_c_bytes(
            elem_views(cl@),
            elem_views(cpl@),
            elem_views(c_list@),
            elem_views(c_hat_list@),
            t.0@,
            t.1@,
            t.2@,
            t.3@,
            elem_views(t.4@),
        ));
    }
    scalar_from_bytes(&digest)
}

} // verus!
