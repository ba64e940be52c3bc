//! Pedersen commitments over the group: `commit(m, r) = G·r + h·m`.

use vstd::prelude::*;
use vstd::arithmetic::div_mod::lemma_sub_mod_noop;
use vstd::arithmetic::mul::lemma_mul_is_distributive_sub;
use crate::group::{Element, Scalar, Q, madd, mmul, msub};

verus! {

/// The commitment to `m` under randomness `r`, with blinding base `h`.
pub open spec fn pedersen_commit(h: int, m: int, r: int) -> int {
    madd(r, mmul(h, m))
}

/// Whether `(m, r)` opens the commitment `c` under blinding base `h`.
pub open spec fn pedersen_verifies(h: int, m: int, r: int, c: int) -> bool {
    c == pedersen_commit(h, m, r)
}

/// The commitment scheme, fixed to one blinding base `h`.
pub struct Pedersen {
    h: Element,
}

impl Pedersen {
    /// The blinding base.
    pub closed spec fn h_spec(&self) -> Element {
        self.h
    }

    pub open spec fn wf(&self) -> bool {
        self.h_spec().wf()
    }

    pub fn new(h: &Element) -> (r: Self)
        ensures
            r.h_spec() == *h,
    {
        Self { h: *h }
    }

    /// Commits to one plaintext scalar.
    pub fn commit(&self, plaintext: &Scalar, r: &Scalar) -> (c: Element)
        requires
            self.wf(),
            plaintext.wf(),
            r.wf(),
        ensures
            c.wf(),
            c@ == pedersen_commit(self.h_spec()@, plaintext@, r@),
    {
        Element::mul_generator(r).add(&self.h.mul_scalar(plaintext))
    }

    /// Commits to each plaintext with the randomness at the same position.
    pub fn commit_list(&self, plaintext_list: &Vec<Scalar>, random_list: &Vec<Scalar>) -> (r: Vec<
        Element,
    >)
        requires
            self.wf(),
            plaintext_list@.len() == random_list@.len(),
            crate::group::scalars_wf(plaintext_list@),
            crate::group::scalars_wf(random_list@),
        ensures
            r@.len() == plaintext_list@.len(),
            forall|i: int| 0 <= i < r@.len() ==> (#[trigger] r@[i]).wf() && r@[i]@
                == pedersen_commit(self.h_spec()@, plaintext_list@[i]@, random_list@[i]@),
    {
        let mut commit_list: Vec<Element> = Vec::new();
        let n = plaintext_list.len();
        for i in 0..n
            invariant
                n == plaintext_list@.len(),
                n == random_list@.len(),
                self.wf(),
                crate::group::scalars_wf(plaintext_list@),
                crate::group::scalars_wf(random_list@),
                commit_list@.len() == i,
                forall|j: int| 0 <= j < i ==> (#[trigger] commit_list@[j]).wf()
                    && commit_list@[j]@ == pedersen_commit(
                    self.h_spec()@,
                    plaintext_list@[j]@,
                    random_list@[j]@,
                ),
        {
            let c = self.commit(&plaintext_list[i], &random_list[i]);
            commit_list.push(c);
        }
        commit_list
    }

    /// Recomputes the commitment and compares.
    pub fn verify(&self, plaintext: &Scalar, r: &Scalar, commit: &Element) -> (res: bool)
        requires
            self.wf(),
            plaintext.wf(),
            r.wf(),
        ensures
            res == pedersen_verifies(self.h_spec()@, plaintext@, r@, commit@),
    {
        let commit_prime = self.commit(plaintext, r);
        commit.value == commit_prime.value
    }

    /// True exactly when every position verifies; a single failure rejects
    /// the whole list.
    pub fn verify_list(&self, plaintext_list: &Vec<Scalar>, r_list: &Vec<Scalar>, commit_list: &Vec<
        Element,
    >) -> (res: bool)
        requires
            self.wf(),
            plaintext_list@.len() == r_list@.len(),
            commit_list@.len() == r_list@.len(),
            crate::group::scalars_wf(plaintext_list@),
            crate::group::scalars_wf(r_list@),
        ensures
            res == (forall|i: int| 0 <= i < r_list@.len() ==> pedersen_verifies(
                self.h_spec()@,
                plaintext_list@[i]@,
                r_list@[i]@,
                (#[trigger] commit_list@[i])@,
            )),
    {
        let n = r_list.len();
        for i in 0..n
            invariant
                n == r_list@.len(),
                n == plaintext_list@.len(),
                n == commit_list@.len(),
                self.wf(),
                crate::group::scalars_wf(plaintext_list@),
                crate::group::scalars_wf(r_list@),
                forall|j: int| 0 <= j < i ==> pedersen_verifies(
                    self.h_spec()@,
                    plaintext_list@[j]@,
                    r_list@[j]@,
                    (#[trigger] commit_list@[j])@,
                ),
        {
            let ok = self.verify(&plaintext_list[i], &r_list[i], &commit_list[i]);
            if !ok {
                return false;
            }
        }
        true
    }
}

/// A commitment always verifies against its own opening.
pub proof fn lemma_pedersen_complete(h: int, m: int, r: int)
    ensures
        pedersen_verifies(h, m, r, pedersen_commit(h, m, r)),
{
}

/// Adding a blank term `G·r'` to a commitment re-randomizes it: the result
/// opens to the same message under the combined randomness.
pub proof fn lemma_rerandomize(h: int, m: int, r: int, rp: int)
    ensures
        madd(pedersen_commit(h, m, r), rp) == pedersen_commit(h, m, madd(r, rp)),
{
    let q = Q as int;
    vstd::arithmetic::div_mod::lemma_mod_twice(r + (h * m) % q, q);
    crate::group::lemma_add_cong(pedersen_commit(h, m, r), r + (h * m) % q, rp, rp);
    vstd::arithmetic::div_mod::lemma_mod_twice(r + rp, q);
    crate::group::lemma_add_cong((r + rp) % q, r + rp, (h * m) % q, (h * m) % q);
}

/// A commitment is binding in the group: a different opening `(m2, r2)` can
/// only verify when its randomness is the one residue determined by the
/// original opening and the difference of the messages.
pub proof fn lemma_pedersen_binding(h: int, m: int, r: int, m2: int, r2: int)
    requires
        0 <= r2 < Q,
        r2 != madd(r, mmul(h, msub(m, m2))),
    ensures
        !pedersen_verifies(h, m2, r2, pedersen_commit(h, m, r)),
{
    let q = Q as int;
    if pedersen_commit(h, m2, r2) == pedersen_commit(h, m, r) {
        assert((r2 + h * m2) % q == (r + h * m) % q) by {
            vstd::arithmetic::div_mod::lemma_mod_twice(r2 + (h * m2) % q, q);
            vstd::arithmetic::div_mod::lemma_add_mod_noop_right(r2, h * m2, q);
            vstd::arithmetic::div_mod::lemma_mod_twice(r + (h * m) % q, q);
            vstd::arithmetic::div_mod::lemma_add_mod_noop_right(r, h * m, q);
        }
        assert((r2 + h * m2 - h * m2) % q == (r + h * m - h * m2) % q) by {
            lemma_sub_mod_noop(r2 + h * m2, h * m2, q);
            lemma_sub_mod_noop(r + h * m, h * m2, q);
        }
        assert(r2 % q == (r + h * (m - m2)) % q) by {
            lemma_mul_is_distributive_sub(h, m, m2);
        }
        assert(r2 % q == r2) by {
            vstd::arithmetic::div_mod::lemma_small_mod(r2 as nat, Q as nat);
        }
        assert((r + h * (m - m2)) % q == madd(r, mmul(h, msub(m, m2)))) by {
            vstd::arithmetic::div_mod::lemma_add_mod_noop_right(r, h * (m - m2), q);
            vstd::arithmetic::div_mod::lemma_mul_mod_noop_right(h, m - m2, q);
            vstd::arithmetic::div_mod::lemma_mod_twice(r + (h * ((m - m2) % q)) % q, q);
        }
        assert(false);
    }
}

} // verus!
