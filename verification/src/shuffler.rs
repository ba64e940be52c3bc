//! The prover's side of the verifiable shuffle: drawing a uniformly random
//! permutation, re-randomizing the commitments, committing to the
//! permutation, and producing the zero-knowledge shuffle proof.

use vstd::prelude::*;
use crate::group::{Element, Scalar, Q, madd, mmul, msub, elem_views, elems_wf, scalars_wf, scalar_views};
use crate::sums::{
    is_permutation, ident_seq, lemma_draw_swap_step, lemma_permutation_bounds,
    lemma_permutation_injective, sum_seq, prod_range,
};
use crate::utils::{
    random_scalar, random_range_u64, random_scalars, scalar_sum, scalar_weighted_sum, weighted_sum,
};
use crate::transcript::{derive_u_list, derive_global_challenge};
use crate::types::ShuffleProof;
use crate::shuffle_verifier::check_proof_spec;

verus! {

/// The shuffler, fixed to the election's per-position generators.
pub struct Shuffler {
    h_list: Vec<Element>,
    n: usize,
}

impl Shuffler {
    pub closed spec fn h_list_spec(&self) -> Seq<Element> {
        self.h_list@
    }

    pub closed spec fn n_spec(&self) -> nat {
        self.n as nat
    }

    pub open spec fn wf(&self) -> bool {
        &&& elems_wf(self.h_list_spec())
        &&& self.n_spec() == self.h_list_spec().len()
    }

    pub fn new(h_list: Vec<Element>) -> (r: Self)
        requires
            elems_wf(h_list@),
        ensures
            r.wf(),
            r.h_list_spec() == h_list@,
    {
        let n = h_list.len();
        Self { h_list, n }
    }

    /// Draws a uniformly random arrangement of the positions `0..n` and
    /// returns it; the result provably holds each position exactly once.
    pub fn gen_permutation(&self) -> (psi: Vec<usize>)
        ensures
            is_permutation(psi@, self.n_spec()),
    {
        let n = self.n;
        let mut i_aux: Vec<usize> = Vec::new();
        for j in 0..n
            invariant
                i_aux@.len() == j,
                forall|m: int| 0 <= m < j ==> (#[trigger] i_aux@[m]) == m,
        {
            i_aux.push(j);
        }
        proof {
            assert(i_aux@ =~= ident_seq(n as nat));
        }
        let mut psi: Vec<usize> = Vec::new();
        proof {
            assert(psi@ + i_aux@.skip(0) =~= ident_seq(n as nat));
        }
        for i in 0..n
            invariant
                i_aux@.len() == n,
                psi@.len() == i,
                (psi@ + i_aux@.skip(i as int)).to_multiset() == ident_seq(n as nat).to_multiset(),
        {
            let ghost old_psi = psi@;
            let ghost old_aux = i_aux@;
            let k64 = random_range_u64(i as u64, n as u64);
            let k = k64 as usize;
            assert(i <= k < n);
            psi.push(i_aux[k]);
            let first = i_aux[i];
            i_aux.set(k, first);
            proof {
                lemma_draw_swap_step(old_psi, old_aux, i as int, k as int, n as nat);
            }
        }
        proof {
            assert(i_aux@.skip(n as int) =~= Seq::<usize>::empty());
            assert(psi@ + i_aux@.skip(n as int) =~= psi@);
        }
        psi
    }

    /// Re-randomizes each commitment with a fresh blank term `G·r'` and
    /// returns the list in permuted order, together with the blinding used
    /// at each pre-permutation position and the permutation itself.
    pub fn gen_shuffle(&self, commit_list: &Vec<Element>) -> (r: (Vec<Element>, Vec<Scalar>, Vec<
        usize,
    >))
        requires
            self.wf(),
            commit_list@.len() == self.n_spec(),
            elems_wf(commit_list@),
        ensures
            is_permutation(r.2@, self.n_spec()),
            r.1@.len() == self.n_spec(),
            scalars_wf(r.1@),
            r.0@.len() == self.n_spec(),
            elems_wf(r.0@),
            forall|i: int| 0 <= i < self.n_spec() ==> (#[trigger] r.0@[i])@ == madd(
                commit_list@[r.2@[i] as int]@,
                r.1@[r.2@[i] as int]@,
            ),
    {
        let n = self.n;
        let mut recommit_tmp: Vec<Element> = Vec::new();
        let mut r_prime_list: Vec<Scalar> = Vec::new();
        let psi = self.gen_permutation();

        for i in 0..n
            invariant
                n == commit_list@.len(),
                elems_wf(commit_list@),
                recommit_tmp@.len() == i,
                r_prime_list@.len() == i,
                scalars_wf(r_prime_list@),
                elems_wf(recommit_tmp@),
                forall|j: int| 0 <= j < i ==> (#[trigger] recommit_tmp@[j])@ == madd(
                    commit_list@[j]@,
                    r_prime_list@[j]@,
                ),
        {
            let r_prime = random_scalar();
            let c0 = Element::mul_generator(&r_prime);
            let recommit = commit_list[i].add(&c0);
            recommit_tmp.push(recommit);
            r_prime_list.push(r_prime);
        }

        let mut recommit_list: Vec<Element> = Vec::new();
        proof {
            lemma_permutation_bounds(psi@, n as nat);
        }
        for i in 0..n
            invariant
                n == commit_list@.len(),
                n == recommit_tmp@.len(),
                n == r_prime_list@.len(),
                n == psi@.len(),
                elems_wf(recommit_tmp@),
                forall|j: int| 0 <= j < n ==> (#[trigger] psi@[j]) < n,
                forall|j: int| 0 <= j < n ==> (#[trigger] recommit_tmp@[j])@ == madd(
                    commit_list@[j]@,
                    r_prime_list@[j]@,
                ),
                recommit_list@.len() == i,
                elems_wf(recommit_list@),
                forall|j: int| 0 <= j < i ==> (#[trigger] recommit_list@[j])@ == madd(
                    commit_list@[psi@[j] as int]@,
                    r_prime_list@[psi@[j] as int]@,
                ),
        {
            recommit_list.push(recommit_tmp[psi[i]]);
        }

        (recommit_list, r_prime_list, psi)
    }

    /// Commits to the permutation: fresh randomness `r_i` at position
    /// `psi[i]`, binding that position to the generator at `i`.
    pub fn gen_commitment(&self, psi: &Vec<usize>) -> (r: (Vec<Element>, Vec<Scalar>))
        requires
            self.wf(),
            is_permutation(psi@, self.n_spec()),
        ensures
            r.0@.len() == self.n_spec(),
            r.1@.len() == self.n_spec(),
            elems_wf(r.0@),
            scalars_wf(r.1@),
            forall|i: int| 0 <= i < self.n_spec() ==> (#[trigger] r.0@[psi@[i] as int])@ == madd(
                r.1@[psi@[i] as int]@,
                self.h_list_spec()[i]@,
            ),
    {
        let n = self.n;
        let mut r_list: Vec<Scalar> = Vec::new();
        let mut c_list: Vec<Element> = Vec::new();
        for j in 0..n
            invariant
                r_list@.len() == j,
                c_list@.len() == j,
                scalars_wf(r_list@),
                elems_wf(c_list@),
        {
            r_list.push(Scalar::zero());
            c_list.push(Element::identity());
        }
        proof {
            lemma_permutation_bounds(psi@, n as nat);
        }
        for i in 0..n
            invariant
                n == self.n_spec(),
                self.wf(),
                is_permutation(psi@, n as nat),
                n <= usize::MAX,
                forall|j: int| 0 <= j < n ==> (#[trigger] psi@[j]) < n,
                r_list@.len() == n,
                c_list@.len() == n,
                scalars_wf(r_list@),
                elems_wf(c_list@),
                forall|j: int| 0 <= j < i ==> (#[trigger] c_list@[psi@[j] as int])@ == madd(
                    r_list@[psi@[j] as int]@,
                    self.h_list_spec()[j]@,
                ),
        {
            let r = random_scalar();
            let c = Element::mul_generator(&r).add(&self.h_list[i]);
            let ghost prev_c = c_list@;
            let ghost prev_r = r_list@;
            let target = psi[i];
            r_list.set(target, r);
            c_list.set(target, c);
            proof {
                assert forall|j: int| 0 <= j < i + 1 implies (#[trigger] c_list@[psi@[j] as int])@
                    == madd(r_list@[psi@[j] as int]@, self.h_list_spec()[j]@) by {
                    if j < i {
                        lemma_permutation_injective(psi@, n as nat, j, i as int);
                        assert(c_list@[psi@[j] as int] == prev_c[psi@[j] as int]);
                        assert(r_list@[psi@[j] as int] == prev_r[psi@[j] as int]);
                    }
                }
            }
        }
        (c_list, r_list)
    }

    /// The chained commitment: each link commits to the running product of
    /// the permuted challenges, under fresh randomness.
    pub fn gen_commitment_chain(&self, c0: &Element, u_list: &Vec<Scalar>) -> (r: (Vec<Element>,
        Vec<Scalar>))
        requires
            c0.wf(),
            scalars_wf(u_list@),
            u_list@.len() == self.n_spec(),
        ensures
            r.0@.len() == self.n_spec(),
            r.1@.len() == self.n_spec(),
            elems_wf(r.0@),
            scalars_wf(r.1@),
            forall|i: int| 0 <= i < self.n_spec() ==> (#[trigger] r.0@[i])@ == madd(
                r.1@[i]@,
                mmul(if i == 0 { c0@ } else { r.0@[i - 1]@ }, u_list@[i]@),
            ),
    {
        let n = self.n;
        let mut r_list: Vec<Scalar> = Vec::new();
        let mut c_list: Vec<Element> = Vec::new();
        for i in 0..n
            invariant
                n == u_list@.len(),
                c0.wf(),
                scalars_wf(u_list@),
                r_list@.len() == i,
                c_list@.len() == i,
                scalars_wf(r_list@),
                elems_wf(c_list@),
                forall|j: int| 0 <= j < i ==> (#[trigger] c_list@[j])@ == madd(
                    r_list@[j]@,
                    mmul(if j == 0 { c0@ } else { c_list@[j - 1]@ }, u_list@[j]@),
                ),
        {
            let r = random_scalar();
            let c: Element = if i == 0 {
                Element::mul_generator(&r).add(&c0.mul_scalar(&u_list[i]))
            } else {
                let prev = c_list[i - 1];
                Element::mul_generator(&r).add(&prev.mul_scalar(&u_list[i]))
            };
            r_list.push(r);
            c_list.push(c);
        }
        (c_list, r_list)
    }

    /// Produces the zero-knowledge shuffle proof for a consistent
    /// re-randomized permutation.  The resulting transcript provably
    /// satisfies every one of the verifier's equations.
    #[verifier::rlimit(100)]
    pub fn gen_proof(
        &self,
        commit_list: &Vec<Element>,
        commit_prime_list: &Vec<Element>,
        r_prime_list: &Vec<Scalar>,
        psi: &Vec<usize>,
    ) -> (pi: ShuffleProof)
        requires
            self.wf(),
            self.n_spec() >= 1,
            commit_list@.len() == self.n_spec(),
            commit_prime_list@.len() == self.n_spec(),
            r_prime_list@.len() == self.n_spec(),
            elems_wf(commit_list@),
            elems_wf(commit_prime_list@),
            scalars_wf(r_prime_list@),
            is_permutation(psi@, self.n_spec()),
            forall|i: int| 0 <= i < self.n_spec() ==> (#[trigger] commit_prime_list@[i])@ == madd(
                commit_list@[psi@[i] as int]@,
                r_prime_list@[psi@[i] as int]@,
            ),
        ensures
            check_proof_spec(
                elem_views(self.h_list_spec()),
                elem_views(commit_list@),
                elem_views(commit_prime_list@),
                pi@,
            ),
    {
        let n = self.n;
        let ghost hs = elem_views(self.h_list_spec());
        let ghost cls = elem_views(commit_list@);
        let ghost cpls = elem_views(commit_prime_list@);
        proof {
            lemma_permutation_bounds(psi@, n as nat);
        }

        let (c_list, r_list) = self.gen_commitment(psi);
        let ghost cl_ = elem_views(c_list@);
        let ghost rl = scalar_views(r_list@);

        let u_list = derive_u_list(commit_list, commit_prime_list, &c_list);
        let ghost us = scalar_views(u_list@);

        let mut u_prime_list: Vec<Scalar> = Vec::new();
        for i in 0..n
            invariant
                n == psi@.len(),
                n == u_list@.len(),
                forall|j: int| 0 <= j < n ==> (#[trigger] psi@[j]) < n,
                forall|j: int| 0 <= j < n ==> (#[trigger] u_list@[j]).wf(),
                u_prime_list@.len() == i,
                scalars_wf(u_prime_list@),
                forall|j: int| 0 <= j < i ==> (#[trigger] u_prime_list@[j]) == u_list@[psi@[
                    j
                ] as int],
        {
            u_prime_list.push(u_list[psi[i]]);
        }
        let ghost ups = scalar_views(u_prime_list@);

        let mut v_list: Vec<Scalar> = Vec::new();
        for i in 0..n
            invariant
                v_list@.len() == i,
                scalars_wf(v_list@),
        {
            v_list.push(Scalar::zero());
        }
        v_list.set(n - 1, Scalar::one());
        proof {
            assert(prod_range(ups, n as int, n as int) == 1);
            vstd::arithmetic::div_mod::lemma_small_mod(1nat, Q as nat);
        }
        let mut k = n - 1;
        while k > 0
            invariant
                0 <= k <= n - 1,
                n == v_list@.len(),
                n == u_prime_list@.len(),
                ups == scalar_views(u_prime_list@),
                scalars_wf(u_prime_list@),
                scalars_wf(v_list@),
                forall|j: int| k <= j < n ==> (#[trigger] v_list@[j])@ == prod_range(
                    ups,
                    j + 1,
                    n as int,
                ) % (Q as int),
            decreases k,
        {
            let newv = u_prime_list[k].mul(&v_list[k]);
            v_list.set(k - 1, newv);
            proof {
                let q = Q as int;
                vstd::arithmetic::div_mod::lemma_mod_twice(prod_range(ups, k + 1, n as int), q);
                crate::group::lemma_mul_cong(
                    ups[k as int],
                    ups[k as int],
                    prod_range(ups, k + 1, n as int) % q,
                    prod_range(ups, k + 1, n as int),
                );
                crate::sums::lemma_prod_range_unfold_left(ups, k as int, n as int);
            }
            k = k - 1;
        }
        let ghost vs = scalar_views(v_list@);

        let h0 = self.h_list[0];
        let (c_hat_list, r_hat_list) = self.gen_commitment_chain(&h0, &u_prime_list);
        let ghost chs = elem_views(c_hat_list@);
        let ghost rhs = scalar_views(r_hat_list@);

        let r_bar = scalar_sum(&r_list);
        let r_hat = scalar_weighted_sum(&r_hat_list, &v_list);
        let r_tilde = scalar_weighted_sum(&r_list, &u_list);
        let r_prime = scalar_weighted_sum(r_prime_list, &u_list);

        let w0 = random_scalar();
        let w1 = random_scalar();
        let w2 = random_scalar();
        let w3 = random_scalar();
        let w_hat_list = random_scalars(n);
        let w_prime_list = random_scalars(n);
        let ghost wh = scalar_views(w_hat_list@);
        let ghost wp = scalar_views(w_prime_list@);

        let t0 = Element::mul_generator(&w0);
        let t1 = Element::mul_generator(&w1);
        let t2 = weighted_sum(&self.h_list, &w_prime_list).add(&Element::mul_generator(&w2));
        let t3 = weighted_sum(commit_prime_list, &w_prime_list).sub(&Element::mul_generator(&w3));

        let mut t_hat_list: Vec<Element> = Vec::new();
        for i in 0..n
            invariant
                n == self.n_spec(),
                self.wf(),
                hs == elem_views(self.h_list_spec()),
                n == w_hat_list@.len(),
                n == w_prime_list@.len(),
                n == c_hat_list@.len(),
                scalars_wf(w_hat_list@),
                scalars_wf(w_prime_list@),
                elems_wf(c_hat_list@),
                wh == scalar_views(w_hat_list@),
                wp == scalar_views(w_prime_list@),
                chs == elem_views(c_hat_list@),
                t_hat_list@.len() == i,
                elems_wf(t_hat_list@),
                forall|j: int| 0 <= j < i ==> (#[trigger] t_hat_list@[j])@ == madd(
                    wh[j],
                    mmul(if j == 0 { hs[0] } else { chs[j - 1] }, wp[j]),
                ),
        {
            let base = if i == 0 {
                self.h_list[0]
            } else {
                c_hat_list[i - 1]
            };
            t_hat_list.push(Element::mul_generator(&w_hat_list[i]).add(&base.mul_scalar(
                &w_prime_list[i],
            )));
        }

        let t = (t0, t1, t2, t3, t_hat_list);
        let chal = derive_global_challenge(
            commit_list,
            commit_prime_list,
            &c_list,
            &c_hat_list,
            &t,
        );

        let s0 = w0.add(&chal.mul(&r_bar));
        let s1 = w1.add(&chal.mul(&r_hat));
        let s2 = w2.add(&chal.mul(&r_tilde));
        let s3 = w3.add(&chal.mul(&r_prime));

        let mut s_hat_list: Vec<Scalar> = Vec::new();
        let mut s_prime_list: Vec<Scalar> = Vec::new();
        for i in 0..n
            invariant
                n == w_hat_list@.len(),
                n == w_prime_list@.len(),
                n == r_hat_list@.len(),
                n == u_prime_list@.len(),
                scalars_wf(w_hat_list@),
                scalars_wf(w_prime_list@),
                scalars_wf(r_hat_list@),
                scalars_wf(u_prime_list@),
                chal.wf(),
                s_hat_list@.len() == i,
                s_prime_list@.len() == i,
                scalars_wf(s_hat_list@),
                scalars_wf(s_prime_list@),
                forall|j: int| 0 <= j < i ==> (#[trigger] s_hat_list@[j])@ == madd(
                    w_hat_list@[j]@,
                    mmul(chal@, r_hat_list@[j]@),
                ),
                forall|j: int| 0 <= j < i ==> (#[trigger] s_prime_list@[j])@ == madd(
                    w_prime_list@[j]@,
                    mmul(chal@, u_prime_list@[j]@),
                ),
        {
            s_hat_list.push(w_hat_list[i].add(&chal.mul(&r_hat_list[i])));
            s_prime_list.push(w_prime_list[i].add(&chal.mul(&u_prime_list[i])));
        }

        let s = (s0, s1, s2, s3, s_hat_list, s_prime_list);
        let pi = ShuffleProof::new(t, s, c_list, c_hat_list);

        proof {
            let piv = pi@;
            assert(piv.c_list == cl_);
            assert(piv.c_hat_list == chs);
            assert(piv.t_hat.len() == n);
            assert forall|i: int| 0 <= i < n implies #[trigger] piv.s_hat[i] == madd(
                wh[i],
                mmul(chal@, rhs[i]),
            ) by {}
            assert forall|i: int| 0 <= i < n implies #[trigger] piv.s_prime[i] == madd(
                wp[i],
                mmul(chal@, ups[i]),
            ) by {}
            assert forall|i: int| 0 <= i < n implies #[trigger] cpls[i] == madd(
                cls[psi@[i] as int],
                scalar_views(r_prime_list@)[psi@[i] as int],
            ) by {}
            assert forall|i: int| 0 <= i < n implies #[trigger] piv.c_list[psi@[i] as int] == madd(
                rl[psi@[i] as int],
                hs[i],
            ) by {}
            assert forall|i: int| 0 <= i < n implies #[trigger] us[i]
                == crate::transcript::u_challenge(cls, cpls, piv.c_list, i) by {}
            assert forall|i: int| 0 <= i < n implies #[trigger] ups[i] == us[psi@[i] as int] by {}
            assert forall|j: int| 0 <= j < n implies #[trigger] piv.c_hat_list[j] == madd(
                rhs[j],
                mmul(if j == 0 { hs[0] } else { piv.c_hat_list[j - 1] }, ups[j]),
            ) by {}
            assert forall|i: int| 0 <= i < n implies #[trigger] vs[i] == prod_range(
                ups,
                i + 1,
                n as int,
            ) % (Q as int) by {}
            assert(rl =~= scalar_views(r_list@));
            assert(piv.t2 == madd(
                sum_seq(Seq::new(n as nat, |i: int| hs[i] * wp[i])) % (Q as int),
                w2@,
            )) by {
                assert(Seq::new(self.h_list_spec().len(), |i: int| self.h_list_spec()[i]@
                    * w_prime_list@[i]@) =~= Seq::new(n as nat, |i: int| hs[i] * wp[i]));
            }
            assert(piv.t3 == msub(
                sum_seq(Seq::new(n as nat, |i: int| cpls[i] * wp[i])) % (Q as int),
                w3@,
            )) by {
                assert(Seq::new(commit_prime_list@.len(), |i: int| commit_prime_list@[i]@
                    * w_prime_list@[i]@) =~= Seq::new(n as nat, |i: int| cpls[i] * wp[i]));
            }
            assert forall|i: int| 0 <= i < n implies #[trigger] piv.t_hat[i] == madd(
                wh[i],
                mmul(if i == 0 { hs[0] } else { piv.c_hat_list[i - 1] }, wp[i]),
            ) by {}
            assert(r_hat@ == sum_seq(Seq::new(n as nat, |i: int| rhs[i] * vs[i])) % (Q as int)) by {
                assert(Seq::new(r_hat_list@.len(), |i: int| r_hat_list@[i]@ * v_list@[i]@)
                    =~= Seq::new(n as nat, |i: int| rhs[i] * vs[i]));
            }
            assert(r_tilde@ == sum_seq(Seq::new(n as nat, |i: int| rl[i] * us[i])) % (Q as int))
                by {
                assert(Seq::new(r_list@.len(), |i: int| r_list@[i]@ * u_list@[i]@) =~= Seq::new(
                    n as nat,
                    |i: int| rl[i] * us[i],
                ));
            }
            assert(r_prime@ == sum_seq(
                Seq::new(n as nat, |i: int| scalar_views(r_prime_list@)[i] * us[i]),
            ) % (Q as int)) by {
                assert(Seq::new(r_prime_list@.len(), |i: int| r_prime_list@[i]@ * u_list@[i]@)
                    =~= Seq::new(n as nat, |i: int| scalar_views(r_prime_list@)[i] * us[i]));
            }
            crate::completeness::lemma_shuffle_proof_complete(
                hs,
                cls,
                cpls,
                piv,
                psi@,
                scalar_views(r_prime_list@),
                rl,
                rhs,
                us,
                ups,
                vs,
                wh,
                wp,
                w0@,
                w1@,
                w2@,
                w3@,
                r_bar@,
                r_hat@,
                r_tilde@,
                r_prime@,
                chal@,
            );
            assert(crate::shuffle_verifier::proof_shape_ok(hs, cls, cpls, piv)) by {
                assert forall|i: int| 0 <= i < n implies 0 <= #[trigger] piv.t_hat[i] < Q by {}
                assert forall|i: int| 0 <= i < n implies 0 <= #[trigger] piv.s_hat[i] < Q by {}
                assert forall|i: int| 0 <= i < n implies 0 <= #[trigger] piv.s_prime[i] < Q by {}
                assert forall|i: int| 0 <= i < n implies 0 <= #[trigger] piv.c_list[i] < Q by {}
                assert forall|i: int| 0 <= i < n implies 0 <= #[trigger] piv.c_hat_list[i] < Q
                    by {}
            }
        }
        pi
    }
}

} // verus!
