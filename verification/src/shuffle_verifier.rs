//! Independent verification of a shuffle proof: the verifier recomputes the
//! Fiat–Shamir challenges and every verification equation from the published
//! statement alone.

use vstd::prelude::*;
use vstd::arithmetic::div_mod::{
    lemma_mul_mod_noop_left, lemma_mod_twice, lemma_small_mod,
};
use crate::group::{Element, Scalar, Q, madd, mmul, msub, elem_views, elems_wf};
use crate::sums::{sum_seq, prod_seq};
use crate::transcript::{u_challenge, global_challenge, derive_u_list, derive_global_challenge};
use crate::types::{
    ShuffleProof, ShuffleProofView, proof_view_wf, RDCV, RDVPrime, RDCVPrime, ZKPOutput,
    chain_ok, chain_prev, flat_votes, tracking_hash, close_hash, compute_tracking_code,
    compute_close_hash, clone_code, CommittedBallot, TrackingCode,
};
use crate::utils::{summation, weighted_sum};

verus! {

/// The shape a proof must have for the given statement: matching lengths
/// and canonical residues throughout.
pub open spec fn proof_shape_ok(
    h: Seq<int>,
    cl: Seq<int>,
    cpl: Seq<int>,
    pi: ShuffleProofView,
) -> bool {
    let n = h.len() as int;
    &&& n >= 1
    &&& cl.len() == n
    &&& cpl.len() == n
    &&& pi.c_list.len() == n
    &&& pi.c_hat_list.len() == n
    &&& pi.t_hat.len() == n
    &&& pi.s_hat.len() == n
    &&& pi.s_prime.len() == n
    &&& proof_view_wf(pi)
}

/// The per-index challenges of the statement.
pub open spec fn u_seq(cl: Seq<int>, cpl: Seq<int>, c_list: Seq<int>, n: int) -> Seq<int> {
    Seq::new(n as nat, |i: int| u_challenge(cl, cpl, c_list, i))
}

/// The verification equation system: the recomputed first move must equal
/// the proof's, term by term.
#[verifier::opaque]
pub open spec fn proof_equations_ok(
    h: Seq<int>,
    cl: Seq<int>,
    cpl: Seq<int>,
    pi: ShuffleProofView,
) -> bool {
    let n = h.len() as int;
    let u = u_seq(cl, cpl, pi.c_list, n);
    let c_bar = msub(sum_seq(pi.c_list) % (Q as int), sum_seq(h) % (Q as int));
    let uu = prod_seq(u) % (Q as int);
    let c_hat = msub(pi.c_hat_list[n - 1], mmul(h[0], uu));
    let c_tilde = sum_seq(Seq::new(n as nat, |i: int| pi.c_list[i] * u[i])) % (Q as int);
    let e_prime = sum_seq(Seq::new(n as nat, |i: int| cl[i] * u[i])) % (Q as int);
    let chal = global_challenge(
        cl,
        cpl,
        pi.c_list,
        pi.c_hat_list,
        pi.t0,
        pi.t1,
        pi.t2,
        pi.t3,
        pi.t_hat,
    );
    let t0p = msub(pi.s0, mmul(c_bar, chal));
    let t1p = msub(pi.s1, mmul(c_hat, chal));
    let t2p = madd(
        msub(
            sum_seq(Seq::new(n as nat, |i: int| h[i] * pi.s_prime[i])) % (Q as int),
            mmul(c_tilde, chal),
        ),
        pi.s2,
    );
    let t3p = msub(
        msub(
            sum_seq(Seq::new(n as nat, |i: int| cpl[i] * pi.s_prime[i])) % (Q as int),
            mmul(e_prime, chal),
        ),
        pi.s3,
    );
    &&& pi.t0 == t0p
    &&& pi.t1 == t1p
    &&& pi.t2 == t2p
    &&& pi.t3 == t3p
    &&& forall|i: int| 0 <= i < n ==> #[trigger] pi.t_hat[i] == msub(
        madd(
            pi.s_hat[i],
            mmul(if i == 0 { h[0] } else { pi.c_hat_list[i - 1] }, pi.s_prime[i]),
        ),
        mmul(pi.c_hat_list[i], chal),
    )
}

/// A proof is accepted exactly when it is well-shaped for the statement and
/// every verification equation holds.
pub open spec fn check_proof_spec(
    h: Seq<int>,
    cl: Seq<int>,
    cpl: Seq<int>,
    pi: ShuffleProofView,
) -> bool {
    proof_shape_ok(h, cl, cpl, pi) && proof_equations_ok(h, cl, cpl, pi)
}

/// The first `k` links of the chain replay from their predecessors,
/// defined link by link.
pub open spec fn chain_ok_upto(tail: Seq<u8>, entries: Seq<CommittedBallot>, k: int) -> bool
    decreases k,
{
    if k <= 0 {
        true
    } else {
        chain_ok_upto(tail, entries, k - 1) && entries[k - 1].tracking_code.0@ == tracking_hash(
            chain_prev(tail, entries, k - 1),
            entries[k - 1].timestamp@,
            elem_views(entries[k - 1].committed_votes@),
        )
    }
}

/// Every link below `k` replays, link by link.
pub proof fn lemma_chain_upto_link(tail: Seq<u8>, entries: Seq<CommittedBallot>, k: int, j: int)
    requires
        chain_ok_upto(tail, entries, k),
        0 <= j < k,
    ensures
        entries[j].tracking_code.0@ == tracking_hash(
            chain_prev(tail, entries, j),
            entries[j].timestamp@,
            elem_views(entries[j].committed_votes@),
        ),
    decreases k,
{
    if j < k - 1 {
        lemma_chain_upto_link(tail, entries, k - 1, j);
    }
}

/// A fully replayed prefix is a replayed chain.
pub proof fn lemma_chain_upto_full(tail: Seq<u8>, entries: Seq<CommittedBallot>)
    requires
        chain_ok_upto(tail, entries, entries.len() as int),
    ensures
        chain_ok(tail, entries),
{
    assert forall|j: int| 0 <= j < entries.len() implies (#[trigger] entries[
        j
    ]).tracking_code.0@ == tracking_hash(
        chain_prev(tail, entries, j),
        entries[j].timestamp@,
        elem_views(entries[j].committed_votes@),
    ) by {
        lemma_chain_upto_link(tail, entries, entries.len() as int, j);
    }
}

/// Whether one record's tracking code replays from the given predecessor.
pub fn check_link(prev: &TrackingCode, e: &CommittedBallot) -> (r: bool)
    ensures
        r == (e.tracking_code.0@ == tracking_hash(
            prev.0@,
            e.timestamp@,
            elem_views(e.committed_votes@),
        )),
{
    let expected = compute_tracking_code(prev, &e.timestamp, &e.committed_votes);
    crate::bytes::bytes_eq(&expected.0, &e.tracking_code.0)
}

/// A fully replaying chain replays every prefix.
pub proof fn lemma_chain_ok_upto(tail: Seq<u8>, entries: Seq<CommittedBallot>, k: int)
    requires
        chain_ok(tail, entries),
        0 <= k <= entries.len(),
    ensures
        chain_ok_upto(tail, entries, k),
    decreases k,
{
    if k > 0 {
        lemma_chain_ok_upto(tail, entries, k - 1);
        assert(entries[k - 1].tracking_code.0@ == tracking_hash(
            chain_prev(tail, entries, k - 1),
            entries[k - 1].timestamp@,
            elem_views(entries[k - 1].committed_votes@),
        ));
    }
}

/// Replays the audit log's hash chain: every tracking code must recompute
/// from its predecessor, and the head must recompute from the final code.
#[verifier::rlimit(100)]
pub fn replay_chain(rdcv: &RDCV) -> (r: bool)
    ensures
        r == ({
            let tail = rdcv.tail().0@;
            let entries = rdcv.entries_spec();
            &&& chain_ok(tail, entries)
            &&& rdcv.head_spec() is Some
            &&& rdcv.head_spec().unwrap().0@ == close_hash(
                chain_prev(tail, entries, entries.len() as int),
            )
        }),
{
    let ghost tail = rdcv.tail().0@;
    let ghost entries_g = rdcv.entries_spec();
    let entries = rdcv.entries();
    let mut prev = clone_code(rdcv.get_tail());
    let mut all_ok = true;
    let n = entries.len();
    for i in 0..n
        invariant
            n == entries@.len(),
            entries@ == entries_g,
            all_ok == chain_ok_upto(tail, entries_g, i as int),
            all_ok ==> prev.0@ == chain_prev(tail, entries_g, i as int),
    {
        if all_ok {
            let e = &entries[i];
            let ok = check_link(&prev, e);
            if ok {
                prev = clone_code(&e.tracking_code);
            } else {
                all_ok = false;
            }
        }
    }
    if !all_ok {
        proof {
            if chain_ok(tail, entries_g) {
                lemma_chain_ok_upto(tail, entries_g, n as int);
            }
        }
        return false;
    }
    proof {
        lemma_chain_upto_full(tail, entries_g);
    }
    let closing = compute_close_hash(&prev);
    match rdcv.head() {
        Some(head) => crate::bytes::bytes_eq(&closing.0, &head.0),
        None => false,
    }
}

/// Everything a third party can check of the published records from the
/// public artifacts alone: the hash chain replays and is sealed, the
/// shuffle proof verifies, every shuffled commitment opens to its published
/// witness, and the revealed votes decode those witnesses.
pub open spec fn election_records_ok(
    h: int,
    hl: Seq<int>,
    rdv: RDVPrime,
    rdcv: RDCV,
    shuffled: RDCVPrime,
    zkp: ZKPOutput,
) -> bool {
    let entries = rdcv.entries_spec();
    let tail = rdcv.tail().0@;
    let cl = flat_votes(entries);
    let n = shuffled.entries_spec().len() as int;
    &&& chain_ok(tail, entries)
    &&& rdcv.head_spec() is Some
    &&& rdcv.head_spec().unwrap().0@ == close_hash(
        chain_prev(tail, entries, entries.len() as int),
    )
    &&& elems_wf(cl)
    &&& elems_wf(shuffled.entries_spec())
    &&& n <= hl.len()
    &&& check_proof_spec(
        hl.take(n),
        elem_views(cl),
        elem_views(shuffled.entries_spec()),
        zkp.shuffle_proof@,
    )
    &&& zkp.m_list@.len() == n
    &&& zkp.r_list@.len() == n
    &&& crate::group::scalars_wf(zkp.m_list@)
    &&& crate::group::scalars_wf(zkp.r_list@)
    &&& forall|i: int| 0 <= i < n ==> crate::pedersen::pedersen_verifies(
        h,
        zkp.m_list@[i]@,
        zkp.r_list@[i]@,
        (#[trigger] shuffled.entries_spec()[i])@,
    )
    &&& rdv.entries@.len() == n
    &&& forall|i: int| 0 <= i < n ==> (#[trigger] rdv.entries@[i]) == crate::types::vote_of_scalar(
        zkp.m_list@[i]@,
    )
}

/// Verifies a whole election from its published records: hash-chain
/// replay, the shuffle proof, the commitment openings, and the decoded
/// votes.  A single failed sub-check fails the whole verification.
#[verifier::rlimit(100)]
pub fn verify_election_records(
    h: &Element,
    h_list: &Vec<Element>,
    rdv_prime: &RDVPrime,
    rdcv: &RDCV,
    rdcv_prime: &RDCVPrime,
    zkp: &ZKPOutput,
) -> (r: bool)
    requires
        h.wf(),
        elems_wf(h_list@),
    ensures
        r == election_records_ok(
            h@,
            elem_views(h_list@),
            *rdv_prime,
            *rdcv,
            *rdcv_prime,
            *zkp,
        ),
{
    let ghost hl = elem_views(h_list@);
    if !replay_chain(rdcv) {
        return false;
    }
    let c_list = rdcv.votes();
    if !crate::utils::elements_in_range(&c_list) {
        return false;
    }
    let shuffled = rdcv_prime.entries();
    let n = shuffled.len();
    if !crate::utils::elements_in_range(shuffled) {
        return false;
    }
    if n > h_list.len() {
        return false;
    }
    let mut h_sub: Vec<Element> = Vec::new();
    for i in 0..n
        invariant
            n <= h_list@.len(),
            elems_wf(h_list@),
            h_sub@.len() == i,
            h_sub@ == h_list@.take(i as int),
    {
        h_sub.push(h_list[i]);
        proof {
            assert(h_list@.take(i + 1) =~= h_list@.take(i as int).push(h_list@[i as int]));
        }
    }
    proof {
        assert(elem_views(h_sub@) =~= hl.take(n as int));
    }
    let verifier = Verifier::new(h_sub);
    let shuffled_vec = shuffled.clone();
    proof {
        assert(shuffled_vec@ =~= rdcv_prime.entries_spec());
    }
    if !verifier.check_proof(&zkp.shuffle_proof, &c_list, &shuffled_vec) {
        return false;
    }
    if zkp.m_list.len() != n || zkp.r_list.len() != n {
        return false;
    }
    if !crate::utils::scalars_in_range(&zkp.m_list) || !crate::utils::scalars_in_range(
        &zkp.r_list,
    ) {
        return false;
    }
    let pedersen = crate::pedersen::Pedersen::new(h);
    if !pedersen.verify_list(&zkp.m_list, &zkp.r_list, &shuffled_vec) {
        return false;
    }
    if rdv_prime.entries.len() != n {
        return false;
    }
    for i in 0..n
        invariant
            n == zkp.m_list@.len(),
            n == rdv_prime.entries@.len(),
            crate::group::scalars_wf(zkp.m_list@),
            forall|j: int| 0 <= j < i ==> (#[trigger] rdv_prime.entries@[j])
                == crate::types::vote_of_scalar(zkp.m_list@[j]@),
    {
        let decoded = crate::types::Vote::from_scalar(zkp.m_list[i]);
        let expected = &rdv_prime.entries[i];
        if decoded.contest != expected.contest || decoded.choice != expected.choice {
            return false;
        }
    }
    true
}

/// Checks the detached signatures over the four serialized artifacts under
/// one verifying key; all four must verify.
pub fn verify_signatures(
    vk: &Vec<u8>,
    rdv_bytes: &Vec<u8>,
    rdv_sig: &Vec<u8>,
    rdcv_bytes: &Vec<u8>,
    rdcv_sig: &Vec<u8>,
    rdcv_prime_bytes: &Vec<u8>,
    rdcv_prime_sig: &Vec<u8>,
    zkp_bytes: &Vec<u8>,
    zkp_sig: &Vec<u8>,
) -> (r: bool)
    ensures
        r == (crate::keys::ed25519_verifies(vk@, rdv_bytes@, rdv_sig@)
            && crate::keys::ed25519_verifies(vk@, rdcv_bytes@, rdcv_sig@)
            && crate::keys::ed25519_verifies(vk@, rdcv_prime_bytes@, rdcv_prime_sig@)
            && crate::keys::ed25519_verifies(vk@, zkp_bytes@, zkp_sig@)),
{
    let a = crate::keys::verify_bytes(vk, rdv_bytes, rdv_sig);
    let b = crate::keys::verify_bytes(vk, rdcv_bytes, rdcv_sig);
    let c = crate::keys::verify_bytes(vk, rdcv_prime_bytes, rdcv_prime_sig);
    let d = crate::keys::verify_bytes(vk, zkp_bytes, zkp_sig);
    a && b && c && d
}

/// The independent verifier, fixed to the election's per-position
/// generators.
pub struct Verifier {
    h_list: Vec<Element>,
    n: usize,
}

impl Verifier {
    pub closed spec fn h_list_spec(&self) -> Seq<Element> {
        self.h_list@
    }

    pub closed spec fn n_spec(&self) -> nat {
        self.n as nat
    }

    pub open spec fn wf(&self) -> bool {
        &&& elems_wf(self.h_list_spec())
        &&& self.n_spec() == self.h_list_spec().len()
    }

    pub fn new(h_list: Vec<Element>) -> (r: Self)
        requires
            elems_wf(h_list@),
        ensures
            r.wf(),
            r.h_list_spec() == h_list@,
    {
        let n = h_list.len();
        Self { h_list, n }
    }

    /// Checks a shuffle proof against the original and shuffled commitment
    /// lists.  Returns true exactly when every verification equation holds;
    /// any malformed or mismatching component rejects, with no partial
    /// credit and no indication of which equation failed.
    #[verifier::rlimit(100)]
    pub fn check_proof(
        &self,
        pi: &ShuffleProof,
        commit_list: &Vec<Element>,
        commit_prime_list: &Vec<Element>,
    ) -> (r: bool)
        requires
            self.wf(),
            elems_wf(commit_list@),
            elems_wf(commit_prime_list@),
        ensures
            r == check_proof_spec(
                elem_views(self.h_list_spec()),
                elem_views(commit_list@),
                elem_views(commit_prime_list@),
                pi@,
            ),
    {
        let ghost hs = elem_views(self.h_list_spec());
        let ghost cls = elem_views(commit_list@);
        let ghost cpls = elem_views(commit_prime_list@);
        let n = self.n;

        let (t, s, c_list, c_hat_list) = pi.components();

        if n == 0 || commit_list.len() != n || commit_prime_list.len() != n {
            return false;
        }
        if c_list.len() != n || c_hat_list.len() != n || t.4.len() != n || s.4.len() != n
            || s.5.len() != n {
            proof {
                assert(hs.len() == n as int);
                assert(pi@.c_list.len() == c_list@.len());
                assert(pi@.c_hat_list.len() == c_hat_list@.len());
                assert(pi@.t_hat.len() == t.4@.len());
                assert(pi@.s_hat.len() == s.4@.len());
                assert(pi@.s_prime.len() == s.5@.len());
                assert(!check_proof_spec(hs, cls, cpls, pi@));
            }
            return false;
        }
        if t.0.value >= Q || t.1.value >= Q || t.2.value >= Q || t.3.value >= Q || s.0.value >= Q
            || s.1.value >= Q || s.2.value >= Q || s.3.value >= Q {
            return false;
        }
        if !crate::utils::elements_in_range(&t.4) {
            proof {
                let i = choose|i: int| 0 <= i < t.4@.len() && !(#[trigger] t.4@[i]).wf();
                assert(pi@.t_hat[i] == t.4@[i]@);
            }
            return false;
        }
        if !crate::utils::elements_in_range(&c_list) {
            proof {
                let i = choose|i: int| 0 <= i < c_list@.len() && !(#[trigger] c_list@[i]).wf();
                assert(pi@.c_list[i] == c_list@[i]@);
            }
            return false;
        }
        if !crate::utils::elements_in_range(&c_hat_list) {
            proof {
                let i = choose|i: int|
                    0 <= i < c_hat_list@.len() && !(#[trigger] c_hat_list@[i]).wf();
                assert(pi@.c_hat_list[i] == c_hat_list@[i]@);
            }
            return false;
        }
        if !crate::utils::scalars_in_range(&s.4) {
            proof {
                let i = choose|i: int| 0 <= i < s.4@.len() && !(#[trigger] s.4@[i]).wf();
                assert(pi@.s_hat[i] == s.4@[i]@);
            }
            return false;
        }
        if !crate::utils::scalars_in_range(&s.5) {
            proof {
                let i = choose|i: int| 0 <= i < s.5@.len() && !(#[trigger] s.5@[i]).wf();
                assert(pi@.s_prime[i] == s.5@[i]@);
            }
            return false;
        }
        assert(proof_view_wf(pi@));
        assert(proof_shape_ok(hs, cls, cpls, pi@));

        let u_list = derive_u_list(commit_list, commit_prime_list, &c_list);
        let ghost us = Seq::new(n as nat, |i: int| u_challenge(cls, cpls, pi@.c_list, i));
        assert(crate::group::scalar_views(u_list@) =~= us);

        let sum_c = summation(c_list.clone());
        let sum_h = summation(self.h_list.clone());
        let c_bar = sum_c.sub(&sum_h);
        proof {
            vstd::arithmetic::div_mod::lemma_sub_mod_noop(
                sum_seq(pi@.c_list),
                sum_seq(hs),
                Q as int,
            );
            assert(c_bar@ == msub(sum_seq(pi@.c_list) % (Q as int), sum_seq(hs) % (Q as int)));
        }

        let mut uu = Scalar::one();
        for i in 0..n
            invariant
                n == u_list@.len(),
                us == crate::group::scalar_views(u_list@),
                forall|j: int| 0 <= j < n ==> (#[trigger] u_list@[j]).wf(),
                uu.wf(),
                uu@ == prod_seq(us.take(i as int)) % (Q as int),
        {
            let ghost prev = prod_seq(us.take(i as int));
            uu = uu.mul(&u_list[i]);
            proof {
                assert(us.take(i + 1).drop_last() =~= us.take(i as int));
                lemma_mul_mod_noop_left(prev, us[i as int], Q as int);
                lemma_mod_twice(prev * us[i as int], Q as int);
            }
        }
        proof {
            assert(us.take(us.len() as int) =~= us);
        }

        let c_hat = c_hat_list[n - 1].sub(&self.h_list[0].mul_scalar(&uu));
        proof {
            vstd::arithmetic::div_mod::lemma_mul_mod_noop_right(
                hs[0],
                prod_seq(us),
                Q as int,
            );
            lemma_mod_twice(hs[0] * (prod_seq(us) % (Q as int)), Q as int);
            assert(c_hat@ == msub(pi@.c_hat_list[n - 1], mmul(hs[0], prod_seq(us) % (Q as int))));
        }

        let c_tilde = weighted_sum(&c_list, &u_list);
        let e_prime = weighted_sum(commit_list, &u_list);
        proof {
            assert(Seq::new(c_list@.len(), |i: int| c_list@[i]@ * u_list@[i]@) =~= Seq::new(
                n as nat,
                |i: int| pi@.c_list[i] * us[i],
            ));
            assert(Seq::new(commit_list@.len(), |i: int| commit_list@[i]@ * u_list@[i]@)
                =~= Seq::new(n as nat, |i: int| cls[i] * us[i]));
        }

        let chal = derive_global_challenge(
            commit_list,
            commit_prime_list,
            &c_list,
            &c_hat_list,
            &t,
        );

        let t0p = Element::mul_generator(&s.0).sub(&c_bar.mul_scalar(&chal));
        let t1p = Element::mul_generator(&s.1).sub(&c_hat.mul_scalar(&chal));
        proof {
            lemma_small_mod(s.0@ as nat, Q as nat);
            lemma_small_mod(s.1@ as nat, Q as nat);
        }

        let w_h = weighted_sum(&self.h_list, &s.5);
        let t2p = w_h.sub(&c_tilde.mul_scalar(&chal)).add(&Element::mul_generator(&s.2));
        proof {
            assert(Seq::new(self.h_list@.len(), |i: int| self.h_list@[i]@ * s.5@[i]@)
                =~= Seq::new(n as nat, |i: int| hs[i] * pi@.s_prime[i]));
        }

        let w_cpl = weighted_sum(commit_prime_list, &s.5);
        let t3p = w_cpl.sub(&e_prime.mul_scalar(&chal)).sub(&Element::mul_generator(&s.3));
        proof {
            assert(Seq::new(commit_prime_list@.len(), |i: int| commit_prime_list@[i]@ * s.5@[i]@)
                =~= Seq::new(n as nat, |i: int| cpls[i] * pi@.s_prime[i]));
        }

        let mut hat_ok = true;
        for i in 0..n
            invariant
                n >= 1,
                n == self.h_list@.len(),
                n == t.4@.len(),
                n == s.4@.len(),
                n == s.5@.len(),
                n == c_hat_list@.len(),
                self.wf(),
                hs == elem_views(self.h_list_spec()),
                proof_view_wf(pi@),
                crate::group::scalars_wf(s.4@),
                crate::group::scalars_wf(s.5@),
                elems_wf(c_hat_list@),
                elems_wf(t.4@),
                pi@.t_hat == elem_views(t.4@),
                pi@.s_hat == crate::group::scalar_views(s.4@),
                pi@.s_prime == crate::group::scalar_views(s.5@),
                pi@.c_hat_list == elem_views(c_hat_list@),
                pi@.c_hat_list.len() == n,
                chal.wf(),
                chal@ == global_challenge(
                    cls,
                    cpls,
                    pi@.c_list,
                    pi@.c_hat_list,
                    pi@.t0,
                    pi@.t1,
                    pi@.t2,
                    pi@.t3,
                    pi@.t_hat,
                ),
                hat_ok == (forall|j: int| 0 <= j < i ==> #[trigger] pi@.t_hat[j] == msub(
                    madd(
                        pi@.s_hat[j],
                        mmul(
                            if j == 0 { hs[0] } else { pi@.c_hat_list[j - 1] },
                            pi@.s_prime[j],
                        ),
                    ),
                    mmul(pi@.c_hat_list[j], chal@),
                )),
        {
            let base = if i == 0 { &self.h_list[0] } else { &c_hat_list[i - 1] };
            let thp = Element::mul_generator(&s.4[i]).add(&base.mul_scalar(&s.5[i])).sub(
                &c_hat_list[i].mul_scalar(&chal),
            );
            proof {
                lemma_small_mod(s.4@[i as int]@ as nat, Q as nat);
            }
            if t.4[i].value != thp.value {
                hat_ok = false;
            }
            proof {
                if t.4@[i as int].value == thp.value {
                    assert(pi@.t_hat[i as int] == thp@);
                } else {
                    assert(pi@.t_hat[i as int] != thp@);
                }
            }
        }

        let accept = t.0.value == t0p.value && t.1.value == t1p.value && t.2.value == t2p.value
            && t.3.value == t3p.value && hat_ok;
        proof {
            reveal(proof_equations_ok);
            assert(accept == proof_equations_ok(hs, cls, cpls, pi@));
        }
        accept
    }
}

} // verus!
