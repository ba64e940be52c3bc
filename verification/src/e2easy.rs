//! The ballot protocol: per-voter commit / challenge-or-cast, the
//! hash-chained audit log, and the end-of-election tally that shuffles,
//! opens and proves.

use vstd::prelude::*;
use crate::group::{
    Element, Scalar, Q, madd, elem_views, elems_wf, scalars_wf, scalar_views,
};
use crate::bytes::be8;
use crate::pedersen::{Pedersen, pedersen_commit, pedersen_verifies, lemma_rerandomize};
use crate::shuffler::Shuffler;
use crate::shuffle_verifier::check_proof_spec;
use crate::keys::SignatureKeys;
use crate::sums::{lemma_permutation_bounds, lemma_compose_multiset, compose};
use crate::types::{
    Vote, vote_scalar, vote_of_scalar, TrackingCode, CommittedBallot, RDCV, RDVPrime, RDCVPrime,
    ZKPOutput, ContestInfo, chain_ok, chain_prev, flat_votes, tracking_hash, close_hash,
    compute_tracking_code, compute_close_hash, clone_code, clone_string,
};
use crate::utils::{sha256, sha256_of, nonce_spec, derive_nonces, random_scalar, now_rfc3339};
use crate::bytes::push_be8;

verus! {

/// Why a protocol call was rejected.
#[derive(Clone, Copy, PartialEq, Eq, Structural, Debug)]
pub enum ProtocolError {
    /// A malformed vote, or a ballot already pending: rejected before any
    /// state changes.
    ValidationError,
    /// A call out of sequence: challenge or cast with no pending ballot, or
    /// any ballot operation after the tally.
    ProtocolStateError,
    /// A broken cryptographic precondition, such as too few configured
    /// generators; unreachable under correct configuration.
    InternalCryptoFault,
}

/// The chain seed: the digest every election log starts from.
pub open spec fn genesis_code() -> Seq<u8> {
    sha256_of(seq![115u8, 116u8, 97u8, 114u8, 116u8])
}

/// The not-yet-cast ballot of the voter at the machine.
pub struct TempBallot {
    pub scalar_votes: Vec<Scalar>,
    pub committed_votes: Vec<Element>,
    pub nonce_seed: Scalar,
    pub timestamp: String,
    pub tracking_code: TrackingCode,
}

/// A pending ballot is internally consistent for blinding base `h` after
/// chain state `prev`: every commitment opens to its scalar vote under the
/// nonce derived from the seed, and the tracking code chains them to the
/// log.
pub open spec fn temp_wf(tb: TempBallot, h: int, prev: Seq<u8>) -> bool {
    &&& tb.scalar_votes@.len() == tb.committed_votes@.len()
    &&& scalars_wf(tb.scalar_votes@)
    &&& elems_wf(tb.committed_votes@)
    &&& tb.nonce_seed.wf()
    &&& forall|i: int| 0 <= i < tb.scalar_votes@.len() ==> (#[trigger] tb.committed_votes@[i])@
        == pedersen_commit(h, tb.scalar_votes@[i]@, nonce_spec(be8(tb.nonce_seed.value), i))
    &&& tb.tracking_code.0@ == tracking_hash(
        prev,
        tb.timestamp@,
        elem_views(tb.committed_votes@),
    )
}

impl TempBallot {
    pub fn new(
        scalar_votes: Vec<Scalar>,
        committed_votes: Vec<Element>,
        nonce_seed: Scalar,
        timestamp: String,
        tracking_code: TrackingCode,
    ) -> (r: Self)
        ensures
            r.scalar_votes == scalar_votes,
            r.committed_votes == committed_votes,
            r.nonce_seed == nonce_seed,
            r.timestamp == timestamp,
            r.tracking_code == tracking_code,
    {
        Self { scalar_votes, committed_votes, nonce_seed, timestamp, tracking_code }
    }

    /// The audit-log record of this ballot.
    pub fn commit(&self) -> (r: CommittedBallot)
        ensures
            r.tracking_code.0@ == self.tracking_code.0@,
            r.committed_votes@ == self.committed_votes@,
            r.timestamp@ == self.timestamp@,
    {
        let votes = self.committed_votes.clone();
        proof {
            assert(votes@ =~= self.committed_votes@);
        }
        CommittedBallot::new(clone_code(&self.tracking_code), votes, clone_string(&self.timestamp))
    }
}

/// Whether a vote lies in the configured range of its contest: the contest
/// must exist and the choice must be one of its options, numbered from one.
pub open spec fn vote_ok(v: Vote, contests: Seq<ContestInfo>) -> bool {
    &&& (v.contest as int) < contests.len()
    &&& 1 <= v.choice
    &&& (v.choice as int) <= contests[v.contest as int].num_choices as int
}

/// Whether every vote of a ballot is in range.
pub open spec fn votes_ok(votes: Seq<Vote>, contests: Seq<ContestInfo>) -> bool {
    forall|i: int| 0 <= i < votes.len() ==> vote_ok(#[trigger] votes[i], contests)
}

/// Appending a correctly chained, correctly opened record to the log
/// preserves the machine's invariant: the chain still replays and every
/// position of the extended witness lists opens its commitment.
pub proof fn lemma_log_extend(
    h: int,
    tail: Seq<u8>,
    oe: Seq<CommittedBallot>,
    e: CommittedBallot,
    prev: Seq<u8>,
    m_old: Seq<Scalar>,
    r_old: Seq<Scalar>,
    m_new: Seq<Scalar>,
    r_new: Seq<Scalar>,
    sv: Seq<Scalar>,
    seed: u64,
)
    requires
        chain_ok(tail, oe),
        prev == chain_prev(tail, oe, oe.len() as int),
        m_old.len() == r_old.len(),
        flat_votes(oe).len() == m_old.len(),
        forall|j: int| 0 <= j < m_old.len() ==> (#[trigger] flat_votes(oe)[j])@
            == pedersen_commit(h, m_old[j]@, r_old[j]@),
        e.tracking_code.0@ == tracking_hash(prev, e.timestamp@, elem_views(e.committed_votes@)),
        e.committed_votes@.len() == sv.len(),
        forall|k: int| 0 <= k < sv.len() ==> (#[trigger] e.committed_votes@[k])@
            == pedersen_commit(h, sv[k]@, nonce_spec(be8(seed), k)),
        m_new == m_old + sv,
        r_new.len() == r_old.len() + sv.len(),
        r_new.take(r_old.len() as int) == r_old,
        forall|k: int| 0 <= k < sv.len() ==> (#[trigger] r_new[r_old.len() + k])@ == nonce_spec(
            be8(seed),
            k,
        ),
    ensures
        chain_ok(tail, oe.push(e)),
        flat_votes(oe.push(e)).len() == m_new.len(),
        forall|j: int| 0 <= j < m_new.len() ==> (#[trigger] flat_votes(oe.push(e))[j])@
            == pedersen_commit(h, m_new[j]@, r_new[j]@),
        e.tracking_code.0@ == chain_prev(tail, oe.push(e), oe.len() + 1 as int),
{
    let entries = oe.push(e);
    assert(entries.drop_last() =~= oe);
    assert(flat_votes(entries) =~= flat_votes(oe) + e.committed_votes@);
    let old_len = m_old.len() as int;
    assert forall|j: int| 0 <= j < m_new.len() implies (#[trigger] flat_votes(entries)[j])@
        == pedersen_commit(h, m_new[j]@, r_new[j]@) by {
        if j < old_len {
            assert(flat_votes(entries)[j] == flat_votes(oe)[j]);
            assert(m_new[j] == m_old[j]);
            assert(r_new[j] == r_new.take(old_len)[j]);
            assert(r_new[j] == r_old[j]);
        } else {
            let k = j - old_len;
            assert(flat_votes(entries)[j] == e.committed_votes@[k]);
            assert(m_new[j] == sv[k]);
            assert(r_new[old_len + k]@ == nonce_spec(be8(seed), k));
        }
    }
    assert forall|i: int| 0 <= i < entries.len() implies (#[trigger] entries[
        i
    ]).tracking_code.0@ == tracking_hash(
        chain_prev(tail, entries, i),
        entries[i].timestamp@,
        elem_views(entries[i].committed_votes@),
    ) by {
        if i < oe.len() {
            assert(entries[i] == oe[i]);
            assert(chain_prev(tail, entries, i) == chain_prev(tail, oe, i));
        } else {
            assert(i == oe.len());
            assert(chain_prev(tail, entries, i) == prev);
        }
    }
}

/// The ballot protocol state machine: one pending-ballot slot, one hash
/// chain, and the opening witnesses of every cast commitment.
pub struct E2Easy {
    h_list: Vec<Element>,
    pedersen: Pedersen,
    sig_keys: SignatureKeys,
    rdcv: RDCV,
    m_list: Vec<Scalar>,
    r_list: Vec<Scalar>,
    temp_ballot: Option<TempBallot>,
    prev_tracking_code: TrackingCode,
    contests: Vec<ContestInfo>,
}

impl E2Easy {
    pub closed spec fn h_list_spec(&self) -> Seq<Element> {
        self.h_list@
    }

    pub closed spec fn base_spec(&self) -> Element {
        self.pedersen.h_spec()
    }

    pub closed spec fn rdcv_spec(&self) -> RDCV {
        self.rdcv
    }

    pub closed spec fn m_list_spec(&self) -> Seq<Scalar> {
        self.m_list@
    }

    pub closed spec fn r_list_spec(&self) -> Seq<Scalar> {
        self.r_list@
    }

    pub closed spec fn temp_spec(&self) -> Option<TempBallot> {
        self.temp_ballot
    }

    pub closed spec fn prev_code_spec(&self) -> Seq<u8> {
        self.prev_tracking_code.0@
    }

    pub closed spec fn contests_spec(&self) -> Seq<ContestInfo> {
        self.contests@
    }

    /// Whether the election is closed: the tally has run and sealed the
    /// log's head.
    pub open spec fn closed(&self) -> bool {
        self.rdcv_spec().head_spec() is Some
    }

    /// The machine's invariant: the chain replays, every logged commitment
    /// opens under the stored witnesses, and any pending ballot is
    /// consistent with the chain state.
    pub open spec fn wf(&self) -> bool {
        &&& self.base_spec().wf()
        &&& elems_wf(self.h_list_spec())
        &&& scalars_wf(self.m_list_spec())
        &&& scalars_wf(self.r_list_spec())
        &&& self.m_list_spec().len() == self.r_list_spec().len()
        &&& flat_votes(self.rdcv_spec().entries_spec()).len() == self.m_list_spec().len()
        &&& forall|j: int| 0 <= j < self.m_list_spec().len() ==> (#[trigger] flat_votes(
            self.rdcv_spec().entries_spec(),
        )[j])@ == pedersen_commit(
            self.base_spec()@,
            self.m_list_spec()[j]@,
            self.r_list_spec()[j]@,
        )
        &&& forall|i: int| 0 <= i < self.rdcv_spec().entries_spec().len() ==> elems_wf(
            (#[trigger] self.rdcv_spec().entries_spec()[i]).committed_votes@,
        )
        &&& chain_ok(self.rdcv_spec().tail().0@, self.rdcv_spec().entries_spec())
        &&& self.prev_code_spec() == chain_prev(
            self.rdcv_spec().tail().0@,
            self.rdcv_spec().entries_spec(),
            self.rdcv_spec().entries_spec().len() as int,
        )
        &&& match self.temp_spec() {
            Some(tb) => temp_wf(tb, self.base_spec()@, self.prev_code_spec()),
            None => true,
        }
        &&& match self.rdcv_spec().head_spec() {
            Some(hd) => hd.0@ == close_hash(self.prev_code_spec()),
            None => true,
        }
    }

    /// A fresh election instance over blinding base `h`, per-position
    /// generators `h_list`, and the configured contests.
    pub fn new(h: &Element, h_list: Vec<Element>, contests: Vec<ContestInfo>) -> (r: Self)
        requires
            h.wf(),
            elems_wf(h_list@),
        ensures
            r.wf(),
            !r.closed(),
            r.temp_spec() is None,
            r.base_spec() == *h,
            r.h_list_spec() == h_list@,
            r.contests_spec() == contests@,
            r.rdcv_spec().entries_spec().len() == 0,
            r.m_list_spec().len() == 0,
            r.prev_code_spec() == genesis_code(),
            r.rdcv_spec().tail().0@ == genesis_code(),
    {
        let mut tag: Vec<u8> = Vec::new();
        tag.push(115);
        tag.push(116);
        tag.push(97);
        tag.push(114);
        tag.push(116);
        proof {
            assert(tag@ =~= seq![115u8, 116u8, 97u8, 114u8, 116u8]);
        }
        let start = sha256(&tag);
        let tail = TrackingCode(start);
        let prev = clone_code(&tail);
        Self {
            h_list,
            pedersen: Pedersen::new(h),
            sig_keys: SignatureKeys::new(),
            rdcv: RDCV::new(tail),
            m_list: Vec::new(),
            r_list: Vec::new(),
            temp_ballot: None,
            prev_tracking_code: prev,
            contests,
        }
    }

    /// Receives a ballot: validates it, commits each vote under a nonce
    /// derived from one fresh seed, computes the tracking code chaining it
    /// to the log, and stores it as pending.  Nothing is logged until the
    /// voter casts.
    pub fn vote(&mut self, votes: Vec<Vote>) -> (r: Result<(TrackingCode, String), ProtocolError>)
        requires
            old(self).wf(),
        ensures
            final(self).wf(),
            old(self).closed() ==> r == Err::<(TrackingCode, String), ProtocolError>(
                ProtocolError::ProtocolStateError,
            ) && *final(self) == *old(self),
            !old(self).closed() && old(self).temp_spec() is Some ==> r == Err::<
                (TrackingCode, String),
                ProtocolError,
            >(ProtocolError::ValidationError) && *final(self) == *old(self),
            !old(self).closed() && old(self).temp_spec() is None && !votes_ok(
                votes@,
                old(self).contests_spec(),
            ) ==> r == Err::<(TrackingCode, String), ProtocolError>(
                ProtocolError::ValidationError,
            ) && *final(self) == *old(self),
            !old(self).closed() && old(self).temp_spec() is None && votes_ok(
                votes@,
                old(self).contests_spec(),
            ) ==> r is Ok && final(self).temp_spec() is Some && {
                let tb = final(self).temp_spec().unwrap();
                &&& tb.scalar_votes@.len() == votes@.len()
                &&& forall|i: int| 0 <= i < votes@.len() ==> (#[trigger] tb.scalar_votes@[i])@
                    == vote_scalar(votes@[i])
                &&& r.unwrap().0.0@ == tb.tracking_code.0@
                &&& r.unwrap().1@ == tb.timestamp@
                &&& tb.tracking_code.0@ == tracking_hash(
                    old(self).prev_code_spec(),
                    tb.timestamp@,
                    elem_views(tb.committed_votes@),
                )
            },
            final(self).rdcv_spec() == old(self).rdcv_spec(),
            final(self).m_list_spec() == old(self).m_list_spec(),
            final(self).r_list_spec() == old(self).r_list_spec(),
            final(self).prev_code_spec() == old(self).prev_code_spec(),
            final(self).base_spec() == old(self).base_spec(),
            final(self).h_list_spec() == old(self).h_list_spec(),
            final(self).contests_spec() == old(self).contests_spec(),
    {
        if self.rdcv.head().is_some() {
            return Err(ProtocolError::ProtocolStateError);
        }
        if self.temp_ballot.is_some() {
            return Err(ProtocolError::ValidationError);
        }
        let mut all_ok = true;
        let n_votes = votes.len();
        for i in 0..n_votes
            invariant
                n_votes == votes@.len(),
                self.contests@ == old(self).contests_spec(),
                all_ok == (forall|j: int| 0 <= j < i ==> vote_ok(
                    #[trigger] votes@[j],
                    self.contests@,
                )),
        {
            let v = &votes[i];
            let in_range = (v.contest as usize) < self.contests.len() && v.choice >= 1 && (
            v.choice as u16) <= self.contests[v.contest as usize].num_choices;
            if !in_range {
                all_ok = false;
            }
            proof {
                if in_range {
                    assert(vote_ok(votes@[i as int], self.contests@));
                } else {
                    assert(!vote_ok(votes@[i as int], self.contests@));
                }
            }
        }
        if !all_ok {
            return Err(ProtocolError::ValidationError);
        }

        let nonce_seed = random_scalar();
        let mut seed_bytes: Vec<u8> = Vec::new();
        push_be8(&mut seed_bytes, nonce_seed.value);
        proof {
            assert(seed_bytes@ =~= be8(nonce_seed.value));
        }
        let nonces = derive_nonces(&seed_bytes, n_votes);
        let timestamp = now_rfc3339();

        let mut scalar_votes: Vec<Scalar> = Vec::new();
        let mut committed_votes: Vec<Element> = Vec::new();
        for i in 0..n_votes
            invariant
                n_votes == votes@.len(),
                nonces@.len() == n_votes,
                self.pedersen.h_spec() == old(self).base_spec(),
                self.pedersen.wf(),
                forall|j: int| 0 <= j < n_votes ==> (#[trigger] nonces@[j]).wf() && nonces@[j]@
                    == nonce_spec(seed_bytes@, j),
                seed_bytes@ == be8(nonce_seed.value),
                scalar_votes@.len() == i,
                committed_votes@.len() == i,
                scalars_wf(scalar_votes@),
                elems_wf(committed_votes@),
                forall|j: int| 0 <= j < i ==> (#[trigger] scalar_votes@[j])@ == vote_scalar(
                    votes@[j],
                ),
                forall|j: int| 0 <= j < i ==> (#[trigger] committed_votes@[j])@
                    == pedersen_commit(
                    old(self).base_spec()@,
                    scalar_votes@[j]@,
                    nonce_spec(be8(nonce_seed.value), j),
                ),
        {
            let encoded = votes[i].to_scalar();
            let committed = self.pedersen.commit(&encoded, &nonces[i]);
            scalar_votes.push(encoded);
            committed_votes.push(committed);
        }

        let tracking_code = compute_tracking_code(
            &self.prev_tracking_code,
            &timestamp,
            &committed_votes,
        );
        let out_code = clone_code(&tracking_code);
        let out_ts = clone_string(&timestamp);
        let tb = TempBallot::new(scalar_votes, committed_votes, nonce_seed, timestamp,
            tracking_code);
        self.temp_ballot = Some(tb);
        Ok((out_code, out_ts))
    }

    /// Benaloh challenge: reveals the pending ballot's nonce seed and
    /// commitments so any observer can recompute them, discards the ballot,
    /// and leaves the log untouched.  The voter may then vote again.  After
    /// the tally no further challenge is accepted.
    pub fn challenge(&mut self) -> (r: Result<(TrackingCode, Vec<Element>, Scalar), ProtocolError>)
        requires
            old(self).wf(),
        ensures
            final(self).wf(),
            old(self).closed() ==> r == Err::<
                (TrackingCode, Vec<Element>, Scalar),
                ProtocolError,
            >(ProtocolError::ProtocolStateError) && *final(self) == *old(self),
            !old(self).closed() && old(self).temp_spec() is None ==> r == Err::<
                (TrackingCode, Vec<Element>, Scalar),
                ProtocolError,
            >(ProtocolError::ProtocolStateError) && *final(self) == *old(self),
            !old(self).closed() && old(self).temp_spec() is Some ==> r is Ok && {
                let tb = old(self).temp_spec().unwrap();
                &&& r.unwrap().0.0@ == old(self).prev_code_spec()
                &&& r.unwrap().1@ == tb.committed_votes@
                &&& r.unwrap().2 == tb.nonce_seed
            } && final(self).temp_spec() is None,
            final(self).rdcv_spec() == old(self).rdcv_spec(),
            final(self).m_list_spec() == old(self).m_list_spec(),
            final(self).r_list_spec() == old(self).r_list_spec(),
            final(self).prev_code_spec() == old(self).prev_code_spec(),
            final(self).base_spec() == old(self).base_spec(),
            final(self).h_list_spec() == old(self).h_list_spec(),
            final(self).contests_spec() == old(self).contests_spec(),
    {
        if self.rdcv.head().is_some() {
            return Err(ProtocolError::ProtocolStateError);
        }
        let mut slot: Option<TempBallot> = None;
        core::mem::swap(&mut self.temp_ballot, &mut slot);
        let tb = match slot {
            Some(tb) => tb,
            None => {
                return Err(ProtocolError::ProtocolStateError);
            },
        };
        let prev = clone_code(&self.prev_tracking_code);
        Ok((prev, tb.committed_votes, tb.nonce_seed))
    }

    /// Casts the pending ballot: signs its tracking code, appends it to the
    /// audit log, extends the opening witnesses, and advances the chain.
    #[verifier::rlimit(100)]
    pub fn cast(&mut self) -> (r: Result<Vec<u8>, ProtocolError>)
        requires
            old(self).wf(),
        ensures
            final(self).wf(),
            old(self).closed() ==> r == Err::<Vec<u8>, ProtocolError>(
                ProtocolError::ProtocolStateError,
            ) && *final(self) == *old(self),
            !old(self).closed() && old(self).temp_spec() is None ==> r == Err::<
                Vec<u8>,
                ProtocolError,
            >(ProtocolError::ProtocolStateError) && *final(self) == *old(self),
            !old(self).closed() && old(self).temp_spec() is Some ==> r is Ok && {
                let tb = old(self).temp_spec().unwrap();
                &&& r.unwrap()@.len() == 64
                &&& final(self).temp_spec() is None
                &&& final(self).prev_code_spec() == tb.tracking_code.0@
                &&& final(self).rdcv_spec().entries_spec().len() == old(
                    self,
                ).rdcv_spec().entries_spec().len() + 1
                &&& final(self).rdcv_spec().entries_spec().last().tracking_code.0@
                    == tb.tracking_code.0@
                &&& final(self).rdcv_spec().entries_spec().last().committed_votes@
                    == tb.committed_votes@
                &&& final(self).rdcv_spec().entries_spec().last().timestamp@ == tb.timestamp@
                &&& final(self).rdcv_spec().entries_spec().drop_last() == old(
                    self,
                ).rdcv_spec().entries_spec()
                &&& final(self).m_list_spec() == old(self).m_list_spec() + tb.scalar_votes@
                &&& !final(self).closed()
            },
            final(self).base_spec() == old(self).base_spec(),
            final(self).h_list_spec() == old(self).h_list_spec(),
            final(self).contests_spec() == old(self).contests_spec(),
            final(self).rdcv_spec().tail() == old(self).rdcv_spec().tail(),
    {
        if self.rdcv.head().is_some() {
            return Err(ProtocolError::ProtocolStateError);
        }
        let mut slot: Option<TempBallot> = None;
        core::mem::swap(&mut self.temp_ballot, &mut slot);
        let tb = match slot {
            Some(tb) => tb,
            None => {
                return Err(ProtocolError::ProtocolStateError);
            },
        };
        let signature = self.sig_keys.sign(&tb.tracking_code.0);
        let entry = tb.commit();
        let ghost old_entries = self.rdcv.entries_spec();
        self.rdcv.add_entry(entry);

        let n_new = tb.scalar_votes.len();
        let mut m_tmp: Vec<Scalar> = Vec::new();
        core::mem::swap(&mut self.m_list, &mut m_tmp);
        let ghost m_old = old(self).m_list_spec();
        for i in 0..n_new
            invariant
                n_new == tb.scalar_votes@.len(),
                scalars_wf(tb.scalar_votes@),
                scalars_wf(m_tmp@),
                m_tmp@ == m_old + tb.scalar_votes@.take(i as int),
        {
            m_tmp.push(tb.scalar_votes[i]);
            proof {
                assert(m_old + tb.scalar_votes@.take(i + 1) =~= (m_old + tb.scalar_votes@.take(
                    i as int,
                )).push(tb.scalar_votes@[i as int]));
            }
        }
        proof {
            assert(tb.scalar_votes@.take(n_new as int) =~= tb.scalar_votes@);
        }
        core::mem::swap(&mut self.m_list, &mut m_tmp);

        let mut seed_bytes: Vec<u8> = Vec::new();
        push_be8(&mut seed_bytes, tb.nonce_seed.value);
        proof {
            assert(seed_bytes@ =~= be8(tb.nonce_seed.value));
        }
        let nonces = derive_nonces(&seed_bytes, n_new);
        let mut r_tmp: Vec<Scalar> = Vec::new();
        core::mem::swap(&mut self.r_list, &mut r_tmp);
        let ghost r_old = old(self).r_list_spec();
        let ghost old_len = r_old.len();
        for i in 0..n_new
            invariant
                n_new == nonces@.len(),
                forall|j: int| 0 <= j < n_new ==> (#[trigger] nonces@[j]).wf() && nonces@[j]@
                    == nonce_spec(be8(tb.nonce_seed.value), j),
                scalars_wf(r_old),
                r_tmp@.len() == old_len + i,
                r_tmp@.take(old_len as int) == r_old,
                forall|k: int| 0 <= k < i ==> (#[trigger] r_tmp@[old_len + k])@ == nonce_spec(
                    be8(tb.nonce_seed.value),
                    k,
                ),
                scalars_wf(r_tmp@),
        {
            r_tmp.push(nonces[i]);
            proof {
                assert(r_tmp@.take(old_len as int) =~= r_old);
            }
        }
        core::mem::swap(&mut self.r_list, &mut r_tmp);

        self.prev_tracking_code = clone_code(&tb.tracking_code);

        proof {
            let e = self.rdcv.entries_spec().last();
            assert(self.rdcv.entries_spec().drop_last() =~= old_entries);
            lemma_log_extend(
                old(self).base_spec()@,
                self.rdcv.tail().0@,
                old_entries,
                e,
                old(self).prev_code_spec(),
                old(self).m_list_spec(),
                old(self).r_list_spec(),
                self.m_list@,
                self.r_list@,
                tb.scalar_votes@,
                tb.nonce_seed.value,
            );
            assert(self.rdcv.entries_spec() =~= old_entries.push(e));
        }
        Ok(signature)
    }

    /// Closes the election: seals the log's head, shuffles and re-randomizes
    /// the full committed list, produces the shuffle proof, and reveals the
    /// shuffled openings and votes.  May run exactly once; the log's head,
    /// once set, is immutable.
    #[verifier::rlimit(100)]
    pub fn tally(&mut self) -> (r: Result<(RDVPrime, RDCV, RDCVPrime, ZKPOutput), ProtocolError>)
        requires
            old(self).wf(),
        ensures
            final(self).wf(),
            old(self).closed() ==> r == Err::<(RDVPrime, RDCV, RDCVPrime, ZKPOutput),
                ProtocolError,
            >(ProtocolError::ProtocolStateError) && *final(self) == *old(self),
            !old(self).closed() && flat_votes(old(self).rdcv_spec().entries_spec()).len() == 0
                ==> r == Err::<(RDVPrime, RDCV, RDCVPrime, ZKPOutput), ProtocolError>(
                ProtocolError::ProtocolStateError,
            ) && *final(self) == *old(self),
            !old(self).closed() && flat_votes(old(self).rdcv_spec().entries_spec()).len() > old(
                self,
            ).h_list_spec().len() ==> r == Err::<(RDVPrime, RDCV, RDCVPrime, ZKPOutput),
                ProtocolError,
            >(ProtocolError::InternalCryptoFault) && *final(self) == *old(self),
            !old(self).closed() && 1 <= flat_votes(old(self).rdcv_spec().entries_spec()).len()
                <= old(self).h_list_spec().len() ==> r is Ok && final(self).closed() && {
                let n = flat_votes(old(self).rdcv_spec().entries_spec()).len() as int;
                let rdv = r.unwrap().0;
                let log = r.unwrap().1;
                let shuffled = r.unwrap().2;
                let zkp = r.unwrap().3;
                &&& final(self).rdcv_spec().entries_spec() == old(
                    self,
                ).rdcv_spec().entries_spec()
                &&& final(self).rdcv_spec().head_spec().unwrap().0@ == close_hash(
                    old(self).prev_code_spec(),
                )
                &&& log.head_spec() is Some
                &&& log.head_spec().unwrap().0@ == close_hash(old(self).prev_code_spec())
                &&& log.tail().0@ == old(self).rdcv_spec().tail().0@
                &&& crate::types::entries_view_eq(
                    log.entries_spec(),
                    final(self).rdcv_spec().entries_spec(),
                )
                &&& flat_votes(log.entries_spec()) == flat_votes(
                    old(self).rdcv_spec().entries_spec(),
                )
                &&& chain_ok(log.tail().0@, log.entries_spec())
                &&& forall|i: int| 0 <= i < log.entries_spec().len() ==> elems_wf(
                    (#[trigger] log.entries_spec()[i]).committed_votes@,
                )
                &&& shuffled.entries_spec().len() == n
                &&& elems_wf(shuffled.entries_spec())
                &&& check_proof_spec(
                    elem_views(old(self).h_list_spec().take(n)),
                    elem_views(flat_votes(old(self).rdcv_spec().entries_spec())),
                    elem_views(shuffled.entries_spec()),
                    zkp.shuffle_proof@,
                )
                &&& zkp.m_list@.len() == n
                &&& zkp.r_list@.len() == n
                &&& scalars_wf(zkp.m_list@)
                &&& scalars_wf(zkp.r_list@)
                &&& forall|i: int| 0 <= i < n ==> pedersen_verifies(
                    old(self).base_spec()@,
                    zkp.m_list@[i]@,
                    zkp.r_list@[i]@,
                    (#[trigger] shuffled.entries_spec()[i])@,
                )
                &&& rdv.entries@.len() == n
                &&& forall|i: int| 0 <= i < n ==> (#[trigger] rdv.entries@[i]) == vote_of_scalar(
                    zkp.m_list@[i]@,
                )
                &&& scalar_views(zkp.m_list@).to_multiset() == scalar_views(
                    old(self).m_list_spec(),
                ).to_multiset()
                &&& zkp.verifying_key@.len() == 32
            },
            final(self).base_spec() == old(self).base_spec(),
            final(self).h_list_spec() == old(self).h_list_spec(),
            final(self).m_list_spec() == old(self).m_list_spec(),
            final(self).r_list_spec() == old(self).r_list_spec(),
            final(self).prev_code_spec() == old(self).prev_code_spec(),
    {
        if self.rdcv.head().is_some() {
            return Err(ProtocolError::ProtocolStateError);
        }
        let c_list = self.rdcv.votes();
        let n = c_list.len();
        if n == 0 {
            return Err(ProtocolError::ProtocolStateError);
        }
        if self.h_list.len() < n {
            return Err(ProtocolError::InternalCryptoFault);
        }
        proof {
            assert(elems_wf(c_list@)) by {
                assert forall|j: int| 0 <= j < c_list@.len() implies (#[trigger] c_list@[
                    j
                ]).wf() by {
                    assert(c_list@[j]@ == pedersen_commit(
                        self.base_spec()@,
                        self.m_list_spec()[j]@,
                        self.r_list_spec()[j]@,
                    ));
                    vstd::arithmetic::div_mod::lemma_mod_bound(
                        self.r_list_spec()[j]@ + (self.base_spec()@ * self.m_list_spec()[j]@) % (
                        Q as int),
                        Q as int,
                    );
                }
            }
        }

        let head = compute_close_hash(&self.prev_tracking_code);
        self.rdcv.set_head(head);

        let mut h_sub: Vec<Element> = Vec::new();
        for i in 0..n
            invariant
                n <= self.h_list@.len(),
                elems_wf(self.h_list@),
                h_sub@.len() == i,
                h_sub@ == self.h_list@.take(i as int),
        {
            h_sub.push(self.h_list[i]);
            proof {
                assert(self.h_list@.take(i + 1) =~= self.h_list@.take(i as int).push(
                    self.h_list@[i as int],
                ));
            }
        }
        let ghost h_sub_views = elem_views(h_sub@);
        let shuffler = Shuffler::new(h_sub);

        let (c_prime_list, r_prime_list, psi) = shuffler.gen_shuffle(&c_list);
        let s_proof = shuffler.gen_proof(&c_list, &c_prime_list, &r_prime_list, &psi);
        proof {
            lemma_permutation_bounds(psi@, n as nat);
        }

        let mut combined_r: Vec<Scalar> = Vec::new();
        for i in 0..n
            invariant
                n == self.r_list@.len(),
                n == r_prime_list@.len(),
                scalars_wf(self.r_list@),
                scalars_wf(r_prime_list@),
                combined_r@.len() == i,
                scalars_wf(combined_r@),
                forall|j: int| 0 <= j < i ==> (#[trigger] combined_r@[j])@ == madd(
                    self.r_list@[j]@,
                    r_prime_list@[j]@,
                ),
        {
            combined_r.push(self.r_list[i].add(&r_prime_list[i]));
        }

        let mut shuffled_r: Vec<Scalar> = Vec::new();
        let mut shuffled_m: Vec<Scalar> = Vec::new();
        for i in 0..n
            invariant
                n == combined_r@.len(),
                n == self.m_list@.len(),
                n == psi@.len(),
                scalars_wf(combined_r@),
                scalars_wf(self.m_list@),
                forall|j: int| 0 <= j < n ==> (#[trigger] psi@[j]) < n,
                shuffled_r@.len() == i,
                shuffled_m@.len() == i,
                scalars_wf(shuffled_r@),
                scalars_wf(shuffled_m@),
                forall|j: int| 0 <= j < i ==> (#[trigger] shuffled_r@[j]) == combined_r@[psi@[
                    j
                ] as int],
                forall|j: int| 0 <= j < i ==> (#[trigger] shuffled_m@[j]) == self.m_list@[psi@[
                    j
                ] as int],
        {
            shuffled_r.push(combined_r[psi[i]]);
            shuffled_m.push(self.m_list[psi[i]]);
        }

        let mut votes_out: Vec<Vote> = Vec::new();
        for i in 0..n
            invariant
                n == shuffled_m@.len(),
                scalars_wf(shuffled_m@),
                votes_out@.len() == i,
                forall|j: int| 0 <= j < i ==> (#[trigger] votes_out@[j]) == vote_of_scalar(
                    shuffled_m@[j]@,
                ),
        {
            votes_out.push(Vote::from_scalar(shuffled_m[i]));
        }

        let rdv_prime = RDVPrime::new(votes_out);
        let rdcv_out = self.rdcv.duplicate();
        let ghost shuffled_views = elem_views(c_prime_list@);
        let rdcv_prime = RDCVPrime::new(c_prime_list);
        let vk = self.sig_keys.verifying_key();
        let zkp = ZKPOutput::new(vk, s_proof, shuffled_m, shuffled_r);

        proof {
            let h = self.base_spec()@;
            let ms = self.m_list@;
            let rs = self.r_list@;
            assert forall|i: int| 0 <= i < n implies pedersen_verifies(
                h,
                zkp.m_list@[i]@,
                zkp.r_list@[i]@,
                (#[trigger] rdcv_prime.entries_spec()[i])@,
            ) by {
                let j = psi@[i] as int;
                assert(rdcv_prime.entries_spec()[i]@ == madd(c_list@[j]@, r_prime_list@[j]@));
                assert(c_list@[j]@ == pedersen_commit(h, ms[j]@, rs[j]@));
                lemma_rerandomize(h, ms[j]@, rs[j]@, r_prime_list@[j]@);
                assert(zkp.r_list@[i]@ == madd(rs[j]@, r_prime_list@[j]@));
            }
            assert(scalar_views(zkp.m_list@) =~= compose(scalar_views(ms), psi@));
            lemma_compose_multiset(scalar_views(ms), psi@);
            assert(elem_views(self.h_list_spec().take(n as int)) =~= h_sub_views);

            // The returned log is a byte-for-byte copy of the sealed one, so
            // it carries the same flattened votes and still replays.
            assert(crate::types::entries_view_eq(
                rdcv_out.entries_spec(),
                self.rdcv_spec().entries_spec(),
            ));
            assert(crate::types::entries_view_eq(
                self.rdcv_spec().entries_spec(),
                rdcv_out.entries_spec(),
            ));
            crate::types::lemma_flat_votes_view_eq(
                rdcv_out.entries_spec(),
                self.rdcv_spec().entries_spec(),
            );
            crate::types::lemma_chain_ok_view_eq(
                self.rdcv_spec().tail().0@,
                self.rdcv_spec().entries_spec(),
                rdcv_out.entries_spec(),
            );
            assert forall|i: int| 0 <= i < rdcv_out.entries_spec().len() implies elems_wf(
                (#[trigger] rdcv_out.entries_spec()[i]).committed_votes@,
            ) by {
                assert(rdcv_out.entries_spec()[i].committed_votes@ == self.rdcv_spec(
                ).entries_spec()[i].committed_votes@);
            }
        }

        Ok((rdv_prime, rdcv_out, rdcv_prime, zkp))
    }

    /// Signs a serialized artifact for publication integrity.
    pub fn sign(&self, artifact_bytes: &Vec<u8>) -> (r: Vec<u8>)
        ensures
            r@.len() == 64,
    {
        self.sig_keys.sign(artifact_bytes)
    }

    /// The 32-byte verifying key under which this machine's signatures
    /// check.
    pub fn verifying_key(&self) -> (r: Vec<u8>)
        ensures
            r@.len() == 32,
    {
        self.sig_keys.verifying_key()
    }
}

} // verus!
