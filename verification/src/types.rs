//! The records the protocol exchanges with its collaborators: votes, the
//! hash-chained audit log, the shuffled log, the revealed votes, and the
//! proof bundle.

use vstd::prelude::*;
use vstd::utf8::encode_utf8;
use vstd::arithmetic::div_mod::{lemma_fundamental_div_mod_converse, lemma_small_mod};
use crate::group::{Element, Scalar, Q, elem_views};
use crate::bytes::{enc_bytes, enc_elem_list, push_byte_string, push_elem_list};
use crate::utils::{sha256, sha256_of, scalar_from_bytes};
use crate::bytes::push_be8;

verus! {

/// One choice in one contest.
#[derive(Clone, Copy, PartialEq, Eq, Structural, Debug)]
pub struct Vote {
    pub contest: u8,
    pub choice: u8,
}

/// The fixed-width byte encoding of a vote.
pub open spec fn vote_bytes(v: Vote) -> Seq<u8> {
    seq![v.contest, v.choice]
}

/// The scalar encoding a vote: its two bytes read as a big-endian number.
pub open spec fn vote_scalar(v: Vote) -> int {
    v.contest * 256 + v.choice
}

/// The vote encoded by a scalar: its two low bytes.
pub open spec fn vote_of_scalar(s: int) -> Vote {
    Vote { contest: (s / 256 % 256) as u8, choice: (s % 256) as u8 }
}

impl Vote {
    pub fn new(contest: u8, choice: u8) -> (r: Self)
        ensures
            r == (Vote { contest, choice }),
    {
        Self { contest, choice }
    }

    pub fn to_bytes(&self) -> (r: Vec<u8>)
        ensures
            r@ == vote_bytes(*self),
    {
        let mut out: Vec<u8> = Vec::new();
        out.push(self.contest);
        out.push(self.choice);
        proof {
            assert(out@ =~= vote_bytes(*self));
        }
        out
    }

    /// Reads a vote back from the last two bytes of an encoding.
    pub fn from_bytes(bytes: &Vec<u8>) -> (r: Self)
        requires
            bytes@.len() >= 2,
        ensures
            r == (Vote {
                contest: bytes@[bytes@.len() - 2],
                choice: bytes@[bytes@.len() - 1],
            }),
    {
        let n = bytes.len();
        let contest = bytes[n - 2];
        let choice = bytes[n - 1];
        Self::new(contest, choice)
    }

    pub fn to_scalar(&self) -> (r: Scalar)
        ensures
            r.wf(),
            r@ == vote_scalar(*self),
    {
        let bytes = self.to_bytes();
        let r = scalar_from_bytes(&bytes);
        proof {
            assert(bytes@.drop_last() =~= seq![self.contest]);
            assert(seq![self.contest].drop_last() =~= Seq::<u8>::empty());
            assert(crate::bytes::bytes_to_nat(Seq::<u8>::empty()) == 0);
            assert(crate::bytes::bytes_to_nat(seq![self.contest]) == self.contest as int);
            assert(crate::bytes::bytes_to_nat(bytes@) == vote_scalar(*self));
            assert(0 <= vote_scalar(*self) < Q as int);
            lemma_small_mod(vote_scalar(*self) as nat, Q as nat);
        }
        r
    }

    pub fn from_scalar(scalar: Scalar) -> (r: Self)
        requires
            scalar.wf(),
        ensures
            r == vote_of_scalar(scalar@),
    {
        let mut bytes: Vec<u8> = Vec::new();
        push_be8(&mut bytes, scalar.value);
        let r = Self::from_bytes(&bytes);
        proof {
            let v = scalar.value;
            assert((v >> 8) as u8 == ((v / 256) % 256) as u8) by (bit_vector);
            assert(v as u8 == (v % 256) as u8) by (bit_vector);
        }
        r
    }
}

/// Encoding a vote as a scalar and decoding it gives the vote back.
pub proof fn lemma_vote_scalar_round_trip(v: Vote)
    ensures
        vote_of_scalar(vote_scalar(v)) == v,
{
    let s = vote_scalar(v);
    lemma_fundamental_div_mod_converse(s, 256, v.contest as int, v.choice as int);
    lemma_small_mod(v.contest as nat, 256);
}

/// A running digest linking each cast ballot to all prior ballots.
#[derive(Clone, PartialEq, Eq, Debug)]
pub struct TrackingCode(pub Vec<u8>);

/// The bytes of a string, under the one canonical (UTF-8) encoding.
pub fn string_bytes(s: &String) -> (r: Vec<u8>)
    ensures
        r@ == encode_utf8(s@),
{
    vstd::slice::slice_to_vec(s.as_str().as_bytes())
}

/// A copy of a tracking code with the same bytes.
pub fn clone_code(tc: &TrackingCode) -> (r: TrackingCode)
    ensures
        r.0@ == tc.0@,
{
    let bytes = tc.0.clone();
    proof {
        assert(bytes@ =~= tc.0@);
    }
    TrackingCode(bytes)
}

/// A copy of a string with the same characters.
pub fn clone_string(s: &String) -> (r: String)
    ensures
        r@ == s@,
{
    s.as_str().to_owned()
}

/// The digest chaining a ballot to its predecessor: the previous tracking
/// code, the timestamp, and the committed votes, each length-prefixed.
pub open spec fn tracking_hash(prev: Seq<u8>, ts: Seq<char>, votes: Seq<int>) -> Seq<u8> {
    sha256_of(enc_bytes(prev) + enc_bytes(encode_utf8(ts)) + enc_elem_list(votes))
}

/// The closing tag hashed after the final tracking code.
pub open spec fn close_tag() -> Seq<u8> {
    seq![67u8, 76u8, 79u8, 83u8, 69u8]
}

/// The digest that seals the audit log.
pub open spec fn close_hash(prev: Seq<u8>) -> Seq<u8> {
    sha256_of(enc_bytes(prev) + enc_bytes(close_tag()))
}

/// Computes the tracking code of a ballot.
pub fn compute_tracking_code(prev: &TrackingCode, timestamp: &String, votes: &Vec<Element>) -> (r:
    TrackingCode)
    ensures
        r.0@ == tracking_hash(prev.0@, timestamp@, elem_views(votes@)),
        r.0@.len() == 32,
{
    let mut buf: Vec<u8> = Vec::new();
    push_byte_string(&mut buf, &prev.0);
    let ts_bytes = string_bytes(timestamp);
    push_byte_string(&mut buf, &ts_bytes);
    push_elem_list(&mut buf, votes);
    TrackingCode(sha256(&buf))
}

/// Computes the digest that seals the audit log.
pub fn compute_close_hash(prev: &TrackingCode) -> (r: TrackingCode)
    ensures
        r.0@ == close_hash(prev.0@),
        r.0@.len() == 32,
{
    let mut buf: Vec<u8> = Vec::new();
    push_byte_string(&mut buf, &prev.0);
    let mut tag: Vec<u8> = Vec::new();
    tag.push(67);
    tag.push(76);
    tag.push(79);
    tag.push(83);
    tag.push(69);
    proof {
        assert(tag@ =~= close_tag());
    }
    push_byte_string(&mut buf, &tag);
    TrackingCode(sha256(&buf))
}

/// One cast ballot as recorded in the audit log.
#[derive(Clone, PartialEq, Eq, Debug)]
pub struct CommittedBallot {
    pub tracking_code: TrackingCode,
    pub committed_votes: Vec<Element>,
    pub timestamp: String,
}

impl CommittedBallot {
    pub fn new(tracking_code: TrackingCode, committed_votes: Vec<Element>, timestamp: String) -> (r:
        Self)
        ensures
            r.tracking_code == tracking_code,
            r.committed_votes == committed_votes,
            r.timestamp == timestamp,
    {
        Self { tracking_code, committed_votes, timestamp }
    }

    pub fn votes(&self) -> (r: Vec<Element>)
        ensures
            r@ == self.committed_votes@,
    {
        self.committed_votes.clone()
    }
}

/// The tracking code each entry of the chain must carry: the hash of its
/// predecessor's code (or of the tail, for the first entry), its timestamp,
/// and its committed votes.
pub open spec fn chain_prev(tail: Seq<u8>, entries: Seq<CommittedBallot>, i: int) -> Seq<u8> {
    if i == 0 {
        tail
    } else {
        entries[i - 1].tracking_code.0@
    }
}

/// Every entry's tracking code replays from its predecessor.
pub open spec fn chain_ok(tail: Seq<u8>, entries: Seq<CommittedBallot>) -> bool {
    forall|i: int| 0 <= i < entries.len() ==> (#[trigger] entries[i]).tracking_code.0@
        == tracking_hash(
        chain_prev(tail, entries, i),
        entries[i].timestamp@,
        elem_views(entries[i].committed_votes@),
    )
}

/// The committed votes of all entries, flattened in cast order.
pub open spec fn flat_votes(entries: Seq<CommittedBallot>) -> Seq<Element>
    decreases entries.len(),
{
    if entries.len() == 0 {
        Seq::empty()
    } else {
        flat_votes(entries.drop_last()) + entries.last().committed_votes@
    }
}

/// Two records carry the same bytes: the same tracking code, committed
/// votes, and timestamp characters.
pub open spec fn entries_view_eq(e1: Seq<CommittedBallot>, e2: Seq<CommittedBallot>) -> bool {
    &&& e1.len() == e2.len()
    &&& forall|i: int| 0 <= i < e1.len() ==> {
        &&& (#[trigger] e1[i]).tracking_code.0@ == e2[i].tracking_code.0@
        &&& e1[i].committed_votes@ == e2[i].committed_votes@
        &&& e1[i].timestamp@ == e2[i].timestamp@
    }
}

/// Byte-equal entry lists flatten to the same committed votes.
pub proof fn lemma_flat_votes_view_eq(e1: Seq<CommittedBallot>, e2: Seq<CommittedBallot>)
    requires
        entries_view_eq(e1, e2),
    ensures
        flat_votes(e1) == flat_votes(e2),
    decreases e1.len(),
{
    if e1.len() > 0 {
        assert(entries_view_eq(e1.drop_last(), e2.drop_last()));
        lemma_flat_votes_view_eq(e1.drop_last(), e2.drop_last());
        assert(flat_votes(e1) =~= flat_votes(e2));
    } else {
        assert(flat_votes(e1) =~= flat_votes(e2));
    }
}

/// A replaying chain still replays after copying every record's bytes.
pub proof fn lemma_chain_ok_view_eq(
    tail: Seq<u8>,
    e1: Seq<CommittedBallot>,
    e2: Seq<CommittedBallot>,
)
    requires
        entries_view_eq(e1, e2),
        chain_ok(tail, e1),
    ensures
        chain_ok(tail, e2),
{
    assert forall|i: int| 0 <= i < e2.len() implies (#[trigger] e2[i]).tracking_code.0@
        == tracking_hash(
        chain_prev(tail, e2, i),
        e2[i].timestamp@,
        elem_views(e2[i].committed_votes@),
    ) by {
        assert(e1[i].tracking_code.0@ == tracking_hash(
            chain_prev(tail, e1, i),
            e1[i].timestamp@,
            elem_views(e1[i].committed_votes@),
        ));
        assert(chain_prev(tail, e2, i) == chain_prev(tail, e1, i));
    }
}

/// The record of committed votes: the hash-chained, append-only audit log.
#[derive(Clone, PartialEq, Eq, Debug)]
pub struct RDCV {
    tail: TrackingCode,
    entries: Vec<CommittedBallot>,
    head: Option<TrackingCode>,
}

impl RDCV {
    /// A fresh log with the given chain seed and no entries.
    pub fn new(tail: TrackingCode) -> (r: Self)
        ensures
            r.tail() == tail,
            r.entries_spec() =~= Seq::<CommittedBallot>::empty(),
            r.head_spec() is None,
    {
        Self { tail, entries: Vec::new(), head: None }
    }

    pub closed spec fn tail(&self) -> TrackingCode {
        self.tail
    }

    pub closed spec fn entries_spec(&self) -> Seq<CommittedBallot> {
        self.entries@
    }

    pub closed spec fn head_spec(&self) -> Option<TrackingCode> {
        self.head
    }

    /// Seals the log; the head may be set exactly once, at tally.
    pub fn set_head(&mut self, head: TrackingCode)
        requires
            old(self).head_spec() is None,
        ensures
            final(self).head_spec() == Some(head),
            final(self).tail() == old(self).tail(),
            final(self).entries_spec() == old(self).entries_spec(),
    {
        self.head = Some(head);
    }

    pub fn add_entry(&mut self, entry: CommittedBallot)
        ensures
            final(self).entries_spec() == old(self).entries_spec().push(entry),
            final(self).tail() == old(self).tail(),
            final(self).head_spec() == old(self).head_spec(),
    {
        self.entries.push(entry);
    }

    /// All committed votes in the log, flattened in cast order.
    pub fn votes(&self) -> (r: Vec<Element>)
        ensures
            r@ == flat_votes(self.entries_spec()),
    {
        let mut out: Vec<Element> = Vec::new();
        let n = self.entries.len();
        assert(self.entries@.take(0) =~= Seq::<CommittedBallot>::empty());
        for i in 0..n
            invariant
                n == self.entries@.len(),
                out@ == flat_votes(self.entries@.take(i as int)),
        {
            let mut chunk = self.entries[i].votes();
            let m = chunk.len();
            let ghost before = out@;
            for k in 0..m
                invariant
                    m == chunk@.len(),
                    out@ == before + chunk@.take(k as int),
            {
                out.push(chunk[k]);
                proof {
                    assert(before + chunk@.take(k + 1) =~= (before + chunk@.take(
                        k as int,
                    )).push(chunk@[k as int]));
                }
            }
            proof {
                assert(chunk@.take(chunk@.len() as int) =~= chunk@);
                assert(self.entries@.take(i + 1).drop_last() =~= self.entries@.take(i as int));
                assert(out@ =~= flat_votes(self.entries@.take(i + 1)));
            }
        }
        proof {
            assert(self.entries@.take(self.entries@.len() as int) =~= self.entries@);
        }
        out
    }

    /// A copy of the log whose every record carries the same bytes.
    pub fn duplicate(&self) -> (r: Self)
        ensures
            r.tail().0@ == self.tail().0@,
            r.entries_spec().len() == self.entries_spec().len(),
            forall|i: int| 0 <= i < self.entries_spec().len() ==> {
                &&& (#[trigger] r.entries_spec()[i]).tracking_code.0@
                    == self.entries_spec()[i].tracking_code.0@
                &&& r.entries_spec()[i].committed_votes@ == self.entries_spec()[
                    i
                ].committed_votes@
                &&& r.entries_spec()[i].timestamp@ == self.entries_spec()[i].timestamp@
            },
            r.head_spec() is Some <==> self.head_spec() is Some,
            r.head_spec() is Some ==> r.head_spec().unwrap().0@ == self.head_spec().unwrap().0@,
    {
        let tail = clone_code(&self.tail);
        let mut entries: Vec<CommittedBallot> = Vec::new();
        let n = self.entries.len();
        for i in 0..n
            invariant
                n == self.entries@.len(),
                entries@.len() == i,
                forall|j: int| 0 <= j < i ==> {
                    &&& (#[trigger] entries@[j]).tracking_code.0@ == self.entries@[
                        j
                    ].tracking_code.0@
                    &&& entries@[j].committed_votes@ == self.entries@[j].committed_votes@
                    &&& entries@[j].timestamp@ == self.entries@[j].timestamp@
                },
        {
            let e = &self.entries[i];
            let votes = e.committed_votes.clone();
            proof {
                assert(votes@ =~= self.entries@[i as int].committed_votes@);
            }
            entries.push(CommittedBallot::new(
                clone_code(&e.tracking_code),
                votes,
                clone_string(&e.timestamp),
            ));
        }
        let head: Option<TrackingCode> = match &self.head {
            Some(h) => Some(clone_code(h)),
            None => None,
        };
        Self { tail, entries, head }
    }

    /// The chain seed.
    pub fn get_tail(&self) -> (r: &TrackingCode)
        ensures
            r == self.tail(),
    {
        &self.tail
    }

    pub fn entries(&self) -> (r: &Vec<CommittedBallot>)
        ensures
            r@ == self.entries_spec(),
    {
        &self.entries
    }

    pub fn head(&self) -> (r: &Option<TrackingCode>)
        ensures
            r == self.head_spec(),
    {
        &self.head
    }
}

/// The revealed votes, in shuffled order.
#[derive(Clone, PartialEq, Eq, Debug)]
pub struct RDV {
    pub entries: Vec<Vote>,
}

impl RDV {
    pub fn new(entries: Vec<Vote>) -> (r: Self)
        ensures
            r.entries == entries,
    {
        Self { entries }
    }
}

/// The revealed votes of the shuffled log, in its order.
#[derive(Clone, PartialEq, Eq, Debug)]
pub struct RDVPrime {
    pub entries: Vec<Vote>,
}

impl RDVPrime {
    pub fn new(entries: Vec<Vote>) -> (r: Self)
        ensures
            r.entries == entries,
    {
        Self { entries }
    }
}

/// The shuffled record of committed votes.
#[derive(Clone, PartialEq, Eq, Debug)]
pub struct RDCVPrime {
    entries: Vec<Element>,
}

impl RDCVPrime {
    pub fn new(entries: Vec<Element>) -> (r: Self)
        ensures
            r.entries_spec() == entries@,
    {
        Self { entries }
    }

    pub closed spec fn entries_spec(&self) -> Seq<Element> {
        self.entries@
    }

    pub fn entries(&self) -> (r: &Vec<Element>)
        ensures
            r@ == self.entries_spec(),
    {
        &self.entries
    }
}

/// The sigma-protocol transcript of the shuffle proof:
/// `(t, s, c_list, c_hat_list)`.
pub struct ShuffleProof {
    t: (Element, Element, Element, Element, Vec<Element>),
    s: (Scalar, Scalar, Scalar, Scalar, Vec<Scalar>, Vec<Scalar>),
    c_list: Vec<Element>,
    c_hat_list: Vec<Element>,
}

/// The mathematical content of a shuffle proof: the first move `t`, the
/// responses `s`, the permutation commitment and the chained commitment.
pub struct ShuffleProofView {
    pub t0: int,
    pub t1: int,
    pub t2: int,
    pub t3: int,
    pub t_hat: Seq<int>,
    pub s0: int,
    pub s1: int,
    pub s2: int,
    pub s3: int,
    pub s_hat: Seq<int>,
    pub s_prime: Seq<int>,
    pub c_list: Seq<int>,
    pub c_hat_list: Seq<int>,
}

impl View for ShuffleProof {
    type V = ShuffleProofView;

    closed spec fn view(&self) -> ShuffleProofView {
        ShuffleProofView {
            t0: self.t.0@,
            t1: self.t.1@,
            t2: self.t.2@,
            t3: self.t.3@,
            t_hat: elem_views(self.t.4@),
            s0: self.s.0@,
            s1: self.s.1@,
            s2: self.s.2@,
            s3: self.s.3@,
            s_hat: crate::group::scalar_views(self.s.4@),
            s_prime: crate::group::scalar_views(self.s.5@),
            c_list: elem_views(self.c_list@),
            c_hat_list: elem_views(self.c_hat_list@),
        }
    }
}

/// Every residue in the proof is canonical.
pub open spec fn proof_view_wf(v: ShuffleProofView) -> bool {
    &&& 0 <= v.t0 < Q
    &&& 0 <= v.t1 < Q
    &&& 0 <= v.t2 < Q
    &&& 0 <= v.t3 < Q
    &&& 0 <= v.s0 < Q
    &&& 0 <= v.s1 < Q
    &&& 0 <= v.s2 < Q
    &&& 0 <= v.s3 < Q
    &&& forall|i: int| 0 <= i < v.t_hat.len() ==> 0 <= #[trigger] v.t_hat[i] < Q
    &&& forall|i: int| 0 <= i < v.s_hat.len() ==> 0 <= #[trigger] v.s_hat[i] < Q
    &&& forall|i: int| 0 <= i < v.s_prime.len() ==> 0 <= #[trigger] v.s_prime[i] < Q
    &&& forall|i: int| 0 <= i < v.c_list.len() ==> 0 <= #[trigger] v.c_list[i] < Q
    &&& forall|i: int| 0 <= i < v.c_hat_list.len() ==> 0 <= #[trigger] v.c_hat_list[i] < Q
}

impl ShuffleProof {
    pub fn new(
        t: (Element, Element, Element, Element, Vec<Element>),
        s: (Scalar, Scalar, Scalar, Scalar, Vec<Scalar>, Vec<Scalar>),
        c_list: Vec<Element>,
        c_hat_list: Vec<Element>,
    ) -> (r: Self)
        ensures
            r@ == (ShuffleProofView {
                t0: t.0@,
                t1: t.1@,
                t2: t.2@,
                t3: t.3@,
                t_hat: elem_views(t.4@),
                s0: s.0@,
                s1: s.1@,
                s2: s.2@,
                s3: s.3@,
                s_hat: crate::group::scalar_views(s.4@),
                s_prime: crate::group::scalar_views(s.5@),
                c_list: elem_views(c_list@),
                c_hat_list: elem_views(c_hat_list@),
            }),
    {
        Self { t, s, c_list, c_hat_list }
    }

    /// The four transcript components, cloned out.
    pub fn components(&self) -> (r: (
        (Element, Element, Element, Element, Vec<Element>),
        (Scalar, Scalar, Scalar, Scalar, Vec<Scalar>, Vec<Scalar>),
        Vec<Element>,
        Vec<Element>,
    ))
        ensures
            r.0.0@ == self@.t0,
            r.0.1@ == self@.t1,
            r.0.2@ == self@.t2,
            r.0.3@ == self@.t3,
            elem_views(r.0.4@) == self@.t_hat,
            r.1.0@ == self@.s0,
            r.1.1@ == self@.s1,
            r.1.2@ == self@.s2,
            r.1.3@ == self@.s3,
            crate::group::scalar_views(r.1.4@) == self@.s_hat,
            crate::group::scalar_views(r.1.5@) == self@.s_prime,
            elem_views(r.2@) == self@.c_list,
            elem_views(r.3@) == self@.c_hat_list,
    {
        let r = (
            (self.t.0, self.t.1, self.t.2, self.t.3, self.t.4.clone()),
            (
                self.s.0,
                self.s.1,
                self.s.2,
                self.s.3,
                self.s.4.clone(),
                self.s.5.clone(),
            ),
            self.c_list.clone(),
            self.c_hat_list.clone(),
        );
        proof {
            assert(elem_views(r.0.4@) =~= self@.t_hat);
            assert(crate::group::scalar_views(r.1.4@) =~= self@.s_hat);
            assert(crate::group::scalar_views(r.1.5@) =~= self@.s_prime);
            assert(elem_views(r.2@) =~= self@.c_list);
            assert(elem_views(r.3@) =~= self@.c_hat_list);
        }
        r
    }
}

/// The proof bundle published at close: the verifying key, the shuffle
/// proof, and the opening witnesses for the shuffled log, in its order.
pub struct ZKPOutput {
    pub verifying_key: Vec<u8>,
    pub shuffle_proof: ShuffleProof,
    pub m_list: Vec<Scalar>,
    pub r_list: Vec<Scalar>,
}

impl ZKPOutput {
    pub fn new(
        verifying_key: Vec<u8>,
        shuffle_proof: ShuffleProof,
        m_list: Vec<Scalar>,
        r_list: Vec<Scalar>,
    ) -> (r: Self)
        ensures
            r.verifying_key == verifying_key,
            r.shuffle_proof == shuffle_proof,
            r.m_list == m_list,
            r.r_list == r_list,
    {
        Self { verifying_key, shuffle_proof, m_list, r_list }
    }
}

/// The election's public cryptographic parameters.
#[derive(Clone, PartialEq, Eq, Debug)]
pub struct CryptoParams {
    /// The Pedersen blinding base.
    pub h: Element,
    /// The per-position generators, sized to the election.
    pub h_list: Vec<Element>,
}

/// Static description of one contest.
#[derive(Clone, PartialEq, Eq, Debug)]
pub struct ContestInfo {
    pub contest_id: u32,
    pub name: String,
    pub num_choices: u16,
}

/// The configuration produced at election setup.
#[derive(Clone, PartialEq, Eq, Debug)]
pub struct InfoContest {
    pub crypto: CryptoParams,
    pub contests: Vec<ContestInfo>,
}

} // verus!
