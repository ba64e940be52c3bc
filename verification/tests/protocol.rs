//! The ballot state machine end to end: commit, challenge-or-cast, tally,
//! hash-chain replay, and universal verification.

use mixnet_rust::e2easy::{E2Easy, ProtocolError};
use mixnet_rust::group::{Element, Q};
use mixnet_rust::pedersen::Pedersen;
use mixnet_rust::shuffle_verifier::{replay_chain, verify_election_records, Verifier};
use mixnet_rust::types::{
    compute_tracking_code, CommittedBallot, ContestInfo, TrackingCode, Vote, RDCV,
};
use mixnet_rust::utils::derive_nonces;
use sha2::Digest;

fn generators(n: u64) -> Vec<Element> {
    (0..n).map(|i| Element { value: (i * 7919 + 13) % Q }).collect()
}

fn contests() -> Vec<ContestInfo> {
    vec![
        ContestInfo { contest_id: 0, name: "president".to_string(), num_choices: 5 },
        ContestInfo { contest_id: 1, name: "governor".to_string(), num_choices: 5 },
    ]
}

fn machine() -> (E2Easy, Element) {
    let h = Element { value: 1_000_003 };
    let e2easy = E2Easy::new(&h, generators(16), contests());
    (e2easy, h)
}

#[test]
fn end_to_end_election() {
    let (mut e2easy, h) = machine();

    // First voter casts.
    let (_tc1, _ts1) = e2easy.vote(vec![Vote::new(0, 1), Vote::new(1, 1)]).unwrap();
    let sig1 = e2easy.cast().unwrap();
    assert_eq!(sig1.len(), 64);

    // Second voter challenges; the revealed seed re-derives the code.
    let (tc2, ts2) = e2easy.vote(vec![Vote::new(0, 2), Vote::new(1, 2)]).unwrap();
    let (prev, commitments, seed) = e2easy.challenge().unwrap();
    let nonces = derive_nonces(&seed.value.to_be_bytes().to_vec(), 2);
    let pedersen = Pedersen::new(&h);
    let votes2 = [Vote::new(0, 2), Vote::new(1, 2)];
    let mut recomputed = Vec::new();
    for (v, nonce) in votes2.iter().zip(nonces.iter()) {
        recomputed.push(pedersen.commit(&v.to_scalar(), nonce));
    }
    assert_eq!(recomputed, commitments);
    let replayed = compute_tracking_code(&prev, &ts2, &recomputed);
    assert_eq!(replayed, tc2);

    // Third voter casts, then the election closes.
    let (_tc3, _ts3) = e2easy.vote(vec![Vote::new(0, 3), Vote::new(1, 3)]).unwrap();
    e2easy.cast().unwrap();
    let (rdv, rdcv, rdcv_prime, zkp) = e2easy.tally().unwrap();

    // The challenged ballot is excluded.
    assert_eq!(rdcv.entries().len(), 2);
    assert_eq!(rdcv_prime.entries().len(), 4);
    assert_eq!(rdv.entries.len(), 4);
    assert_eq!(zkp.m_list.len(), 4);
    assert_eq!(zkp.r_list.len(), 4);

    // The shuffle proof verifies against the published lists.
    let h_sub: Vec<Element> = generators(16).into_iter().take(4).collect();
    let verifier = Verifier::new(h_sub);
    assert!(verifier.check_proof(&zkp.shuffle_proof, &rdcv.votes(), rdcv_prime.entries()));

    // Every shuffled commitment opens to its published witness.
    assert!(pedersen.verify_list(&zkp.m_list, &zkp.r_list, rdcv_prime.entries()));

    // The revealed votes are the cast votes, as a multiset.
    let mut revealed: Vec<(u8, u8)> = rdv.entries.iter().map(|v| (v.contest, v.choice)).collect();
    revealed.sort();
    assert_eq!(revealed, vec![(0, 1), (0, 3), (1, 1), (1, 3)]);

    // The hash chain replays and the head seals it.
    assert!(replay_chain(&rdcv));

    // The full third-party verification accepts.
    assert!(verify_election_records(&h, &generators(16), &rdv, &rdcv, &rdcv_prime, &zkp));
}

#[test]
fn chain_replay_rejects_tampering() {
    let (mut e2easy, _h) = machine();
    e2easy.vote(vec![Vote::new(0, 1)]).unwrap();
    e2easy.cast().unwrap();
    e2easy.vote(vec![Vote::new(0, 2)]).unwrap();
    e2easy.cast().unwrap();
    let (_rdv, rdcv, _rdcv_prime, _zkp) = e2easy.tally().unwrap();
    assert!(replay_chain(&rdcv));

    // Rebuild the log with one flipped tracking-code byte.
    let mut tampered = RDCV::new(rdcv.get_tail().clone());
    for (i, e) in rdcv.entries().iter().enumerate() {
        let mut code = e.tracking_code.0.clone();
        if i == 1 {
            code[0] ^= 1;
        }
        tampered.add_entry(CommittedBallot::new(
            TrackingCode(code),
            e.committed_votes.clone(),
            e.timestamp.clone(),
        ));
    }
    tampered.set_head(rdcv.head().clone().unwrap());
    assert!(!replay_chain(&tampered));

    // A log without a head does not replay either.
    let mut no_head = RDCV::new(rdcv.get_tail().clone());
    for e in rdcv.entries().iter() {
        no_head.add_entry(e.clone());
    }
    assert!(!replay_chain(&no_head));
}

#[test]
fn vote_rejects_out_of_range_votes() {
    let (mut e2easy, _h) = machine();
    // Unknown contest.
    assert_eq!(
        e2easy.vote(vec![Vote::new(7, 1)]),
        Err(ProtocolError::ValidationError)
    );
    // Choice zero is not an option.
    assert_eq!(
        e2easy.vote(vec![Vote::new(0, 0)]),
        Err(ProtocolError::ValidationError)
    );
    // Choice above the contest's range.
    assert_eq!(
        e2easy.vote(vec![Vote::new(0, 6)]),
        Err(ProtocolError::ValidationError)
    );
    // The largest configured choice is accepted.
    assert!(e2easy.vote(vec![Vote::new(0, 5)]).is_ok());
}

#[test]
fn vote_rejects_second_pending_ballot() {
    let (mut e2easy, _h) = machine();
    e2easy.vote(vec![Vote::new(0, 1)]).unwrap();
    assert_eq!(
        e2easy.vote(vec![Vote::new(0, 2)]),
        Err(ProtocolError::ValidationError)
    );
}

#[test]
fn cast_and_challenge_require_a_pending_ballot() {
    let (mut e2easy, _h) = machine();
    assert_eq!(e2easy.cast(), Err(ProtocolError::ProtocolStateError));
    assert!(e2easy.challenge().is_err());
    e2easy.vote(vec![Vote::new(0, 1)]).unwrap();
    assert!(e2easy.cast().is_ok());
    assert_eq!(e2easy.cast(), Err(ProtocolError::ProtocolStateError));
}

#[test]
fn tally_runs_exactly_once() {
    let (mut e2easy, _h) = machine();
    e2easy.vote(vec![Vote::new(0, 1)]).unwrap();
    e2easy.cast().unwrap();
    assert!(e2easy.tally().is_ok());
    assert!(matches!(e2easy.tally(), Err(ProtocolError::ProtocolStateError)));
    // No ballot operation is accepted after the close.
    assert_eq!(
        e2easy.vote(vec![Vote::new(0, 1)]),
        Err(ProtocolError::ProtocolStateError)
    );
    assert_eq!(e2easy.cast(), Err(ProtocolError::ProtocolStateError));
    assert!(matches!(e2easy.challenge(), Err(ProtocolError::ProtocolStateError)));
}

#[test]
fn challenge_is_refused_after_the_close_even_with_a_pending_ballot() {
    let (mut e2easy, _h) = machine();
    e2easy.vote(vec![Vote::new(0, 1)]).unwrap();
    e2easy.cast().unwrap();
    // A ballot is still pending when the election closes; it may no longer
    // be challenged or cast afterwards.
    e2easy.vote(vec![Vote::new(0, 2)]).unwrap();
    assert!(e2easy.tally().is_ok());
    assert!(matches!(e2easy.challenge(), Err(ProtocolError::ProtocolStateError)));
    assert_eq!(e2easy.cast(), Err(ProtocolError::ProtocolStateError));
}

#[test]
fn tally_rejects_an_empty_election() {
    let (mut e2easy, _h) = machine();
    assert!(matches!(e2easy.tally(), Err(ProtocolError::ProtocolStateError)));
}

#[test]
fn tally_reports_missing_generators_as_a_fault() {
    let h = Element { value: 1_000_003 };
    let mut e2easy = E2Easy::new(&h, generators(1), contests());
    e2easy.vote(vec![Vote::new(0, 1), Vote::new(1, 1)]).unwrap();
    e2easy.cast().unwrap();
    assert_eq!(
        e2easy.tally().map(|_| ()),
        Err(ProtocolError::InternalCryptoFault)
    );
}

#[test]
fn genesis_tail_is_the_start_digest() {
    let (mut e2easy, _h) = machine();
    e2easy.vote(vec![Vote::new(0, 1)]).unwrap();
    e2easy.cast().unwrap();
    let (_rdv, rdcv, _rdcv_prime, _zkp) = e2easy.tally().unwrap();
    let expected = sha2::Sha256::digest(b"start").to_vec();
    assert_eq!(rdcv.get_tail().0, expected);
}

#[test]
fn election_verification_rejects_tampered_witnesses() {
    let (mut e2easy, h) = machine();
    e2easy.vote(vec![Vote::new(0, 1), Vote::new(1, 2)]).unwrap();
    e2easy.cast().unwrap();
    let (rdv, rdcv, rdcv_prime, mut zkp) = e2easy.tally().unwrap();
    assert!(verify_election_records(&h, &generators(16), &rdv, &rdcv, &rdcv_prime, &zkp));
    zkp.m_list[0] = mixnet_rust::group::Scalar { value: (zkp.m_list[0].value + 1) % Q };
    assert!(!verify_election_records(&h, &generators(16), &rdv, &rdcv, &rdcv_prime, &zkp));
}

#[test]
fn check_proof_rejects_mismatched_lengths() {
    let (mut e2easy, _h) = machine();
    e2easy.vote(vec![Vote::new(0, 1), Vote::new(1, 2)]).unwrap();
    e2easy.cast().unwrap();
    let (_rdv, rdcv, rdcv_prime, zkp) = e2easy.tally().unwrap();
    // A verifier sized to a different election rejects the proof outright.
    let verifier = Verifier::new(generators(3));
    assert!(!verifier.check_proof(&zkp.shuffle_proof, &rdcv.votes(), rdcv_prime.entries()));
}

#[test]
fn artifact_signatures_verify_under_the_machine_key() {
    let (mut e2easy, _h) = machine();
    e2easy.vote(vec![Vote::new(0, 1)]).unwrap();
    e2easy.cast().unwrap();
    let payload = b"serialized artifact".to_vec();
    let sig = e2easy.sign(&payload);
    let vk = e2easy.verifying_key();
    assert!(mixnet_rust::keys::verify_bytes(&vk, &payload, &sig));
}
