//! The shuffle proof: completeness on concrete data, rejection of every
//! single-field mutation, and the permutation's statistics.

use mixnet_rust::group::{Element, Scalar, Q};
use mixnet_rust::shuffler::Shuffler;
use mixnet_rust::shuffle_verifier::Verifier;
use mixnet_rust::types::ShuffleProof;

fn sample_generators(n: u64) -> Vec<Element> {
    (0..n).map(|i| Element { value: (i * 7919 + 13) % Q }).collect()
}

fn sample_commitments(n: u64) -> Vec<Element> {
    (0..n).map(|i| Element { value: (i * 104729 + 7) % Q }).collect()
}

#[test]
fn shuffle_proof_verifies() {
    let n = 6;
    let h_list = sample_generators(n);
    let commit_list = sample_commitments(n);
    let shuffler = Shuffler::new(h_list.clone());
    let verifier = Verifier::new(h_list);
    let (shuffled, r_prime_list, psi) = shuffler.gen_shuffle(&commit_list);
    let proof = shuffler.gen_proof(&commit_list, &shuffled, &r_prime_list, &psi);
    assert!(verifier.check_proof(&proof, &commit_list, &shuffled));
}

#[test]
fn shuffle_proof_rejects_wrong_statement() {
    let n = 4;
    let h_list = sample_generators(n);
    let commit_list = sample_commitments(n);
    let shuffler = Shuffler::new(h_list.clone());
    let verifier = Verifier::new(h_list);
    let (shuffled, r_prime_list, psi) = shuffler.gen_shuffle(&commit_list);
    let proof = shuffler.gen_proof(&commit_list, &shuffled, &r_prime_list, &psi);
    // Flipping a single element of the shuffled list must reject.
    for i in 0..n as usize {
        let mut tampered = shuffled.clone();
        tampered[i] = Element { value: (tampered[i].value + 1) % Q };
        assert!(!verifier.check_proof(&proof, &commit_list, &tampered));
    }
}

fn flip_scalar(s: Scalar) -> Scalar {
    Scalar { value: (s.value + 1) % Q }
}

fn flip_element(e: Element) -> Element {
    Element { value: (e.value + 1) % Q }
}

#[test]
fn shuffle_proof_rejects_every_single_field_mutation() {
    let n = 4;
    let h_list = sample_generators(n);
    let commit_list = sample_commitments(n);
    let shuffler = Shuffler::new(h_list.clone());
    let verifier = Verifier::new(h_list);
    let (shuffled, r_prime_list, psi) = shuffler.gen_shuffle(&commit_list);
    let proof = shuffler.gen_proof(&commit_list, &shuffled, &r_prime_list, &psi);
    assert!(verifier.check_proof(&proof, &commit_list, &shuffled));
    let (t, s, c_list, c_hat_list) = proof.components();

    // One mutated transcript per case; each must be rejected.
    let mut mutations: Vec<ShuffleProof> = Vec::new();
    {
        let mut t2 = t.clone();
        t2.0 = flip_element(t2.0);
        mutations.push(ShuffleProof::new(t2, s.clone(), c_list.clone(), c_hat_list.clone()));
    }
    {
        let mut t2 = t.clone();
        t2.1 = flip_element(t2.1);
        mutations.push(ShuffleProof::new(t2, s.clone(), c_list.clone(), c_hat_list.clone()));
    }
    {
        let mut t2 = t.clone();
        t2.2 = flip_element(t2.2);
        mutations.push(ShuffleProof::new(t2, s.clone(), c_list.clone(), c_hat_list.clone()));
    }
    {
        let mut t2 = t.clone();
        t2.3 = flip_element(t2.3);
        mutations.push(ShuffleProof::new(t2, s.clone(), c_list.clone(), c_hat_list.clone()));
    }
    for i in 0..n as usize {
        let mut t2 = t.clone();
        t2.4[i] = flip_element(t2.4[i]);
        mutations.push(ShuffleProof::new(t2, s.clone(), c_list.clone(), c_hat_list.clone()));
    }
    {
        let mut s2 = s.clone();
        s2.0 = flip_scalar(s2.0);
        mutations.push(ShuffleProof::new(t.clone(), s2, c_list.clone(), c_hat_list.clone()));
    }
    {
        let mut s2 = s.clone();
        s2.1 = flip_scalar(s2.1);
        mutations.push(ShuffleProof::new(t.clone(), s2, c_list.clone(), c_hat_list.clone()));
    }
    {
        let mut s2 = s.clone();
        s2.2 = flip_scalar(s2.2);
        mutations.push(ShuffleProof::new(t.clone(), s2, c_list.clone(), c_hat_list.clone()));
    }
    {
        let mut s2 = s.clone();
        s2.3 = flip_scalar(s2.3);
        mutations.push(ShuffleProof::new(t.clone(), s2, c_list.clone(), c_hat_list.clone()));
    }
    for i in 0..n as usize {
        let mut s2 = s.clone();
        s2.4[i] = flip_scalar(s2.4[i]);
        mutations.push(ShuffleProof::new(t.clone(), s2, c_list.clone(), c_hat_list.clone()));
        let mut s3 = s.clone();
        s3.5[i] = flip_scalar(s3.5[i]);
        mutations.push(ShuffleProof::new(t.clone(), s3, c_list.clone(), c_hat_list.clone()));
    }
    for i in 0..n as usize {
        let mut c2 = c_list.clone();
        c2[i] = flip_element(c2[i]);
        mutations.push(ShuffleProof::new(t.clone(), s.clone(), c2, c_hat_list.clone()));
        let mut ch2 = c_hat_list.clone();
        ch2[i] = flip_element(ch2[i]);
        mutations.push(ShuffleProof::new(t.clone(), s.clone(), c_list.clone(), ch2));
    }

    for (k, tampered) in mutations.iter().enumerate() {
        assert!(
            !verifier.check_proof(tampered, &commit_list, &shuffled),
            "mutation {} was accepted",
            k
        );
    }
}

#[test]
fn permutation_is_a_bijection() {
    let n = 16;
    let shuffler = Shuffler::new(sample_generators(n));
    for _ in 0..50 {
        let psi = shuffler.gen_permutation();
        let mut seen = vec![false; n as usize];
        for &v in &psi {
            assert!(v < n as usize);
            assert!(!seen[v]);
            seen[v] = true;
        }
    }
}

#[test]
fn permutation_positions_are_uniform() {
    let n: usize = 5;
    let trials = 5000usize;
    let shuffler = Shuffler::new(sample_generators(n as u64));
    let mut counts = vec![vec![0usize; n]; n];
    let mut fixed_points = 0usize;
    for _ in 0..trials {
        let psi = shuffler.gen_permutation();
        for (pos, &v) in psi.iter().enumerate() {
            counts[pos][v] += 1;
            if pos == v {
                fixed_points += 1;
            }
        }
    }
    let expected = trials as f64 / n as f64;
    for pos in 0..n {
        for v in 0..n {
            let c = counts[pos][v] as f64;
            // Roughly seven standard deviations of slack.
            assert!(
                (c - expected).abs() < 200.0,
                "position {} value {} count {}",
                pos,
                v,
                c
            );
        }
    }
    // Each trial has one expected fixed point; no bias toward many more.
    let avg = fixed_points as f64 / trials as f64;
    assert!(avg > 0.7 && avg < 1.3, "average fixed points {}", avg);
}
