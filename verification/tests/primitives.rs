//! Commitments, vote encoding, hashing, keys, and the modular backend.

use mixnet_rust::group::{Element, Scalar, Q};
use mixnet_rust::pedersen::Pedersen;
use mixnet_rust::types::Vote;
use mixnet_rust::utils::{scalar_from_bytes, sha256, random_scalar, derive_nonces, summation};
use mixnet_rust::keys::{keygen, verify_bytes, SignatureKeys};
use mixnet_rust::groups::u32_mod::{modmul, modexp, modinv, is_prime, safe_prime, U32ModGroup};

#[test]
fn pedersen_round_trip() {
    let h = Element { value: 5 };
    let pedersen = Pedersen::new(&h);
    let m = Scalar { value: 3 };
    let r = Scalar { value: 7 };
    let c = pedersen.commit(&m, &r);
    // commit = G·r + h·m = 7 + 5·3 = 22 in the additive model
    assert_eq!(c.value, 22);
    assert!(pedersen.verify(&m, &r, &c));
}

#[test]
fn pedersen_rejects_wrong_openings() {
    let h = Element { value: 1234577 };
    let pedersen = Pedersen::new(&h);
    let m = Scalar { value: 1001 };
    let r = Scalar { value: 40404 };
    let c = pedersen.commit(&m, &r);
    assert!(!pedersen.verify(&Scalar { value: 1002 }, &r, &c));
    assert!(!pedersen.verify(&m, &Scalar { value: 40405 }, &c));
    assert!(!pedersen.verify(&Scalar { value: 1002 }, &Scalar { value: 40405 }, &c));
}

#[test]
fn pedersen_verify_list_rejects_any_failure() {
    let h = Element { value: 99 };
    let pedersen = Pedersen::new(&h);
    let ms = vec![Scalar { value: 1 }, Scalar { value: 2 }];
    let rs = vec![Scalar { value: 3 }, Scalar { value: 4 }];
    let cs = pedersen.commit_list(&ms, &rs);
    assert!(pedersen.verify_list(&ms, &rs, &cs));
    let mut bad = cs.clone();
    bad[1] = Element { value: (bad[1].value + 1) % Q };
    assert!(!pedersen.verify_list(&ms, &rs, &bad));
}

#[test]
fn vote_scalar_round_trip() {
    for contest in [0u8, 1, 2, 17, 255] {
        for choice in [0u8, 1, 5, 128, 255] {
            let v = Vote::new(contest, choice);
            let s = v.to_scalar();
            assert_eq!(s.value as u32, (contest as u32) * 256 + choice as u32);
            let back = Vote::from_scalar(s);
            assert_eq!(back, v);
        }
    }
}

#[test]
fn vote_bytes_round_trip() {
    let v = Vote::new(3, 9);
    let bytes = v.to_bytes();
    assert_eq!(bytes, vec![3, 9]);
    assert_eq!(Vote::from_bytes(&bytes), v);
}

#[test]
fn scalar_from_bytes_reduces_big_endian() {
    assert_eq!(scalar_from_bytes(&vec![]).value, 0);
    assert_eq!(scalar_from_bytes(&vec![1, 0]).value, 256);
    assert_eq!(scalar_from_bytes(&vec![0xff]).value, 255);
    // 2^31 - 1 is the group order, so it reduces to zero.
    assert_eq!(scalar_from_bytes(&vec![0x7f, 0xff, 0xff, 0xff]).value, 0);
    assert_eq!(scalar_from_bytes(&vec![0x80, 0x00, 0x00, 0x00]).value, 1);
}

#[test]
fn sha256_wrapper_matches_known_vector() {
    let digest = sha256(&b"abc".to_vec());
    assert_eq!(
        hex::encode(&digest),
        "ba7816bf8f01cfea414140de5dae2223b00361a396177a9cb410ff61f20015ad"
    );
    assert_eq!(digest.len(), 32);
}

#[test]
fn derive_nonces_is_deterministic_and_position_dependent() {
    let seed = vec![1, 2, 3, 4];
    let a = derive_nonces(&seed, 3);
    let b = derive_nonces(&seed, 3);
    assert_eq!(a.len(), 3);
    for i in 0..3 {
        assert_eq!(a[i].value, b[i].value);
        assert!(a[i].value < Q);
    }
    assert_ne!(a[0].value, a[1].value);
    let other = derive_nonces(&vec![1, 2, 3, 5], 3);
    assert_ne!(a[0].value, other[0].value);
}

#[test]
fn random_scalar_in_range() {
    for _ in 0..100 {
        assert!(random_scalar().value < Q);
    }
}

#[test]
fn summation_adds_modulo_group_order() {
    let list = vec![
        Element { value: Q - 1 },
        Element { value: 2 },
    ];
    assert_eq!(summation(list).value, 1);
}

#[test]
fn ed25519_sign_verify_round_trip() {
    let keys = SignatureKeys::new();
    let msg = b"ballot".to_vec();
    let sig = keys.sign(&msg);
    assert_eq!(sig.len(), 64);
    let vk = keys.verifying_key();
    assert_eq!(vk.len(), 32);
    assert!(verify_bytes(&vk, &msg, &sig));
    assert!(!verify_bytes(&vk, &b"other".to_vec(), &sig));
    let mut bad_sig = sig.clone();
    bad_sig[0] ^= 1;
    assert!(!verify_bytes(&vk, &msg, &bad_sig));
}

#[test]
fn elgamal_round_trip() {
    let (enc, _sig) = keygen();
    let m = Element { value: 424242 };
    let r = random_scalar();
    let c = enc.encrypt(&m, &r);
    assert_eq!(enc.decrypt(&c).value, m.value);
}

#[test]
fn modular_arithmetic_basics() {
    assert_eq!(modmul(7, 8, 10), 6);
    assert_eq!(modmul(0xffff_ffff, 0xffff_ffff, 0xfff_fffd), 2209);
}

#[test]
fn modexp_matches_known_values() {
    assert_eq!(modexp(2, 10, 1000), 24);
    assert_eq!(modexp(3, 0, 17), 1);
    assert_eq!(modexp(5, 3, 7), 6);
    assert_eq!(modexp(9, 1, 1), 0);
}

#[test]
fn modinv_finds_inverses() {
    let inv = modinv(3, 7).unwrap();
    assert_eq!((3 * inv) % 7, 1);
    assert_eq!(modinv(6, 9), None);
    let inv2 = modinv(12345, 2147483647).unwrap();
    assert_eq!((12345u64 * inv2 as u64) % 2147483647, 1);
}

#[test]
fn primality_by_trial_division() {
    assert!(!is_prime(0));
    assert!(!is_prime(1));
    assert!(is_prime(2));
    assert!(is_prime(3));
    assert!(!is_prime(4));
    assert!(is_prime(17));
    assert!(!is_prime(21));
    assert!(is_prime(2147483647));
    assert!(!is_prime(2147483646));
}

#[test]
fn safe_prime_output_is_consistent() {
    if let Some((p, q)) = safe_prime(1000) {
        assert_eq!(p, 2 * q + 1);
        assert!(is_prime(p));
        assert!(is_prime(q));
        assert!(q < 1000);
    }
}

#[test]
fn u32_group_operations() {
    // p = 23 = 2*11 + 1, g = 4 generates the order-11 subgroup.
    let group = U32ModGroup::new(23, 11, 4);
    let a = group.one();
    let b = group.one();
    let sum = a.add(&b);
    assert_eq!(sum.value, 2);
    let e = group.identity();
    assert_eq!(e.value, 1);
    let g1 = group.mul_generator(&sum);
    assert_eq!(g1.value, 16);
    let prod = g1.add(&g1);
    assert_eq!(prod.value, (16 * 16) % 23);
    let inv = g1.inv().unwrap();
    assert_eq!((g1.value * inv.value) % 23, 1);
}
