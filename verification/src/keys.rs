//! Key material: Ed25519 signing keys for notarizing the published
//! artifacts, and ElGamal-style encryption keys over the protocol group.

use vstd::prelude::*;
use crate::group::{
    Element, Scalar, Q, madd, mmul, mneg, lemma_add_cong, lemma_sub_cong,
};
use crate::utils::random_scalar;
use ed25519_dalek::{Signer, Verifier};

verus! {

#[verifier::external_type_specification]
#[verifier::external_body]
pub struct ExSigningKey(ed25519_dalek::SigningKey);

#[verifier::external_type_specification]
#[verifier::external_body]
pub struct ExVerifyingKey(ed25519_dalek::VerifyingKey);

/// Whether `sig` is a valid Ed25519 signature on `msg` under the verifying
/// key encoded by `vk`; named but not written out.  Malformed key or
/// signature encodings never verify.
pub uninterp spec fn ed25519_verifies(vk: Seq<u8>, msg: Seq<u8>, sig: Seq<u8>) -> bool;

/// Relies on ed25519_dalek::SigningKey::generate with the operating
/// system's secure random source.
#[verifier::external_body]
pub fn generate_signing_key() -> (r: ed25519_dalek::SigningKey) {
    ed25519_dalek::SigningKey::generate(&mut rand_core::OsRng)
}

/// Relies on ed25519_dalek::SigningKey::verifying_key.
#[verifier::external_body]
pub fn verifying_key_of(sk: &ed25519_dalek::SigningKey) -> (r: ed25519_dalek::VerifyingKey) {
    sk.verifying_key()
}

/// Relies on ed25519_dalek::VerifyingKey::to_bytes: the 32-byte public key
/// encoding.
#[verifier::external_body]
pub fn verifying_key_bytes(vk: &ed25519_dalek::VerifyingKey) -> (r: Vec<u8>)
    ensures
        r@.len() == 32,
{
    vk.to_bytes().to_vec()
}

/// Relies on ed25519_dalek::SigningKey::sign (deterministic RFC 8032
/// signing) and Signature::to_bytes: a 64-byte signature on the message.
#[verifier::external_body]
pub fn sign_bytes(sk: &ed25519_dalek::SigningKey, msg: &Vec<u8>) -> (r: Vec<u8>)
    ensures
        r@.len() == 64,
{
    sk.sign(msg.as_slice()).to_bytes().to_vec()
}

/// Relies on ed25519_dalek::VerifyingKey::verify, a deterministic function
/// of the key, message and signature bytes alone; a key or signature that
/// does not decode never verifies.
#[verifier::external_body]
pub fn verify_bytes(vk: &Vec<u8>, msg: &Vec<u8>, sig: &Vec<u8>) -> (r: bool)
    ensures
        r == ed25519_verifies(vk@, msg@, sig@),
{
    let Ok(vk_arr) = <[u8; 32]>::try_from(vk.as_slice()) else { return false };
    let Ok(key) = ed25519_dalek::VerifyingKey::from_bytes(&vk_arr) else { return false };
    let Ok(signature) = ed25519_dalek::Signature::from_slice(sig.as_slice()) else {
        return false };
    key.verify(msg.as_slice(), &signature).is_ok()
}

/// An Ed25519 keypair used to notarize artifacts.
pub struct SignatureKeys {
    pub sk: ed25519_dalek::SigningKey,
    pub vk: ed25519_dalek::VerifyingKey,
}

impl SignatureKeys {
    /// A freshly generated keypair.
    pub fn new() -> (r: Self) {
        let sk = generate_signing_key();
        let vk = verifying_key_of(&sk);
        Self { sk, vk }
    }

    /// Signs a message, returning the 64 signature bytes.
    pub fn sign(&self, m: &Vec<u8>) -> (r: Vec<u8>)
        ensures
            r@.len() == 64,
    {
        sign_bytes(&self.sk, m)
    }

    /// The 32-byte encoding of the verifying key.
    pub fn verifying_key(&self) -> (r: Vec<u8>)
        ensures
            r@.len() == 32,
    {
        verifying_key_bytes(&self.vk)
    }

    /// Checks a signature against this keypair's verifying key.
    pub fn verify(&self, m: &Vec<u8>, signature: &Vec<u8>) -> bool {
        let vk = self.verifying_key();
        verify_bytes(&vk, m, signature)
    }
}

/// An ElGamal ciphertext over the protocol group.
#[derive(Clone, Copy, PartialEq, Eq, Structural, Debug)]
pub struct Ciphertext(pub Element, pub Element);

/// The decryption key: a secret scalar.
pub struct SecretKey {
    pub scalar: Scalar,
}

/// The encryption key: the group element `G` times the secret scalar.
#[derive(Clone, Copy, Debug)]
pub struct PublicKey {
    pub element: Element,
}

/// Both halves of an encryption keypair.
pub struct EncryptionKeys {
    pub sk: SecretKey,
    pub pk: PublicKey,
}

impl SecretKey {
    /// A fresh random decryption key.
    pub fn new() -> (r: Self)
        ensures
            r.scalar.wf(),
    {
        Self { scalar: random_scalar() }
    }

    /// Removes the shared secret from the first ciphertext component.
    pub fn decrypt(&self, c: &Ciphertext) -> (r: Element)
        requires
            self.scalar.wf(),
            c.0.wf(),
            c.1.wf(),
        ensures
            r.wf(),
            r@ == madd(c.0@, mneg(mmul(c.1@, self.scalar@))),
    {
        c.0.add(&c.1.mul_scalar(&self.scalar).inv())
    }

    /// The matching encryption key.
    pub fn public_key(&self) -> (r: PublicKey)
        requires
            self.scalar.wf(),
        ensures
            r.element.wf(),
            r.element@ == self.scalar@,
    {
        PublicKey { element: Element::mul_generator(&self.scalar) }
    }
}

impl PublicKey {
    /// Encrypts `m` under randomness `r`: `(m + pk·r, G·r)`.
    pub fn encrypt(&self, m: &Element, r: &Scalar) -> (c: Ciphertext)
        requires
            self.element.wf(),
            m.wf(),
            r.wf(),
        ensures
            c.0.wf(),
            c.1.wf(),
            c.0@ == madd(m@, mmul(self.element@, r@)),
            c.1@ == r@,
    {
        let c1 = m.add(&self.element.mul_scalar(r));
        let c2 = Element::mul_generator(r);
        Ciphertext(c1, c2)
    }
}

impl EncryptionKeys {
    pub fn encrypt(&self, m: &Element, r: &Scalar) -> (c: Ciphertext)
        requires
            self.pk.element.wf(),
            m.wf(),
            r.wf(),
        ensures
            c.0.wf(),
            c.1.wf(),
            c.0@ == madd(m@, mmul(self.pk.element@, r@)),
            c.1@ == r@,
    {
        self.pk.encrypt(m, r)
    }

    pub fn decrypt(&self, c: &Ciphertext) -> (r: Element)
        requires
            self.sk.scalar.wf(),
            c.0.wf(),
            c.1.wf(),
        ensures
            r.wf(),
            r@ == madd(c.0@, mneg(mmul(c.1@, self.sk.scalar@))),
    {
        self.sk.decrypt(c)
    }
}

/// Decrypting an encryption of `m` under the matching keypair gives `m`
/// back.
pub proof fn lemma_elgamal_round_trip(sk: int, m: int, r: int)
    requires
        0 <= m < Q,
    ensures
        madd(madd(m, mmul(sk, r)), mneg(mmul(r, sk))) == m,
{
    let q = Q as int;
    let x = sk * r;
    assert(r * sk == sk * r) by (nonlinear_arith);
    vstd::arithmetic::div_mod::lemma_mod_twice(x, q);
    lemma_add_cong(m, m, x % q, x);
    vstd::arithmetic::div_mod::lemma_mod_twice(m + x, q);
    lemma_sub_cong(0, 0, x % q, x);
    vstd::arithmetic::div_mod::lemma_mod_twice(0 - x, q);
    lemma_add_cong(madd(m, mmul(sk, r)), m + x, mneg(mmul(r, sk)), 0 - x);
    vstd::arithmetic::div_mod::lemma_small_mod(m as nat, Q as nat);
}

/// Generates a fresh encryption keypair and a fresh signing keypair.
pub fn keygen() -> (r: (EncryptionKeys, SignatureKeys))
    ensures
        r.0.sk.scalar.wf(),
        r.0.pk.element.wf(),
        r.0.pk.element@ == r.0.sk.scalar@,
{
    let sk = SecretKey::new();
    let pk = sk.public_key();
    let enc_keys = EncryptionKeys { sk, pk };
    let ver_keys = SignatureKeys::new();
    (enc_keys, ver_keys)
}

} // verus!
