//! ed25519 keys, as the bytes that name them.
use ed25519_dalek::{Signer, Verifier};
use vstd::prelude::*;

verus! {

/// The 32 bytes are the encoding of a point of the curve, which is what
/// `ed25519_dalek::VerifyingKey::from_bytes` accepts.
pub uninterp spec fn ed25519_key_ok(key: Seq<u8>) -> bool;

/// The signature is valid for the message under the key, as
/// `ed25519_dalek::VerifyingKey::verify` decides it.
pub uninterp spec fn ed25519_verifies(key: Seq<u8>, msg: Seq<u8>, sig: Seq<u8>) -> bool;

/// The public key that belongs to a secret seed.
pub uninterp spec fn ed25519_public(seed: Seq<u8>) -> Seq<u8>;

/// The (deterministic) signature of a message under a secret seed.
pub uninterp spec fn ed25519_signature(seed: Seq<u8>, msg: Seq<u8>) -> Seq<u8>;

/// `ed25519_dalek::VerifyingKey::from_bytes`: whether the bytes are a key. A
/// key that is accepted keeps exactly these bytes.
#[verifier::external_body]
fn dalek_key_ok(key: &[u8; 32]) -> (r: bool)
    ensures
        r == ed25519_key_ok(key@),
{
    ed25519_dalek::VerifyingKey::from_bytes(key).is_ok()
}

/// `ed25519_dalek::VerifyingKey::verify`: whether the signature is valid for
/// the message under the key.
#[verifier::external_body]
fn dalek_verify(key: &[u8; 32], msg: &[u8], sig: &[u8; 64]) -> (r: bool)
    requires
        ed25519_key_ok(key@),
    ensures
        r == ed25519_verifies(key@, msg@, sig@),
{
    let sig = ed25519_dalek::Signature::from_bytes(sig);
    match ed25519_dalek::VerifyingKey::from_bytes(key) {
        Ok(vk) => vk.verify(msg, &sig).is_ok(),
        Err(_) => false,
    }
}

/// `ed25519_dalek::SigningKey::verifying_key`: the public key of a seed, which
/// is a valid key.
#[verifier::external_body]
fn dalek_public(seed: &[u8; 32]) -> (r: [u8; 32])
    ensures
        r@ == ed25519_public(seed@),
        ed25519_key_ok(r@),
{
    ed25519_dalek::SigningKey::from_bytes(seed).verifying_key().to_bytes()
}

/// `ed25519_dalek::SigningKey::sign`: the signature of a message, which
/// verifies under the public key of the same seed.
#[verifier::external_body]
fn dalek_sign(seed: &[u8; 32], msg: &[u8]) -> (r: [u8; 64])
    ensures
        r@ == ed25519_signature(seed@, msg@),
        ed25519_verifies(ed25519_public(seed@), msg@, r@),
{
    ed25519_dalek::SigningKey::from_bytes(seed).sign(msg).to_bytes()
}

/// A valid ed25519 public key.
#[derive(Debug, Clone, Copy, PartialEq, Eq)]
pub struct PublicKey {
    bytes: [u8; 32],
}

impl View for PublicKey {
    type V = Seq<u8>;

    closed spec fn view(&self) -> Seq<u8> {
        self.bytes@
    }
}

impl PublicKey {
    #[verifier::type_invariant]
    spec fn valid(self) -> bool {
        ed25519_key_ok(self.bytes@)
    }

    /// The key with these bytes, if they are one.
    pub fn from_bytes(b: &[u8; 32]) -> (r: Option<PublicKey>)
        ensures
            r is Some <==> ed25519_key_ok(b@),
            r matches Some(k) ==> k@ == b@,
    {
        if dalek_key_ok(b) {
            Some(PublicKey { bytes: *b })
        } else {
            None
        }
    }

    /// The bytes of the key.
    pub fn to_bytes(&self) -> (r: [u8; 32])
        ensures
            r@ == self@,
            r@.len() == 32,
            ed25519_key_ok(r@),
    {
        proof {
            use_type_invariant(&*self);
        }
        self.bytes
    }

    /// Whether `sig` is a valid signature of `msg` under this key.
    pub fn verify(&self, msg: &[u8], sig: &[u8; 64]) -> (r: bool)
        ensures
            r == ed25519_verifies(self@, msg@, sig@),
    {
        proof {
            use_type_invariant(&*self);
        }
        dalek_verify(&self.bytes, msg, sig)
    }
}

/// A secret key: the 32-byte seed.
pub struct SecretKey {
    seed: [u8; 32],
}

impl SecretKey {
    /// The seed.
    pub closed spec fn secret(&self) -> Seq<u8> {
        self.seed@
    }

    /// The bytes of the public key that belongs to this key.
    pub open spec fn public(&self) -> Seq<u8> {
        ed25519_public(self.secret())
    }

    pub fn from_bytes(seed: &[u8; 32]) -> (r: SecretKey)
        ensures
            r.secret() == seed@,
    {
        SecretKey { seed: *seed }
    }

    pub fn to_bytes(&self) -> (r: [u8; 32])
        ensures
            r@ == self.secret(),
    {
        self.seed
    }

    /// The public key that belongs to this key.
    pub fn verifying_key(&self) -> (r: PublicKey)
        ensures
            r@ == self.public(),
    {
        PublicKey { bytes: dalek_public(&self.seed) }
    }

    /// Signs a message. The signature verifies under [`SecretKey::verifying_key`].
    pub fn sign(&self, msg: &[u8]) -> (r: [u8; 64])
        ensures
            r@ == ed25519_signature(self.secret(), msg@),
            ed25519_verifies(self.public(), msg@, r@),
    {
        dalek_sign(&self.seed, msg)
    }
}

} // verus!
