//! Ed25519 keys.

use vstd::prelude::*;

use crate::crypto::{
    ed25519_is_key, ed25519_public_of, ed25519_random_seed, ed25519_sign, ed25519_verify,
};

verus! {

use crate::crypto::{ed25519_accepts, ed25519_decodable, ed25519_public, ed25519_signature};

/// Length of a signature.
pub const SIG_LEN: usize = 64;

/// A signing key, held as its 32-byte seed.
#[derive(Clone, Copy)]
pub struct SigningKey {
    seed: [u8; 32],
}

/// A public key that signatures are checked with.
#[derive(Debug, Clone, Copy)]
pub struct VerifyingKey {
    bytes: [u8; 32],
}

impl View for SigningKey {
    type V = Seq<u8>;

    closed spec fn view(&self) -> Seq<u8> {
        self.seed@
    }
}

impl View for VerifyingKey {
    type V = Seq<u8>;

    closed spec fn view(&self) -> Seq<u8> {
        self.bytes@
    }
}

impl SigningKey {
    pub fn from_bytes(seed: &[u8; 32]) -> (key: SigningKey)
        ensures
            key@ == seed@,
    {
        SigningKey { seed: *seed }
    }

    /// Makes a new random key.
    pub fn generate() -> (key: SigningKey)
        ensures
            key@.len() == 32,
    {
        SigningKey { seed: ed25519_random_seed() }
    }

    pub fn to_bytes(&self) -> (seed: [u8; 32])
        ensures
            seed@ == self@,
    {
        self.seed
    }

    /// The public key that belongs to this key.
    pub fn verifying_key(&self) -> (key: VerifyingKey)
        ensures
            key@ == ed25519_public(self@),
            ed25519_decodable(key@),
    {
        VerifyingKey { bytes: ed25519_public_of(&self.seed) }
    }

    /// Signs a message. The signature is accepted under the public key that
    /// belongs to this key.
    pub fn sign(&self, msg: &[u8]) -> (signature: [u8; SIG_LEN])
        ensures
            signature@ == ed25519_signature(self@, msg@),
            ed25519_accepts(ed25519_public(self@), msg@, signature@),
    {
        ed25519_sign(&self.seed, msg)
    }
}

impl VerifyingKey {
    /// Reads a public key; not every 32 bytes are one.
    pub fn from_bytes(bytes: &[u8; 32]) -> (r: Option<VerifyingKey>)
        ensures
            match r {
                Some(key) => ed25519_decodable(bytes@) && key@ == bytes@,
                None => !ed25519_decodable(bytes@),
            },
    {
        if ed25519_is_key(bytes) {
            Some(VerifyingKey { bytes: *bytes })
        } else {
            None
        }
    }

    pub fn to_bytes(&self) -> (bytes: [u8; 32])
        ensures
            bytes@ == self@,
    {
        self.bytes
    }

    /// Whether a signature of a message is accepted.
    pub fn accepts(&self, msg: &[u8], signature: &[u8; SIG_LEN]) -> (accepted: bool)
        ensures
            accepted == ed25519_accepts(self@, msg@, signature@),
    {
        ed25519_verify(&self.bytes, msg, signature)
    }
}

} // verus!
