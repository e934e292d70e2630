//! The cryptographic primitives, each called in the crate that implements it.
//! What stands here is believed, not proved: every function of this file
//! forwards to one outside function and states what that function promises.

use vstd::prelude::*;

use chacha20poly1305::aead::{Aead, KeyInit, Payload};
use chacha20poly1305::{ChaCha20Poly1305, Key, Nonce};
use ed25519_dalek::{Signer, Verifier};

use crate::protocol::TAG_LEN;

verus! {

/// The error of ChaCha20-Poly1305, which carries no information.
#[verifier::external_type_specification]
#[verifier::external_body]
pub struct ExAeadError(chacha20poly1305::Error);

/// What ChaCha20-Poly1305 makes of a message under a key, a nonce and
/// associated data: the ciphertext followed by the tag.
pub uninterp spec fn aead_sealed(
    key: Seq<u8>,
    nonce: Seq<u8>,
    aad: Seq<u8>,
    msg: Seq<u8>,
) -> Seq<u8>;

/// The message that ChaCha20-Poly1305 recovers from a ciphertext with its tag,
/// or `None` where it refuses the pair.
pub uninterp spec fn aead_opened(
    key: Seq<u8>,
    nonce: Seq<u8>,
    aad: Seq<u8>,
    sealed: Seq<u8>,
) -> Option<Seq<u8>>;

/// The longest message that ChaCha20-Poly1305 can seal: 2^32 - 2 blocks of 64
/// bytes. One block of the key stream goes to the tag, and the block counter has
/// 32 bits.
pub const MAX_MESSAGE_LEN: u64 = 274_877_906_816;

/// Calls `Aead::encrypt` of `ChaCha20Poly1305`. On messages of at most
/// [`MAX_MESSAGE_LEN`] bytes it succeeds; the result is the message's length and
/// a 16-byte tag long, and opening it under the same key, nonce and associated
/// data gives the message back. On longer messages the key stream may run out,
/// which panics.
#[verifier::external_body]
pub(crate) fn aead_seal(
    key: &[u8; 32],
    nonce: &[u8; 12],
    aad: &[u8],
    msg: &[u8],
) -> (r: Result<Vec<u8>, chacha20poly1305::Error>)
    requires
        msg@.len() <= MAX_MESSAGE_LEN,
    ensures
        r is Ok,
        r matches Ok(sealed) ==> {
            &&& sealed@ == aead_sealed(key@, nonce@, aad@, msg@)
            &&& sealed@.len() == msg@.len() + TAG_LEN
            &&& aead_opened(key@, nonce@, aad@, sealed@) == Some(msg@)
        },
{
    ChaCha20Poly1305::new(Key::from_slice(key)).encrypt(
        Nonce::from_slice(nonce),
        Payload { msg, aad },
    )
}

/// Calls `Aead::decrypt` of `ChaCha20Poly1305`, on the ciphertext and tag of a
/// message of at most [`MAX_MESSAGE_LEN`] bytes; beyond it the key stream may run
/// out, which panics. The answer depends on the
/// arguments alone, and what is accepted is exactly what sealing the recovered
/// message gives. That a forged ciphertext is refused is a matter of
/// computational hardness and is not stated.
#[verifier::external_body]
pub(crate) fn aead_open(
    key: &[u8; 32],
    nonce: &[u8; 12],
    aad: &[u8],
    sealed: &[u8],
) -> (r: Result<Vec<u8>, chacha20poly1305::Error>)
    requires
        sealed@.len() <= MAX_MESSAGE_LEN + TAG_LEN,
    ensures
        r is Err ==> aead_opened(key@, nonce@, aad@, sealed@) is None,
        r matches Ok(msg) ==> {
            &&& aead_opened(key@, nonce@, aad@, sealed@) == Some(msg@)
            &&& sealed@ == aead_sealed(key@, nonce@, aad@, msg@)
            &&& sealed@.len() == msg@.len() + TAG_LEN
        },
{
    ChaCha20Poly1305::new(Key::from_slice(key)).decrypt(
        Nonce::from_slice(nonce),
        Payload { msg: sealed, aad },
    )
}

/// The X25519 public key of a secret.
pub uninterp spec fn x25519_base(secret: Seq<u8>) -> Seq<u8>;

/// The X25519 shared secret of one side's secret and the other's public key.
pub uninterp spec fn x25519_shared(secret: Seq<u8>, public: Seq<u8>) -> Seq<u8>;

/// Calls `x25519_dalek::PublicKey::from(&StaticSecret)`. Whoever combines a
/// secret of their own with this public key gets the shared secret that this
/// side gets from their public key.
#[verifier::external_body]
pub(crate) fn x25519_public(secret: &[u8; 32]) -> (public: [u8; 32])
    ensures
        public@ == x25519_base(secret@),
        forall|other: Seq<u8>|
            other.len() == 32 ==> #[trigger] x25519_shared(other, public@) == x25519_shared(
                secret@,
                x25519_base(other),
            ),
{
    x25519_dalek::PublicKey::from(&x25519_dalek::StaticSecret::from(*secret)).to_bytes()
}

/// Calls `x25519_dalek::StaticSecret::diffie_hellman`.
#[verifier::external_body]
pub(crate) fn x25519_agree(secret: &[u8; 32], public: &[u8; 32]) -> (shared: [u8; 32])
    ensures
        shared@ == x25519_shared(secret@, public@),
{
    x25519_dalek::StaticSecret::from(*secret)
        .diffie_hellman(&x25519_dalek::PublicKey::from(*public))
        .to_bytes()
}

/// Calls `x25519_dalek::StaticSecret::random_from_rng` with the operating
/// system's generator: any 32 bytes may come back.
#[verifier::external_body]
pub(crate) fn x25519_random_secret() -> (secret: [u8; 32]) {
    x25519_dalek::StaticSecret::random_from_rng(rand_core::OsRng).to_bytes()
}

/// The 32 bytes that HKDF-SHA256 without a salt derives from keying material
/// under a context string.
pub uninterp spec fn hkdf_sha256(ikm: Seq<u8>, info: Seq<u8>) -> Seq<u8>;

/// Calls `hkdf::Hkdf::<Sha256>::new` without a salt, and `expand` to 32 bytes,
/// which fails only beyond 255 * 32 bytes.
#[verifier::external_body]
pub(crate) fn hkdf_derive(ikm: &[u8], info: &[u8]) -> (key: [u8; 32])
    ensures
        key@ == hkdf_sha256(ikm@, info@),
{
    let mut key = [0u8; 32];
    hkdf::Hkdf::<sha2::Sha256>::new(None, ikm)
        .expand(info, &mut key)
        .expect("HKDF expand of 32 bytes never fails");
    key
}

/// The Ed25519 public key of a 32-byte seed.
pub uninterp spec fn ed25519_public(seed: Seq<u8>) -> Seq<u8>;

/// The Ed25519 signature that the key of a seed makes of a message.
pub uninterp spec fn ed25519_signature(seed: Seq<u8>, msg: Seq<u8>) -> Seq<u8>;

/// Whether 32 bytes are the encoding of an Ed25519 public key.
pub uninterp spec fn ed25519_decodable(public: Seq<u8>) -> bool;

/// Whether Ed25519 accepts a signature of a message under a public key.
pub uninterp spec fn ed25519_accepts(public: Seq<u8>, msg: Seq<u8>, signature: Seq<u8>) -> bool;

/// Calls `ed25519_dalek::SigningKey::verifying_key`. The result is the encoding
/// of a key.
#[verifier::external_body]
pub(crate) fn ed25519_public_of(seed: &[u8; 32]) -> (public: [u8; 32])
    ensures
        public@ == ed25519_public(seed@),
        ed25519_decodable(public@),
{
    ed25519_dalek::SigningKey::from_bytes(seed).verifying_key().to_bytes()
}

/// Calls `ed25519_dalek::SigningKey::sign`, which is deterministic. The
/// signature is accepted under the public key of the same seed.
#[verifier::external_body]
pub(crate) fn ed25519_sign(seed: &[u8; 32], msg: &[u8]) -> (signature: [u8; 64])
    ensures
        signature@ == ed25519_signature(seed@, msg@),
        ed25519_accepts(ed25519_public(seed@), msg@, signature@),
{
    ed25519_dalek::SigningKey::from_bytes(seed).sign(msg).to_bytes()
}

/// Calls `ed25519_dalek::VerifyingKey::from_bytes` and tells whether it found
/// a key.
#[verifier::external_body]
pub(crate) fn ed25519_is_key(public: &[u8; 32]) -> (found: bool)
    ensures
        found == ed25519_decodable(public@),
{
    ed25519_dalek::VerifyingKey::from_bytes(public).is_ok()
}

/// Calls `ed25519_dalek::VerifyingKey::verify`; bytes that encode no key
/// accept nothing. That a forged signature is refused is a matter of
/// computational hardness and is not stated.
#[verifier::external_body]
pub(crate) fn ed25519_verify(public: &[u8; 32], msg: &[u8], signature: &[u8; 64]) -> (accepted:
    bool)
    ensures
        accepted == ed25519_accepts(public@, msg@, signature@),
        accepted ==> ed25519_decodable(public@),
{
    let signature = ed25519_dalek::Signature::from_bytes(signature);
    ed25519_dalek::VerifyingKey::from_bytes(public).and_then(
        |key| key.verify(msg, &signature),
    ).is_ok()
}

/// Calls `ed25519_dalek::SigningKey::generate` with the operating system's
/// generator: any seed may come back.
#[verifier::external_body]
pub(crate) fn ed25519_random_seed() -> (seed: [u8; 32]) {
    ed25519_dalek::SigningKey::generate(&mut rand_core::OsRng).to_bytes()
}

} // verus!
