//! Session keys of the tunnel.
//!
//! - A bridge has a long-term X25519 keypair, whose public key stands in the
//!   bridge directory.
//! - A client makes a fresh ephemeral keypair for every connection, and sends
//!   its public key in the SYN frame.
//! - Both sides compute the X25519 shared secret and derive the AEAD key from
//!   it with HKDF-SHA256, without a salt, under the context [`HKDF_INFO`].

use vstd::prelude::*;

use crate::bytes::array_of;
use crate::crypto::{hkdf_derive, x25519_agree, x25519_public, x25519_random_secret};
use crate::protocol::AeadKey;

verus! {

use crate::crypto::{hkdf_sha256, x25519_base, x25519_shared};

#[derive(Debug, Clone, Copy, PartialEq, Eq, Structural)]
pub enum HandshakeError {
    /// A key has to be 32 bytes long.
    BadPubkeyLength(usize),
    /// The key derivation refused the output length.
    HkdfExpand,
}

/// The bytes of `lowping-v1-aead`, mixed into the key derivation to keep its
/// keys apart from those of other protocols.
pub const HKDF_INFO: [u8; 15] = [
    108, 111, 119, 112, 105, 110, 103, 45, 118, 49, 45, 97, 101, 97, 100,
];

/// An X25519 secret.
#[derive(Clone, Copy)]
pub struct X25519Secret {
    bytes: [u8; 32],
}

/// An X25519 public key.
#[derive(Debug, Clone, Copy)]
pub struct X25519PublicKey {
    bytes: [u8; 32],
}

impl View for X25519Secret {
    type V = Seq<u8>;

    closed spec fn view(&self) -> Seq<u8> {
        self.bytes@
    }
}

impl View for X25519PublicKey {
    type V = Seq<u8>;

    closed spec fn view(&self) -> Seq<u8> {
        self.bytes@
    }
}

impl X25519Secret {
    pub fn from_array(bytes: [u8; 32]) -> (secret: X25519Secret)
        ensures
            secret@ == bytes@,
    {
        X25519Secret { bytes }
    }

    pub fn to_bytes(&self) -> (bytes: [u8; 32])
        ensures
            bytes@ == self@,
    {
        self.bytes
    }

    /// The public key of this secret.
    ///
    /// Whoever combines a secret of their own with it derives the session key
    /// that this side derives from their public key.
    pub fn public_key(&self) -> (public: X25519PublicKey)
        ensures
            public@ == x25519_base(self@),
            agrees_with_everyone(self@, public@),
    {
        X25519PublicKey { bytes: x25519_public(&self.bytes) }
    }
}

impl X25519PublicKey {
    pub fn from_array(bytes: [u8; 32]) -> (public: X25519PublicKey)
        ensures
            public@ == bytes@,
    {
        X25519PublicKey { bytes }
    }

    pub fn to_bytes(&self) -> (bytes: [u8; 32])
        ensures
            bytes@ == self@,
    {
        self.bytes
    }
}

/// The AEAD key that is derived from a shared secret.
pub open spec fn aead_key_of(shared: Seq<u8>) -> Seq<u8> {
    hkdf_sha256(shared, HKDF_INFO@)
}

/// The session key of one side's secret and the other side's public key.
pub open spec fn session_key(secret: Seq<u8>, public: Seq<u8>) -> Seq<u8> {
    aead_key_of(x25519_shared(secret, public))
}

/// Whatever secret the other side holds, it derives from `public` the session
/// key that `secret` gives with the other side's public key.
pub open spec fn agrees_with_everyone(secret: Seq<u8>, public: Seq<u8>) -> bool {
    forall|other: Seq<u8>|
        other.len() == 32 ==> #[trigger] session_key(other, public) == session_key(
            secret,
            x25519_base(other),
        )
}

/// Derives a 32-byte AEAD key from a raw X25519 shared secret.
pub fn derive_aead_key(shared_secret: &[u8; 32]) -> (key: AeadKey)
    ensures
        key@ == aead_key_of(shared_secret@),
{
    hkdf_derive(shared_secret, &HKDF_INFO)
}

/// Bridge side: the session key of the bridge's long-term secret and a client's
/// ephemeral public key.
pub fn bridge_derive_session_key(
    bridge_secret: &X25519Secret,
    client_ephemeral_pub: &X25519PublicKey,
) -> (key: AeadKey)
    ensures
        key@ == session_key(bridge_secret@, client_ephemeral_pub@),
{
    derive_aead_key(&x25519_agree(&bridge_secret.bytes, &client_ephemeral_pub.bytes))
}

/// Client side: the session key of the client's ephemeral secret and the
/// bridge's long-term public key.
pub fn client_derive_session_key(
    client_ephemeral_secret: &X25519Secret,
    bridge_pub: &X25519PublicKey,
) -> (key: AeadKey)
    ensures
        key@ == session_key(client_ephemeral_secret@, bridge_pub@),
{
    derive_aead_key(&x25519_agree(&client_ephemeral_secret.bytes, &bridge_pub.bytes))
}

/// Makes a new X25519 keypair, for a bridge's long-term key or a client's
/// ephemeral one. The secret is random; the public key is its own.
pub fn generate_keypair() -> (pair: (X25519Secret, X25519PublicKey))
    ensures
        pair.0@.len() == 32,
        pair.1@ == x25519_base(pair.0@),
        agrees_with_everyone(pair.0@, pair.1@),
{
    let secret = X25519Secret { bytes: x25519_random_secret() };
    let public = secret.public_key();
    (secret, public)
}

/// Reads an X25519 public key, which has to be exactly 32 bytes.
pub fn pubkey_from_bytes(bytes: &[u8]) -> (r: Result<X25519PublicKey, HandshakeError>)
    ensures
        match r {
            Ok(public) => bytes@.len() == 32 && public@ == bytes@,
            Err(e) => bytes@.len() != 32 && e == HandshakeError::BadPubkeyLength(
                bytes@.len() as usize,
            ),
        },
{
    if bytes.len() != 32 {
        return Err(HandshakeError::BadPubkeyLength(bytes.len()));
    }
    Ok(X25519PublicKey { bytes: array_of(bytes) })
}

/// Reads an X25519 secret, which has to be exactly 32 bytes.
pub fn secret_from_bytes(bytes: &[u8]) -> (r: Result<X25519Secret, HandshakeError>)
    ensures
        match r {
            Ok(secret) => bytes@.len() == 32 && secret@ == bytes@,
            Err(e) => bytes@.len() != 32 && e == HandshakeError::BadPubkeyLength(
                bytes@.len() as usize,
            ),
        },
{
    if bytes.len() != 32 {
        return Err(HandshakeError::BadPubkeyLength(bytes.len()));
    }
    Ok(X25519Secret { bytes: array_of(bytes) })
}

/// The context of the key derivation is the text `lowping-v1-aead`, and the
/// session key is what HKDF makes of the shared secret under it.
pub proof fn session_key_is_derived_under_the_context(secret: Seq<u8>, public: Seq<u8>, i: int)
    ensures
        HKDF_INFO@.len() == "lowping-v1-aead"@.len(),
        0 <= i < HKDF_INFO@.len() ==> HKDF_INFO@[i] as nat == "lowping-v1-aead"@[i] as nat,
        session_key(secret, public) == hkdf_sha256(x25519_shared(secret, public), HKDF_INFO@),
        aead_key_of(secret) == hkdf_sha256(secret, HKDF_INFO@),
{
    reveal_strlit("lowping-v1-aead");
}

/// Both sides of a handshake derive one key: from the other's public key and
/// their own secret.
pub proof fn both_sides_derive_one_key(a: Seq<u8>, b: Seq<u8>)
    requires
        b.len() == 32,
        agrees_with_everyone(a, x25519_base(a)),
    ensures
        session_key(b, x25519_base(a)) == session_key(a, x25519_base(b)),
{
}

} // verus!
