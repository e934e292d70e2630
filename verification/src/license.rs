//! License tokens.
//!
//! Compact Ed25519-signed access tokens. The backend issues them; a bridge
//! verifies them with the backend's public key alone.
//!
//! Wire format (88 bytes, 118 characters of URL-safe base64):
//!
//! ```text
//!  0      4              12              20         24                88
//!  +------+--------------+--------------+----------+------------------+
//!  | uid  |  issued_at   |  expires_at  |  scope   |   signature      |
//!  | (4B) |   (8B i64)   |   (8B i64)   |  (4B)    |     (64B)        |
//!  +------+--------------+--------------+----------+------------------+
//!  '-------- 24 bytes signed payload -------------'
//! ```
//!
//! All integers are big-endian; timestamps are Unix seconds. `scope` is a
//! bitfield kept for later use; bit 0 stands for "any bridge".

use vstd::prelude::*;

use crate::bytes::{array_of, read_be, store_be, to_signed, to_unsigned};
use crate::encoding::{b64_decode, b64_encode};
use crate::protocol::join_frame;
use crate::signing::{SigningKey, VerifyingKey, SIG_LEN};

verus! {

use crate::bytes::{
    be, be_value, bit_patterns_agree, eight_bytes, four_bytes, lemma_be_len, lemma_be_of_be_value,
    lemma_be_value_bound, lemma_be_value_of_be, lemma_pow256_widths,
    lemma_signed_value_of_twos_complement, lemma_twos_complement_of_signed_value, signed_value,
    twos_complement,
};
use crate::crypto::{ed25519_accepts, ed25519_public, ed25519_signature};
use crate::encoding::{b64_is_injective, b64_refusal, b64_text};

pub const PAYLOAD_LEN: usize = 24;

pub const TOKEN_LEN: usize = PAYLOAD_LEN + SIG_LEN;

#[derive(Debug)]
pub enum LicenseError {
    /// A token has to be `TOKEN_LEN` bytes long.
    WrongLength(usize),
    /// The text is not base64.
    Base64(String),
    /// The signature is not the backend's.
    BadSignature,
    /// The token's time is over.
    Expired { expires_at: i64, now: i64 },
    /// The token's time has not come.
    NotYetValid { issued_at: i64, now: i64 },
}

#[derive(Debug, Clone, Copy, PartialEq, Eq, Structural)]
pub struct LicensePayload {
    pub user_id: u32,
    pub issued_at: i64,
    pub expires_at: i64,
    pub scope: u32,
}

impl LicensePayload {
    /// The 24 bytes that are signed.
    pub open spec fn wire(self) -> Seq<u8> {
        be(self.user_id as nat, 4) + be(twos_complement(self.issued_at as int), 8) + be(
            twos_complement(self.expires_at as int),
            8,
        ) + be(self.scope as nat, 4)
    }

    /// What 24 bytes say as a payload.
    pub open spec fn parsed(buf: Seq<u8>) -> LicensePayload {
        LicensePayload {
            user_id: be_value(buf.subrange(0, 4)) as u32,
            issued_at: signed_value(be_value(buf.subrange(4, 12))) as i64,
            expires_at: signed_value(be_value(buf.subrange(12, 20))) as i64,
            scope: be_value(buf.subrange(20, 24)) as u32,
        }
    }

    pub fn encode(&self) -> (out: [u8; PAYLOAD_LEN])
        ensures
            out@ == self.wire(),
    {
        broadcast use lemma_be_len;

        let mut out = [0u8; PAYLOAD_LEN];
        store_be(&mut out, 0, self.user_id as u128, 4);
        store_be(&mut out, 4, to_unsigned(self.issued_at) as u128, 8);
        store_be(&mut out, 12, to_unsigned(self.expires_at) as u128, 8);
        store_be(&mut out, 20, self.scope as u128, 4);
        assert(out@ =~= self.wire());
        out
    }

    /// Reads a payload from the front of `buf`.
    pub fn decode(buf: &[u8]) -> (payload: LicensePayload)
        requires
            buf@.len() >= PAYLOAD_LEN,
        ensures
            payload == LicensePayload::parsed(buf@),
    {
        proof {
            lemma_be_value_bound(buf@.subrange(0, 4));
            lemma_be_value_bound(buf@.subrange(4, 12));
            lemma_be_value_bound(buf@.subrange(12, 20));
            lemma_be_value_bound(buf@.subrange(20, 24));
            lemma_pow256_widths();
        }
        LicensePayload {
            user_id: read_be(&buf[0..4]) as u32,
            issued_at: to_signed(read_be(&buf[4..12]) as u64),
            expires_at: to_signed(read_be(&buf[12..20]) as u64),
            scope: read_be(&buf[20..24]) as u32,
        }
    }

    /// The verdict on a token with this payload, given whether its signature
    /// was accepted: it is valid from `issued_at` until just before
    /// `expires_at`.
    pub open spec fn verdict(self, accepted: bool, now: i64) -> Result<(), LicenseError> {
        if !accepted {
            Err(LicenseError::BadSignature)
        } else if now < self.issued_at {
            Err(LicenseError::NotYetValid { issued_at: self.issued_at, now })
        } else if now >= self.expires_at {
            Err(LicenseError::Expired { expires_at: self.expires_at, now })
        } else {
            Ok(())
        }
    }

    /// The verdict on a token with this payload, given whether its signature
    /// was accepted.
    pub fn judge(&self, accepted: bool, now_unix: i64) -> (r: Result<(), LicenseError>)
        ensures
            r == self.verdict(accepted, now_unix),
    {
        if !accepted {
            return Err(LicenseError::BadSignature);
        }
        if now_unix < self.issued_at {
            return Err(LicenseError::NotYetValid { issued_at: self.issued_at, now: now_unix });
        }
        if now_unix >= self.expires_at {
            return Err(LicenseError::Expired { expires_at: self.expires_at, now: now_unix });
        }
        Ok(())
    }
}

/// A payload survives its encoding, whatever bytes follow it.
pub proof fn payload_round_trip(payload: LicensePayload, rest: Seq<u8>)
    ensures
        payload.wire().len() == PAYLOAD_LEN,
        LicensePayload::parsed(payload.wire() + rest) == payload,
{
    broadcast use lemma_be_len;

    let buf = payload.wire() + rest;
    lemma_pow256_widths();
    lemma_be_value_of_be(payload.user_id as nat, 4);
    lemma_be_value_of_be(twos_complement(payload.issued_at as int), 8);
    lemma_be_value_of_be(twos_complement(payload.expires_at as int), 8);
    lemma_be_value_of_be(payload.scope as nat, 4);
    lemma_signed_value_of_twos_complement(payload.issued_at);
    lemma_signed_value_of_twos_complement(payload.expires_at);
    assert(buf.subrange(0, 4) =~= be(payload.user_id as nat, 4));
    assert(buf.subrange(4, 12) =~= be(twos_complement(payload.issued_at as int), 8));
    assert(buf.subrange(12, 20) =~= be(twos_complement(payload.expires_at as int), 8));
    assert(buf.subrange(20, 24) =~= be(payload.scope as nat, 4));
}

/// Every 24 bytes are the encoding of the payload that is read from them.
pub proof fn payload_reads_one_encoding(buf: Seq<u8>)
    requires
        buf.len() >= PAYLOAD_LEN,
    ensures
        LicensePayload::parsed(buf).wire() == buf.take(PAYLOAD_LEN as int),
{
    broadcast use lemma_be_len;

    let p = LicensePayload::parsed(buf);
    let issued = be_value(buf.subrange(4, 12));
    let expires = be_value(buf.subrange(12, 20));
    lemma_be_value_bound(buf.subrange(0, 4));
    lemma_be_value_bound(buf.subrange(4, 12));
    lemma_be_value_bound(buf.subrange(12, 20));
    lemma_be_value_bound(buf.subrange(20, 24));
    lemma_pow256_widths();
    lemma_be_of_be_value(buf.subrange(0, 4));
    lemma_be_of_be_value(buf.subrange(4, 12));
    lemma_be_of_be_value(buf.subrange(12, 20));
    lemma_be_of_be_value(buf.subrange(20, 24));
    lemma_twos_complement_of_signed_value(issued as u64);
    lemma_twos_complement_of_signed_value(expires as u64);
    assert(p.wire() =~= buf.take(24));
}

/// A signed license token.
#[derive(Debug, Clone, Copy)]
pub struct LicenseToken {
    pub payload: LicensePayload,
    pub signature: [u8; SIG_LEN],
}

impl LicenseToken {
    /// The 88 bytes of the token.
    pub open spec fn wire(self) -> Seq<u8> {
        self.payload.wire() + self.signature@
    }

    /// The verdict on this token under a backend's public key.
    pub open spec fn verdict(self, backend_pubkey: Seq<u8>, now: i64) -> Result<
        (),
        LicenseError,
    > {
        self.payload.verdict(
            ed25519_accepts(backend_pubkey, self.payload.wire(), self.signature@),
            now,
        )
    }

    /// Signs a payload with the backend's key.
    ///
    /// The token is then valid, under the public key that belongs to this key,
    /// at every time of its validity window.
    pub fn sign(payload: LicensePayload, key: &SigningKey) -> (token: LicenseToken)
        ensures
            token.payload == payload,
            token.signature@ == ed25519_signature(key@, payload.wire()),
            forall|now: i64|
                #[trigger] token.verdict(ed25519_public(key@), now) == payload.verdict(true, now),
    {
        let signature = key.sign(&payload.encode());
        LicenseToken { payload, signature }
    }

    /// Verifies the signature, and that `now_unix` lies in the validity window
    /// (`issued_at <= now < expires_at`).
    pub fn verify(&self, backend_pubkey: &VerifyingKey, now_unix: i64) -> (r: Result<
        (),
        LicenseError,
    >)
        ensures
            r == self.verdict(backend_pubkey@, now_unix),
    {
        let accepted = backend_pubkey.accepts(&self.payload.encode(), &self.signature);
        self.payload.judge(accepted, now_unix)
    }

    /// The token as 88 bytes.
    pub fn to_bytes(&self) -> (out: [u8; TOKEN_LEN])
        ensures
            out@ == self.wire(),
    {
        let joined = join_frame(&self.payload.encode(), &self.signature);
        array_of(&joined)
    }

    /// Reads a token, which has to be exactly 88 bytes. Any 88 bytes are the
    /// bytes of a token.
    pub fn from_bytes(bytes: &[u8]) -> (r: Result<LicenseToken, LicenseError>)
        ensures
            match r {
                Ok(token) => token.wire() == bytes@,
                Err(LicenseError::WrongLength(n)) => n == bytes@.len() && n != TOKEN_LEN,
                Err(_) => false,
            },
    {
        if bytes.len() != TOKEN_LEN {
            return Err(LicenseError::WrongLength(bytes.len()));
        }
        let payload = LicensePayload::decode(bytes);
        let signature: [u8; SIG_LEN] = array_of(&bytes[PAYLOAD_LEN..TOKEN_LEN]);
        proof {
            payload_reads_one_encoding(bytes@);
            assert(bytes@ =~= bytes@.take(24) + bytes@.subrange(24, 88));
        }
        Ok(LicenseToken { payload, signature })
    }

    /// The token as URL-safe base64, for config files and HTTP headers.
    pub fn to_string_b64(&self) -> (text: String)
        ensures
            text@ == b64_text(self.wire()),
            text@.len() == 118,
    {
        b64_encode(&self.to_bytes())
    }

    /// Reads a token from URL-safe base64.
    pub fn from_string_b64(s: &str) -> (r: Result<LicenseToken, LicenseError>)
        ensures
            match r {
                Ok(token) => b64_text(token.wire()) == s@,
                Err(LicenseError::Base64(message)) => {
                    &&& message@ == b64_refusal(s@)
                    &&& forall|bytes: Seq<u8>| #[trigger] b64_text(bytes) != s@
                },
                Err(LicenseError::WrongLength(n)) => {
                    &&& n != TOKEN_LEN
                    &&& exists|bytes: Seq<u8>| bytes.len() == n && #[trigger] b64_text(bytes) == s@
                },
                Err(_) => false,
            },
    {
        match b64_decode(s) {
            Ok(bytes) => LicenseToken::from_bytes(&bytes),
            Err(message) => Err(LicenseError::Base64(message)),
        }
    }
}

/// A token is determined by its bytes.
pub proof fn token_bytes_determine_token(a: LicenseToken, b: LicenseToken)
    requires
        a.wire() == b.wire(),
    ensures
        a.payload == b.payload,
        a.signature@ == b.signature@,
{
    payload_round_trip(a.payload, a.signature@);
    payload_round_trip(b.payload, b.signature@);
    assert(a.wire().skip(24) =~= a.signature@);
    assert(b.wire().skip(24) =~= b.signature@);
}

/// A token is determined by its text. With what [`LicenseToken::to_string_b64`]
/// and [`LicenseToken::from_string_b64`] promise, reading a token's text gives
/// the token.
pub proof fn token_text_determines_token(a: LicenseToken, b: LicenseToken)
    requires
        b64_text(a.wire()) == b64_text(b.wire()),
    ensures
        a.payload == b.payload,
        a.signature@ == b.signature@,
{
    b64_is_injective(a.wire(), b.wire());
    token_bytes_determine_token(a, b);
}

/// The payload of a token is 24 bytes: user id, time of issue, time of expiry
/// and scope, most significant byte first, the times modulo 2^64.
pub proof fn payload_layout(p: LicensePayload)
    ensures
        ({
            let w = p.wire();
            &&& w.len() == 24
            &&& w[0] * 0x100_0000 + w[1] * 0x1_0000 + w[2] * 0x100 + w[3] == p.user_id
            &&& ((w[4] * 0x100_0000 + w[5] * 0x1_0000 + w[6] * 0x100 + w[7]) * 0x1_0000_0000 + w[8]
                * 0x100_0000 + w[9] * 0x1_0000 + w[10] * 0x100 + w[11] - p.issued_at)
                % 0x1_0000_0000_0000_0000 == 0
            &&& ((w[12] * 0x100_0000 + w[13] * 0x1_0000 + w[14] * 0x100 + w[15]) * 0x1_0000_0000
                + w[16] * 0x100_0000 + w[17] * 0x1_0000 + w[18] * 0x100 + w[19] - p.expires_at)
                % 0x1_0000_0000_0000_0000 == 0
            &&& w[20] * 0x100_0000 + w[21] * 0x1_0000 + w[22] * 0x100 + w[23] == p.scope
        }),
{
    broadcast use lemma_be_len;

    let w = p.wire();
    lemma_pow256_widths();
    bit_patterns_agree(0, p.issued_at);
    bit_patterns_agree(0, p.expires_at);
    lemma_be_value_of_be(p.user_id as nat, 4);
    lemma_be_value_of_be(twos_complement(p.issued_at as int), 8);
    lemma_be_value_of_be(twos_complement(p.expires_at as int), 8);
    lemma_be_value_of_be(p.scope as nat, 4);
    four_bytes(w.subrange(0, 4));
    eight_bytes(w.subrange(4, 12));
    eight_bytes(w.subrange(12, 20));
    four_bytes(w.subrange(20, 24));
    assert(w.subrange(0, 4) =~= be(p.user_id as nat, 4));
    assert(w.subrange(4, 12) =~= be(twos_complement(p.issued_at as int), 8));
    assert(w.subrange(12, 20) =~= be(twos_complement(p.expires_at as int), 8));
    assert(w.subrange(20, 24) =~= be(p.scope as nat, 4));
}

/// A token is its payload and its signature.
pub proof fn token_layout(token: LicenseToken)
    ensures
        token.wire().len() == 88,
        token.wire().take(24) == token.payload.wire(),
        token.wire().skip(24) == token.signature@,
{
    payload_round_trip(token.payload, token.signature@);
    assert(token.wire().take(24) =~= token.payload.wire());
    assert(token.wire().skip(24) =~= token.signature@);
}

/// A token is valid exactly where its signature is accepted and the time is not
/// before its issue and before its expiry. One whose signature is not accepted is
/// refused for that; and else for the time, which the refusal tells.
pub proof fn token_is_valid_in_its_window(
    p: LicensePayload,
    accepted: bool,
    token: LicenseToken,
    backend_pubkey: Seq<u8>,
    now: i64,
)
    ensures
        p.verdict(accepted, now) is Ok <==> accepted && p.issued_at <= now && now < p.expires_at,
        !accepted ==> p.verdict(accepted, now) == Err::<(), LicenseError>(
            LicenseError::BadSignature,
        ),
        accepted && now < p.issued_at ==> p.verdict(accepted, now) == Err::<(), LicenseError>(
            LicenseError::NotYetValid { issued_at: p.issued_at, now },
        ),
        accepted && p.issued_at <= now && p.expires_at <= now ==> p.verdict(accepted, now) == Err::<
            (),
            LicenseError,
        >(LicenseError::Expired { expires_at: p.expires_at, now }),
        token.verdict(backend_pubkey, now) is Ok <==> ed25519_accepts(
            backend_pubkey,
            token.wire().take(24),
            token.wire().skip(24),
        ) && token.payload.issued_at <= now < token.payload.expires_at,
        token.verdict(backend_pubkey, now) == token.payload.verdict(
            ed25519_accepts(backend_pubkey, token.payload.wire(), token.signature@),
            now,
        ),
{
    token_layout(token);
}

} // verus!
