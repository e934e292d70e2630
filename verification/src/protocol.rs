//! The wire protocol between client and bridge.
//!
//! All bytes between the two travel in frames. A frame carries a control
//! message (CONNECT, FIN), a data payload (a game packet), or a parity packet
//! that helps the receiver recover a lost data packet.
//!
//! Frame layout (all integers big-endian):
//!
//! ```text
//!  0      1                       5                              13
//!  +------+-----------------------+------------------------------+
//!  | ver  |   connection_id (32)  |       sequence (64)          |
//!  | flag |                       |                              |
//!  +------+-----------------------+------------------------------+
//!  13                                                  N            N+16
//!  +--------------------------------------------------+-----------+
//!  |             ciphertext                           |  tag (16) |
//!  +--------------------------------------------------+-----------+
//! ```
//!
//! The 13-byte header is plaintext, and is the associated data of the AEAD. The
//! 12-byte nonce is not transmitted: it is derived from the connection id and
//! the sequence number, which the receiver has from the header.

use vstd::prelude::*;

use crate::addr::IpAddr;
use crate::bytes::{array_of, push_be, read_be, store_be};
use crate::crypto::{aead_open, aead_seal, MAX_MESSAGE_LEN};

verus! {

use crate::bytes::{
    be, be_value, eight_bytes, four_bytes, lemma_be_len, lemma_be_of_be_value,
    lemma_be_value_bound, lemma_be_value_of_be, lemma_pow256_widths, two_bytes,
};
use crate::crypto::{aead_opened, aead_sealed};

pub const HEADER_LEN: usize = 13;

/// Length of the AEAD nonce, which is derived and not transmitted.
pub const NONCE_LEN: usize = 12;

pub const TAG_LEN: usize = 16;

/// Smallest valid frame: a header and a tag (an empty payload still has a tag).
pub const MIN_FRAME_LEN: usize = HEADER_LEN + TAG_LEN;

/// Largest payload of a frame. One packet then fits in 1280 bytes (the IPv6
/// minimum MTU) after IP and UDP headers: 1280 - 40 - 8 - 13 - 16 = 1203,
/// rounded down.
pub const MAX_PAYLOAD_LEN: usize = 1200;

/// Current version of the wire protocol.
pub const PROTO_VERSION: u8 = 1;

/// Length of an X25519 public key as it stands in SYN frames.
pub const PUBKEY_LEN: usize = 32;

/// SYN frames carry the client's ephemeral public key in plaintext between the
/// header and the ciphertext.
pub const SYN_HEADER_LEN: usize = HEADER_LEN + PUBKEY_LEN;

pub const MIN_SYN_FRAME_LEN: usize = SYN_HEADER_LEN + TAG_LEN;

/// A key of ChaCha20-Poly1305.
pub type AeadKey = [u8; 32];

#[derive(Debug, Clone, Copy, PartialEq, Eq, Structural)]
pub enum ProtocolError {
    /// The bytes end too early.
    Truncated { got: usize, need: usize },
    /// The version field holds another version than ours.
    UnknownVersion(u8),
    /// The payload is longer than `MAX_PAYLOAD_LEN`.
    PayloadTooLarge(usize),
    /// AEAD authentication failed (wrong key, tampered, or replayed).
    AeadFailed,
}

/// The flags of a frame, packed into the high four bits of its first byte. The
/// low four bits hold the version.
#[derive(Debug, Clone, Copy, PartialEq, Eq, Structural)]
pub struct Flags {
    /// This frame is a Reed-Solomon parity packet, not data.
    pub fec_parity: bool,
    /// First frame of a new connection; the payload holds a CONNECT message.
    pub syn: bool,
    /// Last frame of this connection.
    pub fin: bool,
    /// Duplicate sent over another path; the receiver drops one of the two.
    pub redundant: bool,
}

impl Flags {
    pub open spec fn spec_bits(self) -> nat {
        (if self.fec_parity { 0x10nat } else { 0 }) + (if self.syn { 0x20nat } else { 0 }) + (
        if self.fin { 0x40nat } else { 0 }) + (if self.redundant { 0x80nat } else { 0 })
    }

    /// The flags whose bits are set in `bits`, the low four bits ignored.
    pub open spec fn of_bits(bits: u8) -> Flags {
        Flags {
            fec_parity: bits / 16 % 2 == 1,
            syn: bits / 32 % 2 == 1,
            fin: bits / 64 % 2 == 1,
            redundant: bits / 128 % 2 == 1,
        }
    }

    pub open spec fn spec_union(self, other: Flags) -> Flags {
        Flags {
            fec_parity: self.fec_parity || other.fec_parity,
            syn: self.syn || other.syn,
            fin: self.fin || other.fin,
            redundant: self.redundant || other.redundant,
        }
    }

    /// No flag set.
    pub fn empty() -> (flags: Flags)
        ensures
            flags == (Flags { fec_parity: false, syn: false, fin: false, redundant: false }),
    {
        Flags { fec_parity: false, syn: false, fin: false, redundant: false }
    }

    pub fn fec_parity() -> (flags: Flags)
        ensures
            flags == (Flags { fec_parity: true, syn: false, fin: false, redundant: false }),
    {
        Flags { fec_parity: true, syn: false, fin: false, redundant: false }
    }

    pub fn syn() -> (flags: Flags)
        ensures
            flags == (Flags { fec_parity: false, syn: true, fin: false, redundant: false }),
    {
        Flags { fec_parity: false, syn: true, fin: false, redundant: false }
    }

    pub fn fin() -> (flags: Flags)
        ensures
            flags == (Flags { fec_parity: false, syn: false, fin: true, redundant: false }),
    {
        Flags { fec_parity: false, syn: false, fin: true, redundant: false }
    }

    pub fn redundant() -> (flags: Flags)
        ensures
            flags == (Flags { fec_parity: false, syn: false, fin: false, redundant: true }),
    {
        Flags { fec_parity: false, syn: false, fin: false, redundant: true }
    }

    /// The flags as the high four bits of a byte.
    pub fn bits(&self) -> (bits: u8)
        ensures
            bits == self.spec_bits(),
    {
        (if self.fec_parity { 0x10u8 } else { 0 }) + (if self.syn { 0x20u8 } else { 0 }) + (
        if self.fin { 0x40u8 } else { 0 }) + (if self.redundant { 0x80u8 } else { 0 })
    }

    /// The flags whose bits are set in `bits`, the low four bits ignored.
    pub fn from_bits_truncate(bits: u8) -> (flags: Flags)
        ensures
            flags == Flags::of_bits(bits),
    {
        Flags {
            fec_parity: bits / 16 % 2 == 1,
            syn: bits / 32 % 2 == 1,
            fin: bits / 64 % 2 == 1,
            redundant: bits / 128 % 2 == 1,
        }
    }

    /// Whether every flag of `other` is set here.
    pub fn contains(&self, other: Flags) -> (all: bool)
        ensures
            all == (self.spec_union(other) == *self),
    {
        (self.fec_parity || !other.fec_parity) && (self.syn || !other.syn) && (self.fin
            || !other.fin) && (self.redundant || !other.redundant)
    }
}

impl core::ops::BitOr for Flags {
    type Output = Flags;

    fn bitor(self, other: Flags) -> (flags: Flags) {
        Flags {
            fec_parity: self.fec_parity || other.fec_parity,
            syn: self.syn || other.syn,
            fin: self.fin || other.fin,
            redundant: self.redundant || other.redundant,
        }
    }
}

impl vstd::std_specs::ops::BitOrSpecImpl for Flags {
    open spec fn obeys_bitor_spec() -> bool {
        true
    }

    open spec fn bitor_req(self, other: Flags) -> bool {
        true
    }

    open spec fn bitor_spec(self, other: Flags) -> Flags {
        self.spec_union(other)
    }
}

#[derive(Debug, Clone, Copy, PartialEq, Eq, Structural)]
pub struct Header {
    pub version: u8,
    pub flags: Flags,
    pub connection_id: u32,
    pub sequence: u64,
}

impl Header {
    /// The 13 bytes of the header. Of the version, the low four bits are kept.
    pub open spec fn wire(self) -> Seq<u8> {
        seq![(self.version as nat % 16 + self.flags.spec_bits()) as u8] + be(
            self.connection_id as nat,
            4,
        ) + be(self.sequence as nat, 8)
    }

    /// What the front of `buf` says as a header.
    pub open spec fn parsed(buf: Seq<u8>) -> Result<Header, ProtocolError> {
        if buf.len() < HEADER_LEN {
            Err(ProtocolError::Truncated { got: buf.len() as usize, need: HEADER_LEN })
        } else if buf[0] % 16 != PROTO_VERSION {
            Err(ProtocolError::UnknownVersion(buf[0] % 16))
        } else {
            Ok(
                Header {
                    version: PROTO_VERSION,
                    flags: Flags::of_bits(buf[0]),
                    connection_id: be_value(buf.subrange(1, 5)) as u32,
                    sequence: be_value(buf.subrange(5, 13)) as u64,
                },
            )
        }
    }

    /// Writes the header.
    pub fn encode(&self, out: &mut [u8; HEADER_LEN])
        ensures
            final(out)@ == self.wire(),
    {
        broadcast use lemma_be_len;

        out[0] = self.version % 16 + self.flags.bits();
        store_be(out, 1, self.connection_id as u128, 4);
        store_be(out, 5, self.sequence as u128, 8);
        assert(out@ =~= self.wire());
    }

    /// Reads a header from the front of `buf`.
    pub fn decode(buf: &[u8]) -> (r: Result<Header, ProtocolError>)
        ensures
            r == Header::parsed(buf@),
    {
        if buf.len() < HEADER_LEN {
            return Err(ProtocolError::Truncated { got: buf.len(), need: HEADER_LEN });
        }
        let version: u8 = buf[0] % 16;
        if version != PROTO_VERSION {
            return Err(ProtocolError::UnknownVersion(version));
        }
        let flags = Flags::from_bits_truncate(buf[0]);
        proof {
            lemma_be_value_bound(buf@.subrange(1, 5));
            lemma_be_value_bound(buf@.subrange(5, 13));
            lemma_pow256_widths();
        }
        let connection_id: u32 = read_be(&buf[1..5]) as u32;
        let sequence: u64 = read_be(&buf[5..13]) as u64;
        Ok(Header { version, flags, connection_id, sequence })
    }

    /// The header as an array of its own.
    pub fn to_bytes(&self) -> (out: [u8; HEADER_LEN])
        ensures
            out@ == self.wire(),
    {
        let mut out = [0u8; HEADER_LEN];
        self.encode(&mut out);
        out
    }
}

/// A header of the current version survives the wire.
pub proof fn header_round_trip(h: Header)
    requires
        h.version == PROTO_VERSION,
    ensures
        Header::parsed(h.wire()) == Ok::<Header, ProtocolError>(h),
{
    broadcast use lemma_be_len;

    let w = h.wire();
    lemma_flags_survive(h.version, h.flags);
    lemma_pow256_widths();
    lemma_be_value_of_be(h.connection_id as nat, 4);
    lemma_be_value_of_be(h.sequence as nat, 8);
    assert(w.subrange(1, 5) =~= be(h.connection_id as nat, 4));
    assert(w.subrange(5, 13) =~= be(h.sequence as nat, 8));
}

/// A header of the current version is read off the front of whatever it begins.
pub proof fn header_leads(h: Header, rest: Seq<u8>)
    requires
        h.version == PROTO_VERSION,
    ensures
        h.wire().len() == HEADER_LEN,
        Header::parsed(h.wire() + rest) == Ok::<Header, ProtocolError>(h),
{
    broadcast use lemma_be_len;

    header_round_trip(h);
    assert((h.wire() + rest).take(13) =~= h.wire());
    lemma_parsed_front(h.wire() + rest, 13);
}

/// A header of another version is refused, with that version, whatever its
/// flags: the two fields share a byte without overlapping.
pub proof fn header_of_other_version_refused(h: Header)
    requires
        h.version < 16,
        h.version != PROTO_VERSION,
    ensures
        Header::parsed(h.wire()) == Err::<Header, ProtocolError>(
            ProtocolError::UnknownVersion(h.version),
        ),
{
    broadcast use lemma_be_len;

    lemma_flags_survive(h.version, h.flags);
}

/// What was read as a header is written as the bytes that were read.
pub proof fn header_reads_one_encoding(buf: Seq<u8>)
    ensures
        Header::parsed(buf) matches Ok(h) ==> h.wire() == buf.take(HEADER_LEN as int),
{
    broadcast use lemma_be_len;

    if let Ok(h) = Header::parsed(buf) {
        lemma_be_value_bound(buf.subrange(1, 5));
        lemma_be_value_bound(buf.subrange(5, 13));
        lemma_pow256_widths();
        lemma_be_of_be_value(buf.subrange(1, 5));
        lemma_be_of_be_value(buf.subrange(5, 13));
        lemma_first_byte_splits(buf[0]);
        assert(h.wire() =~= buf.take(13));
    }
}

proof fn lemma_flags_survive(version: u8, flags: Flags)
    ensures
        flags.spec_bits() <= 0xF0,
        ({
            let first = (version as nat % 16 + flags.spec_bits()) as u8;
            first % 16 == version % 16 && Flags::of_bits(first) == flags
        }),
{
}

proof fn lemma_first_byte_splits(b: u8)
    ensures
        b as nat % 16 + Flags::of_bits(b).spec_bits() == b,
{
    assert(b as nat % 16 + 16 * (b as nat / 16 % 2) + 32 * (b as nat / 32 % 2) + 64 * (b as nat / 64
        % 2) + 128 * (b as nat / 128 % 2) == b);
}

/// The AEAD nonce of a frame: 4 bytes of connection id, 8 bytes of sequence.
pub open spec fn nonce(connection_id: u32, sequence: u64) -> Seq<u8> {
    be(connection_id as nat, 4) + be(sequence as nat, 8)
}

/// Derives the AEAD nonce from connection id and sequence.
pub fn derive_nonce(connection_id: u32, sequence: u64) -> (n: [u8; NONCE_LEN])
    ensures
        n@ == nonce(connection_id, sequence),
{
    broadcast use lemma_be_len;

    let mut n = [0u8; NONCE_LEN];
    store_be(&mut n, 0, connection_id as u128, 4);
    store_be(&mut n, 4, sequence as u128, 8);
    assert(n@ =~= nonce(connection_id, sequence));
    n
}

/// No two frames share a nonce unless they agree in connection id and sequence.
pub proof fn nonce_is_injective(c1: u32, s1: u64, c2: u32, s2: u64)
    requires
        nonce(c1, s1) == nonce(c2, s2),
    ensures
        c1 == c2,
        s1 == s2,
{
    broadcast use lemma_be_len;

    lemma_pow256_widths();
    lemma_be_value_of_be(c1 as nat, 4);
    lemma_be_value_of_be(c2 as nat, 4);
    lemma_be_value_of_be(s1 as nat, 8);
    lemma_be_value_of_be(s2 as nat, 8);
    assert(nonce(c1, s1).take(4) =~= be(c1 as nat, 4));
    assert(nonce(c2, s2).take(4) =~= be(c2 as nat, 4));
    assert(nonce(c1, s1).skip(4) =~= be(s1 as nat, 8));
    assert(nonce(c2, s2).skip(4) =~= be(s2 as nat, 8));
}

// ---------- Frames ----------

/// The message of a ciphertext with its tag. One that is longer than the AEAD
/// could have made is refused.
pub open spec fn opened(key: Seq<u8>, nonce: Seq<u8>, aad: Seq<u8>, sealed: Seq<u8>) -> Option<
    Seq<u8>,
> {
    if sealed.len() > MAX_MESSAGE_LEN + TAG_LEN {
        None
    } else {
        aead_opened(key, nonce, aad, sealed)
    }
}

/// Opens a ciphertext with its tag, unless it is too long.
fn open(key: &AeadKey, nonce: &[u8; NONCE_LEN], aad: &[u8], sealed: &[u8]) -> (r: Option<Vec<u8>>)
    ensures
        match r {
            Some(msg) => {
                &&& opened(key@, nonce@, aad@, sealed@) == Some(msg@)
                &&& sealed@ == aead_sealed(key@, nonce@, aad@, msg@)
                &&& sealed@.len() == msg@.len() + TAG_LEN
            },
            None => opened(key@, nonce@, aad@, sealed@) is None,
        },
{
    if sealed.len() as u64 > MAX_MESSAGE_LEN + TAG_LEN as u64 {
        return None;
    }
    aead_open(key, nonce, aad, sealed).ok()
}

/// The bytes of a frame: the header, then the payload sealed under the frame's
/// nonce with the header as associated data.
pub open spec fn sealed_frame(key: Seq<u8>, h: Header, payload: Seq<u8>) -> Seq<u8> {
    h.wire() + aead_sealed(key, nonce(h.connection_id, h.sequence), h.wire(), payload)
}

/// The header of a frame that is long enough to be one.
pub open spec fn frame_front(wire: Seq<u8>) -> Result<Header, ProtocolError> {
    if wire.len() < MIN_FRAME_LEN {
        Err(ProtocolError::Truncated { got: wire.len() as usize, need: MIN_FRAME_LEN })
    } else {
        Header::parsed(wire)
    }
}

/// What a receiver makes of a frame once the AEAD has answered.
pub open spec fn frame_outcome(h: Header, opened: Option<Seq<u8>>) -> Result<
    (Header, Seq<u8>),
    ProtocolError,
> {
    match opened {
        Some(payload) => Ok((h, payload)),
        None => Err(ProtocolError::AeadFailed),
    }
}

/// What a receiver makes of a frame.
pub open spec fn opened_frame(key: Seq<u8>, wire: Seq<u8>) -> Result<
    (Header, Seq<u8>),
    ProtocolError,
> {
    match frame_front(wire) {
        Err(e) => Err(e),
        Ok(h) => frame_outcome(
            h,
            opened(
                key,
                nonce(h.connection_id, h.sequence),
                wire.take(HEADER_LEN as int),
                wire.skip(HEADER_LEN as int),
            ),
        ),
    }
}

/// The payload as bytes, and the header, of a received frame.
pub open spec fn frame_view(r: Result<(Header, Vec<u8>), ProtocolError>) -> Result<
    (Header, Seq<u8>),
    ProtocolError,
> {
    match r {
        Ok((h, payload)) => Ok((h, payload@)),
        Err(e) => Err(e),
    }
}

/// Puts plaintext in front of a sealed payload.
pub fn join_frame(front: &[u8], sealed: &[u8]) -> (wire: Vec<u8>)
    ensures
        wire@ == front@ + sealed@,
{
    let mut wire: Vec<u8> = Vec::new();
    wire.extend_from_slice(front);
    wire.extend_from_slice(sealed);
    assert(wire@ =~= front@ + sealed@);
    wire
}

/// Checks the length of a frame and reads its header.
pub fn read_frame_front(wire: &[u8]) -> (r: Result<Header, ProtocolError>)
    ensures
        r == frame_front(wire@),
{
    if wire.len() < MIN_FRAME_LEN {
        return Err(ProtocolError::Truncated { got: wire.len(), need: MIN_FRAME_LEN });
    }
    Header::decode(wire)
}

/// What a receiver makes of a frame once the AEAD has answered.
pub fn finish_frame(header: Header, opened: Option<Vec<u8>>) -> (r: Result<
    (Header, Vec<u8>),
    ProtocolError,
>)
    ensures
        frame_view(r) == frame_outcome(
            header,
            match opened {
                Some(payload) => Some(payload@),
                None => None,
            },
        ),
{
    match opened {
        Some(payload) => Ok((header, payload)),
        None => Err(ProtocolError::AeadFailed),
    }
}

/// Encrypts `payload` and gives the bytes of the frame.
///
/// It fails exactly where the payload is too large. A receiver with the same
/// key gets back the header, if it has the current version, and the payload.
pub fn encrypt_frame(key: &AeadKey, header: &Header, payload: &[u8]) -> (r: Result<
    Vec<u8>,
    ProtocolError,
>)
    ensures
        payload@.len() > MAX_PAYLOAD_LEN ==> r == Err::<Vec<u8>, ProtocolError>(
            ProtocolError::PayloadTooLarge(payload@.len() as usize),
        ),
        payload@.len() <= MAX_PAYLOAD_LEN ==> r is Ok,
        r matches Ok(wire) ==> {
            &&& wire@ == sealed_frame(key@, *header, payload@)
            &&& wire@.len() == MIN_FRAME_LEN + payload@.len()
            // Behind the headers of IPv6 and UDP it fits the least MTU of IPv6.
            &&& 40 + 8 + wire@.len() <= 1280
            &&& header.version == PROTO_VERSION ==> opened_frame(key@, wire@) == Ok::<
                (Header, Seq<u8>),
                ProtocolError,
            >((*header, payload@))
        },
{
    broadcast use lemma_be_len;

    if payload.len() > MAX_PAYLOAD_LEN {
        return Err(ProtocolError::PayloadTooLarge(payload.len()));
    }
    let nonce_bytes = derive_nonce(header.connection_id, header.sequence);
    let header_bytes = header.to_bytes();
    let sealed = match aead_seal(key, &nonce_bytes, &header_bytes, payload) {
        Ok(sealed) => sealed,
        Err(_) => {
            return Err(ProtocolError::AeadFailed);
        },
    };
    let wire = join_frame(&header_bytes, &sealed);
    proof {
        assert(wire@.take(13) =~= header.wire());
        assert(wire@.skip(13) =~= sealed@);
        if header.version == PROTO_VERSION {
            header_round_trip(*header);
            lemma_parsed_front(wire@, 13);
        }
    }
    Ok(wire)
}

/// Reads and decrypts a frame: the header and the payload.
///
/// What is accepted is exactly what sealing that payload under that header
/// gives.
pub fn decrypt_frame(key: &AeadKey, wire: &[u8]) -> (r: Result<(Header, Vec<u8>), ProtocolError>)
    ensures
        frame_view(r) == opened_frame(key@, wire@),
        r matches Ok((header, payload)) ==> {
            &&& wire@ == sealed_frame(key@, header, payload@)
            &&& wire@.len() == MIN_FRAME_LEN + payload@.len()
        },
{
    let header = match read_frame_front(wire) {
        Ok(header) => header,
        Err(e) => {
            return Err(e);
        },
    };
    let nonce_bytes = derive_nonce(header.connection_id, header.sequence);
    let front: &[u8] = &wire[0..HEADER_LEN];
    let body: &[u8] = &wire[HEADER_LEN..wire.len()];
    proof {
        assert(front@ =~= wire@.take(13));
        assert(body@ =~= wire@.skip(13));
        header_reads_one_encoding(wire@);
        assert(wire@ =~= wire@.take(13) + wire@.skip(13));
    }
    finish_frame(header, open(key, &nonce_bytes, front, body))
}

/// Only the first 13 bytes decide what a header says.
proof fn lemma_parsed_front(wire: Seq<u8>, n: int)
    requires
        HEADER_LEN <= n <= wire.len(),
    ensures
        Header::parsed(wire) == Header::parsed(wire.take(n)),
{
    assert(wire.take(n).subrange(1, 5) =~= wire.subrange(1, 5));
    assert(wire.take(n).subrange(5, 13) =~= wire.subrange(5, 13));
}

/// Whether two byte strings differ in the byte at `i` and nowhere else.
pub open spec fn differ_at(a: Seq<u8>, b: Seq<u8>, i: int) -> bool {
    &&& a.len() == b.len()
    &&& 0 <= i < a.len()
    &&& a[i] != b[i]
    &&& forall|j: int| 0 <= j < a.len() && j != i ==> a[j] == b[j]
}

/// A frame of which one byte was altered, in header, ciphertext or tag, is
/// refused: for its version, where that is what was altered, and else for its
/// tag, unless it happens to be a forgery that the AEAD accepts.
pub proof fn altered_frame_is_refused(
    key: Seq<u8>,
    h: Header,
    payload: Seq<u8>,
    altered: Seq<u8>,
    i: int,
)
    requires
        h.version == PROTO_VERSION,
        sealed_frame(key, h, payload).len() >= MIN_FRAME_LEN,
        differ_at(sealed_frame(key, h, payload), altered, i),
        Header::parsed(altered) matches Ok(other) ==> aead_opened(
            key,
            nonce(other.connection_id, other.sequence),
            altered.take(HEADER_LEN as int),
            altered.skip(HEADER_LEN as int),
        ) is None,
    ensures
        match opened_frame(key, altered) {
            Ok(_) => false,
            Err(ProtocolError::UnknownVersion(v)) => i == 0 && v != PROTO_VERSION,
            Err(e) => e == ProtocolError::AeadFailed,
        },
{
    broadcast use lemma_be_len;

    header_leads(h, aead_sealed(key, nonce(h.connection_id, h.sequence), h.wire(), payload));
}

/// A frame is refused under another key, unless the AEAD happens to accept it.
pub proof fn frame_of_other_key_is_refused(key: Seq<u8>, other: Seq<u8>, h: Header, payload: Seq<u8>)
    requires
        h.version == PROTO_VERSION,
        sealed_frame(key, h, payload).len() >= MIN_FRAME_LEN,
        aead_opened(
            other,
            nonce(h.connection_id, h.sequence),
            h.wire(),
            sealed_frame(key, h, payload).skip(HEADER_LEN as int),
        ) is None,
    ensures
        opened_frame(other, sealed_frame(key, h, payload)) == Err::<
            (Header, Seq<u8>),
            ProtocolError,
        >(ProtocolError::AeadFailed),
{
    broadcast use lemma_be_len;

    let rest = aead_sealed(key, nonce(h.connection_id, h.sequence), h.wire(), payload);
    header_leads(h, rest);
    assert((h.wire() + rest).take(13) =~= h.wire());
}

// ---------- SYN frames ----------

/// The plaintext front of a SYN frame: the header and the client's key.
pub open spec fn syn_aad(h: Header, client_pubkey: Seq<u8>) -> Seq<u8> {
    h.wire() + client_pubkey
}

/// The bytes of a SYN frame.
pub open spec fn sealed_syn_frame(
    key: Seq<u8>,
    h: Header,
    client_pubkey: Seq<u8>,
    payload: Seq<u8>,
) -> Seq<u8> {
    syn_aad(h, client_pubkey) + aead_sealed(
        key,
        nonce(h.connection_id, h.sequence),
        syn_aad(h, client_pubkey),
        payload,
    )
}

/// What the plaintext front of a SYN frame says.
pub open spec fn syn_front(wire: Seq<u8>) -> Result<(Header, Seq<u8>), ProtocolError> {
    if wire.len() < MIN_SYN_FRAME_LEN {
        Err(ProtocolError::Truncated { got: wire.len() as usize, need: MIN_SYN_FRAME_LEN })
    } else {
        match Header::parsed(wire) {
            Ok(h) => Ok((h, wire.subrange(HEADER_LEN as int, SYN_HEADER_LEN as int))),
            Err(e) => Err(e),
        }
    }
}

/// What a receiver gets out of a SYN frame.
pub open spec fn opened_syn_payload(key: Seq<u8>, wire: Seq<u8>) -> Result<
    Seq<u8>,
    ProtocolError,
> {
    match syn_front(wire) {
        Err(e) => Err(e),
        Ok((h, _)) => match opened(
            key,
            nonce(h.connection_id, h.sequence),
            wire.take(SYN_HEADER_LEN as int),
            wire.skip(SYN_HEADER_LEN as int),
        ) {
            Some(payload) => Ok(payload),
            None => Err(ProtocolError::AeadFailed),
        },
    }
}

/// Encrypts a SYN frame: the client's ephemeral public key goes in plaintext
/// after the header, and both are authenticated with the payload.
///
/// It fails exactly where the payload is too large. A receiver with the same
/// key reads back the header, if it has the current version, the public key and
/// the payload. That the SYN flag is set is the caller's part.
pub fn encrypt_syn_frame(
    aead_key: &AeadKey,
    header: &Header,
    client_pubkey: &[u8; PUBKEY_LEN],
    payload: &[u8],
) -> (r: Result<Vec<u8>, ProtocolError>)
    ensures
        payload@.len() > MAX_PAYLOAD_LEN ==> r == Err::<Vec<u8>, ProtocolError>(
            ProtocolError::PayloadTooLarge(payload@.len() as usize),
        ),
        payload@.len() <= MAX_PAYLOAD_LEN ==> r is Ok,
        r matches Ok(wire) ==> {
            &&& wire@ == sealed_syn_frame(aead_key@, *header, client_pubkey@, payload@)
            &&& wire@.len() == MIN_SYN_FRAME_LEN + payload@.len()
            &&& header.version == PROTO_VERSION ==> {
                &&& syn_front(wire@) == Ok::<(Header, Seq<u8>), ProtocolError>(
                    (*header, client_pubkey@),
                )
                &&& opened_syn_payload(aead_key@, wire@) == Ok::<Seq<u8>, ProtocolError>(payload@)
            }
        },
{
    broadcast use lemma_be_len;

    if payload.len() > MAX_PAYLOAD_LEN {
        return Err(ProtocolError::PayloadTooLarge(payload.len()));
    }
    let aad = join_frame(&header.to_bytes(), client_pubkey);
    let nonce_bytes = derive_nonce(header.connection_id, header.sequence);
    let sealed = match aead_seal(aead_key, &nonce_bytes, &aad, payload) {
        Ok(sealed) => sealed,
        Err(_) => {
            return Err(ProtocolError::AeadFailed);
        },
    };
    let wire = join_frame(&aad, &sealed);
    proof {
        assert(wire@.take(45) =~= aad@);
        assert(wire@.skip(45) =~= sealed@);
        assert(wire@.take(13) =~= header.wire());
        assert(wire@.subrange(13, 45) =~= client_pubkey@);
        if header.version == PROTO_VERSION {
            header_round_trip(*header);
            lemma_parsed_front(wire@, 13);
        }
    }
    Ok(wire)
}

/// Reads the plaintext front of a SYN frame: the header and the client's public
/// key, from which the receiver derives the key for [`decrypt_syn_payload`].
pub fn parse_syn_front(wire: &[u8]) -> (r: Result<(Header, [u8; PUBKEY_LEN]), ProtocolError>)
    ensures
        match r {
            Ok((h, pubkey)) => syn_front(wire@) == Ok::<(Header, Seq<u8>), ProtocolError>(
                (h, pubkey@),
            ),
            Err(e) => syn_front(wire@) == Err::<(Header, Seq<u8>), ProtocolError>(e),
        },
{
    if wire.len() < MIN_SYN_FRAME_LEN {
        return Err(ProtocolError::Truncated { got: wire.len(), need: MIN_SYN_FRAME_LEN });
    }
    match Header::decode(wire) {
        Ok(header) => Ok((header, array_of(&wire[HEADER_LEN..SYN_HEADER_LEN]))),
        Err(e) => Err(e),
    }
}

/// Decrypts the payload of a SYN frame.
///
/// What is accepted is exactly what sealing that payload under that front
/// gives.
pub fn decrypt_syn_payload(aead_key: &AeadKey, wire: &[u8]) -> (r: Result<Vec<u8>, ProtocolError>)
    ensures
        match r {
            Ok(payload) => opened_syn_payload(aead_key@, wire@) == Ok::<Seq<u8>, ProtocolError>(
                payload@,
            ),
            Err(e) => opened_syn_payload(aead_key@, wire@) == Err::<Seq<u8>, ProtocolError>(e),
        },
        r matches Ok(payload) ==> {
            &&& syn_front(wire@) matches Ok((h, pubkey)) && wire@ == sealed_syn_frame(
                aead_key@,
                h,
                pubkey,
                payload@,
            )
            &&& wire@.len() == MIN_SYN_FRAME_LEN + payload@.len()
        },
{
    let header = match parse_syn_front(wire) {
        Ok((header, _)) => header,
        Err(e) => {
            return Err(e);
        },
    };
    let nonce_bytes = derive_nonce(header.connection_id, header.sequence);
    let front: &[u8] = &wire[0..SYN_HEADER_LEN];
    let body: &[u8] = &wire[SYN_HEADER_LEN..wire.len()];
    proof {
        assert(front@ =~= wire@.take(45));
        assert(body@ =~= wire@.skip(45));
        header_reads_one_encoding(wire@);
        assert(wire@.take(45) =~= wire@.take(13) + wire@.subrange(13, 45));
        assert(wire@ =~= wire@.take(45) + wire@.skip(45));
    }
    match open(aead_key, &nonce_bytes, front, body) {
        Some(payload) => Ok(payload),
        None => Err(ProtocolError::AeadFailed),
    }
}

/// A SYN frame of which one byte behind the first was altered, in header, public
/// key, ciphertext or tag, is refused for its tag, unless it happens to be a
/// forgery that the AEAD accepts.
pub proof fn altered_syn_frame_is_refused(
    key: Seq<u8>,
    h: Header,
    client_pubkey: Seq<u8>,
    payload: Seq<u8>,
    altered: Seq<u8>,
    i: int,
)
    requires
        h.version == PROTO_VERSION,
        client_pubkey.len() == PUBKEY_LEN,
        sealed_syn_frame(key, h, client_pubkey, payload).len() >= MIN_SYN_FRAME_LEN,
        differ_at(sealed_syn_frame(key, h, client_pubkey, payload), altered, i),
        i >= 1,
        Header::parsed(altered) matches Ok(other) ==> aead_opened(
            key,
            nonce(other.connection_id, other.sequence),
            altered.take(SYN_HEADER_LEN as int),
            altered.skip(SYN_HEADER_LEN as int),
        ) is None,
    ensures
        opened_syn_payload(key, altered) == Err::<Seq<u8>, ProtocolError>(ProtocolError::AeadFailed),
{
    broadcast use lemma_be_len;

    let rest = aead_sealed(
        key,
        nonce(h.connection_id, h.sequence),
        syn_aad(h, client_pubkey),
        payload,
    );
    header_leads(h, client_pubkey + rest);
    assert(sealed_syn_frame(key, h, client_pubkey, payload) =~= h.wire() + (client_pubkey + rest));
}

/// A SYN frame is refused under another key, unless the AEAD happens to accept
/// it.
pub proof fn syn_frame_of_other_key_is_refused(
    key: Seq<u8>,
    other: Seq<u8>,
    h: Header,
    client_pubkey: Seq<u8>,
    payload: Seq<u8>,
)
    requires
        h.version == PROTO_VERSION,
        client_pubkey.len() == PUBKEY_LEN,
        sealed_syn_frame(key, h, client_pubkey, payload).len() >= MIN_SYN_FRAME_LEN,
        aead_opened(
            other,
            nonce(h.connection_id, h.sequence),
            syn_aad(h, client_pubkey),
            sealed_syn_frame(key, h, client_pubkey, payload).skip(SYN_HEADER_LEN as int),
        ) is None,
    ensures
        opened_syn_payload(other, sealed_syn_frame(key, h, client_pubkey, payload)) == Err::<
            Seq<u8>,
            ProtocolError,
        >(ProtocolError::AeadFailed),
{
    broadcast use lemma_be_len;

    let wire = sealed_syn_frame(key, h, client_pubkey, payload);
    let rest = aead_sealed(
        key,
        nonce(h.connection_id, h.sequence),
        syn_aad(h, client_pubkey),
        payload,
    );
    header_leads(h, client_pubkey + rest);
    assert(wire =~= h.wire() + (client_pubkey + rest));
    assert(wire.take(45) =~= syn_aad(h, client_pubkey));
}

// ---------- CONNECT ----------

#[derive(Debug, Clone, Copy, PartialEq, Eq, Structural)]
pub enum TransportProtocol {
    Tcp,
    Udp,
}

impl TransportProtocol {
    /// The byte that stands for the protocol in a CONNECT message.
    pub open spec fn byte(self) -> u8 {
        match self {
            TransportProtocol::Tcp => 1,
            TransportProtocol::Udp => 2,
        }
    }

    /// The protocol that a byte stands for.
    pub fn from_byte(b: u8) -> (r: Option<TransportProtocol>)
        ensures
            r == (if b == 1 {
                Some(TransportProtocol::Tcp)
            } else if b == 2 {
                Some(TransportProtocol::Udp)
            } else {
                None
            }),
    {
        match b {
            1 => Some(TransportProtocol::Tcp),
            2 => Some(TransportProtocol::Udp),
            _ => None,
        }
    }

    /// The byte that stands for the protocol in a CONNECT message.
    pub fn to_byte(&self) -> (b: u8)
        ensures
            b == self.byte(),
    {
        match self {
            TransportProtocol::Tcp => 1,
            TransportProtocol::Udp => 2,
        }
    }
}

/// CONNECT control message, sent in the payload of a SYN frame. It names the
/// destination that the bridge is to open a socket to.
#[derive(Debug, Clone, Copy, PartialEq, Eq, Structural)]
pub struct ConnectRequest {
    pub protocol: TransportProtocol,
    pub dest_ip: IpAddr,
    pub dest_port: u16,
}

impl ConnectRequest {
    /// `[1B proto] [1B addrlen = 4 or 16] [addrlen B addr] [2B port]`
    pub open spec fn wire(self) -> Seq<u8> {
        match self.dest_ip {
            IpAddr::V4(a) => seq![self.protocol.byte(), 4u8] + be(a as nat, 4) + be(
                self.dest_port as nat,
                2,
            ),
            IpAddr::V6(a) => seq![self.protocol.byte(), 16u8] + be(a as nat, 16) + be(
                self.dest_port as nat,
                2,
            ),
        }
    }

    /// What the front of `buf` says as a CONNECT message. Every refusal is
    /// reported as a truncation.
    pub open spec fn parsed(buf: Seq<u8>) -> Result<ConnectRequest, ProtocolError> {
        let got = buf.len() as usize;
        if buf.len() < 4 || !(buf[0] == 1 || buf[0] == 2) {
            Err(ProtocolError::Truncated { got, need: 4 })
        } else if buf[1] != 4 && buf[1] != 16 {
            Err(ProtocolError::Truncated { got, need: (4 + buf[1]) as usize })
        } else if buf.len() < 4 + buf[1] {
            Err(ProtocolError::Truncated { got, need: (4 + buf[1]) as usize })
        } else {
            let addr = be_value(buf.subrange(2, 2 + buf[1]));
            Ok(
                ConnectRequest {
                    protocol: if buf[0] == 1 {
                        TransportProtocol::Tcp
                    } else {
                        TransportProtocol::Udp
                    },
                    dest_ip: if buf[1] == 4 {
                        IpAddr::V4(addr as u32)
                    } else {
                        IpAddr::V6(addr as u128)
                    },
                    dest_port: be_value(buf.subrange(2 + buf[1], 4 + buf[1])) as u16,
                },
            )
        }
    }

    /// Writes the message.
    pub fn encode(&self) -> (out: Vec<u8>)
        ensures
            out@ == self.wire(),
    {
        let mut out: Vec<u8> = Vec::new();
        out.push(self.protocol.to_byte());
        match self.dest_ip {
            IpAddr::V4(a) => {
                out.push(4);
                push_be(&mut out, a as u128, 4);
            },
            IpAddr::V6(a) => {
                out.push(16);
                push_be(&mut out, a, 16);
            },
        }
        push_be(&mut out, self.dest_port as u128, 2);
        assert(out@ =~= self.wire());
        out
    }

    /// Reads a message from the front of `buf`.
    pub fn decode(buf: &[u8]) -> (r: Result<ConnectRequest, ProtocolError>)
        ensures
            r == ConnectRequest::parsed(buf@),
    {
        let got: usize = buf.len();
        if got < 4 {
            return Err(ProtocolError::Truncated { got, need: 4 });
        }
        let protocol = match TransportProtocol::from_byte(buf[0]) {
            Some(protocol) => protocol,
            None => {
                return Err(ProtocolError::Truncated { got, need: 4 });
            },
        };
        let addr_len: usize = buf[1] as usize;
        let need: usize = 2 + addr_len + 2;
        if !(addr_len == 4 || addr_len == 16) || got < need {
            return Err(ProtocolError::Truncated { got, need });
        }
        proof {
            lemma_be_value_bound(buf@.subrange(2, 2 + addr_len));
            lemma_be_value_bound(buf@.subrange(2 + addr_len, 4 + addr_len));
            lemma_pow256_widths();
        }
        let addr: u128 = read_be(&buf[2..2 + addr_len]);
        let dest_ip = if addr_len == 4 {
            IpAddr::V4(addr as u32)
        } else {
            IpAddr::V6(addr)
        };
        let dest_port: u16 = read_be(&buf[2 + addr_len..need]) as u16;
        Ok(ConnectRequest { protocol, dest_ip, dest_port })
    }
}

/// A CONNECT message survives the wire, whatever bytes follow it.
pub proof fn connect_round_trip(request: ConnectRequest, rest: Seq<u8>)
    ensures
        ConnectRequest::parsed(request.wire() + rest) == Ok::<ConnectRequest, ProtocolError>(
            request,
        ),
{
    broadcast use lemma_be_len;

    let buf = request.wire() + rest;
    let (addr, n): (nat, nat) = match request.dest_ip {
        IpAddr::V4(a) => (a as nat, 4),
        IpAddr::V6(a) => (a as nat, 16),
    };
    lemma_pow256_widths();
    lemma_be_value_of_be(addr, n);
    lemma_be_value_of_be(request.dest_port as nat, 2);
    assert(buf.subrange(2, 2 + n as int) =~= be(addr, n));
    assert(buf.subrange(2 + n as int, 4 + n as int) =~= be(request.dest_port as nat, 2));
}

// ---------- The layout of what is sent ----------

/// A header is 13 bytes: in the first the version, and each flag by its bit;
/// then the connection id and the sequence number, most significant byte first.
pub proof fn header_layout(h: Header)
    ensures
        ({
            let w = h.wire();
            &&& w.len() == 13
            &&& w[0] % 16 == h.version % 16
            &&& w[0] / 16 % 2 == 1 <==> h.flags.fec_parity
            &&& w[0] / 32 % 2 == 1 <==> h.flags.syn
            &&& w[0] / 64 % 2 == 1 <==> h.flags.fin
            &&& w[0] / 128 % 2 == 1 <==> h.flags.redundant
            &&& w[1] * 0x100_0000 + w[2] * 0x1_0000 + w[3] * 0x100 + w[4] == h.connection_id
            &&& (w[5] * 0x100_0000 + w[6] * 0x1_0000 + w[7] * 0x100 + w[8]) * 0x1_0000_0000 + w[9]
                * 0x100_0000 + w[10] * 0x1_0000 + w[11] * 0x100 + w[12] == h.sequence
        }),
{
    broadcast use lemma_be_len;

    let w = h.wire();
    lemma_flags_survive(h.version, h.flags);
    lemma_pow256_widths();
    lemma_be_value_of_be(h.connection_id as nat, 4);
    lemma_be_value_of_be(h.sequence as nat, 8);
    four_bytes(w.subrange(1, 5));
    eight_bytes(w.subrange(5, 13));
    assert(w.subrange(1, 5) =~= be(h.connection_id as nat, 4));
    assert(w.subrange(5, 13) =~= be(h.sequence as nat, 8));
}

/// A header is read off any 13 bytes whose first says version 1, and says what
/// those bytes say, whatever follows. Fewer bytes and other versions are refused
/// as such.
pub proof fn header_is_read_by_its_bytes(buf: Seq<u8>)
    ensures
        match Header::parsed(buf) {
            Ok(h) => {
                &&& buf.len() >= 13 && buf[0] % 16 == 1
                &&& h.version == 1
                &&& h.flags.fec_parity <==> buf[0] / 16 % 2 == 1
                &&& h.flags.syn <==> buf[0] / 32 % 2 == 1
                &&& h.flags.fin <==> buf[0] / 64 % 2 == 1
                &&& h.flags.redundant <==> buf[0] / 128 % 2 == 1
                &&& h.connection_id == buf[1] * 0x100_0000 + buf[2] * 0x1_0000 + buf[3] * 0x100
                    + buf[4]
                &&& h.sequence == (buf[5] * 0x100_0000 + buf[6] * 0x1_0000 + buf[7] * 0x100
                    + buf[8]) * 0x1_0000_0000 + buf[9] * 0x100_0000 + buf[10] * 0x1_0000 + buf[11]
                    * 0x100 + buf[12]
            },
            Err(e) => if buf.len() < 13 {
                e == (ProtocolError::Truncated { got: buf.len() as usize, need: 13 })
            } else {
                buf[0] % 16 != 1 && e == ProtocolError::UnknownVersion((buf[0] % 16) as u8)
            },
        },
{
    if let Ok(h) = Header::parsed(buf) {
        four_bytes(buf.subrange(1, 5));
        eight_bytes(buf.subrange(5, 13));
        lemma_be_value_bound(buf.subrange(1, 5));
        lemma_be_value_bound(buf.subrange(5, 13));
        lemma_pow256_widths();
    }
}

/// The flags of a byte are its four high bits, and uniting flags unites each.
pub proof fn flags_are_four_bits(a: Flags, b: Flags, bits: u8)
    ensures
        a.spec_bits() % 16 == 0,
        a.spec_bits() < 256,
        a.spec_bits() / 16 % 2 == 1 <==> a.fec_parity,
        a.spec_bits() / 32 % 2 == 1 <==> a.syn,
        a.spec_bits() / 64 % 2 == 1 <==> a.fin,
        a.spec_bits() / 128 % 2 == 1 <==> a.redundant,
        Flags::of_bits(bits).spec_bits() == bits - bits % 16,
        Flags::of_bits(a.spec_bits() as u8) == a,
        a.spec_union(b).fec_parity == (a.fec_parity || b.fec_parity),
        a.spec_union(b).syn == (a.syn || b.syn),
        a.spec_union(b).fin == (a.fin || b.fin),
        a.spec_union(b).redundant == (a.redundant || b.redundant),
{
    lemma_flags_survive(0, a);
    lemma_first_byte_splits(bits);
}

/// The nonce of a frame is the connection id in four bytes and the sequence
/// number in eight: the header without its first byte.
pub proof fn nonce_is_the_header_behind_its_first_byte(h: Header)
    ensures
        nonce(h.connection_id, h.sequence).len() == 12,
        nonce(h.connection_id, h.sequence) == h.wire().skip(1),
{
    broadcast use lemma_be_len;

    assert(nonce(h.connection_id, h.sequence) =~= h.wire().skip(1));
}

/// A frame is its header, and behind it what the AEAD makes of the payload with
/// that header as associated data.
pub proof fn frame_layout(key: Seq<u8>, h: Header, client_pubkey: Seq<u8>, payload: Seq<u8>)
    requires
        client_pubkey.len() == 32,
    ensures
        sealed_frame(key, h, payload).take(13) == h.wire(),
        sealed_frame(key, h, payload).skip(13) == aead_sealed(
            key,
            h.wire().skip(1),
            h.wire(),
            payload,
        ),
        sealed_syn_frame(key, h, client_pubkey, payload).take(13) == h.wire(),
        sealed_syn_frame(key, h, client_pubkey, payload).subrange(13, 45) == client_pubkey,
        sealed_syn_frame(key, h, client_pubkey, payload).skip(45) == aead_sealed(
            key,
            h.wire().skip(1),
            h.wire() + client_pubkey,
            payload,
        ),
{
    broadcast use lemma_be_len;

    nonce_is_the_header_behind_its_first_byte(h);
    let sealed = aead_sealed(key, h.wire().skip(1), h.wire(), payload);
    let syn_sealed = aead_sealed(key, h.wire().skip(1), h.wire() + client_pubkey, payload);
    let wire = sealed_frame(key, h, payload);
    let syn = sealed_syn_frame(key, h, client_pubkey, payload);
    assert(wire =~= h.wire() + sealed);
    assert(wire.take(13) =~= h.wire());
    assert(wire.skip(13) =~= sealed);
    assert(syn =~= h.wire() + client_pubkey + syn_sealed);
    assert(syn.take(13) =~= h.wire());
    assert(syn.subrange(13, 45) =~= client_pubkey);
    assert(syn.skip(45) =~= syn_sealed);
}

/// A frame of at least 29 bytes opens to its header and to what the AEAD makes of
/// the bytes behind the header; if the AEAD refuses them, so is the frame. What is
/// shorter is refused as truncated.
pub proof fn frame_opens_as_the_aead_does(key: Seq<u8>, wire: Seq<u8>)
    requires
        wire.len() <= 274_877_906_816 + 29,
    ensures
        wire.len() < 29 ==> opened_frame(key, wire) == Err::<(Header, Seq<u8>), ProtocolError>(
            ProtocolError::Truncated { got: wire.len() as usize, need: 29 },
        ),
        wire.len() >= 29 ==> match Header::parsed(wire) {
            Err(e) => opened_frame(key, wire) == Err::<(Header, Seq<u8>), ProtocolError>(e),
            Ok(h) => match aead_opened(key, wire.subrange(1, 13), wire.take(13), wire.skip(13)) {
                Some(payload) => opened_frame(key, wire) == Ok::<(Header, Seq<u8>), ProtocolError>(
                    (h, payload),
                ),
                None => opened_frame(key, wire) == Err::<(Header, Seq<u8>), ProtocolError>(
                    ProtocolError::AeadFailed,
                ),
            },
        },
        wire.len() >= 29 ==> frame_front(wire) == Header::parsed(wire),
{
    if let Ok(h) = Header::parsed(wire) {
        header_reads_one_encoding(wire);
        nonce_is_the_header_behind_its_first_byte(h);
        assert(wire.take(13).skip(1) =~= wire.subrange(1, 13));
    }
}

/// A SYN frame of at least 61 bytes has the client's key behind its header, and
/// opens to what the AEAD makes of the bytes behind both; if the AEAD refuses
/// them, so is the frame. What is shorter is refused as truncated.
pub proof fn syn_frame_opens_as_the_aead_does(key: Seq<u8>, wire: Seq<u8>)
    requires
        wire.len() <= 274_877_906_816 + 61,
    ensures
        wire.len() < 61 ==> {
            let e = ProtocolError::Truncated { got: wire.len() as usize, need: 61 };
            &&& syn_front(wire) == Err::<(Header, Seq<u8>), ProtocolError>(e)
            &&& opened_syn_payload(key, wire) == Err::<Seq<u8>, ProtocolError>(e)
        },
        wire.len() >= 61 ==> match Header::parsed(wire) {
            Err(e) => {
                &&& syn_front(wire) == Err::<(Header, Seq<u8>), ProtocolError>(e)
                &&& opened_syn_payload(key, wire) == Err::<Seq<u8>, ProtocolError>(e)
            },
            Ok(h) => {
                &&& syn_front(wire) == Ok::<(Header, Seq<u8>), ProtocolError>(
                    (h, wire.subrange(13, 45)),
                )
                &&& match aead_opened(key, wire.subrange(1, 13), wire.take(45), wire.skip(45)) {
                    Some(payload) => opened_syn_payload(key, wire) == Ok::<Seq<u8>, ProtocolError>(
                        payload,
                    ),
                    None => opened_syn_payload(key, wire) == Err::<Seq<u8>, ProtocolError>(
                        ProtocolError::AeadFailed,
                    ),
                }
            },
        },
{
    if let Ok(h) = Header::parsed(wire) {
        header_reads_one_encoding(wire);
        nonce_is_the_header_behind_its_first_byte(h);
        assert(wire.take(13).skip(1) =~= wire.subrange(1, 13));
    }
}

/// A CONNECT message is a byte for the protocol, 1 for TCP and 2 for UDP, the
/// length of the address, the address, and the port, most significant byte first.
pub proof fn connect_layout(request: ConnectRequest)
    ensures
        ({
            let w = request.wire();
            let n = w.len() as int;
            &&& w[0] == 1 <==> request.protocol == TransportProtocol::Tcp
            &&& w[0] == 2 <==> request.protocol == TransportProtocol::Udp
            &&& w[n - 2] * 0x100 + w[n - 1] == request.dest_port
            &&& match request.dest_ip {
                IpAddr::V4(a) => {
                    &&& n == 8 && w[1] == 4
                    &&& w[2] * 0x100_0000 + w[3] * 0x1_0000 + w[4] * 0x100 + w[5] == a
                },
                IpAddr::V6(a) => n == 20 && w[1] == 16 && be_value(w.subrange(2, 18)) == a,
            }
        }),
{
    broadcast use lemma_be_len;

    let w = request.wire();
    let n = w.len() as int;
    lemma_pow256_widths();
    lemma_be_value_of_be(request.dest_port as nat, 2);
    match request.dest_ip {
        IpAddr::V4(a) => {
            lemma_be_value_of_be(a as nat, 4);
            four_bytes(w.subrange(2, 6));
            assert(w.subrange(2, 6) =~= be(a as nat, 4));
        },
        IpAddr::V6(a) => {
            lemma_be_value_of_be(a as nat, 16);
            assert(w.subrange(2, 18) =~= be(a as nat, 16));
        },
    }
    two_bytes(w.subrange(n - 2, n));
    assert(w.subrange(n - 2, n) =~= be(request.dest_port as nat, 2));
}

/// A CONNECT message is read exactly where the protocol is known, the address is
/// of 4 or 16 bytes, and none of its bytes is missing. It then says what its bytes
/// say.
pub proof fn connect_is_read_by_its_bytes(buf: Seq<u8>)
    ensures
        match ConnectRequest::parsed(buf) {
            Ok(c) => {
                let n = buf[1] as int;
                &&& buf.len() >= 4 + n
                &&& n == 4 || n == 16
                &&& buf[0] == 1 && c.protocol == TransportProtocol::Tcp || buf[0] == 2 && c.protocol
                    == TransportProtocol::Udp
                &&& c.dest_port == buf[n + 2] * 0x100 + buf[n + 3]
                &&& n == 4 ==> c.dest_ip == IpAddr::V4(
                    (buf[2] * 0x100_0000 + buf[3] * 0x1_0000 + buf[4] * 0x100 + buf[5]) as u32,
                )
                &&& n == 16 ==> c.dest_ip == IpAddr::V6(be_value(buf.subrange(2, 18)) as u128)
            },
            Err(e) => {
                let got = buf.len() as usize;
                if buf.len() < 4 || (buf[0] != 1 && buf[0] != 2) {
                    e == (ProtocolError::Truncated { got, need: 4 })
                } else {
                    &&& buf[1] != 4 && buf[1] != 16 || buf.len() < 4 + buf[1]
                    &&& e == (ProtocolError::Truncated { got, need: (buf[1] + 4) as usize })
                }
            },
        },
{
    if let Ok(c) = ConnectRequest::parsed(buf) {
        let n = buf[1] as int;
        two_bytes(buf.subrange(2 + n, 4 + n));
        if n == 4 {
            four_bytes(buf.subrange(2, 6));
        }
    }
}

/// What a receiver gives of a frame is the header and what the AEAD has opened,
/// byte for byte, or the refusal; and uniting flags with `|` unites each.
pub proof fn results_are_given_whole(
    h: Header,
    payload: Seq<u8>,
    r: Result<(Header, Vec<u8>), ProtocolError>,
    a: Flags,
    b: Flags,
)
    ensures
        frame_outcome(h, Some(payload)) == Ok::<(Header, Seq<u8>), ProtocolError>((h, payload)),
        frame_outcome(h, None) == Err::<(Header, Seq<u8>), ProtocolError>(
            ProtocolError::AeadFailed,
        ),
        r matches Ok((header, bytes)) ==> frame_view(r) == Ok::<(Header, Seq<u8>), ProtocolError>(
            (header, bytes@),
        ),
        r matches Err(e) ==> frame_view(r) == Err::<(Header, Seq<u8>), ProtocolError>(e),
        <Flags as vstd::std_specs::ops::BitOrSpec>::obeys_bitor_spec(),
        vstd::std_specs::ops::BitOrSpec::bitor_req(a, b),
        vstd::std_specs::ops::BitOrSpec::bitor_spec(a, b) == (Flags {
            fec_parity: a.fec_parity || b.fec_parity,
            syn: a.syn || b.syn,
            fin: a.fin || b.fin,
            redundant: a.redundant || b.redundant,
        }),
{
}

} // verus!
