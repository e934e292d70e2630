//! The bridge: what it makes of a client's packets, and the sessions it keeps.
//!
//! - A SYN frame carries the client's public key. The bridge derives the
//!   session key, decrypts the payload, verifies the license token, reads the
//!   CONNECT message behind it and registers a session.
//! - A data frame belongs to the session of its sender and connection id; its
//!   payload goes to the destination, once: a frame that was taken before is
//!   refused.
//! - What comes from a destination goes back to the client in frames of the
//!   session.
//!
//! Sockets are operated from outside. Times are nanoseconds of a clock that
//! never goes back, but for the time a license is judged at, which is in Unix
//! seconds.

use vstd::prelude::*;

use crate::addr::SocketAddr;
use crate::bytes::{array_of, same_bytes};
use crate::encoding::hex_decode;
use crate::handshake::{
    bridge_derive_session_key, pubkey_from_bytes, secret_from_bytes, HandshakeError, X25519Secret,
};
use crate::license::{LicenseError, LicensePayload, LicenseToken, TOKEN_LEN};
use crate::protocol::{
    decrypt_syn_payload, encrypt_frame, parse_syn_front, AeadKey, ConnectRequest,
    Flags, Header, ProtocolError, TransportProtocol, MAX_PAYLOAD_LEN, PROTO_VERSION,
};
use crate::receiver::{receive, ReceiveError, SeenFrames};
use crate::signing::VerifyingKey;
use crate::table::{Key, Stamped, Table};

verus! {

use crate::crypto::{aead_sealed, ed25519_accepts, ed25519_decodable};
use crate::encoding::{hex_bytes, hex_refusal, is_hex};
use crate::handshake::session_key;
use crate::license::{payload_reads_one_encoding, payload_round_trip};
use crate::protocol::{
    connect_round_trip, header_is_read_by_its_bytes, header_leads, nonce, opened_frame, opened_syn_payload, sealed_frame,
    syn_front,
};
use crate::receiver::{frame_id, received};
use crate::table::without_idle;

// ---------- Configuration ----------

pub fn default_max_sessions() -> (n: usize)
    ensures
        n == 10_000,
{
    10_000
}

pub fn default_idle_timeout() -> (secs: u64)
    ensures
        secs == 300,
{
    300
}

#[derive(Debug)]
pub struct BridgeConfig {
    /// UDP address to listen on.
    pub listen: SocketAddr,
    /// The bridge's long-term X25519 secret, as hexadecimal.
    pub bridge_x25519_seckey_hex: String,
    /// The backend's Ed25519 public key, as hexadecimal. License tokens are
    /// verified with it.
    pub backend_ed25519_pubkey_hex: String,
    /// Whether any signed token is accepted. Otherwise a token needs bit 0 of
    /// its scope set ("any bridge").
    pub allow_any_scope: bool,
    /// How many sessions there may be at a time.
    pub max_sessions: usize,
    /// After how many seconds without traffic a session is dropped.
    pub idle_timeout_secs: u64,
    /// Where metrics are served, if at all.
    pub metrics_listen: Option<SocketAddr>,
}

/// Why a key of the configuration cannot be read.
#[derive(Debug)]
pub enum KeyError {
    /// Not hexadecimal, with the message of the refusal.
    Hex(String),
    /// Not 32 bytes.
    WrongLength(usize),
    /// 32 bytes that are no public key.
    NotAKey,
}

impl BridgeConfig {
    /// The bridge's secret.
    pub fn parsed_x25519_secret(&self) -> (r: Result<X25519Secret, KeyError>)
        ensures
            ({
                let text = self.bridge_x25519_seckey_hex@;
                match r {
                    Ok(secret) => {
                        &&& is_hex(text) && hex_bytes(text).len() == 32
                        &&& secret@ == hex_bytes(text)
                    },
                    Err(KeyError::Hex(message)) => !is_hex(text) && message@ == hex_refusal(text),
                    Err(KeyError::WrongLength(n)) => {
                        is_hex(text) && n == hex_bytes(text).len() && n != 32
                    },
                    Err(KeyError::NotAKey) => false,
                }
            }),
    {
        let bytes = match hex_decode(self.bridge_x25519_seckey_hex.as_str()) {
            Ok(bytes) => bytes,
            Err(message) => {
                return Err(KeyError::Hex(message));
            },
        };
        match secret_from_bytes(&bytes) {
            Ok(secret) => Ok(secret),
            Err(_) => Err(KeyError::WrongLength(bytes.len())),
        }
    }

    /// The backend's public key.
    pub fn parsed_backend_pubkey(&self) -> (r: Result<VerifyingKey, KeyError>)
        ensures
            ({
                let text = self.backend_ed25519_pubkey_hex@;
                match r {
                    Ok(key) => {
                        &&& is_hex(text) && hex_bytes(text).len() == 32
                        &&& ed25519_decodable(hex_bytes(text))
                        &&& key@ == hex_bytes(text)
                    },
                    Err(KeyError::Hex(message)) => !is_hex(text) && message@ == hex_refusal(text),
                    Err(KeyError::WrongLength(n)) => {
                        is_hex(text) && n == hex_bytes(text).len() && n != 32
                    },
                    Err(KeyError::NotAKey) => {
                        &&& is_hex(text) && hex_bytes(text).len() == 32
                        &&& !ed25519_decodable(hex_bytes(text))
                    },
                }
            }),
    {
        let bytes = match hex_decode(self.backend_ed25519_pubkey_hex.as_str()) {
            Ok(bytes) => bytes,
            Err(message) => {
                return Err(KeyError::Hex(message));
            },
        };
        if bytes.len() != 32 {
            return Err(KeyError::WrongLength(bytes.len()));
        }
        match VerifyingKey::from_bytes(&array_of(&bytes)) {
            Some(key) => Ok(key),
            None => Err(KeyError::NotAKey),
        }
    }
}

// ---------- Sessions ----------

/// A session is one connection of one client address.
#[derive(Debug, Clone, Copy, PartialEq, Eq, Hash, Structural)]
pub struct SessionKey {
    pub client_addr: SocketAddr,
    pub connection_id: u32,
}

impl Key for SessionKey {
    open spec fn spec_rank(self) -> (u128, u128) {
        (
            self.client_addr.spec_rank().0,
            (self.client_addr.spec_rank().1 * 0x1_0000_0000 + self.connection_id) as u128,
        )
    }

    proof fn rank_is_injective(a: Self, b: Self) {
        assert(a.client_addr.spec_rank().1 < 0x2_0000);
        assert(b.client_addr.spec_rank().1 < 0x2_0000);
        SocketAddr::rank_is_injective(a.client_addr, b.client_addr);
    }

    fn rank(&self) -> (r: (u128, u128)) {
        let (number, rest): (u128, u128) = self.client_addr.rank();
        (number, rest * 0x1_0000_0000 + self.connection_id as u128)
    }
}

/// What the bridge keeps of a session.
#[derive(Debug)]
pub struct Session {
    pub aead_key: AeadKey,
    /// Sequence number of the last frame sent to the client.
    pub tx_sequence: u64,
    /// When the session last carried traffic, in either direction.
    pub last_active: u64,
    /// The frames taken from the client.
    pub seen: SeenFrames,
}

impl Stamped for Session {
    open spec fn spec_stamp(self) -> u64 {
        self.last_active
    }

    fn stamp(&self) -> (at: u64) {
        self.last_active
    }
}

impl Session {
    /// Whether this is a session that was opened with this key at this time.
    pub open spec fn is_fresh(self, aead_key: AeadKey, now: u64) -> bool {
        &&& self.aead_key == aead_key
        &&& self.tx_sequence == 0
        &&& self.last_active == now
        &&& self.seen@ == Set::<(u32, u64)>::empty()
        &&& self.seen.wf()
    }

    /// Whether taking a frame with this header at this time leaves the session as
    /// `after`.
    pub open spec fn takes(self, after: Session, h: Header, now: u64) -> bool {
        &&& after.aead_key == self.aead_key
        &&& after.tx_sequence == self.tx_sequence
        &&& after.last_active == now
        &&& after.seen@ == self.seen@.insert(frame_id(h))
    }

    pub fn new(aead_key: AeadKey, now: u64) -> (session: Session)
        ensures
            session.is_fresh(aead_key, now),
    {
        Session { aead_key, tx_sequence: 0, last_active: now, seen: SeenFrames::new() }
    }
}

/// Payload from a destination, for the client of a session.
#[derive(Debug)]
pub struct DownstreamPacket {
    pub session_key: SessionKey,
    pub payload: Vec<u8>,
}

/// What came of reading from a destination.
#[derive(Debug)]
pub enum DestRead {
    Failed,
    Data(Vec<u8>),
}

/// What is to be done after reading from a destination.
#[derive(Debug)]
pub enum DrainStep {
    /// Send this to the client, and read again.
    Queue(DownstreamPacket),
    /// The destination has closed the connection.
    Finish,
    /// Reading failed.
    Fail,
}

/// Decides what is to be done after reading from the destination of a session.
/// Reading nothing from a TCP connection means that it was closed; an empty
/// UDP datagram is passed on.
pub fn drain_step(key: SessionKey, transport: TransportProtocol, read: DestRead) -> (step: DrainStep)
    ensures
        match read {
            DestRead::Failed => step is Fail,
            DestRead::Data(bytes) => if transport == TransportProtocol::Tcp && bytes@.len() == 0 {
                step is Finish
            } else {
                step == DrainStep::Queue(DownstreamPacket { session_key: key, payload: bytes })
            },
        },
{
    match read {
        DestRead::Failed => DrainStep::Fail,
        DestRead::Data(bytes) => if transport == TransportProtocol::Tcp && bytes.len() == 0 {
            DrainStep::Finish
        } else {
            DrainStep::Queue(DownstreamPacket { session_key: key, payload: bytes })
        },
    }
}

// ---------- Admission ----------

/// Why a SYN frame is refused.
#[derive(Debug)]
pub enum AdmitError {
    /// There are as many sessions as there may be.
    TableFull,
    /// The frame cannot be read or decrypted, or the CONNECT message cannot be
    /// read.
    Protocol(ProtocolError),
    /// The client's public key cannot be read.
    Handshake(HandshakeError),
    /// The payload is too short for a token and a CONNECT message.
    PayloadTooShort,
    /// The license token is refused.
    License(LicenseError),
    /// The license lacks bit 0 of the scope.
    MissingScope,
}

/// A request that the bridge grants.
#[derive(Debug, Clone, Copy)]
pub struct Admitted {
    pub aead_key: AeadKey,
    pub license: LicensePayload,
    pub connect: ConnectRequest,
}

/// What a bridge reads out of a SYN frame: the session key and the payload.
pub open spec fn syn_contents(bridge_secret: Seq<u8>, wire: Seq<u8>) -> Result<
    (Seq<u8>, Seq<u8>),
    ProtocolError,
> {
    match syn_front(wire) {
        Err(e) => Err(e),
        Ok((_, client_pubkey)) => {
            let key = session_key(bridge_secret, client_pubkey);
            match opened_syn_payload(key, wire) {
                Err(e) => Err(e),
                Ok(inner) => Ok((key, inner)),
            }
        },
    }
}

/// The license payload of a SYN payload.
pub open spec fn syn_license(inner: Seq<u8>) -> LicensePayload {
    LicensePayload::parsed(inner)
}

/// Whether the license token of a SYN payload is signed with this key.
pub open spec fn syn_token_accepted(backend_pubkey: Seq<u8>, inner: Seq<u8>) -> bool {
    ed25519_accepts(
        backend_pubkey,
        syn_license(inner).wire(),
        inner.subrange(24, TOKEN_LEN as int),
    )
}

/// What a bridge makes of a SYN payload, given whether the token's signature is
/// accepted.
pub open spec fn syn_judgement(
    inner: Seq<u8>,
    accepted: bool,
    allow_any_scope: bool,
    now_unix: i64,
) -> Result<(LicensePayload, ConnectRequest), AdmitError> {
    if inner.len() < TOKEN_LEN + 4 {
        Err(AdmitError::PayloadTooShort)
    } else {
        match syn_license(inner).verdict(accepted, now_unix) {
            Err(e) => Err(AdmitError::License(e)),
            Ok(()) => if !allow_any_scope && syn_license(inner).scope % 2 == 0 {
                Err(AdmitError::MissingScope)
            } else {
                match ConnectRequest::parsed(inner.skip(TOKEN_LEN as int)) {
                    Err(e) => Err(AdmitError::Protocol(e)),
                    Ok(connect) => Ok((syn_license(inner), connect)),
                }
            },
        }
    }
}

/// A SYN payload that is a valid token and a CONNECT message is granted, with
/// that message.
pub proof fn valid_syn_is_granted(
    token: LicenseToken,
    connect: ConnectRequest,
    allow_any_scope: bool,
    now_unix: i64,
)
    requires
        token.payload.issued_at <= now_unix < token.payload.expires_at,
        allow_any_scope || token.payload.scope % 2 == 1,
    ensures
        syn_judgement(token.wire() + connect.wire(), true, allow_any_scope, now_unix) == Ok::<
            (LicensePayload, ConnectRequest),
            AdmitError,
        >((token.payload, connect)),
        forall|backend_pubkey: Seq<u8>| #[trigger]
            syn_token_accepted(backend_pubkey, token.wire() + connect.wire()) == ed25519_accepts(
                backend_pubkey,
                token.payload.wire(),
                token.signature@,
            ),
{
    broadcast use crate::bytes::lemma_be_len;

    let inner = token.wire() + connect.wire();
    payload_round_trip(token.payload, token.signature@ + connect.wire());
    assert(inner =~= token.payload.wire() + (token.signature@ + connect.wire()));
    assert(inner.subrange(24, 88) =~= token.signature@);
    assert(inner.skip(88) =~= connect.wire());
    connect_round_trip(connect, Seq::empty());
    assert(connect.wire() + Seq::<u8>::empty() =~= connect.wire());
}

/// Judges a SYN payload, given whether the token's signature is accepted.
pub fn judge_syn(inner: &[u8], accepted: bool, allow_any_scope: bool, now_unix: i64) -> (r: Result<
    (LicensePayload, ConnectRequest),
    AdmitError,
>)
    ensures
        r == syn_judgement(inner@, accepted, allow_any_scope, now_unix),
{
    if inner.len() < TOKEN_LEN + 4 {
        return Err(AdmitError::PayloadTooShort);
    }
    let license = LicensePayload::decode(inner);
    match license.judge(accepted, now_unix) {
        Ok(()) => {},
        Err(e) => {
            return Err(AdmitError::License(e));
        },
    }
    if !allow_any_scope && license.scope % 2 == 0 {
        return Err(AdmitError::MissingScope);
    }
    let rest: &[u8] = &inner[TOKEN_LEN..inner.len()];
    assert(rest@ =~= inner@.skip(TOKEN_LEN as int));
    match ConnectRequest::decode(rest) {
        Ok(connect) => Ok((license, connect)),
        Err(e) => Err(AdmitError::Protocol(e)),
    }
}

// ---------- The bridge ----------

/// What a packet from a client is for.
#[derive(Debug, Clone, Copy, PartialEq, Eq, Structural)]
pub enum Incoming {
    /// It asks for this session to be opened.
    Syn(SessionKey),
    /// It carries data of this session.
    Data(SessionKey),
}

/// What a packet from a client is for.
pub open spec fn incoming(peer: SocketAddr, wire: Seq<u8>) -> Result<Incoming, ProtocolError> {
    match Header::parsed(wire) {
        Err(e) => Err(e),
        Ok(h) => {
            let key = SessionKey { client_addr: peer, connection_id: h.connection_id };
            if h.flags.syn {
                Ok(Incoming::Syn(key))
            } else {
                Ok(Incoming::Data(key))
            }
        },
    }
}

/// Reads off its header what a packet from a client is for.
pub fn classify(peer: SocketAddr, wire: &[u8]) -> (r: Result<Incoming, ProtocolError>)
    ensures
        r == incoming(peer, wire@),
{
    match Header::decode(wire) {
        Ok(header) => {
            let key = SessionKey { client_addr: peer, connection_id: header.connection_id };
            if header.flags.contains(Flags::syn()) {
                Ok(Incoming::Syn(key))
            } else {
                Ok(Incoming::Data(key))
            }
        },
        Err(e) => Err(e),
    }
}

/// A data frame is taken for data of its sender's connection.
pub proof fn data_frame_is_classified(
    peer: SocketAddr,
    key: Seq<u8>,
    connection_id: u32,
    sequence: u64,
    payload: Seq<u8>,
)
    ensures
        incoming(peer, sealed_frame(key, data_header(connection_id, sequence), payload)) == Ok::<
            Incoming,
            ProtocolError,
        >(Incoming::Data(SessionKey { client_addr: peer, connection_id })),
{
    let h = data_header(connection_id, sequence);
    header_leads(h, aead_sealed(key, nonce(connection_id, sequence), h.wire(), payload));
}

/// Which key of the configuration cannot be read, and why.
#[derive(Debug)]
pub enum SetupError {
    BridgeSecret(KeyError),
    BackendPubkey(KeyError),
}

/// Why a data frame is not forwarded.
#[derive(Debug, Clone, Copy, PartialEq, Eq, Structural)]
pub enum ForwardError {
    NoSession,
    Protocol(ProtocolError),
    /// The session has taken a frame with this connection id and sequence number
    /// before.
    Repeated { connection_id: u32, sequence: u64 },
}

/// A bridge: its keys, its limits, and its sessions.
pub struct Bridge {
    config: BridgeConfig,
    bridge_secret: X25519Secret,
    backend_pubkey: VerifyingKey,
    sessions: Table<SessionKey, Session>,
}

/// The header of the frame with this sequence number of a session.
pub open spec fn data_header(connection_id: u32, sequence: u64) -> Header {
    Header {
        version: PROTO_VERSION,
        flags: Flags { fec_parity: false, syn: false, fin: false, redundant: false },
        connection_id,
        sequence,
    }
}

impl Bridge {
    pub closed spec fn wf(self) -> bool {
        &&& self.sessions.wf()
        &&& forall|key: SessionKey| #[trigger]
            self.sessions@.dom().contains(key) ==> self.sessions@[key].seen.wf()
    }

    pub closed spec fn spec_config(self) -> BridgeConfig {
        self.config
    }

    pub closed spec fn secret(self) -> Seq<u8> {
        self.bridge_secret@
    }

    pub closed spec fn backend(self) -> Seq<u8> {
        self.backend_pubkey@
    }

    pub closed spec fn sessions(self) -> Map<SessionKey, Session> {
        self.sessions@
    }

    /// The parts of the state that stay as they were made.
    pub open spec fn same_setup(self, other: Bridge) -> bool {
        &&& self.spec_config() == other.spec_config()
        &&& self.secret() == other.secret()
        &&& self.backend() == other.backend()
    }

    /// What the bridge makes of a SYN frame: the session key, the license, and
    /// the request.
    pub open spec fn admission(self, wire: Seq<u8>, now_unix: i64) -> Result<
        (Seq<u8>, LicensePayload, ConnectRequest),
        AdmitError,
    > {
        if self.sessions().len() >= self.spec_config().max_sessions {
            Err(AdmitError::TableFull)
        } else {
            match syn_contents(self.secret(), wire) {
                Err(e) => Err(AdmitError::Protocol(e)),
                Ok((key, inner)) => match syn_judgement(
                    inner,
                    syn_token_accepted(self.backend(), inner),
                    self.spec_config().allow_any_scope,
                    now_unix,
                ) {
                    Err(e) => Err(e),
                    Ok((license, connect)) => Ok((key, license, connect)),
                },
            }
        }
    }

    /// A bridge without sessions.
    pub fn new(config: BridgeConfig) -> (r: Result<Bridge, SetupError>)
        ensures
            ({
                let secret = config.bridge_x25519_seckey_hex@;
                let backend = config.backend_ed25519_pubkey_hex@;
                let secret_ok = is_hex(secret) && hex_bytes(secret).len() == 32;
                let backend_ok = is_hex(backend) && hex_bytes(backend).len() == 32
                    && ed25519_decodable(hex_bytes(backend));
                match r {
                    Ok(bridge) => {
                        &&& secret_ok && backend_ok
                        &&& bridge.wf()
                        &&& bridge.spec_config() == config
                        &&& bridge.secret() == hex_bytes(secret)
                        &&& bridge.backend() == hex_bytes(backend)
                        &&& bridge.sessions() == Map::<SessionKey, Session>::empty()
                    },
                    Err(SetupError::BridgeSecret(e)) => !secret_ok && match e {
                        KeyError::Hex(message) => !is_hex(secret) && message@ == hex_refusal(
                            secret,
                        ),
                        KeyError::WrongLength(n) => is_hex(secret) && n == hex_bytes(secret).len(),
                        KeyError::NotAKey => false,
                    },
                    Err(SetupError::BackendPubkey(e)) => secret_ok && !backend_ok && match e {
                        KeyError::Hex(message) => !is_hex(backend) && message@ == hex_refusal(
                            backend,
                        ),
                        KeyError::WrongLength(n) => {
                            is_hex(backend) && n == hex_bytes(backend).len() && n != 32
                        },
                        KeyError::NotAKey => is_hex(backend) && hex_bytes(backend).len() == 32,
                    },
                }
            }),
    {
        let bridge_secret = match config.parsed_x25519_secret() {
            Ok(secret) => secret,
            Err(e) => {
                return Err(SetupError::BridgeSecret(e));
            },
        };
        let backend_pubkey = match config.parsed_backend_pubkey() {
            Ok(key) => key,
            Err(e) => {
                return Err(SetupError::BackendPubkey(e));
            },
        };
        Ok(Bridge { config, bridge_secret, backend_pubkey, sessions: Table::new() })
    }

    pub fn config(&self) -> (config: &BridgeConfig)
        ensures
            *config == self.spec_config(),
    {
        &self.config
    }

    pub fn session_count(&self) -> (n: usize)
        requires
            self.wf(),
        ensures
            n == self.sessions().len(),
    {
        self.sessions.len()
    }

    /// Judges a SYN frame.
    pub fn accept_new_session(&self, wire: &[u8], now_unix: i64) -> (r: Result<Admitted, AdmitError>)
        requires
            self.wf(),
        ensures
            match r {
                Ok(a) => self.admission(wire@, now_unix) == Ok::<
                    (Seq<u8>, LicensePayload, ConnectRequest),
                    AdmitError,
                >((a.aead_key@, a.license, a.connect)),
                Err(e) => self.admission(wire@, now_unix) == Err::<
                    (Seq<u8>, LicensePayload, ConnectRequest),
                    AdmitError,
                >(e),
            },
    {
        if self.sessions.len() >= self.config.max_sessions {
            return Err(AdmitError::TableFull);
        }
        let client_pk_bytes: [u8; 32] = match parse_syn_front(wire) {
            Ok((_, bytes)) => bytes,
            Err(e) => {
                return Err(AdmitError::Protocol(e));
            },
        };
        let client_pk = match pubkey_from_bytes(&client_pk_bytes) {
            Ok(key) => key,
            Err(e) => {
                return Err(AdmitError::Handshake(e));
            },
        };
        let aead_key = bridge_derive_session_key(&self.bridge_secret, &client_pk);
        let inner = match decrypt_syn_payload(&aead_key, wire) {
            Ok(inner) => inner,
            Err(e) => {
                return Err(AdmitError::Protocol(e));
            },
        };
        let accepted = if inner.len() >= TOKEN_LEN {
            let license = LicensePayload::decode(&inner);
            let signature: [u8; 64] = array_of(&inner[24..TOKEN_LEN]);
            self.backend_pubkey.accepts(&license.encode(), &signature)
        } else {
            false
        };
        match judge_syn(&inner, accepted, self.config.allow_any_scope, now_unix) {
            Ok((license, connect)) => Ok(Admitted { aead_key, license, connect }),
            Err(e) => Err(e),
        }
    }

    /// Whether there is a session under this key with this AEAD key, which is
    /// where a copy of the SYN frame that opened it leads.
    pub open spec fn has_session(self, key: SessionKey, aead_key: AeadKey) -> bool {
        self.sessions().dom().contains(key) && self.sessions()[key].aead_key@ == aead_key@
    }

    /// Whether a session is open already.
    pub fn is_open(&self, key: SessionKey, aead_key: &AeadKey) -> (open: bool)
        requires
            self.wf(),
        ensures
            open == self.has_session(key, *aead_key),
    {
        match self.sessions.get(&key) {
            Some(session) => same_bytes(&session.aead_key, aead_key),
            None => false,
        }
    }

    /// Registers a session, once its destination is reached; whether it is new. A
    /// session that is open already stays as it is: a further copy of its SYN
    /// frame neither forgets the frames it has taken nor restarts its numbers.
    pub fn register(&mut self, key: SessionKey, aead_key: AeadKey, now: u64) -> (opened: bool)
        requires
            old(self).wf(),
        ensures
            final(self).wf(),
            final(self).same_setup(*old(self)),
            opened == !old(self).has_session(key, aead_key),
            if opened {
                &&& final(self).sessions() == old(self).sessions().insert(
                    key,
                    final(self).sessions()[key],
                )
                &&& final(self).sessions()[key].is_fresh(aead_key, now)
            } else {
                final(self).sessions() == old(self).sessions()
            },
    {
        if self.is_open(key, &aead_key) {
            return false;
        }
        self.sessions.insert(key, Session::new(aead_key, now));
        true
    }

    /// Takes a data frame of a session: the payload for its destination. The
    /// session then counts as active, and the frame as seen. A frame that is
    /// refused changes nothing.
    pub fn forward_data(&mut self, key: SessionKey, wire: &[u8], now: u64) -> (r: Result<
        Vec<u8>,
        ForwardError,
    >)
        requires
            old(self).wf(),
        ensures
            final(self).wf(),
            final(self).same_setup(*old(self)),
            ({
                let sessions = old(self).sessions();
                let outcome = received(sessions[key].aead_key@, sessions[key].seen@, wire@);
                match r {
                    Ok(payload) => {
                        &&& sessions.dom().contains(key)
                        &&& outcome matches Ok((h, p)) && p == payload@ && sessions[key].takes(
                            final(self).sessions()[key],
                            h,
                            now,
                        )
                        &&& final(self).sessions() == sessions.insert(
                            key,
                            final(self).sessions()[key],
                        )
                    },
                    Err(e) => final(self).sessions() == sessions && match e {
                        ForwardError::NoSession => !sessions.dom().contains(key),
                        ForwardError::Protocol(p) => sessions.dom().contains(key) && outcome
                            == Err::<(Header, Seq<u8>), ReceiveError>(ReceiveError::Protocol(p)),
                        ForwardError::Repeated { connection_id, sequence } => {
                            &&& sessions.dom().contains(key)
                            &&& outcome == Err::<(Header, Seq<u8>), ReceiveError>(
                                ReceiveError::Repeated { connection_id, sequence },
                            )
                        },
                    },
                }
            }),
    {
        let taken = match self.sessions.get_mut(&key) {
            Some(session) => {
                let taken = receive(&session.aead_key, &mut session.seen, wire);
                if taken.is_ok() {
                    session.last_active = now;
                }
                taken
            },
            None => {
                return Err(ForwardError::NoSession);
            },
        };
        match taken {
            Ok((_, payload)) => Ok(payload),
            Err(e) => {
                assert(self.sessions@ =~= old(self).sessions@);
                match e {
                    ReceiveError::Protocol(p) => Err(ForwardError::Protocol(p)),
                    ReceiveError::Repeated { connection_id, sequence } => Err(
                        ForwardError::Repeated { connection_id, sequence },
                    ),
                }
            },
        }
    }

    /// Makes a frame of what came from a destination. `None` where the session
    /// is gone. The session then counts as active. The sequence number advances,
    /// wrapping around, even where the payload is too large.
    ///
    /// The numbers start at 1 in either direction, under one key and connection
    /// id, so that the first frames to the client have the nonces of the first
    /// frames from it.
    pub fn frame_downstream(&mut self, packet: &DownstreamPacket, now: u64) -> (r: Option<
        Result<Vec<u8>, ProtocolError>,
    >)
        requires
            old(self).wf(),
        ensures
            final(self).wf(),
            final(self).same_setup(*old(self)),
            ({
                let key = packet.session_key;
                let sessions = old(self).sessions();
                let sequence = sessions[key].tx_sequence.wrapping_add(1);
                let header = data_header(key.connection_id, sequence);
                match r {
                    None => !sessions.dom().contains(key) && final(self).sessions() == sessions,
                    Some(framed) => {
                        &&& sessions.dom().contains(key)
                        &&& final(self).sessions() == sessions.insert(
                            key,
                            Session {
                                tx_sequence: sequence,
                                last_active: now,
                                ..sessions[key]
                            },
                        )
                        &&& match framed {
                            Ok(wire) => {
                                &&& packet.payload@.len() <= MAX_PAYLOAD_LEN
                                &&& wire@ == sealed_frame(
                                    sessions[key].aead_key@,
                                    header,
                                    packet.payload@,
                                )
                                &&& opened_frame(sessions[key].aead_key@, wire@) == Ok::<
                                    (Header, Seq<u8>),
                                    ProtocolError,
                                >((header, packet.payload@))
                            },
                            Err(e) => {
                                &&& packet.payload@.len() > MAX_PAYLOAD_LEN
                                &&& e == ProtocolError::PayloadTooLarge(
                                    packet.payload@.len() as usize,
                                )
                            },
                        }
                    },
                }
            }),
    {
        let key = packet.session_key;
        match self.sessions.get_mut(&key) {
            Some(session) => {
                let sequence: u64 = session.tx_sequence.wrapping_add(1);
                session.tx_sequence = sequence;
                session.last_active = now;
                let header = Header {
                    version: PROTO_VERSION,
                    flags: Flags::empty(),
                    connection_id: key.connection_id,
                    sequence,
                };
                Some(encrypt_frame(&session.aead_key, &header, &packet.payload))
            },
            None => None,
        }
    }

    /// Drops the sessions without traffic, in either direction, for longer than
    /// the timeout; gives their keys.
    pub fn reap_idle(&mut self, now: u64) -> (dropped: Vec<SessionKey>)
        requires
            old(self).wf(),
        ensures
            final(self).wf(),
            final(self).same_setup(*old(self)),
            final(self).sessions() == without_idle(
                old(self).sessions(),
                now,
                old(self).spec_config().idle_timeout_secs,
            ),
            dropped@.no_duplicates(),
            dropped@.to_set() == old(self).sessions().dom().difference(
                final(self).sessions().dom(),
            ),
    {
        self.sessions.drop_idle(now, self.config.idle_timeout_secs)
    }
}

/// Registering a session that was granted keeps the number of sessions within
/// the limit.
pub proof fn granted_session_fits(bridge: Bridge, wire: Seq<u8>, now_unix: i64, key: SessionKey, session: Session)
    requires
        bridge.wf(),
        bridge.admission(wire, now_unix) is Ok,
    ensures
        bridge.sessions().insert(key, session).len() <= bridge.spec_config().max_sessions,
{
    bridge.sessions.lemma_finite();
}

/// A session is dropped exactly where it has carried no traffic, in either
/// direction, for longer than the timeout.
pub proof fn only_idle_sessions_are_dropped(
    sessions: Map<SessionKey, Session>,
    key: SessionKey,
    now: u64,
    idle_timeout_secs: u64,
)
    requires
        sessions.dom().contains(key),
    ensures
        !without_idle(sessions, now, idle_timeout_secs).dom().contains(key)
            <==> sessions[key].last_active + idle_timeout_secs * 1_000_000_000 < now,
{
}

// ---------- What the bridge promises ----------

/// The license of a SYN payload is its first 24 bytes, which have to be signed by
/// the next 64.
pub proof fn license_is_signed_as_it_stands(inner: Seq<u8>, backend_pubkey: Seq<u8>)
    requires
        inner.len() >= 88,
    ensures
        syn_license(inner).wire() == inner.take(24),
        syn_token_accepted(backend_pubkey, inner) == ed25519_accepts(
            backend_pubkey,
            inner.take(24),
            inner.subrange(24, 88),
        ),
{
    payload_reads_one_encoding(inner);
}

/// A SYN payload is granted exactly where it is long enough, its license is
/// accepted, in its time and of the right scope, and the request behind it can be
/// read; and then as that license and request say. The first of these that fails
/// is the reason of the refusal.
pub proof fn syn_is_granted_only_if_all_is_well(
    inner: Seq<u8>,
    accepted: bool,
    allow_any_scope: bool,
    now_unix: i64,
)
    ensures
        ({
            let license = LicensePayload::parsed(inner);
            let request = ConnectRequest::parsed(inner.skip(88));
            let in_scope = allow_any_scope || license.scope % 2 == 1;
            let r = syn_judgement(inner, accepted, allow_any_scope, now_unix);
            if inner.len() < 92 {
                r == Err::<(LicensePayload, ConnectRequest), AdmitError>(
                    AdmitError::PayloadTooShort,
                )
            } else if !accepted {
                r == Err::<(LicensePayload, ConnectRequest), AdmitError>(
                    AdmitError::License(LicenseError::BadSignature),
                )
            } else if now_unix < license.issued_at {
                r == Err::<(LicensePayload, ConnectRequest), AdmitError>(
                    AdmitError::License(
                        LicenseError::NotYetValid { issued_at: license.issued_at, now: now_unix },
                    ),
                )
            } else if license.expires_at <= now_unix {
                r == Err::<(LicensePayload, ConnectRequest), AdmitError>(
                    AdmitError::License(
                        LicenseError::Expired { expires_at: license.expires_at, now: now_unix },
                    ),
                )
            } else if !in_scope {
                r == Err::<(LicensePayload, ConnectRequest), AdmitError>(AdmitError::MissingScope)
            } else {
                match request {
                    Ok(connect) => r == Ok::<(LicensePayload, ConnectRequest), AdmitError>(
                        (license, connect),
                    ),
                    Err(e) => r == Err::<(LicensePayload, ConnectRequest), AdmitError>(
                        AdmitError::Protocol(e),
                    ),
                }
            }
        }),
{
}

/// A bridge reads a SYN frame with the key that its secret gives with the public
/// key in the frame's front.
pub proof fn syn_is_read_with_the_key_in_front(secret: Seq<u8>, wire: Seq<u8>)
    ensures
        match syn_front(wire) {
            Ok((h, client_pubkey)) => {
                let key = session_key(secret, client_pubkey);
                match opened_syn_payload(key, wire) {
                    Ok(inner) => syn_contents(secret, wire) == Ok::<
                        (Seq<u8>, Seq<u8>),
                        ProtocolError,
                    >((key, inner)),
                    Err(e) => syn_contents(secret, wire) == Err::<
                        (Seq<u8>, Seq<u8>),
                        ProtocolError,
                    >(e),
                }
            },
            Err(e) => syn_contents(secret, wire) == Err::<(Seq<u8>, Seq<u8>), ProtocolError>(e),
        },
{
}

/// A SYN frame is refused for want of room exactly where there are as many
/// sessions as there may be; and else judged by what the bridge reads out of it,
/// by the backend's key and the bridge's own rule on scopes.
pub proof fn admission_is_by_room_and_judgement(bridge: Bridge, wire: Seq<u8>, now_unix: i64)
    ensures
        ({
            let r = bridge.admission(wire, now_unix);
            if bridge.spec_config().max_sessions <= bridge.sessions().len() {
                r == Err::<(Seq<u8>, LicensePayload, ConnectRequest), AdmitError>(
                    AdmitError::TableFull,
                )
            } else {
                match syn_contents(bridge.secret(), wire) {
                    Err(e) => r == Err::<(Seq<u8>, LicensePayload, ConnectRequest), AdmitError>(
                        AdmitError::Protocol(e),
                    ),
                    Ok((key, inner)) => {
                        let judged = syn_judgement(
                            inner,
                            syn_token_accepted(bridge.backend(), inner),
                            bridge.spec_config().allow_any_scope,
                            now_unix,
                        );
                        match judged {
                            Ok((license, connect)) => r == Ok::<
                                (Seq<u8>, LicensePayload, ConnectRequest),
                                AdmitError,
                            >((key, license, connect)),
                            Err(e) => r == Err::<
                                (Seq<u8>, LicensePayload, ConnectRequest),
                                AdmitError,
                            >(e),
                        }
                    },
                }
            }
        }),
{
}

/// What a packet is for stands in its first five bytes: the SYN bit of the first,
/// and the connection id behind it. The session is its sender's.
pub proof fn packets_are_told_apart_by_their_front(peer: SocketAddr, wire: Seq<u8>)
    ensures
        match incoming(peer, wire) {
            Ok(is) => {
                let key = SessionKey {
                    client_addr: peer,
                    connection_id: (wire[1] * 0x100_0000 + wire[2] * 0x1_0000 + wire[3] * 0x100
                        + wire[4]) as u32,
                };
                &&& wire.len() >= 13 && wire[0] % 16 == 1
                &&& wire[0] / 32 % 2 == 1 ==> is == Incoming::Syn(key)
                &&& wire[0] / 32 % 2 == 0 ==> is == Incoming::Data(key)
            },
            Err(e) => Header::parsed(wire) == Err::<Header, ProtocolError>(e),
        },
{
    header_is_read_by_its_bytes(wire);
}

/// A fresh session has taken no frame and sent none. Taking a frame adds the
/// frame's numbers to those seen, and counts as traffic; the key and the numbers
/// of sent frames stay.
pub proof fn sessions_count_what_they_take(
    session: Session,
    after: Session,
    aead_key: AeadKey,
    h: Header,
    now: u64,
    connection_id: u32,
    sequence: u64,
)
    ensures
        session.is_fresh(aead_key, now) ==> {
            &&& session.aead_key@ == aead_key@
            &&& session.tx_sequence == 0
            &&& session.last_active == now
            &&& !session.seen@.contains((connection_id, sequence))
        },
        session.takes(after, h, now) ==> {
            &&& after.aead_key@ == session.aead_key@
            &&& after.tx_sequence == session.tx_sequence
            &&& after.last_active == now
            &&& after.seen@.contains((connection_id, sequence)) <==> session.seen@.contains(
                (connection_id, sequence),
            ) || (connection_id == h.connection_id && sequence == h.sequence)
        },
        session.spec_stamp() == session.last_active,
{
}

/// A data frame has the current version, no flag, and the numbers it is made
/// with. A session is open under a key with the AEAD key that it holds; and what a
/// bridge keeps of its setup is its configuration and its two keys.
pub proof fn data_headers_and_setup(
    connection_id: u32,
    sequence: u64,
    a: Bridge,
    b: Bridge,
    key: SessionKey,
    aead_key: AeadKey,
)
    ensures
        ({
            let h = data_header(connection_id, sequence);
            &&& h.version == 1
            &&& !h.flags.fec_parity && !h.flags.syn && !h.flags.fin && !h.flags.redundant
            &&& h.connection_id == connection_id
            &&& h.sequence == sequence
        }),
        a.has_session(key, aead_key) <==> a.sessions().dom().contains(key)
            && a.sessions()[key].aead_key@ == aead_key@,
        a.same_setup(b) ==> a.spec_config() == b.spec_config() && a.secret() == b.secret()
            && a.backend() == b.backend(),
{
}

} // verus!
