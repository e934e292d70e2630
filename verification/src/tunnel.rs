//! The client's side of a tunnel.
//!
//! A client opens a tunnel with a SYN frame: a fresh keypair, a random
//! connection id, and a payload of the license token and a CONNECT message.
//! Each local TCP connection, and each local UDP source, has a tunnel of its
//! own; UDP tunnels without traffic are dropped after a while.
//!
//! Sockets are operated from outside. Times are nanoseconds of a clock that
//! never goes back.

use vstd::prelude::*;

use crate::addr::SocketAddr;
use crate::encoding::hex_decode;
use crate::handshake::{
    client_derive_session_key, generate_keypair, pubkey_from_bytes, HandshakeError, X25519Secret,
};
use crate::license::{LicenseError, LicenseToken};
use crate::protocol::{
    encrypt_frame, encrypt_syn_frame, join_frame, AeadKey, ConnectRequest, Flags,
    Header, ProtocolError, TransportProtocol, MAX_PAYLOAD_LEN, PROTO_VERSION,
};
use crate::receiver::{receive, ReceiveError, SeenFrames};
use crate::table::{Key, Stamped, Table};

verus! {

use crate::bridge::{
    data_header, incoming, syn_contents, syn_token_accepted, valid_syn_is_granted, AdmitError,
    Bridge, Incoming, SessionKey,
};
use crate::crypto::{aead_sealed, ed25519_accepts, x25519_base};
use crate::license::{token_layout, LicensePayload};
use crate::encoding::{
    b64_is_injective, b64_refusal, b64_text, hex_bytes, hex_refusal, is_hex,
};
use crate::handshake::session_key;
use crate::protocol::{
    connect_round_trip, frame_layout, header_leads, nonce, nonce_is_injective, opened_frame,
    sealed_frame, sealed_syn_frame, syn_aad,
};
use crate::receiver::{frame_id, received};
use crate::table::without_idle;

// ---------- Opening a tunnel ----------

/// Why a tunnel cannot be opened.
#[derive(Debug)]
pub enum TunnelError {
    /// The bridge's public key is not hexadecimal, with the message of the
    /// refusal.
    BridgeKeyHex(String),
    /// The bridge's public key is not 32 bytes.
    BridgeKey(HandshakeError),
    /// The license token cannot be read.
    License(LicenseError),
    /// The SYN frame cannot be made.
    Protocol(ProtocolError),
}

/// A tunnel that is about to be opened, and the SYN frame that opens it.
#[derive(Debug)]
pub struct OpenedTunnel {
    pub aead_key: AeadKey,
    pub connection_id: u32,
    pub syn_wire: Vec<u8>,
}

/// The header of a SYN frame.
pub open spec fn syn_header(connection_id: u32) -> Header {
    Header {
        version: PROTO_VERSION,
        flags: Flags { fec_parity: false, syn: true, fin: false, redundant: false },
        connection_id,
        sequence: 0,
    }
}

/// The CONNECT message for a destination.
pub open spec fn connect_to(transport: TransportProtocol, dest: SocketAddr) -> ConnectRequest {
    ConnectRequest { protocol: transport, dest_ip: dest.ip, dest_port: dest.port }
}

/// What opens a tunnel over a bridge, with this secret, connection id and
/// token.
pub open spec fn opens_tunnel(
    tunnel: OpenedTunnel,
    client_secret: Seq<u8>,
    connection_id: u32,
    bridge_pubkey: Seq<u8>,
    token: Seq<u8>,
    connect: ConnectRequest,
) -> bool {
    let inner = token + connect.wire();
    &&& tunnel.connection_id == connection_id
    &&& tunnel.aead_key@ == session_key(client_secret, bridge_pubkey)
    &&& tunnel.syn_wire@ == sealed_syn_frame(
        tunnel.aead_key@,
        syn_header(connection_id),
        x25519_base(client_secret),
        inner,
    )
    // The bridge whose public key it is reads out of the frame the same session
    // key, the token and the message.
    &&& forall|bridge_secret: Seq<u8>|
        bridge_secret.len() == 32 && x25519_base(bridge_secret) == bridge_pubkey
            ==> #[trigger] syn_contents(bridge_secret, tunnel.syn_wire@) == Ok::<
            (Seq<u8>, Seq<u8>),
            ProtocolError,
        >((tunnel.aead_key@, inner))
}

/// What is owed of an attempt to open a tunnel with this secret and connection
/// id.
pub open spec fn tunnel_outcome(
    r: Result<OpenedTunnel, TunnelError>,
    client_secret: Seq<u8>,
    connection_id: u32,
    pubkey_hex: Seq<char>,
    license_token: Seq<char>,
    connect: ConnectRequest,
) -> bool {
    let key_ok = is_hex(pubkey_hex) && hex_bytes(pubkey_hex).len() == 32;
    match r {
        Ok(tunnel) => key_ok && exists|token: LicenseToken|
            #![trigger token.wire()]
            b64_text(token.wire()) == license_token && opens_tunnel(
                tunnel,
                client_secret,
                connection_id,
                hex_bytes(pubkey_hex),
                token.wire(),
                connect,
            ),
        Err(TunnelError::BridgeKeyHex(message)) => !is_hex(pubkey_hex) && message@ == hex_refusal(
            pubkey_hex,
        ),
        Err(TunnelError::BridgeKey(e)) => {
            &&& is_hex(pubkey_hex) && hex_bytes(pubkey_hex).len() != 32
            &&& e == HandshakeError::BadPubkeyLength(hex_bytes(pubkey_hex).len() as usize)
        },
        Err(TunnelError::License(LicenseError::Base64(message))) => {
            &&& key_ok
            &&& message@ == b64_refusal(license_token)
            &&& forall|bytes: Seq<u8>| #[trigger] b64_text(bytes) != license_token
        },
        Err(TunnelError::License(LicenseError::WrongLength(n))) => {
            &&& key_ok
            &&& n != 88
            &&& exists|bytes: Seq<u8>| bytes.len() == n && #[trigger] b64_text(bytes) == license_token
        },
        Err(_) => false,
    }
}

/// Prepares a tunnel with a given secret and connection id.
pub fn prepare_tunnel(
    client_secret: &X25519Secret,
    connection_id: u32,
    bridge_x25519_pubkey_hex: &str,
    license_token: &str,
    transport: TransportProtocol,
    dest: SocketAddr,
) -> (r: Result<OpenedTunnel, TunnelError>)
    ensures
        tunnel_outcome(
            r,
            client_secret@,
            connection_id,
            bridge_x25519_pubkey_hex@,
            license_token@,
            connect_to(transport, dest),
        ),
{
    let bridge_pk_bytes = match hex_decode(bridge_x25519_pubkey_hex) {
        Ok(bytes) => bytes,
        Err(message) => {
            return Err(TunnelError::BridgeKeyHex(message));
        },
    };
    let bridge_pk = match pubkey_from_bytes(&bridge_pk_bytes) {
        Ok(key) => key,
        Err(e) => {
            return Err(TunnelError::BridgeKey(e));
        },
    };
    let client_pk = client_secret.public_key();
    let aead_key = client_derive_session_key(client_secret, &bridge_pk);
    let token = match LicenseToken::from_string_b64(license_token) {
        Ok(token) => token,
        Err(e) => {
            return Err(TunnelError::License(e));
        },
    };
    let connect = ConnectRequest { protocol: transport, dest_ip: dest.ip, dest_port: dest.port };
    let inner = join_frame(&token.to_bytes(), &connect.encode());
    let header = Header {
        version: PROTO_VERSION,
        flags: Flags::syn(),
        connection_id,
        sequence: 0,
    };
    proof {
        lemma_connect_len(connect);
    }
    match encrypt_syn_frame(&aead_key, &header, &client_pk.to_bytes(), &inner) {
        Ok(syn_wire) => {
            let tunnel = OpenedTunnel { aead_key, connection_id, syn_wire };
            proof {
                let bridge_pub = hex_bytes(bridge_x25519_pubkey_hex@);
                assert forall|bridge_secret: Seq<u8>|
                    bridge_secret.len() == 32 && x25519_base(bridge_secret)
                        == bridge_pub implies #[trigger] syn_contents(
                    bridge_secret,
                    tunnel.syn_wire@,
                ) == Ok::<(Seq<u8>, Seq<u8>), ProtocolError>(
                    (tunnel.aead_key@, token.wire() + connect.wire()),
                ) by {
                    assert(session_key(bridge_secret, client_pk@) == session_key(
                        client_secret@,
                        x25519_base(bridge_secret),
                    ));
                }
                assert(opens_tunnel(
                    tunnel,
                    client_secret@,
                    connection_id,
                    bridge_pub,
                    token.wire(),
                    connect_to(transport, dest),
                ));
            }
            Ok(tunnel)
        },
        Err(e) => Err(TunnelError::Protocol(e)),
    }
}

proof fn lemma_connect_len(connect: ConnectRequest)
    ensures
        connect.wire().len() <= 20,
{
    broadcast use crate::bytes::lemma_be_len;

}

/// Calls `rand_core::RngCore::next_u32` of the operating system's generator:
/// any number may come back.
#[verifier::external_body]
fn random_u32() -> (n: u32) {
    rand_core::RngCore::next_u32(&mut rand_core::OsRng)
}

/// Prepares a tunnel with a fresh keypair and a random connection id.
pub fn open_tunnel(
    bridge_x25519_pubkey_hex: &str,
    license_token: &str,
    transport: TransportProtocol,
    dest: SocketAddr,
) -> (r: Result<OpenedTunnel, TunnelError>)
    ensures
        exists|client_secret: Seq<u8>, connection_id: u32|
            client_secret.len() == 32 && #[trigger] tunnel_outcome(
                r,
                client_secret,
                connection_id,
                bridge_x25519_pubkey_hex@,
                license_token@,
                connect_to(transport, dest),
            ),
{
    let (client_secret, _) = generate_keypair();
    let connection_id: u32 = random_u32();
    prepare_tunnel(
        &client_secret,
        connection_id,
        bridge_x25519_pubkey_hex,
        license_token,
        transport,
        dest,
    )
}

/// A bridge grants what a client asks for: the SYN frame that opens a tunnel to
/// it, with a token that is signed by its backend, in its time and of the right
/// scope, is granted while there is room, with the client's session key and
/// request.
pub proof fn opened_tunnel_is_granted(
    bridge: Bridge,
    tunnel: OpenedTunnel,
    client_secret: Seq<u8>,
    connection_id: u32,
    token: LicenseToken,
    connect: ConnectRequest,
    now_unix: i64,
)
    requires
        bridge.secret().len() == 32,
        opens_tunnel(
            tunnel,
            client_secret,
            connection_id,
            x25519_base(bridge.secret()),
            token.wire(),
            connect,
        ),
        bridge.sessions().len() < bridge.spec_config().max_sessions,
        ed25519_accepts(bridge.backend(), token.payload.wire(), token.signature@),
        token.payload.issued_at <= now_unix < token.payload.expires_at,
        bridge.spec_config().allow_any_scope || token.payload.scope % 2 == 1,
    ensures
        bridge.admission(tunnel.syn_wire@, now_unix) == Ok::<
            (Seq<u8>, LicensePayload, ConnectRequest),
            AdmitError,
        >((tunnel.aead_key@, token.payload, connect)),
{
    valid_syn_is_granted(token, connect, bridge.spec_config().allow_any_scope, now_unix);
    assert(syn_contents(bridge.secret(), tunnel.syn_wire@) is Ok);
    assert(syn_token_accepted(bridge.backend(), token.wire() + connect.wire()));
}

/// The SYN frame of a tunnel is taken for one that asks for its session.
pub proof fn syn_frame_is_classified(
    peer: SocketAddr,
    tunnel: OpenedTunnel,
    client_secret: Seq<u8>,
    connection_id: u32,
    bridge_pubkey: Seq<u8>,
    token: Seq<u8>,
    connect: ConnectRequest,
)
    requires
        opens_tunnel(tunnel, client_secret, connection_id, bridge_pubkey, token, connect),
    ensures
        incoming(peer, tunnel.syn_wire@) == Ok::<Incoming, ProtocolError>(
            Incoming::Syn(SessionKey { client_addr: peer, connection_id }),
        ),
{
    let h = syn_header(connection_id);
    let wire = tunnel.syn_wire@;
    let rest = x25519_base(client_secret) + aead_sealed(
        tunnel.aead_key@,
        nonce(connection_id, 0),
        syn_aad(h, x25519_base(client_secret)),
        token + connect.wire(),
    );
    header_leads(h, rest);
    assert(wire =~= h.wire() + rest);
}

// ---------- Sessions ----------

/// What a client keeps of an open tunnel.
#[derive(Debug, Clone, Copy)]
pub struct UdpSession {
    pub aead_key: AeadKey,
    pub connection_id: u32,
    /// Sequence number of the last frame sent to the bridge.
    pub tx_sequence: u64,
    pub last_active: u64,
}

impl Stamped for UdpSession {
    open spec fn spec_stamp(self) -> u64 {
        self.last_active
    }

    fn stamp(&self) -> (at: u64) {
        self.last_active
    }
}

/// What is owed of sealing a payload as the next frame of a session: a frame
/// that the bridge opens to the payload, or the refusal of one that is too
/// large.
pub open spec fn next_frame_outcome(
    r: Result<Vec<u8>, ProtocolError>,
    session: UdpSession,
    payload: Seq<u8>,
) -> bool {
    let header = data_header(session.connection_id, session.tx_sequence.wrapping_add(1));
    match r {
        Ok(wire) => {
            &&& payload.len() <= MAX_PAYLOAD_LEN
            &&& wire@ == sealed_frame(session.aead_key@, header, payload)
            &&& opened_frame(session.aead_key@, wire@) == Ok::<(Header, Seq<u8>), ProtocolError>(
                (header, payload),
            )
        },
        Err(e) => payload.len() > MAX_PAYLOAD_LEN && e == ProtocolError::PayloadTooLarge(
            payload.len() as usize,
        ),
    }
}

/// The session of a tunnel that was opened at this time.
pub open spec fn fresh_session(tunnel: OpenedTunnel, now: u64) -> UdpSession {
    UdpSession {
        aead_key: tunnel.aead_key,
        connection_id: tunnel.connection_id,
        tx_sequence: 0,
        last_active: now,
    }
}

impl UdpSession {
    /// The session once a frame was made at this time.
    pub open spec fn advanced(self, now: u64) -> UdpSession {
        UdpSession { tx_sequence: self.tx_sequence.wrapping_add(1), last_active: now, ..self }
    }

    /// The session of a tunnel that has just been opened.
    pub fn new(tunnel: &OpenedTunnel, now: u64) -> (session: UdpSession)
        ensures
            session == fresh_session(*tunnel, now),
    {
        UdpSession {
            aead_key: tunnel.aead_key,
            connection_id: tunnel.connection_id,
            tx_sequence: 0,
            last_active: now,
        }
    }

    /// Notes that the session is in use.
    pub fn touch(&mut self, now: u64)
        ensures
            *final(self) == (UdpSession { last_active: now, ..*old(self) }),
    {
        self.last_active = now;
    }

    /// Seals a payload as the next frame of the session. The sequence number
    /// advances, wrapping around, even where the payload is too large.
    pub fn next_frame(&mut self, payload: &[u8]) -> (r: Result<Vec<u8>, ProtocolError>)
        ensures
            *final(self) == (UdpSession {
                tx_sequence: old(self).tx_sequence.wrapping_add(1),
                ..*old(self)
            }),
            next_frame_outcome(r, *old(self), payload@),
    {
        self.tx_sequence = self.tx_sequence.wrapping_add(1);
        let header = Header {
            version: PROTO_VERSION,
            flags: Flags::empty(),
            connection_id: self.connection_id,
            sequence: self.tx_sequence,
        };
        encrypt_frame(&self.aead_key, &header, payload)
    }
}

/// The sequence number that comes `n` frames after another.
pub open spec fn sequence_after(sequence: u64, n: nat) -> u64 {
    ((sequence + n) % 0x1_0000_0000_0000_0000) as u64
}

/// Frame by frame, the sequence number advances by one.
pub proof fn next_sequence_is_one_after(sequence: u64, n: nat)
    ensures
        sequence_after(sequence, n).wrapping_add(1) == sequence_after(sequence, n + 1),
{
    let s = sequence_after(sequence, n);
    assert((s + 1) % 0x1_0000_0000_0000_0000 == (sequence + n + 1) % 0x1_0000_0000_0000_0000);
}

/// No nonce repeats among the first 2^64 frames that one side sends in a
/// session. The two directions overlap: both sides number their frames from 1,
/// under the same key and connection id.
pub proof fn nonces_do_not_repeat(connection_id: u32, start: u64, i: nat, j: nat)
    requires
        i < j < i + 0x1_0000_0000_0000_0000,
    ensures
        nonce(connection_id, sequence_after(start, i)) != nonce(
            connection_id,
            sequence_after(start, j),
        ),
{
    if nonce(connection_id, sequence_after(start, i)) == nonce(
        connection_id,
        sequence_after(start, j),
    ) {
        nonce_is_injective(
            connection_id,
            sequence_after(start, i),
            connection_id,
            sequence_after(start, j),
        );
        assert((start + i) % 0x1_0000_0000_0000_0000 == (start + j) % 0x1_0000_0000_0000_0000);
        assert(false);
    }
}

// ---------- UDP forwarding ----------

/// What is to be done with a datagram from a local source.
#[derive(Debug)]
pub enum Forward {
    /// Send this frame to the bridge.
    Send(Vec<u8>),
    /// Drop the datagram.
    Refuse(ProtocolError),
    /// There is no tunnel for the source yet.
    Open,
}

/// The tunnels of local UDP sources, kept under `K`.
pub struct UdpForwarder<K: Key> {
    sessions: Table<K, UdpSession>,
}

impl<K: Key> UdpForwarder<K> {
    pub closed spec fn wf(self) -> bool {
        self.sessions.wf()
    }

    pub closed spec fn sessions(self) -> Map<K, UdpSession> {
        self.sessions@
    }

    pub fn new() -> (forwarder: Self)
        ensures
            forwarder.wf(),
            forwarder.sessions() == Map::<K, UdpSession>::empty(),
    {
        UdpForwarder { sessions: Table::new() }
    }

    /// Takes a datagram from a source: the next frame of its tunnel, which then
    /// counts as active.
    pub fn take_datagram(&mut self, src: K, payload: &[u8], now: u64) -> (r: Forward)
        requires
            old(self).wf(),
        ensures
            final(self).wf(),
            ({
                let sessions = old(self).sessions();
                if sessions.dom().contains(src) {
                    &&& final(self).sessions() == sessions.insert(src, sessions[src].advanced(now))
                    &&& match r {
                        Forward::Send(wire) => next_frame_outcome(
                            Ok(wire),
                            sessions[src],
                            payload@,
                        ),
                        Forward::Refuse(e) => next_frame_outcome(
                            Err(e),
                            sessions[src],
                            payload@,
                        ),
                        Forward::Open => false,
                    }
                } else {
                    r is Open && final(self).sessions() == sessions
                }
            }),
    {
        let mut session = match self.sessions.get(&src) {
            Some(session) => *session,
            None => {
                return Forward::Open;
            },
        };
        session.touch(now);
        let framed = session.next_frame(payload);
        self.sessions.insert(src, session);
        match framed {
            Ok(wire) => Forward::Send(wire),
            Err(e) => Forward::Refuse(e),
        }
    }

    /// Registers the tunnel that was opened for a source.
    pub fn register(&mut self, src: K, tunnel: &OpenedTunnel, now: u64)
        requires
            old(self).wf(),
        ensures
            final(self).wf(),
            final(self).sessions() == old(self).sessions().insert(src, fresh_session(*tunnel, now)),
    {
        self.sessions.insert(src, UdpSession::new(tunnel, now));
    }

    /// Notes that a response was handed to a source, if the tunnel it came over
    /// is still the source's own.
    pub fn note_response(&mut self, src: K, connection_id: u32, now: u64)
        requires
            old(self).wf(),
        ensures
            final(self).wf(),
            ({
                let sessions = old(self).sessions();
                final(self).sessions() == (if sessions.dom().contains(src)
                    && sessions[src].connection_id == connection_id {
                    sessions.insert(src, UdpSession { last_active: now, ..sessions[src] })
                } else {
                    sessions
                })
            }),
    {
        let mut session = match self.sessions.get(&src) {
            Some(session) => *session,
            None => {
                return;
            },
        };
        if session.connection_id == connection_id {
            session.touch(now);
            self.sessions.insert(src, session);
        }
    }

    /// Drops the tunnels without traffic for more than `idle_secs` seconds;
    /// gives their sources.
    pub fn reap_idle(&mut self, now: u64, idle_secs: u64) -> (dropped: Vec<K>)
        requires
            old(self).wf(),
        ensures
            final(self).wf(),
            final(self).sessions() == without_idle(old(self).sessions(), now, idle_secs),
            dropped@.no_duplicates(),
            dropped@.to_set() == old(self).sessions().dom().difference(
                final(self).sessions().dom(),
            ),
    {
        self.sessions.drop_idle(now, idle_secs)
    }
}

/// A datagram from a local source, when it came, and the tunnel that is opened
/// for the source if it has none.
pub struct Datagram<K> {
    pub src: K,
    pub payload: Seq<u8>,
    pub at: u64,
    pub tunnel: OpenedTunnel,
}

/// The sessions once a tunnel was opened for the source of a datagram, if it had
/// none.
pub open spec fn with_session<K>(sessions: Map<K, UdpSession>, d: Datagram<K>) -> Map<
    K,
    UdpSession,
> {
    if sessions.dom().contains(d.src) {
        sessions
    } else {
        sessions.insert(d.src, fresh_session(d.tunnel, d.at))
    }
}

/// The sessions once datagrams have come, in this order, from none.
pub open spec fn sessions_after<K>(datagrams: Seq<Datagram<K>>) -> Map<K, UdpSession>
    decreases datagrams.len(),
{
    if datagrams.len() == 0 {
        Map::empty()
    } else {
        let d = datagrams.last();
        let sessions = with_session(sessions_after(datagrams.drop_last()), d);
        sessions.insert(d.src, sessions[d.src].advanced(d.at))
    }
}

/// Whether a tunnel is opened for datagram `i`.
pub open spec fn opens_at<K>(datagrams: Seq<Datagram<K>>, i: int) -> bool {
    !sessions_after(datagrams.take(i)).dom().contains(datagrams[i].src)
}

/// The session that makes a frame of datagram `i`.
pub open spec fn session_at<K>(datagrams: Seq<Datagram<K>>, i: int) -> UdpSession {
    with_session(sessions_after(datagrams.take(i)), datagrams[i])[datagrams[i].src]
}

/// The header of the frame of datagram `i`.
pub open spec fn header_at<K>(datagrams: Seq<Datagram<K>>, i: int) -> Header {
    let session = session_at(datagrams, i);
    data_header(session.connection_id, session.tx_sequence.wrapping_add(1))
}

/// How many of the datagrams came from a source.
pub open spec fn count_from<K>(datagrams: Seq<Datagram<K>>, src: K) -> nat
    decreases datagrams.len(),
{
    if datagrams.len() == 0 {
        0
    } else {
        count_from(datagrams.drop_last(), src) + if datagrams.last().src == src {
            1nat
        } else {
            0
        }
    }
}

/// Whether datagram `i` is the first of a source.
pub open spec fn is_first_from<K>(datagrams: Seq<Datagram<K>>, src: K, i: int) -> bool {
    &&& 0 <= i < datagrams.len()
    &&& datagrams[i].src == src
    &&& forall|j: int| 0 <= j < i ==> (#[trigger] datagrams[j]).src != src
}

/// What the session of a source is, after the datagrams.
proof fn lemma_session_of<K>(datagrams: Seq<Datagram<K>>, src: K)
    requires
        datagrams.len() <= u64::MAX,
    ensures
        count_from(datagrams, src) <= datagrams.len(),
        sessions_after(datagrams).dom().contains(src) <==> exists|j: int|
            0 <= j < datagrams.len() && (#[trigger] datagrams[j]).src == src,
        sessions_after(datagrams).dom().contains(src) <==> count_from(datagrams, src) > 0,
        sessions_after(datagrams).dom().contains(src) ==> sessions_after(
            datagrams,
        )[src].tx_sequence == count_from(datagrams, src),
        forall|i: int| #[trigger]
            is_first_from(datagrams, src, i) ==> {
                &&& sessions_after(datagrams)[src].connection_id
                    == datagrams[i].tunnel.connection_id
                &&& sessions_after(datagrams)[src].aead_key == datagrams[i].tunnel.aead_key
            },
    decreases datagrams.len(),
{
    if datagrams.len() > 0 {
        let front = datagrams.drop_last();
        let n = front.len() as int;
        lemma_session_of(front, src);
        assert(forall|j: int| 0 <= j < n ==> front[j] == datagrams[j]);
        assert(datagrams[n] == datagrams.last());
        if exists|j: int| 0 <= j < n && (#[trigger] front[j]).src == src {
            let j = choose|j: int| 0 <= j < n && (#[trigger] front[j]).src == src;
            assert(datagrams[j].src == src);
        }
        assert forall|i: int| #[trigger] is_first_from(datagrams, src, i) implies {
            &&& sessions_after(datagrams)[src].connection_id == datagrams[i].tunnel.connection_id
            &&& sessions_after(datagrams)[src].aead_key == datagrams[i].tunnel.aead_key
        } by {
            if i < n {
                assert(is_first_from(front, src, i));
                assert(front[i].src == src);
            } else {
                assert(forall|j: int| 0 <= j < n ==> (#[trigger] front[j]).src != src);
            }
        }
    }
}

/// Each local source opens exactly one tunnel: at its first datagram.
pub proof fn each_source_opens_one_tunnel<K>(datagrams: Seq<Datagram<K>>, i: int)
    requires
        0 <= i < datagrams.len() <= u64::MAX,
    ensures
        opens_at(datagrams, i) <==> is_first_from(datagrams, datagrams[i].src, i),
{
    let before = datagrams.take(i);
    lemma_session_of(before, datagrams[i].src);
    assert(forall|j: int| 0 <= j < i ==> before[j] == datagrams[j]);
    if exists|j: int| 0 <= j < i && (#[trigger] before[j]).src == datagrams[i].src {
        let j = choose|j: int| 0 <= j < i && (#[trigger] before[j]).src == datagrams[i].src;
        assert(datagrams[j].src == datagrams[i].src);
    }
}

/// The k-th datagram of a source goes over the tunnel that was opened for the
/// source, as a frame with that tunnel's connection id and sequence number k,
/// which opens to the datagram. One that is too large has a number, but no frame.
pub proof fn datagrams_are_numbered<K>(datagrams: Seq<Datagram<K>>, i: int, first: int)
    requires
        0 <= i < datagrams.len() <= u64::MAX,
        is_first_from(datagrams, datagrams[i].src, first),
    ensures
        session_at(datagrams, i).aead_key == datagrams[first].tunnel.aead_key,
        header_at(datagrams, i) == data_header(
            datagrams[first].tunnel.connection_id,
            count_from(datagrams.take(i + 1), datagrams[i].src) as u64,
        ),
        1 <= count_from(datagrams.take(i + 1), datagrams[i].src) <= u64::MAX,
        forall|r: Result<Vec<u8>, ProtocolError>| #[trigger]
            next_frame_outcome(r, session_at(datagrams, i), datagrams[i].payload) ==> match r {
                Ok(wire) => opened_frame(datagrams[first].tunnel.aead_key@, wire@) == Ok::<
                    (Header, Seq<u8>),
                    ProtocolError,
                >((header_at(datagrams, i), datagrams[i].payload)),
                Err(_) => datagrams[i].payload.len() > MAX_PAYLOAD_LEN,
            },
{
    let src = datagrams[i].src;
    let before = datagrams.take(i);
    let upto = datagrams.take(i + 1);
    lemma_session_of(before, src);
    lemma_session_of(upto, src);
    assert(upto.drop_last() =~= before);
    assert(upto.last() == datagrams[i]);
    assert(forall|j: int| 0 <= j < i ==> before[j] == datagrams[j]);
    if first < i {
        assert(before[first].src == src);
        assert(is_first_from(before, src, first));
    } else {
        assert(first == i);
        assert(forall|j: int| 0 <= j < i ==> (#[trigger] before[j]).src != src);
    }
}

proof fn lemma_count_grows<K>(datagrams: Seq<Datagram<K>>, src: K, i: int, j: int)
    requires
        0 <= i < j <= datagrams.len(),
        datagrams[j - 1].src == src,
    ensures
        count_from(datagrams.take(i), src) < count_from(datagrams.take(j), src),
    decreases j,
{
    lemma_count_monotonic(datagrams, src, i, j - 1);
    assert(datagrams.take(j).drop_last() =~= datagrams.take(j - 1));
    assert(datagrams.take(j).last() == datagrams[j - 1]);
}

proof fn lemma_count_monotonic<K>(datagrams: Seq<Datagram<K>>, src: K, i: int, j: int)
    requires
        0 <= i <= j <= datagrams.len(),
    ensures
        count_from(datagrams.take(i), src) <= count_from(datagrams.take(j), src),
    decreases j,
{
    if i < j {
        lemma_count_monotonic(datagrams, src, i, j - 1);
        assert(datagrams.take(j).drop_last() =~= datagrams.take(j - 1));
    }
}

/// No two datagrams share connection id and sequence number, as long as no two
/// tunnels share a connection id; and none has the sequence number 0, which is
/// that of the SYN frame.
pub proof fn frames_of_datagrams_differ<K>(datagrams: Seq<Datagram<K>>, i: int, j: int)
    requires
        0 <= i < j < datagrams.len() <= u64::MAX,
        forall|a: int, b: int|
            #![trigger datagrams[a], datagrams[b]]
            0 <= a < datagrams.len() && 0 <= b < datagrams.len() && opens_at(datagrams, a)
                && opens_at(datagrams, b) && a != b ==> datagrams[a].tunnel.connection_id
                != datagrams[b].tunnel.connection_id,
    ensures
        header_at(datagrams, i).sequence != 0,
        header_at(datagrams, j).sequence != 0,
        header_at(datagrams, i).connection_id != header_at(datagrams, j).connection_id || header_at(
            datagrams,
            i,
        ).sequence != header_at(datagrams, j).sequence,
{
    let (a, b) = (lemma_first_exists(datagrams, i), lemma_first_exists(datagrams, j));
    datagrams_are_numbered(datagrams, i, a);
    datagrams_are_numbered(datagrams, j, b);
    if datagrams[i].src == datagrams[j].src {
        lemma_count_grows(datagrams, datagrams[i].src, i + 1, j + 1);
        if a < b {
            assert(datagrams[a].src != datagrams[j].src);
        } else if b < a {
            assert(datagrams[b].src != datagrams[i].src);
        }
    } else {
        each_source_opens_one_tunnel(datagrams, a);
        each_source_opens_one_tunnel(datagrams, b);
        assert(datagrams[a].tunnel.connection_id != datagrams[b].tunnel.connection_id);
    }
}

proof fn lemma_first_exists<K>(datagrams: Seq<Datagram<K>>, i: int) -> (first: int)
    requires
        0 <= i < datagrams.len(),
    ensures
        is_first_from(datagrams, datagrams[i].src, first),
        first <= i,
    decreases i,
{
    if exists|j: int| 0 <= j < i && (#[trigger] datagrams[j]).src == datagrams[i].src {
        let j = choose|j: int| 0 <= j < i && (#[trigger] datagrams[j]).src == datagrams[i].src;
        lemma_first_exists(datagrams, j)
    } else {
        i
    }
}

/// What is to be done with a datagram that was redirected to a bridge's local
/// port.
#[derive(Debug)]
pub enum Redirected {
    /// Send this frame to the bridge.
    Send(Vec<u8>),
    /// Drop the datagram.
    Refuse(ProtocolError),
    /// Open a tunnel to this destination first.
    OpenTo(SocketAddr),
    /// Drop the datagram: nobody knows where it was to go.
    NoOrigin,
}

impl UdpForwarder<u16> {
    /// Takes a datagram that was redirected from a game's port, where `origin`
    /// is what the capture knows of that port's destination.
    pub fn take_redirected(
        &mut self,
        src_port: u16,
        origin: Option<SocketAddr>,
        payload: &[u8],
        now: u64,
    ) -> (r: Redirected)
        requires
            old(self).wf(),
        ensures
            final(self).wf(),
            ({
                let sessions = old(self).sessions();
                if sessions.dom().contains(src_port) {
                    &&& final(self).sessions() == sessions.insert(
                        src_port,
                        sessions[src_port].advanced(now),
                    )
                    &&& match r {
                        Redirected::Send(wire) => next_frame_outcome(
                            Ok(wire),
                            sessions[src_port],
                            payload@,
                        ),
                        Redirected::Refuse(e) => next_frame_outcome(
                            Err(e),
                            sessions[src_port],
                            payload@,
                        ),
                        _ => false,
                    }
                } else {
                    &&& final(self).sessions() == sessions
                    &&& match origin {
                        Some(dest) => r == Redirected::OpenTo(dest),
                        None => r is NoOrigin,
                    }
                }
            }),
    {
        match self.take_datagram(src_port, payload, now) {
            Forward::Send(wire) => Redirected::Send(wire),
            Forward::Refuse(e) => Redirected::Refuse(e),
            Forward::Open => match origin {
                Some(dest) => Redirected::OpenTo(dest),
                None => Redirected::NoOrigin,
            },
        }
    }
}

// ---------- TCP forwarding ----------

/// What came of reading from a local TCP connection.
#[derive(Debug)]
pub enum LocalRead {
    /// The connection was closed.
    Closed,
    /// Reading failed.
    Failed,
    /// Nothing came for a while.
    TimedOut,
    Data(Vec<u8>),
}

/// What is to be done next on a local TCP connection.
#[derive(Debug)]
pub enum TcpStep {
    /// Close the tunnel.
    Stop,
    /// Read again.
    Wait,
    /// Send this frame to the bridge, and read again.
    Send(Vec<u8>),
    /// Close the tunnel with this error.
    Fail(ProtocolError),
}

/// Decides what is to be done on a local TCP connection, after reading from it.
pub fn tcp_step(session: &mut UdpSession, read: &LocalRead) -> (step: TcpStep)
    ensures
        match read {
            LocalRead::Closed | LocalRead::Failed => step is Stop && *final(session) == *old(
                session,
            ),
            LocalRead::TimedOut => step is Wait && *final(session) == *old(session),
            LocalRead::Data(payload) => {
                &&& *final(session) == (UdpSession {
                    tx_sequence: old(session).tx_sequence.wrapping_add(1),
                    ..*old(session)
                })
                &&& match step {
                    TcpStep::Send(wire) => next_frame_outcome(Ok(wire), *old(session), payload@),
                    TcpStep::Fail(e) => next_frame_outcome(Err(e), *old(session), payload@),
                    _ => false,
                }
            },
        },
{
    match read {
        LocalRead::Closed => TcpStep::Stop,
        LocalRead::Failed => TcpStep::Stop,
        LocalRead::TimedOut => TcpStep::Wait,
        LocalRead::Data(payload) => match session.next_frame(payload) {
            Ok(wire) => TcpStep::Send(wire),
            Err(e) => TcpStep::Fail(e),
        },
    }
}

// ---------- Responses ----------

/// What came of waiting for a packet from the bridge.
#[derive(Debug)]
pub enum BridgeRecv {
    /// Receiving failed.
    Failed,
    /// Nothing came for a while.
    TimedOut,
    Packet(Vec<u8>),
}

/// What is to be done after waiting for a packet from the bridge.
#[derive(Debug)]
pub enum RecvStep {
    /// Stop receiving.
    Stop,
    /// Wait on.
    Wait,
    /// Drop the packet, and wait on.
    Drop(ReceiveError),
    /// Hand this to the local side, and wait on.
    Deliver(Vec<u8>),
}

/// What a client keeps to receive over a tunnel.
#[derive(Debug)]
pub struct Inbox {
    pub aead_key: AeadKey,
    /// The frames taken from the bridge.
    pub seen: SeenFrames,
}

impl Inbox {
    pub open spec fn wf(&self) -> bool {
        self.seen.wf()
    }

    /// The inbox of a tunnel that has just been opened.
    pub fn new(tunnel: &OpenedTunnel) -> (inbox: Inbox)
        ensures
            inbox.wf(),
            inbox.aead_key == tunnel.aead_key,
            inbox.seen@ == Set::<(u32, u64)>::empty(),
    {
        Inbox { aead_key: tunnel.aead_key, seen: SeenFrames::new() }
    }
}

/// Decides what is to be done after waiting for a packet from the bridge. What
/// was delivered is not delivered again.
pub fn recv_step(inbox: &mut Inbox, recv: &BridgeRecv) -> (step: RecvStep)
    requires
        old(inbox).wf(),
    ensures
        final(inbox).wf(),
        final(inbox).aead_key == old(inbox).aead_key,
        ({
            let seen = old(inbox).seen@;
            match recv {
                BridgeRecv::Failed => step is Stop && final(inbox).seen@ == seen,
                BridgeRecv::TimedOut => step is Wait && final(inbox).seen@ == seen,
                BridgeRecv::Packet(wire) => match received(old(inbox).aead_key@, seen, wire@) {
                    Ok((h, payload)) => {
                        &&& step matches RecvStep::Deliver(bytes) && bytes@ == payload
                        &&& final(inbox).seen@ == seen.insert(frame_id(h))
                    },
                    Err(e) => step == RecvStep::Drop(e) && final(inbox).seen@ == seen,
                },
            }
        }),
{
    match recv {
        BridgeRecv::Failed => RecvStep::Stop,
        BridgeRecv::TimedOut => RecvStep::Wait,
        BridgeRecv::Packet(wire) => match receive(&inbox.aead_key, &mut inbox.seen, wire) {
            Ok((_, payload)) => RecvStep::Deliver(payload),
            Err(e) => RecvStep::Drop(e),
        },
    }
}

// ---------- What a tunnel promises ----------

/// The request for a destination names the transport, the address and the port
/// that were asked for; and a SYN frame has the current version, the SYN flag
/// alone, its connection id and the sequence number 0.
pub proof fn request_names_the_destination(
    transport: TransportProtocol,
    dest: SocketAddr,
    connection_id: u32,
)
    ensures
        connect_to(transport, dest).protocol == transport,
        connect_to(transport, dest).dest_ip == dest.ip,
        connect_to(transport, dest).dest_port == dest.port,
        ({
            let h = syn_header(connection_id);
            &&& h.version == 1
            &&& h.flags.syn && !h.flags.fec_parity && !h.flags.fin && !h.flags.redundant
            &&& h.connection_id == connection_id
            &&& h.sequence == 0
        }),
{
}

/// A tunnel leads where it was asked to: the bridge whose public key it was opened
/// for reads out of the SYN frame, with the tunnel's own key, the license token
/// that was given and a request for the transport, the address and the port that
/// were asked for.
pub proof fn bridge_reads_the_destination(
    r: Result<OpenedTunnel, TunnelError>,
    client_secret: Seq<u8>,
    connection_id: u32,
    pubkey_hex: Seq<char>,
    license_token: Seq<char>,
    transport: TransportProtocol,
    dest: SocketAddr,
    bridge_secret: Seq<u8>,
)
    requires
        tunnel_outcome(
            r,
            client_secret,
            connection_id,
            pubkey_hex,
            license_token,
            connect_to(transport, dest),
        ),
        r is Ok,
        bridge_secret.len() == 32,
        x25519_base(bridge_secret) == hex_bytes(pubkey_hex),
    ensures
        ({
            let tunnel = r->Ok_0;
            &&& tunnel.connection_id == connection_id
            &&& syn_contents(bridge_secret, tunnel.syn_wire@) matches Ok((key, inner)) && {
                &&& key == tunnel.aead_key@
                &&& b64_text(inner.take(88)) == license_token
                &&& ConnectRequest::parsed(inner.skip(88)) matches Ok(c) && c.protocol == transport
                    && c.dest_ip == dest.ip && c.dest_port == dest.port
            }
        }),
{
    let tunnel = r->Ok_0;
    let connect = connect_to(transport, dest);
    let token = choose|token: LicenseToken|
        #![trigger token.wire()]
        b64_text(token.wire()) == license_token && opens_tunnel(
            tunnel,
            client_secret,
            connection_id,
            hex_bytes(pubkey_hex),
            token.wire(),
            connect,
        );
    let inner = token.wire() + connect.wire();
    assert(syn_contents(bridge_secret, tunnel.syn_wire@) is Ok);
    token_layout(token);
    assert(inner.take(88) =~= token.wire());
    assert(inner.skip(88) =~= connect.wire() + Seq::<u8>::empty());
    connect_round_trip(connect, Seq::empty());
}

/// A bridge grants the destination that was asked for: a tunnel to it whose token
/// it accepts, while there is room, is granted with the transport, the address and
/// the port of the request.
pub proof fn destination_is_granted(
    bridge: Bridge,
    tunnel: OpenedTunnel,
    client_secret: Seq<u8>,
    connection_id: u32,
    token: LicenseToken,
    transport: TransportProtocol,
    dest: SocketAddr,
    now_unix: i64,
)
    requires
        bridge.secret().len() == 32,
        opens_tunnel(
            tunnel,
            client_secret,
            connection_id,
            x25519_base(bridge.secret()),
            token.wire(),
            connect_to(transport, dest),
        ),
        bridge.sessions().len() < bridge.spec_config().max_sessions,
        ed25519_accepts(bridge.backend(), token.payload.wire(), token.signature@),
        token.payload.issued_at <= now_unix < token.payload.expires_at,
        bridge.spec_config().allow_any_scope || token.payload.scope % 2 == 1,
    ensures
        bridge.admission(tunnel.syn_wire@, now_unix) matches Ok((key, license, c)) && {
            &&& key == tunnel.aead_key@
            &&& license == token.payload
            &&& c.protocol == transport
            &&& c.dest_ip == dest.ip
            &&& c.dest_port == dest.port
        },
{
    opened_tunnel_is_granted(
        bridge,
        tunnel,
        client_secret,
        connection_id,
        token,
        connect_to(transport, dest),
        now_unix,
    );
}

/// A tunnel can be opened exactly where the bridge's key is 64 hexadecimal digits
/// and the license token reads as one; where the key is no such text, that is the
/// reason of the refusal, and else the token.
pub proof fn tunnel_needs_a_key_and_a_token(
    r: Result<OpenedTunnel, TunnelError>,
    client_secret: Seq<u8>,
    connection_id: u32,
    pubkey_hex: Seq<char>,
    license_token: Seq<char>,
    connect: ConnectRequest,
)
    requires
        tunnel_outcome(r, client_secret, connection_id, pubkey_hex, license_token, connect),
    ensures
        r is Ok <==> is_hex(pubkey_hex) && pubkey_hex.len() == 64 && exists|token: LicenseToken|
            b64_text(#[trigger] token.wire()) == license_token,
        r matches Ok(tunnel) ==> tunnel.connection_id == connection_id && tunnel.aead_key@
            == session_key(client_secret, hex_bytes(pubkey_hex)),
        !is_hex(pubkey_hex) ==> (r matches Err(TunnelError::BridgeKeyHex(m)) && m@ == hex_refusal(
            pubkey_hex,
        )),
        is_hex(pubkey_hex) && pubkey_hex.len() != 64 ==> (r matches Err(TunnelError::BridgeKey(e))
            && e == HandshakeError::BadPubkeyLength((pubkey_hex.len() / 2) as usize)),
        is_hex(pubkey_hex) && pubkey_hex.len() == 64 && r is Err ==> match r->Err_0 {
            TunnelError::License(LicenseError::Base64(m)) => {
                &&& m@ == b64_refusal(license_token)
                &&& forall|bytes: Seq<u8>| #[trigger] b64_text(bytes) != license_token
            },
            TunnelError::License(LicenseError::WrongLength(n)) => {
                &&& n != 88
                &&& exists|bytes: Seq<u8>|
                    bytes.len() == n && #[trigger] b64_text(bytes) == license_token
            },
            _ => false,
        },
{
    if exists|token: LicenseToken| b64_text(#[trigger] token.wire()) == license_token {
        let token = choose|token: LicenseToken| b64_text(#[trigger] token.wire()) == license_token;
        token_layout(token);
        if let Err(TunnelError::License(LicenseError::WrongLength(n))) = r {
            let bytes = choose|bytes: Seq<u8>|
                bytes.len() == n && #[trigger] b64_text(bytes) == license_token;
            b64_is_injective(bytes, token.wire());
        }
    }
}

/// A payload of up to 1200 bytes becomes a frame, which the holder of the
/// session's key opens to that payload, under the session's connection id and the
/// number after the last; a larger one is refused.
pub proof fn next_frame_carries_the_payload(
    r: Result<Vec<u8>, ProtocolError>,
    session: UdpSession,
    payload: Seq<u8>,
)
    requires
        next_frame_outcome(r, session, payload),
    ensures
        r is Ok <==> payload.len() <= 1200,
        r matches Err(e) ==> e == ProtocolError::PayloadTooLarge(payload.len() as usize),
        r matches Ok(wire) ==> opened_frame(session.aead_key@, wire@) matches Ok((h, p)) && {
            &&& p == payload
            &&& h.connection_id == session.connection_id
            &&& h.sequence == (session.tx_sequence + 1) % 0x1_0000_0000_0000_0000
            &&& h.version == 1
            &&& !h.flags.syn && !h.flags.fec_parity && !h.flags.fin && !h.flags.redundant
        },
{
}

/// A session starts with the key and id of its tunnel and no frame sent; making a
/// frame advances its number by one and counts as traffic, and nothing else of it
/// changes.
pub proof fn sessions_keep_their_tunnel(tunnel: OpenedTunnel, session: UdpSession, now: u64)
    ensures
        ({
            let s = fresh_session(tunnel, now);
            &&& s.aead_key@ == tunnel.aead_key@
            &&& s.connection_id == tunnel.connection_id
            &&& s.tx_sequence == 0
            &&& s.last_active == now
        }),
        ({
            let s = session.advanced(now);
            &&& s.aead_key@ == session.aead_key@
            &&& s.connection_id == session.connection_id
            &&& s.tx_sequence == (session.tx_sequence + 1) % 0x1_0000_0000_0000_0000
            &&& s.last_active == now
        }),
        session.spec_stamp() == session.last_active,
{
}

/// The SYN frame of a tunnel begins with its header and the public key of the
/// client's secret, and is sealed under the tunnel's key; that key is the one of
/// the client's secret and the bridge's public key.
pub proof fn syn_frame_of_a_tunnel(
    tunnel: OpenedTunnel,
    client_secret: Seq<u8>,
    connection_id: u32,
    bridge_pubkey: Seq<u8>,
    token: Seq<u8>,
    connect: ConnectRequest,
)
    requires
        opens_tunnel(tunnel, client_secret, connection_id, bridge_pubkey, token, connect),
        x25519_base(client_secret).len() == 32,
    ensures
        ({
            let wire = tunnel.syn_wire@;
            let front = syn_header(connection_id).wire();
            &&& tunnel.connection_id == connection_id
            &&& tunnel.aead_key@ == session_key(client_secret, bridge_pubkey)
            &&& wire.take(13) == front
            &&& wire.subrange(13, 45) == x25519_base(client_secret)
            &&& wire.skip(45) == aead_sealed(
                tunnel.aead_key@,
                front.skip(1),
                front + x25519_base(client_secret),
                token + connect.wire(),
            )
        }),
{
    frame_layout(
        tunnel.aead_key@,
        syn_header(connection_id),
        x25519_base(client_secret),
        token + connect.wire(),
    );
}

} // verus!
