use lowping::addr::{IpAddr, SocketAddr};
use lowping::bridge::judge_syn;
use lowping::handshake::{generate_keypair, HandshakeError};
use lowping::license::{LicenseError, LicensePayload, LicenseToken};
use lowping::protocol::{
    decrypt_frame, decrypt_syn_payload, encrypt_frame, parse_syn_front, Flags, Header,
    ProtocolError, TransportProtocol, PROTO_VERSION,
};
use lowping::receiver::{ReceiveError, SeenFrames, SeenSequences};
use lowping::signing::SigningKey;
use lowping::tunnel::{
    open_tunnel, prepare_tunnel, recv_step, tcp_step, BridgeRecv, Forward, Inbox, LocalRead,
    OpenedTunnel, RecvStep, Redirected, TcpStep, TunnelError, UdpForwarder, UdpSession,
};

const SEC: u64 = 1_000_000_000;

fn dest() -> SocketAddr {
    SocketAddr::new(IpAddr::v4(203, 0, 113, 45), 27015)
}

fn token() -> LicenseToken {
    let payload = LicensePayload { user_id: 5, issued_at: 100, expires_at: 200, scope: 1 };
    LicenseToken::sign(payload, &SigningKey::from_bytes(&[8; 32]))
}

fn tunnel() -> OpenedTunnel {
    OpenedTunnel { aead_key: [6; 32], connection_id: 77, syn_wire: vec![] }
}

fn header(sequence: u64) -> Header {
    Header { version: PROTO_VERSION, flags: Flags::empty(), connection_id: 77, sequence }
}

#[test]
fn syn_frame_holds_token_and_request() {
    let (bridge_secret, bridge_pub) = generate_keypair();
    let (client_secret, client_pub) = generate_keypair();
    let tunnel = prepare_tunnel(
        &client_secret,
        0x01020304,
        &hex::encode(bridge_pub.to_bytes()),
        &token().to_string_b64(),
        TransportProtocol::Tcp,
        dest(),
    )
    .unwrap();
    assert_eq!(tunnel.connection_id, 0x01020304);
    let (h, pubkey) = parse_syn_front(&tunnel.syn_wire).unwrap();
    assert_eq!(
        h,
        Header {
            version: PROTO_VERSION,
            flags: Flags::syn(),
            connection_id: 0x01020304,
            sequence: 0,
        }
    );
    assert_eq!(pubkey, client_pub.to_bytes());
    let key = lowping::handshake::bridge_derive_session_key(&bridge_secret, &client_pub);
    assert_eq!(key, tunnel.aead_key);
    let inner = decrypt_syn_payload(&key, &tunnel.syn_wire).unwrap();
    assert_eq!(&inner[..88], &token().to_bytes()[..]);
    let (license, connect) = judge_syn(&inner, true, false, 150).unwrap();
    assert_eq!(license, token().payload);
    assert_eq!(connect.protocol, TransportProtocol::Tcp);
    assert_eq!((connect.dest_ip, connect.dest_port), (dest().ip, dest().port));
}

#[test]
fn tunnels_are_opened_with_fresh_keys() {
    let (bridge_secret, bridge_pub) = generate_keypair();
    let pubkey_hex = hex::encode(bridge_pub.to_bytes());
    let text = token().to_string_b64();
    let a = open_tunnel(&pubkey_hex, &text, TransportProtocol::Udp, dest()).unwrap();
    let b = open_tunnel(&pubkey_hex, &text, TransportProtocol::Udp, dest()).unwrap();
    assert_ne!(a.aead_key, b.aead_key);
    for t in [&a, &b] {
        let (h, pubkey) = parse_syn_front(&t.syn_wire).unwrap();
        assert_eq!(h.connection_id, t.connection_id);
        let public = lowping::handshake::X25519PublicKey::from_array(pubkey);
        let key = lowping::handshake::bridge_derive_session_key(&bridge_secret, &public);
        assert_eq!(key, t.aead_key);
    }
}

#[test]
fn tunnel_errors_come_in_order() {
    let (secret, _) = generate_keypair();
    let attempt = |pubkey: &str, license: &str| {
        prepare_tunnel(&secret, 1, pubkey, license, TransportProtocol::Udp, dest()).unwrap_err()
    };
    let good_key = "11".repeat(32);
    match attempt("not hex", "?") {
        TunnelError::BridgeKeyHex(message) => {
            assert_eq!(message, hex::decode("not hex").unwrap_err().to_string())
        }
        _ => panic!("read a key that is no hexadecimal"),
    }
    assert!(matches!(
        attempt("1234", "?"),
        TunnelError::BridgeKey(HandshakeError::BadPubkeyLength(2))
    ));
    assert!(matches!(attempt(&good_key, "?"), TunnelError::License(LicenseError::Base64(_))));
    assert!(matches!(
        attempt(&good_key, "AAAA"),
        TunnelError::License(LicenseError::WrongLength(3))
    ));
}

#[test]
fn session_numbers_its_frames() {
    let mut session = UdpSession::new(&tunnel(), 5);
    assert_eq!((session.tx_sequence, session.last_active), (0, 5));
    for sequence in 1..4 {
        let wire = session.next_frame(b"game").unwrap();
        assert_eq!(decrypt_frame(&[6; 32], &wire).unwrap(), (header(sequence), b"game".to_vec()));
    }
    assert_eq!(
        session.next_frame(&vec![0; 1201]).unwrap_err(),
        ProtocolError::PayloadTooLarge(1201)
    );
    assert_eq!(session.tx_sequence, 4);
    session.tx_sequence = u64::MAX;
    let wire = session.next_frame(b"").unwrap();
    assert_eq!(decrypt_frame(&[6; 32], &wire).unwrap().0.sequence, 0);
    session.touch(9);
    assert_eq!(session.last_active, 9);
}

#[test]
fn sequences_are_kept_as_a_set() {
    let mut seen = SeenSequences::new();
    let numbers = [7, 3, 5, 4, 0, u64::MAX, 6, u64::MAX - 1, 1, 100];
    for (i, n) in numbers.iter().enumerate() {
        assert!(!seen.contains(*n));
        seen.add_new(*n);
        for (j, m) in numbers.iter().enumerate() {
            assert_eq!(seen.contains(*m), j <= i);
        }
    }
    for n in [2, 8, 99, 101, u64::MAX - 2] {
        assert!(!seen.contains(n));
    }
}

#[test]
fn frames_are_kept_by_connection_and_sequence() {
    let mut seen = SeenFrames::new();
    let frames = [(5, 1), (6, 1), (5, 2), (0, 0), (u32::MAX, u64::MAX), (6, 0)];
    for (i, (id, n)) in frames.iter().enumerate() {
        assert!(!seen.contains(*id, *n));
        seen.add_new(*id, *n);
        for (j, (id, n)) in frames.iter().enumerate() {
            assert_eq!(seen.contains(*id, *n), j <= i);
        }
    }
    assert!(!seen.contains(6, 2));
    assert!(!seen.contains(1, 0));
}

#[test]
fn connections_number_their_frames_apart() {
    let mut inbox = Inbox::new(&tunnel());
    for id in [5, 6] {
        let h = Header { connection_id: id, ..header(1) };
        let wire = encrypt_frame(&inbox.aead_key, &h, &[id as u8]).unwrap();
        match recv_step(&mut inbox, &BridgeRecv::Packet(wire.clone())) {
            RecvStep::Deliver(payload) => assert_eq!(payload, vec![id as u8]),
            _ => panic!("frame of {id} was not delivered"),
        }
        match recv_step(&mut inbox, &BridgeRecv::Packet(wire)) {
            RecvStep::Drop(e) => {
                assert_eq!(e, ReceiveError::Repeated { connection_id: id, sequence: 1 })
            }
            _ => panic!("copy of {id} was not dropped"),
        }
    }
}

#[test]
fn each_source_has_a_tunnel_and_numbers_of_its_own() {
    let mut forwarder: UdpForwarder<u16> = UdpForwarder::new();
    let mut opened = 0;
    let mut sent = vec![];
    for src in [1u16, 2, 1, 1, 2, 3] {
        let mut step = forwarder.take_datagram(src, &[src as u8], 0);
        if let Forward::Open = step {
            opened += 1;
            let tunnel =
                OpenedTunnel { aead_key: [6; 32], connection_id: src as u32, syn_wire: vec![] };
            forwarder.register(src, &tunnel, 0);
            step = forwarder.take_datagram(src, &[src as u8], 0);
        }
        match step {
            Forward::Send(wire) => {
                let (header, payload) = decrypt_frame(&[6; 32], &wire).unwrap();
                assert_eq!(payload, vec![src as u8]);
                sent.push((header.connection_id, header.sequence));
            }
            _ => panic!("datagram was not sent"),
        }
    }
    assert_eq!(opened, 3);
    assert_eq!(sent, vec![(1, 1), (2, 1), (1, 2), (1, 3), (2, 2), (3, 1)]);
}

#[test]
fn datagrams_go_over_the_tunnel_of_their_source() {
    let mut forwarder: UdpForwarder<SocketAddr> = UdpForwarder::new();
    let src = SocketAddr::new(IpAddr::v4(127, 0, 0, 1), 50000);
    assert!(matches!(forwarder.take_datagram(src, b"one", 0), Forward::Open));
    forwarder.register(src, &tunnel(), 0);
    match forwarder.take_datagram(src, b"one", SEC) {
        Forward::Send(wire) => {
            assert_eq!(decrypt_frame(&[6; 32], &wire).unwrap(), (header(1), b"one".to_vec()))
        }
        _ => panic!("datagram was not sent"),
    }
    assert!(matches!(
        forwarder.take_datagram(src, &[0; 1300], SEC),
        Forward::Refuse(ProtocolError::PayloadTooLarge(1300))
    ));
    let other = SocketAddr::new(IpAddr::v4(127, 0, 0, 1), 50001);
    assert!(matches!(forwarder.take_datagram(other, b"one", SEC), Forward::Open));
}

#[test]
fn idle_tunnels_are_dropped() {
    let mut forwarder: UdpForwarder<SocketAddr> = UdpForwarder::new();
    let a = SocketAddr::new(IpAddr::v4(127, 0, 0, 1), 1);
    let b = SocketAddr::new(IpAddr::V6(1), 1);
    let c = SocketAddr::new(IpAddr::v4(127, 0, 0, 1), 3);
    for src in [a, b, c] {
        forwarder.register(src, &tunnel(), 0);
    }
    forwarder.take_datagram(b, b"x", 50 * SEC);
    // A response counts only if it came over the source's tunnel.
    forwarder.note_response(c, 77, 60 * SEC);
    forwarder.note_response(a, 78, 60 * SEC);
    assert_eq!(forwarder.reap_idle(90 * SEC, 90), vec![]);
    assert_eq!(forwarder.reap_idle(91 * SEC, 90), vec![a]);
    assert_eq!(forwarder.reap_idle(150 * SEC, 90), vec![b]);
    assert_eq!(forwarder.reap_idle(150 * SEC, u64::MAX), vec![]);
    assert_eq!(forwarder.reap_idle(151 * SEC, 90), vec![c]);
}

#[test]
fn redirected_datagrams_need_an_origin() {
    let mut forwarder: UdpForwarder<u16> = UdpForwarder::new();
    assert!(matches!(forwarder.take_redirected(5, None, b"x", 0), Redirected::NoOrigin));
    match forwarder.take_redirected(5, Some(dest()), b"x", 0) {
        Redirected::OpenTo(to) => assert_eq!(to, dest()),
        _ => panic!("no tunnel was asked for"),
    }
    forwarder.register(5, &tunnel(), 0);
    match forwarder.take_redirected(5, None, b"x", 0) {
        Redirected::Send(wire) => {
            assert_eq!(decrypt_frame(&[6; 32], &wire).unwrap(), (header(1), b"x".to_vec()))
        }
        _ => panic!("datagram was not sent"),
    }
    assert!(matches!(
        forwarder.take_redirected(5, None, &[0; 1201], 0),
        Redirected::Refuse(ProtocolError::PayloadTooLarge(1201))
    ));
}

#[test]
fn tcp_steps() {
    let mut session = UdpSession::new(&tunnel(), 0);
    assert!(matches!(tcp_step(&mut session, &LocalRead::Closed), TcpStep::Stop));
    assert!(matches!(tcp_step(&mut session, &LocalRead::Failed), TcpStep::Stop));
    assert!(matches!(tcp_step(&mut session, &LocalRead::TimedOut), TcpStep::Wait));
    assert_eq!(session.tx_sequence, 0);
    match tcp_step(&mut session, &LocalRead::Data(b"tcp".to_vec())) {
        TcpStep::Send(wire) => {
            assert_eq!(decrypt_frame(&[6; 32], &wire).unwrap(), (header(1), b"tcp".to_vec()))
        }
        _ => panic!("data was not sent"),
    }
    assert!(matches!(
        tcp_step(&mut session, &LocalRead::Data(vec![0; 1201])),
        TcpStep::Fail(ProtocolError::PayloadTooLarge(1201))
    ));
}

#[test]
fn responses_are_delivered() {
    let mut inbox = Inbox::new(&tunnel());
    let wire = encrypt_frame(&inbox.aead_key, &header(1), b"pong").unwrap();
    let step = recv_step(&mut inbox, &BridgeRecv::Packet(wire.clone()));
    assert!(matches!(step, RecvStep::Deliver(payload) if payload == b"pong"));
    // It is delivered once.
    let step = recv_step(&mut inbox, &BridgeRecv::Packet(wire));
    assert!(matches!(
        step,
        RecvStep::Drop(ReceiveError::Repeated { connection_id: 77, sequence: 1 })
    ));
    let mut broken = encrypt_frame(&inbox.aead_key, &header(2), b"pong").unwrap();
    broken[20] ^= 1;
    let step = recv_step(&mut inbox, &BridgeRecv::Packet(broken));
    assert!(matches!(step, RecvStep::Drop(ReceiveError::Protocol(ProtocolError::AeadFailed))));
    let foreign = encrypt_frame(&[7; 32], &header(2), b"pong").unwrap();
    let step = recv_step(&mut inbox, &BridgeRecv::Packet(foreign));
    assert!(matches!(step, RecvStep::Drop(ReceiveError::Protocol(ProtocolError::AeadFailed))));
    let step = recv_step(&mut inbox, &BridgeRecv::Packet(vec![PROTO_VERSION; 3]));
    assert!(matches!(
        step,
        RecvStep::Drop(ReceiveError::Protocol(ProtocolError::Truncated { got: 3, need: 29 }))
    ));
    assert!(matches!(recv_step(&mut inbox, &BridgeRecv::TimedOut), RecvStep::Wait));
    assert!(matches!(recv_step(&mut inbox, &BridgeRecv::Failed), RecvStep::Stop));
}
