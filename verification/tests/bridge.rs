use lowping::addr::{IpAddr, SocketAddr};
use lowping::bridge::{
    classify, default_idle_timeout, default_max_sessions, drain_step, judge_syn, AdmitError, Bridge,
    BridgeConfig, DestRead, DownstreamPacket, DrainStep, ForwardError, Incoming, KeyError, SessionKey, SetupError,
};
use lowping::handshake::{generate_keypair, X25519Secret};
use lowping::license::{LicenseError, LicensePayload, LicenseToken};
use lowping::protocol::{
    decrypt_frame, encrypt_frame, ConnectRequest, Flags, Header, ProtocolError, TransportProtocol,
    PROTO_VERSION,
};
use lowping::signing::SigningKey;
use lowping::tunnel::{prepare_tunnel, OpenedTunnel};

const SEC: u64 = 1_000_000_000;

fn peer() -> SocketAddr {
    SocketAddr::new(IpAddr::v4(198, 51, 100, 7), 40000)
}

fn dest() -> SocketAddr {
    SocketAddr::new(IpAddr::v4(203, 0, 113, 45), 27015)
}

struct Setup {
    backend: SigningKey,
    bridge_secret: X25519Secret,
}

impl Setup {
    fn new() -> Setup {
        Setup { backend: SigningKey::generate(), bridge_secret: generate_keypair().0 }
    }

    fn config(&self) -> BridgeConfig {
        BridgeConfig {
            listen: SocketAddr::new(IpAddr::v4(0, 0, 0, 0), 51820),
            bridge_x25519_seckey_hex: hex::encode(self.bridge_secret.to_bytes()),
            backend_ed25519_pubkey_hex: hex::encode(self.backend.verifying_key().to_bytes()),
            allow_any_scope: false,
            max_sessions: default_max_sessions(),
            idle_timeout_secs: default_idle_timeout(),
            metrics_listen: None,
        }
    }

    fn bridge(&self) -> Bridge {
        Bridge::new(self.config()).ok().unwrap()
    }

    fn token(&self, scope: u32) -> LicenseToken {
        let payload = LicensePayload { user_id: 5, issued_at: 100, expires_at: 200, scope };
        LicenseToken::sign(payload, &self.backend)
    }

    fn tunnel(&self, token: &LicenseToken) -> OpenedTunnel {
        let (client_secret, _) = generate_keypair();
        prepare_tunnel(
            &client_secret,
            0xABCD,
            &hex::encode(self.bridge_secret.public_key().to_bytes()),
            &token.to_string_b64(),
            TransportProtocol::Udp,
            dest(),
        )
        .unwrap()
    }
}

fn key() -> SessionKey {
    SessionKey { client_addr: peer(), connection_id: 0xABCD }
}

fn data_header(sequence: u64) -> Header {
    Header { version: PROTO_VERSION, flags: Flags::empty(), connection_id: 0xABCD, sequence }
}

#[test]
fn grants_what_the_client_asks_for() {
    let setup = Setup::new();
    let bridge = setup.bridge();
    let tunnel = setup.tunnel(&setup.token(1));
    assert_eq!(classify(peer(), &tunnel.syn_wire), Ok(Incoming::Syn(key())));
    let granted = bridge.accept_new_session(&tunnel.syn_wire, 150).unwrap();
    assert_eq!(granted.aead_key, tunnel.aead_key);
    assert_eq!(granted.license.user_id, 5);
    assert_eq!(
        granted.connect,
        ConnectRequest {
            protocol: TransportProtocol::Udp,
            dest_ip: dest().ip,
            dest_port: dest().port,
        }
    );
}

#[test]
fn refuses_licenses_out_of_their_time_or_scope() {
    let setup = Setup::new();
    let bridge = setup.bridge();
    let syn = setup.tunnel(&setup.token(1)).syn_wire;
    assert!(matches!(
        bridge.accept_new_session(&syn, 99),
        Err(AdmitError::License(LicenseError::NotYetValid { .. }))
    ));
    assert!(matches!(
        bridge.accept_new_session(&syn, 200),
        Err(AdmitError::License(LicenseError::Expired { .. }))
    ));
    let no_scope = setup.tunnel(&setup.token(2)).syn_wire;
    assert!(matches!(bridge.accept_new_session(&no_scope, 150), Err(AdmitError::MissingScope)));
    let lenient =
        Bridge::new(BridgeConfig { allow_any_scope: true, ..setup.config() }).ok().unwrap();
    assert!(lenient.accept_new_session(&no_scope, 150).is_ok());
}

#[test]
fn refuses_licenses_of_another_backend() {
    let setup = Setup::new();
    let other = Setup::new();
    let syn = setup.tunnel(&other.token(1)).syn_wire;
    assert!(matches!(
        setup.bridge().accept_new_session(&syn, 150),
        Err(AdmitError::License(LicenseError::BadSignature))
    ));
}

#[test]
fn refuses_frames_for_another_bridge() {
    let setup = Setup::new();
    let other = Setup::new();
    let syn = setup.tunnel(&setup.token(1)).syn_wire;
    assert!(matches!(
        other.bridge().accept_new_session(&syn, 150),
        Err(AdmitError::Protocol(ProtocolError::AeadFailed))
    ));
    assert!(matches!(
        setup.bridge().accept_new_session(&syn[..60], 150),
        Err(AdmitError::Protocol(ProtocolError::Truncated { got: 60, need: 61 }))
    ));
}

#[test]
fn refuses_sessions_beyond_the_limit() {
    let setup = Setup::new();
    let mut bridge =
        Bridge::new(BridgeConfig { max_sessions: 1, ..setup.config() }).ok().unwrap();
    let syn = setup.tunnel(&setup.token(1)).syn_wire;
    let granted = bridge.accept_new_session(&syn, 150).unwrap();
    bridge.register(key(), granted.aead_key, 0);
    assert_eq!(bridge.session_count(), 1);
    assert!(matches!(bridge.accept_new_session(&syn, 150), Err(AdmitError::TableFull)));
}

#[test]
fn judges_payloads_without_the_cipher() {
    let payload = LicensePayload { user_id: 9, issued_at: 0, expires_at: 10, scope: 1 };
    let connect = ConnectRequest {
        protocol: TransportProtocol::Tcp,
        dest_ip: IpAddr::v4(1, 2, 3, 4),
        dest_port: 80,
    };
    let mut inner = payload.encode().to_vec();
    inner.extend_from_slice(&[7; 64]);
    inner.extend_from_slice(&connect.encode());
    assert_eq!(judge_syn(&inner, true, false, 5).unwrap(), (payload, connect));
    assert!(matches!(
        judge_syn(&inner, false, false, 5),
        Err(AdmitError::License(LicenseError::BadSignature))
    ));
    assert!(matches!(judge_syn(&inner[..91], true, false, 5), Err(AdmitError::PayloadTooShort)));
    assert!(matches!(
        judge_syn(&inner[..92], true, false, 5),
        Err(AdmitError::Protocol(ProtocolError::Truncated { got: 4, need: 8 }))
    ));
    inner[23] = 2;
    assert!(matches!(judge_syn(&inner, true, false, 5), Err(AdmitError::MissingScope)));
    assert!(judge_syn(&inner, true, true, 5).is_ok());
}

#[test]
fn forwards_data_of_its_sessions() {
    let setup = Setup::new();
    let mut bridge = setup.bridge();
    let aead_key = [3u8; 32];
    let wire = encrypt_frame(&aead_key, &data_header(1), b"to the game").unwrap();
    assert_eq!(classify(peer(), &wire), Ok(Incoming::Data(key())));
    assert_eq!(bridge.forward_data(key(), &wire, 0), Err(ForwardError::NoSession));
    bridge.register(key(), aead_key, 0);
    assert_eq!(bridge.forward_data(key(), &wire, 0), Ok(b"to the game".to_vec()));
    let mut tampered = encrypt_frame(&aead_key, &data_header(2), b"to the game").unwrap();
    tampered[15] ^= 1;
    assert_eq!(
        bridge.forward_data(key(), &tampered, 0),
        Err(ForwardError::Protocol(ProtocolError::AeadFailed))
    );
    assert_eq!(
        bridge.forward_data(key(), &wire[..10], 0),
        Err(ForwardError::Protocol(ProtocolError::Truncated { got: 10, need: 29 }))
    );
    // The same connection id of another address is another session.
    let other = SessionKey {
        client_addr: SocketAddr::new(peer().ip, 40001),
        connection_id: 0xABCD,
    };
    assert_eq!(bridge.forward_data(other, &wire, 0), Err(ForwardError::NoSession));
}

#[test]
fn frames_are_forwarded_once() {
    let setup = Setup::new();
    let mut bridge = setup.bridge();
    let aead_key = [3u8; 32];
    assert!(bridge.register(key(), aead_key, 0));
    let frame = |flags, sequence| {
        let header = Header { flags, ..data_header(sequence) };
        encrypt_frame(&aead_key, &header, &[sequence as u8]).unwrap()
    };
    // Frames may come in any order.
    for sequence in [5, 1, 2, 9, 3, u64::MAX, 0] {
        assert_eq!(
            bridge.forward_data(key(), &frame(Flags::empty(), sequence), 0),
            Ok(vec![sequence as u8])
        );
    }
    // A copy over another path, or one sent again, is refused.
    for sequence in [0, 1, 2, 3, 5, 9, u64::MAX] {
        for flags in [Flags::empty(), Flags::redundant()] {
            assert_eq!(
                bridge.forward_data(key(), &frame(flags, sequence), 0),
                Err(ForwardError::Repeated { connection_id: 0xABCD, sequence })
            );
        }
    }
    // What was refused for its tag has not been taken.
    let mut tampered = frame(Flags::empty(), 4);
    tampered[14] ^= 1;
    assert!(bridge.forward_data(key(), &tampered, 0).is_err());
    assert_eq!(bridge.forward_data(key(), &frame(Flags::redundant(), 4), 0), Ok(vec![4]));
    // Another session has its own numbers.
    let other = SessionKey { connection_id: 0xABCE, ..key() };
    assert!(bridge.register(other, aead_key, 0));
    assert_eq!(bridge.forward_data(other, &frame(Flags::empty(), 5), 0), Ok(vec![5]));
}

#[test]
fn a_repeated_syn_keeps_the_session() {
    let setup = Setup::new();
    let mut bridge = setup.bridge();
    let aead_key = [3u8; 32];
    assert!(!bridge.is_open(key(), &aead_key));
    assert!(bridge.register(key(), aead_key, 0));
    assert!(bridge.is_open(key(), &aead_key));
    let frame = encrypt_frame(&aead_key, &data_header(5), b"x").unwrap();
    assert_eq!(bridge.forward_data(key(), &frame, 0), Ok(b"x".to_vec()));
    let packet = DownstreamPacket { session_key: key(), payload: b"y".to_vec() };
    bridge.frame_downstream(&packet, 0).unwrap().unwrap();

    // The same key again: what was taken stays taken, and the numbers go on.
    assert!(!bridge.register(key(), aead_key, 7));
    assert_eq!(
        bridge.forward_data(key(), &frame, 0),
        Err(ForwardError::Repeated { connection_id: 0xABCD, sequence: 5 })
    );
    let wire = bridge.frame_downstream(&packet, 0).unwrap().unwrap();
    assert_eq!(decrypt_frame(&aead_key, &wire).unwrap().0.sequence, 2);
    assert_eq!(bridge.session_count(), 1);

    // Another key takes the place of the session and starts afresh.
    let renewed = [4u8; 32];
    assert!(!bridge.is_open(key(), &renewed));
    assert!(bridge.register(key(), renewed, 0));
    assert!(bridge.is_open(key(), &renewed));
    assert!(!bridge.is_open(key(), &aead_key));
    let frame = encrypt_frame(&renewed, &data_header(5), b"z").unwrap();
    assert_eq!(bridge.forward_data(key(), &frame, 0), Ok(b"z".to_vec()));
    let wire = bridge.frame_downstream(&packet, 0).unwrap().unwrap();
    assert_eq!(decrypt_frame(&renewed, &wire).unwrap().0.sequence, 1);
}

#[test]
fn traffic_to_the_client_keeps_a_session() {
    let setup = Setup::new();
    let mut bridge = setup.bridge();
    bridge.register(key(), [3u8; 32], 0);
    let packet = DownstreamPacket { session_key: key(), payload: b"x".to_vec() };
    bridge.frame_downstream(&packet, 200 * SEC).unwrap().unwrap();
    assert_eq!(bridge.reap_idle(500 * SEC), vec![]);
    assert_eq!(bridge.reap_idle(501 * SEC), vec![key()]);
}

#[test]
fn frames_go_back_in_sequence() {
    let setup = Setup::new();
    let mut bridge = setup.bridge();
    let packet = DownstreamPacket { session_key: key(), payload: b"from the game".to_vec() };
    assert!(bridge.frame_downstream(&packet, 0).is_none());
    let aead_key = [3u8; 32];
    bridge.register(key(), aead_key, 0);
    for sequence in 1..4 {
        let wire = bridge.frame_downstream(&packet, 0).unwrap().unwrap();
        assert_eq!(
            decrypt_frame(&aead_key, &wire).unwrap(),
            (data_header(sequence), b"from the game".to_vec())
        );
    }
    let large = DownstreamPacket { session_key: key(), payload: vec![0; 1201] };
    assert_eq!(
        bridge.frame_downstream(&large, 0).unwrap(),
        Err(ProtocolError::PayloadTooLarge(1201))
    );
    // The refused payload used up a number.
    let wire = bridge.frame_downstream(&packet, 0).unwrap().unwrap();
    assert_eq!(decrypt_frame(&aead_key, &wire).unwrap().0.sequence, 5);
}

#[test]
fn idle_sessions_are_dropped() {
    let setup = Setup::new();
    let mut bridge = setup.bridge();
    let aead_key = [3u8; 32];
    let quiet = SessionKey { client_addr: peer(), connection_id: 1 };
    bridge.register(quiet, aead_key, 10 * SEC);
    bridge.register(key(), aead_key, 10 * SEC);
    let wire = encrypt_frame(&aead_key, &data_header(1), b"x").unwrap();
    bridge.forward_data(key(), &wire, 20 * SEC).unwrap();
    // Exactly the timeout is not yet too long.
    assert_eq!(bridge.reap_idle(310 * SEC), vec![]);
    assert_eq!(bridge.reap_idle(310 * SEC + 1), vec![quiet]);
    assert_eq!(bridge.session_count(), 1);
    assert_eq!(bridge.reap_idle(u64::MAX), vec![key()]);
    assert_eq!(bridge.session_count(), 0);
}

#[test]
fn packets_that_are_no_frames_are_refused() {
    assert_eq!(classify(peer(), &[1; 12]), Err(ProtocolError::Truncated { got: 12, need: 13 }));
    assert_eq!(classify(peer(), &[2; 13]), Err(ProtocolError::UnknownVersion(2)));
}

#[test]
fn keys_of_the_configuration_are_checked() {
    let setup = Setup::new();
    let with_secret = |text: &str| BridgeConfig {
        bridge_x25519_seckey_hex: text.to_string(),
        ..setup.config()
    };
    match Bridge::new(with_secret("xyz")).err() {
        Some(SetupError::BridgeSecret(KeyError::Hex(message))) => {
            assert_eq!(message, hex::decode("xyz").unwrap_err().to_string())
        }
        _ => panic!("accepted a secret that is no hexadecimal"),
    }
    assert!(matches!(
        Bridge::new(with_secret("00ff")).err(),
        Some(SetupError::BridgeSecret(KeyError::WrongLength(2)))
    ));
    // Upper case is hexadecimal too.
    let secret = with_secret(&"AB".repeat(32)).parsed_x25519_secret().ok().unwrap();
    assert_eq!(secret.to_bytes(), [0xAB; 32]);
    let with_backend = |text: &str| BridgeConfig {
        backend_ed25519_pubkey_hex: text.to_string(),
        ..setup.config()
    };
    assert!(matches!(
        with_backend("0").parsed_backend_pubkey(),
        Err(KeyError::Hex(_))
    ));
    assert!(matches!(
        Bridge::new(with_backend("00")).err(),
        Some(SetupError::BackendPubkey(KeyError::WrongLength(1)))
    ));
    // y = 2 is no point of the curve.
    let mut no_point = [0u8; 32];
    no_point[0] = 2;
    assert!(matches!(
        with_backend(&hex::encode(no_point)).parsed_backend_pubkey(),
        Err(KeyError::NotAKey)
    ));
}

#[test]
fn bridge_defaults() {
    assert_eq!(default_max_sessions(), 10_000);
    assert_eq!(default_idle_timeout(), 300);
}

#[test]
fn destinations_are_drained() {
    let key = SessionKey { client_addr: peer(), connection_id: 3 };
    let queued = |step: DrainStep| match step {
        DrainStep::Queue(packet) => Some((packet.session_key, packet.payload)),
        _ => None,
    };
    let tcp = TransportProtocol::Tcp;
    let udp = TransportProtocol::Udp;
    assert_eq!(queued(drain_step(key, tcp, DestRead::Data(vec![1, 2]))), Some((key, vec![1, 2])));
    assert_eq!(queued(drain_step(key, udp, DestRead::Data(vec![7]))), Some((key, vec![7])));
    assert!(matches!(drain_step(key, tcp, DestRead::Data(vec![])), DrainStep::Finish));
    assert_eq!(queued(drain_step(key, udp, DestRead::Data(vec![]))), Some((key, vec![])));
    assert!(matches!(drain_step(key, tcp, DestRead::Failed), DrainStep::Fail));
    assert!(matches!(drain_step(key, udp, DestRead::Failed), DrainStep::Fail));
}
