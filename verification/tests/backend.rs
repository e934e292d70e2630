use lowping::addr::{IpAddr, SocketAddr};
use lowping::backend::{
    default_directory_ttl, default_token_ttl, judge_directory, AppError, AppState, BackendConfig,
    BridgeEntry, SignedDirectory, VerifyError,
};
use lowping::bridge::{AdmitError, Bridge, BridgeConfig, KeyError};
use lowping::handshake::generate_keypair;
use lowping::license::{LicenseError, LicenseToken};
use lowping::protocol::TransportProtocol;
use lowping::signing::SigningKey;
use lowping::tunnel::open_tunnel;
use serde_json::Value;

fn entry(id: &str, enabled: bool) -> BridgeEntry {
    BridgeEntry {
        id: id.into(),
        name: "Dallas".into(),
        region: "NA".into(),
        zone: "NAC".into(),
        endpoint: SocketAddr::new(IpAddr::v4(203, 0, 113, 1), 51820),
        pubkey_hex: "abcd".repeat(8),
        game_zones: vec!["fortnite-NAC".into(), "valorant-NAC".into()],
        enabled,
    }
}

/// The JSON document of a directory with one bridge.
fn sample_directory() -> Vec<u8> {
    let mut bridge = serde_json::Map::new();
    bridge.insert("id".into(), Value::from("dal-1"));
    bridge.insert("name".into(), Value::from("Dallas"));
    bridge.insert("region".into(), Value::from("NA"));
    bridge.insert("zone".into(), Value::from("NAC"));
    bridge.insert("endpoint".into(), Value::from("203.0.113.1:51820"));
    bridge.insert("pubkey_hex".into(), Value::from("abcd".repeat(8)));
    bridge.insert("game_zones".into(), Value::from(vec!["fortnite-NAC", "valorant-NAC"]));
    bridge.insert("enabled".into(), Value::from(true));
    let mut directory = serde_json::Map::new();
    directory.insert("version".into(), Value::from(1));
    directory.insert("issued_at".into(), Value::from("2026-05-03T12:00:00Z"));
    directory.insert("expires_at".into(), Value::from("2026-05-03T12:30:00Z"));
    directory.insert("bridges".into(), Value::from(vec![Value::from(bridge)]));
    serde_json::to_vec(&Value::from(directory)).unwrap()
}

#[test]
fn sign_then_verify_roundtrips() {
    let sk = SigningKey::generate();
    let pk = sk.verifying_key();
    let signed = SignedDirectory::sign(&sample_directory(), &sk);
    let payload = signed.verify(&pk).unwrap();
    assert_eq!(payload, sample_directory());
    let back: Value = serde_json::from_slice(&payload).unwrap();
    let bridges = back.get("bridges").unwrap().as_array().unwrap();
    assert_eq!(bridges.len(), 1);
    assert_eq!(bridges[0].get("id").unwrap(), "dal-1");
}

#[test]
fn directory_tampered_payload_rejected() {
    let sk = SigningKey::generate();
    let pk = sk.verifying_key();
    let mut signed = SignedDirectory::sign(&sample_directory(), &sk);
    // Flip a character in the payload — invalidates signature
    let mut chars: Vec<char> = signed.payload_b64.chars().collect();
    chars[10] = if chars[10] == 'A' { 'B' } else { 'A' };
    signed.payload_b64 = chars.into_iter().collect();
    let err = signed.verify(&pk).unwrap_err();
    assert!(matches!(
        err,
        VerifyError::BadSignature | VerifyError::Base64(_) | VerifyError::Json(_)
    ));
}

#[test]
fn wrong_pubkey_rejected() {
    let sk1 = SigningKey::generate();
    let sk2 = SigningKey::generate();
    let signed = SignedDirectory::sign(&sample_directory(), &sk1);
    let err = signed.verify(&sk2.verifying_key()).unwrap_err();
    assert!(matches!(err, VerifyError::BadSignature));
}

#[test]
fn directory_texts_are_base64() {
    let key = SigningKey::from_bytes(&[2; 32]);
    let signed = SignedDirectory::sign(b"\xfb\xff\xfe{}", &key);
    assert_eq!(signed.payload_b64, "-__-e30");
    // 64 bytes are 86 characters.
    assert_eq!(signed.signature_b64.len(), 86);
    assert_eq!(signed.verify(&key.verifying_key()).unwrap(), b"\xfb\xff\xfe{}".to_vec());
}

#[test]
fn directory_errors_come_in_order() {
    let key = SigningKey::from_bytes(&[2; 32]).verifying_key();
    let verify = |payload: &str, signature: &str| {
        SignedDirectory { payload_b64: payload.into(), signature_b64: signature.into() }
            .verify(&key)
            .unwrap_err()
    };
    let message = |text: &str| match LicenseToken::from_string_b64(text) {
        Err(lowping::license::LicenseError::Base64(message)) => message,
        _ => panic!("{} is base64", text),
    };
    match verify("*", "=") {
        VerifyError::Base64(m) => assert_eq!(m, message("*")),
        _ => panic!("payload was read"),
    }
    match verify("e30", "A") {
        VerifyError::Base64(m) => assert_eq!(m, message("A")),
        _ => panic!("signature was read"),
    }
    assert!(matches!(verify("e30", "AAAA"), VerifyError::BadSignatureLength(3)));
    assert!(matches!(verify("e30", &"A".repeat(86)), VerifyError::BadSignature));
}

#[test]
fn judging_a_directory_without_the_signature() {
    assert_eq!(judge_directory(vec![1, 2], true).unwrap(), vec![1, 2]);
    assert!(matches!(judge_directory(vec![1, 2], false), Err(VerifyError::BadSignature)));
}

fn config() -> BackendConfig {
    BackendConfig {
        listen: SocketAddr::new(IpAddr::v4(127, 0, 0, 1), 8080),
        backend_seckey_hex: "07".repeat(32),
        bridges: vec![entry("dal-1", true), entry("fra-1", false), entry("nj-1", true)],
        token_ttl_secs: default_token_ttl(),
        directory_ttl_secs: default_directory_ttl(),
    }
}

#[test]
fn signup_issues_tokens_that_verify() {
    let mut state = AppState::new(config()).unwrap_or_else(|_| panic!("no state"));
    for expected in 1..4 {
        let response = state.signup(1_000);
        assert_eq!(response.user_id, expected);
        assert_eq!(response.expires_at_unix, 1_000 + 604_800);
        let token = LicenseToken::from_string_b64(&response.license_token).unwrap();
        assert_eq!(token.payload.user_id, expected);
        assert_eq!(token.payload.issued_at, 1_000);
        assert_eq!(token.payload.expires_at, 605_800);
        assert_eq!(token.payload.scope, 1);
        token.verify(state.verifying_key(), 605_799).unwrap();
        assert!(token.verify(state.verifying_key(), 605_800).is_err());
    }
    assert_eq!(state.issue_user_id(), 4);
    assert_eq!(state.ids_left(), u32::MAX - 5);
}

#[test]
fn directory_lists_enabled_bridges() {
    let state = AppState::new(config()).unwrap_or_else(|_| panic!("no state"));
    let directory = state.directory(5_000_000_001);
    assert_eq!(directory.version, 1);
    assert_eq!(directory.issued_at_ns, 5_000_000_001);
    assert_eq!(directory.expires_at_ns, 1_805_000_000_001);
    let ids: Vec<&str> = directory.bridges.iter().map(|b| b.id.as_str()).collect();
    assert_eq!(ids, ["dal-1", "nj-1"]);
    assert_eq!(directory.bridges[0].game_zones, ["fortnite-NAC", "valorant-NAC"]);
    assert_eq!(directory.bridges[0].pubkey_hex, "abcd".repeat(8));
}

#[test]
fn public_key_is_told_as_hexadecimal() {
    let state = AppState::new(config()).unwrap_or_else(|_| panic!("no state"));
    let expected = ed25519_dalek::SigningKey::from_bytes(&[7; 32]).verifying_key();
    assert_eq!(state.pubkey_hex(), hex::encode(expected.as_bytes()));
    assert_eq!(state.signing_key().to_bytes(), [7; 32]);
    assert_eq!(state.config().bridges.len(), 3);
}

#[test]
fn backend_key_is_checked() {
    let with_key = |text: &str| BackendConfig { backend_seckey_hex: text.into(), ..config() };
    assert!(matches!(AppState::new(with_key("zz")).err(), Some(KeyError::Hex(_))));
    assert!(matches!(AppState::new(with_key("0102")).err(), Some(KeyError::WrongLength(2))));
}

#[test]
fn error_answers() {
    let internal = AppError::Internal("broken".into());
    assert_eq!((internal.status(), internal.message()), (500, "broken"));
    let bad = AppError::BadRequest("nonsense".into());
    assert_eq!((bad.status(), bad.message()), (400, "nonsense"));
}

#[test]
fn backend_defaults() {
    assert_eq!(default_token_ttl(), 604_800);
    assert_eq!(default_directory_ttl(), 1_800);
}

#[test]
fn a_signup_opens_sessions_on_every_bridge() {
    let mut state = AppState::new(config()).unwrap_or_else(|_| panic!("no state"));
    let response = state.signup(1_000);
    let dest = SocketAddr::new(IpAddr::v4(203, 0, 113, 45), 27015);
    for _ in 0..3 {
        let (secret, public) = generate_keypair();
        let bridge = Bridge::new(BridgeConfig {
            listen: SocketAddr::new(IpAddr::v4(0, 0, 0, 0), 51820),
            bridge_x25519_seckey_hex: hex::encode(secret.to_bytes()),
            backend_ed25519_pubkey_hex: state.pubkey_hex(),
            allow_any_scope: false,
            max_sessions: 1,
            idle_timeout_secs: 300,
            metrics_listen: None,
        })
        .unwrap_or_else(|_| panic!("no bridge"));
        let tunnel = open_tunnel(
            &hex::encode(public.to_bytes()),
            &response.license_token,
            TransportProtocol::Udp,
            dest,
        )
        .unwrap();
        let granted = bridge.accept_new_session(&tunnel.syn_wire, 605_799).unwrap();
        assert_eq!(granted.aead_key, tunnel.aead_key);
        assert_eq!(granted.license.user_id, response.user_id);
        assert_eq!(granted.connect.dest_ip, dest.ip);
        assert_eq!(granted.connect.dest_port, dest.port);
        let late = bridge.accept_new_session(&tunnel.syn_wire, 605_800).unwrap_err();
        assert!(matches!(late, AdmitError::License(LicenseError::Expired { .. })));
    }
}
