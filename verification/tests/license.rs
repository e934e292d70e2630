use lowping::license::{LicenseError, LicensePayload, LicenseToken, TOKEN_LEN};
use lowping::signing::{SigningKey, VerifyingKey};

fn fresh_keypair() -> (SigningKey, VerifyingKey) {
    let sk = SigningKey::generate();
    let pk = sk.verifying_key();
    (sk, pk)
}

#[test]
fn signed_token_verifies() {
    let (sk, pk) = fresh_keypair();
    let payload = LicensePayload {
        user_id: 42,
        issued_at: 1_000_000,
        expires_at: 2_000_000,
        scope: 1,
    };
    let token = LicenseToken::sign(payload, &sk);
    token.verify(&pk, 1_500_000).unwrap();
}

#[test]
fn expired_token_rejected() {
    let (sk, pk) = fresh_keypair();
    let payload = LicensePayload { user_id: 1, issued_at: 100, expires_at: 200, scope: 0 };
    let token = LicenseToken::sign(payload, &sk);
    let err = token.verify(&pk, 300).unwrap_err();
    assert!(matches!(err, LicenseError::Expired { .. }));
}

#[test]
fn not_yet_valid_rejected() {
    let (sk, pk) = fresh_keypair();
    let payload = LicensePayload { user_id: 1, issued_at: 1000, expires_at: 2000, scope: 0 };
    let token = LicenseToken::sign(payload, &sk);
    let err = token.verify(&pk, 500).unwrap_err();
    assert!(matches!(err, LicenseError::NotYetValid { .. }));
}

#[test]
fn signature_from_other_key_rejected() {
    let (sk1, _pk1) = fresh_keypair();
    let (_sk2, pk2) = fresh_keypair();
    let payload = LicensePayload { user_id: 1, issued_at: 0, expires_at: i64::MAX, scope: 0 };
    let token = LicenseToken::sign(payload, &sk1);
    // Verify with a different backend's pubkey
    let err = token.verify(&pk2, 100).unwrap_err();
    assert!(matches!(err, LicenseError::BadSignature));
}

#[test]
fn license_tampered_payload_rejected() {
    let (sk, pk) = fresh_keypair();
    let payload = LicensePayload { user_id: 1, issued_at: 0, expires_at: i64::MAX, scope: 0 };
    let token = LicenseToken::sign(payload, &sk);
    let mut bytes = token.to_bytes();
    // Flip one bit in the user_id
    bytes[0] ^= 0x01;
    let tampered = LicenseToken::from_bytes(&bytes).unwrap();
    let err = tampered.verify(&pk, 100).unwrap_err();
    assert!(matches!(err, LicenseError::BadSignature));
}

#[test]
fn base64_roundtrip() {
    let (sk, pk) = fresh_keypair();
    let payload = LicensePayload {
        user_id: 0xCAFEBABE,
        issued_at: 1,
        expires_at: 9999999,
        scope: 0xDEADBEEF,
    };
    let token = LicenseToken::sign(payload, &sk);
    let s = token.to_string_b64();
    // URL-safe base64 of 88 bytes = ceil(88 * 4 / 3) = 118 chars (no padding)
    assert_eq!(s.len(), 118);
    let back = LicenseToken::from_string_b64(&s).unwrap();
    assert_eq!(back.payload, token.payload);
    back.verify(&pk, 1000).unwrap();
}

#[test]
fn payload_bytes_are_as_documented() {
    let payload = LicensePayload {
        user_id: 0x01020304,
        issued_at: -2,
        expires_at: 0x1112131415161718,
        scope: 0xA0B0C0D0,
    };
    let bytes = payload.encode();
    assert_eq!(
        bytes,
        [
            1, 2, 3, 4, 255, 255, 255, 255, 255, 255, 255, 254, 0x11, 0x12, 0x13, 0x14, 0x15, 0x16,
            0x17, 0x18, 0xA0, 0xB0, 0xC0, 0xD0
        ]
    );
    assert_eq!(LicensePayload::decode(&bytes), payload);
}

#[test]
fn extreme_timestamps_survive() {
    for &(issued_at, expires_at) in &[(i64::MIN, i64::MAX), (-1, 0), (0, -1)] {
        let payload = LicensePayload { user_id: u32::MAX, issued_at, expires_at, scope: u32::MAX };
        assert_eq!(LicensePayload::decode(&payload.encode()), payload);
    }
}

#[test]
fn validity_window_is_half_open() {
    let payload = LicensePayload { user_id: 1, issued_at: 100, expires_at: 200, scope: 0 };
    assert!(matches!(
        payload.judge(true, 99),
        Err(LicenseError::NotYetValid { issued_at: 100, now: 99 })
    ));
    assert!(payload.judge(true, 100).is_ok());
    assert!(payload.judge(true, 199).is_ok());
    assert!(matches!(
        payload.judge(true, 200),
        Err(LicenseError::Expired { expires_at: 200, now: 200 })
    ));
    assert!(matches!(payload.judge(false, 150), Err(LicenseError::BadSignature)));
}

#[test]
fn wrong_lengths_are_refused() {
    assert!(matches!(LicenseToken::from_bytes(&[0; 87]), Err(LicenseError::WrongLength(87))));
    assert!(matches!(LicenseToken::from_bytes(&[0; 89]), Err(LicenseError::WrongLength(89))));
    assert!(matches!(
        LicenseToken::from_string_b64("AAAA"),
        Err(LicenseError::WrongLength(3))
    ));
    assert!(matches!(LicenseToken::from_string_b64(""), Err(LicenseError::WrongLength(0))));
}

#[test]
fn texts_that_are_not_base64_are_refused() {
    for text in ["A", "AA==", "A+A/", "AB", "A\u{e9}AA"] {
        match LicenseToken::from_string_b64(text) {
            Err(LicenseError::Base64(message)) => assert!(!message.is_empty()),
            _ => panic!("accepted {:?}", text),
        }
    }
}

#[test]
fn token_text_is_base64_of_its_bytes() {
    let mut bytes = [0u8; TOKEN_LEN];
    for (i, b) in bytes.iter_mut().enumerate() {
        *b = (i * 37 + 200) as u8;
    }
    let token = LicenseToken::from_bytes(&bytes).unwrap();
    assert_eq!(token.to_bytes(), bytes);
    let text = token.to_string_b64();
    let alphabet: Vec<char> =
        "ABCDEFGHIJKLMNOPQRSTUVWXYZabcdefghijklmnopqrstuvwxyz0123456789-_".chars().collect();
    let first = (bytes[0] as usize) / 4;
    let second = (bytes[0] as usize % 4) * 16 + bytes[1] as usize / 16;
    let chars: Vec<char> = text.chars().collect();
    assert_eq!(chars[0], alphabet[first]);
    assert_eq!(chars[1], alphabet[second]);
    assert_eq!(LicenseToken::from_string_b64(&text).unwrap().to_bytes(), bytes);
}

#[test]
fn signing_is_deterministic_and_depends_on_the_message() {
    let key = SigningKey::from_bytes(&[3; 32]);
    assert_eq!(key.sign(b"a"), key.sign(b"a"));
    assert_ne!(key.sign(b"a"), key.sign(b"b"));
    assert_ne!(key.sign(b"a"), SigningKey::from_bytes(&[4; 32]).sign(b"a"));
    let expected = ed25519_dalek::SigningKey::from_bytes(&[3; 32]).verifying_key().to_bytes();
    assert_eq!(key.verifying_key().to_bytes(), expected);
    assert!(key.verifying_key().accepts(b"a", &key.sign(b"a")));
    assert!(!key.verifying_key().accepts(b"b", &key.sign(b"a")));
}

#[test]
fn not_every_32_bytes_are_a_public_key() {
    let mut refused = 0;
    for b in 0..=255u8 {
        let mut bytes = [0u8; 32];
        bytes[0] = b;
        if VerifyingKey::from_bytes(&bytes).is_none() {
            refused += 1;
        }
    }
    assert!(refused > 50);
    let good = SigningKey::generate().verifying_key().to_bytes();
    assert_eq!(VerifyingKey::from_bytes(&good).unwrap().to_bytes(), good);
}
