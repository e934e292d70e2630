use lowping::handshake::{
    bridge_derive_session_key, client_derive_session_key, derive_aead_key, generate_keypair,
    pubkey_from_bytes, secret_from_bytes, HandshakeError, X25519PublicKey, X25519Secret, HKDF_INFO,
};

#[test]
fn both_sides_derive_same_key() {
    let (bridge_sk, bridge_pk) = generate_keypair();
    let (client_sk, client_pk) = generate_keypair();
    let bridge_key = bridge_derive_session_key(&bridge_sk, &client_pk);
    let client_key = client_derive_session_key(&client_sk, &bridge_pk);
    assert_eq!(bridge_key.as_slice(), client_key.as_slice());
}

#[test]
fn different_clients_get_different_keys() {
    let (bridge_sk, _) = generate_keypair();
    let (_, client_pk_a) = generate_keypair();
    let (_, client_pk_b) = generate_keypair();
    let key_a = bridge_derive_session_key(&bridge_sk, &client_pk_a);
    let key_b = bridge_derive_session_key(&bridge_sk, &client_pk_b);
    assert_ne!(key_a.as_slice(), key_b.as_slice());
}

#[test]
fn different_bridges_get_different_keys() {
    let (bridge_sk_a, _) = generate_keypair();
    let (bridge_sk_b, _) = generate_keypair();
    let (_, client_pk) = generate_keypair();
    let key_a = bridge_derive_session_key(&bridge_sk_a, &client_pk);
    let key_b = bridge_derive_session_key(&bridge_sk_b, &client_pk);
    assert_ne!(key_a.as_slice(), key_b.as_slice());
}

#[test]
fn pubkey_serializes_to_32_bytes() {
    let (_, pk) = generate_keypair();
    let bytes = pk.to_bytes();
    assert_eq!(bytes.len(), 32);
    let back = pubkey_from_bytes(&bytes).unwrap();
    assert_eq!(back.to_bytes(), bytes);
}

#[test]
fn rejects_wrong_length_pubkey() {
    let err = pubkey_from_bytes(&[0u8; 16]).unwrap_err();
    assert!(matches!(err, HandshakeError::BadPubkeyLength(16)));
}

#[test]
fn rejects_wrong_length_secret() {
    assert!(matches!(
        secret_from_bytes(&[0u8; 33]).err(),
        Some(HandshakeError::BadPubkeyLength(33))
    ));
    assert_eq!(secret_from_bytes(&[5u8; 32]).ok().unwrap().to_bytes(), [5u8; 32]);
}

#[test]
fn context_is_the_protocol_name() {
    assert_eq!(&HKDF_INFO, b"lowping-v1-aead");
}

#[test]
fn public_key_is_that_of_the_curve() {
    let secret = X25519Secret::from_array([0x42; 32]);
    let expected = x25519_dalek::PublicKey::from(&x25519_dalek::StaticSecret::from([0x42; 32]));
    assert_eq!(secret.public_key().to_bytes(), expected.to_bytes());
    assert_ne!(secret.public_key().to_bytes(), secret.to_bytes());
}

#[test]
fn keys_differ_from_what_they_are_derived_from() {
    let shared = [7u8; 32];
    let key = derive_aead_key(&shared);
    assert_ne!(key, shared);
    assert_eq!(key, derive_aead_key(&shared));
    assert_ne!(key, derive_aead_key(&[8u8; 32]));
    let secret = X25519Secret::from_array([1u8; 32]);
    let public = X25519PublicKey::from_array([9u8; 32]);
    let session = client_derive_session_key(&secret, &public);
    assert_ne!(session, secret.to_bytes());
    assert_ne!(session, public.to_bytes());
}

#[test]
fn keypairs_are_random() {
    let (a, _) = generate_keypair();
    let (b, _) = generate_keypair();
    assert_ne!(a.to_bytes(), b.to_bytes());
}
