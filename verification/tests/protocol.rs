use lowping::addr::IpAddr;
use lowping::handshake;
use lowping::protocol::{
    decrypt_frame, decrypt_syn_payload, derive_nonce, encrypt_frame, encrypt_syn_frame,
    finish_frame, join_frame, parse_syn_front, read_frame_front, ConnectRequest, Flags, Header,
    ProtocolError, TransportProtocol, HEADER_LEN, MAX_PAYLOAD_LEN, MIN_FRAME_LEN,
    MIN_SYN_FRAME_LEN, PROTO_VERSION,
};

fn test_key() -> [u8; 32] {
    [0xAA; 32]
}

fn header(flags: Flags, connection_id: u32, sequence: u64) -> Header {
    Header { version: PROTO_VERSION, flags, connection_id, sequence }
}

#[test]
fn roundtrip_data_frame() {
    let header = header(Flags::empty(), 0xCAFEBABE, 42);
    let payload = b"hello world from a game packet";
    let wire = encrypt_frame(&test_key(), &header, payload).unwrap();
    let (h2, p2) = decrypt_frame(&test_key(), &wire).unwrap();
    assert_eq!(header, h2);
    assert_eq!(payload.as_slice(), p2.as_slice());
}

#[test]
fn roundtrip_syn_with_connect() {
    let header = header(Flags::syn(), 0x12345678, 0);
    let cr = ConnectRequest {
        protocol: TransportProtocol::Udp,
        dest_ip: IpAddr::v4(203, 0, 113, 45),
        dest_port: 27015,
    };
    let payload = cr.encode();
    let wire = encrypt_frame(&test_key(), &header, &payload).unwrap();
    let (h2, p2) = decrypt_frame(&test_key(), &wire).unwrap();
    assert_eq!(header, h2);
    assert!(h2.flags.contains(Flags::syn()));
    let cr2 = ConnectRequest::decode(&p2).unwrap();
    assert_eq!(cr, cr2);
}

#[test]
fn tampered_frame_rejected() {
    let header = header(Flags::empty(), 1, 1);
    let mut wire = encrypt_frame(&test_key(), &header, b"data").unwrap();
    // Flip a byte in the ciphertext
    let last = wire.len() - 5;
    wire[last] ^= 0x01;
    assert!(matches!(decrypt_frame(&test_key(), &wire), Err(ProtocolError::AeadFailed)));
}

#[test]
fn wrong_key_rejected() {
    let header = header(Flags::empty(), 1, 1);
    let wire = encrypt_frame(&test_key(), &header, b"data").unwrap();
    let bad_key = [0xBB; 32];
    assert!(matches!(decrypt_frame(&bad_key, &wire), Err(ProtocolError::AeadFailed)));
}

#[test]
fn ipv6_connect_roundtrip() {
    let cr = ConnectRequest {
        protocol: TransportProtocol::Tcp,
        // 2001:db8::1
        dest_ip: IpAddr::V6(0x2001_0db8_0000_0000_0000_0000_0000_0001),
        dest_port: 443,
    };
    let bytes = cr.encode();
    let cr2 = ConnectRequest::decode(&bytes).unwrap();
    assert_eq!(cr, cr2);
}

#[test]
fn unknown_version_rejected() {
    // Version field is the low 4 bits of byte 0, so any value 0-15 is a
    // valid encoding. PROTO_VERSION == 1, so version 7 is "unknown".
    let mut header_bytes = [0u8; HEADER_LEN];
    header_bytes[0] = 7;
    let err = Header::decode(&header_bytes).unwrap_err();
    assert!(matches!(err, ProtocolError::UnknownVersion(7)));
}

#[test]
fn syn_frame_roundtrip_via_ecdh() {
    let (bridge_sk, bridge_pk) = handshake::generate_keypair();
    let (client_sk, client_pk) = handshake::generate_keypair();

    // Client side: derive session key, encrypt SYN.
    let client_aead = handshake::client_derive_session_key(&client_sk, &bridge_pk);
    let client_pk_bytes = client_pk.to_bytes();
    let header = header(Flags::syn(), 0xFEEDC0DE, 0);
    let inner_payload = b"license_token_bytes_then_connect_request";
    let wire = encrypt_syn_frame(&client_aead, &header, &client_pk_bytes, inner_payload).unwrap();

    // Bridge side: parse front, derive session key, decrypt rest.
    let (parsed_header, peer_pk_bytes) = parse_syn_front(&wire).unwrap();
    assert_eq!(parsed_header, header);
    let peer_pk = handshake::pubkey_from_bytes(&peer_pk_bytes).unwrap();
    let bridge_aead = handshake::bridge_derive_session_key(&bridge_sk, &peer_pk);
    assert_eq!(bridge_aead.as_slice(), client_aead.as_slice());
    let decrypted = decrypt_syn_payload(&bridge_aead, &wire).unwrap();
    assert_eq!(decrypted.as_slice(), inner_payload);
}

#[test]
fn syn_frame_with_wrong_bridge_key_fails() {
    let (_, bridge_pk) = handshake::generate_keypair();
    let (wrong_bridge_sk, _) = handshake::generate_keypair();
    let (client_sk, client_pk) = handshake::generate_keypair();
    let client_aead = handshake::client_derive_session_key(&client_sk, &bridge_pk);
    let client_pk_bytes = client_pk.to_bytes();
    let header = header(Flags::syn(), 1, 0);
    let wire = encrypt_syn_frame(&client_aead, &header, &client_pk_bytes, b"hello").unwrap();
    let (_, peer_pk_bytes) = parse_syn_front(&wire).unwrap();
    let peer_pk = handshake::pubkey_from_bytes(&peer_pk_bytes).unwrap();
    let bridge_aead = handshake::bridge_derive_session_key(&wrong_bridge_sk, &peer_pk);
    let result = decrypt_syn_payload(&bridge_aead, &wire);
    assert!(matches!(result, Err(ProtocolError::AeadFailed)));
}

#[test]
fn syn_frame_truncated_rejected() {
    // Wire is shorter than even SYN_HEADER_LEN
    let too_short = vec![0u8; HEADER_LEN + 10];
    assert!(matches!(parse_syn_front(&too_short), Err(ProtocolError::Truncated { .. })));
}

#[test]
fn header_flag_bits_dont_collide_with_version() {
    // Version field is low 4 bits; flags are high 4 bits.
    // Verify they don't overlap in the encoding.
    let header = header(Flags::syn() | Flags::fec_parity(), 0, 0);
    let mut buf = [0u8; HEADER_LEN];
    header.encode(&mut buf);
    let decoded = Header::decode(&buf).unwrap();
    assert_eq!(decoded.flags, Flags::syn() | Flags::fec_parity());
    assert_eq!(decoded.version, PROTO_VERSION);
}

#[test]
fn header_bytes_are_as_documented() {
    let header = header(Flags::fin() | Flags::redundant(), 0x01020304, 0x1112131415161718);
    let mut buf = [0u8; HEADER_LEN];
    header.encode(&mut buf);
    assert_eq!(
        buf,
        [0xC1, 0x01, 0x02, 0x03, 0x04, 0x11, 0x12, 0x13, 0x14, 0x15, 0x16, 0x17, 0x18]
    );
    assert_eq!(header.to_bytes(), buf);
    assert_eq!(Header::decode(&buf).unwrap(), header);
}

#[test]
fn flag_bits_are_as_documented() {
    assert_eq!(Flags::empty().bits(), 0);
    assert_eq!(Flags::fec_parity().bits(), 0b0001_0000);
    assert_eq!(Flags::syn().bits(), 0b0010_0000);
    assert_eq!(Flags::fin().bits(), 0b0100_0000);
    assert_eq!(Flags::redundant().bits(), 0b1000_0000);
    assert_eq!(Flags::from_bits_truncate(0b1010_1111), Flags::syn() | Flags::redundant());
    assert!((Flags::syn() | Flags::fin()).contains(Flags::fin()));
    assert!(!Flags::syn().contains(Flags::syn() | Flags::fin()));
    assert!(Flags::syn().contains(Flags::empty()));
}

#[test]
fn version_is_cut_to_four_bits() {
    let header = Header {
        version: 0x27,
        flags: Flags::fec_parity(),
        connection_id: 0,
        sequence: 0,
    };
    assert_eq!(header.to_bytes()[0], 0x17);
    assert_eq!(
        Header::decode(&header.to_bytes()).unwrap_err(),
        ProtocolError::UnknownVersion(7)
    );
}

#[test]
fn short_header_is_truncated() {
    assert_eq!(
        Header::decode(&[1u8; 12]).unwrap_err(),
        ProtocolError::Truncated { got: 12, need: 13 }
    );
}

#[test]
fn nonce_is_id_and_sequence() {
    assert_eq!(
        derive_nonce(0x01020304, 0x05060708090A0B0C),
        [1, 2, 3, 4, 5, 6, 7, 8, 9, 10, 11, 12]
    );
    assert_ne!(derive_nonce(1, 2), derive_nonce(2, 1));
    assert_ne!(derive_nonce(0, 1 << 32), derive_nonce(1, 0));
}

#[test]
fn frame_has_header_ciphertext_and_tag() {
    let header = header(Flags::empty(), 7, 9);
    let payload = [0x55u8; 20];
    let wire = encrypt_frame(&test_key(), &header, &payload).unwrap();
    assert_eq!(wire.len(), HEADER_LEN + 20 + 16);
    assert_eq!(&wire[..HEADER_LEN], &header.to_bytes()[..]);
    assert_ne!(&wire[HEADER_LEN..HEADER_LEN + 20], &payload[..]);
    // The same frame is sealed to the same bytes, and another nonce to others.
    assert_eq!(wire, encrypt_frame(&test_key(), &header, &payload).unwrap());
    let next = Header { sequence: 10, ..header };
    let other = encrypt_frame(&test_key(), &next, &payload).unwrap();
    assert_ne!(&wire[HEADER_LEN..], &other[HEADER_LEN..]);
}

#[test]
fn empty_payload_still_has_a_tag() {
    let header = header(Flags::empty(), 7, 9);
    let wire = encrypt_frame(&test_key(), &header, &[]).unwrap();
    assert_eq!(wire.len(), MIN_FRAME_LEN);
    assert_eq!(decrypt_frame(&test_key(), &wire).unwrap(), (header, vec![]));
}

#[test]
fn payload_limit_is_exact() {
    let header = header(Flags::empty(), 7, 9);
    let most = vec![1u8; MAX_PAYLOAD_LEN];
    let wire = encrypt_frame(&test_key(), &header, &most).unwrap();
    assert_eq!(wire.len(), 1229);
    // With the headers of IPv6 and UDP it fits in 1280 bytes.
    assert!(40 + 8 + wire.len() <= 1280);
    let more = vec![1u8; MAX_PAYLOAD_LEN + 1];
    assert_eq!(
        encrypt_frame(&test_key(), &header, &more).unwrap_err(),
        ProtocolError::PayloadTooLarge(1201)
    );
    assert_eq!(
        encrypt_syn_frame(&test_key(), &header, &[0; 32], &more).unwrap_err(),
        ProtocolError::PayloadTooLarge(1201)
    );
}

#[test]
fn tampered_header_fails_authentication() {
    let header = header(Flags::empty(), 7, 9);
    let mut wire = encrypt_frame(&test_key(), &header, b"data").unwrap();
    wire[0] |= Flags::redundant().bits();
    assert_eq!(decrypt_frame(&test_key(), &wire).unwrap_err(), ProtocolError::AeadFailed);
}

#[test]
fn frame_errors_come_in_order() {
    assert_eq!(
        decrypt_frame(&test_key(), &[0u8; 28]).unwrap_err(),
        ProtocolError::Truncated { got: 28, need: 29 }
    );
    assert_eq!(
        decrypt_frame(&test_key(), &[0u8; 29]).unwrap_err(),
        ProtocolError::UnknownVersion(0)
    );
    assert_eq!(
        decrypt_frame(&test_key(), &[1u8; 29]).unwrap_err(),
        ProtocolError::AeadFailed
    );
    assert_eq!(
        decrypt_syn_payload(&test_key(), &[1u8; 60]).unwrap_err(),
        ProtocolError::Truncated { got: 60, need: MIN_SYN_FRAME_LEN }
    );
    assert_eq!(
        decrypt_syn_payload(&test_key(), &[2u8; 61]).unwrap_err(),
        ProtocolError::UnknownVersion(2)
    );
}

#[test]
fn frame_parts_without_the_cipher() {
    let header = header(Flags::empty(), 7, 9);
    let wire = join_frame(&header.to_bytes(), &[9u8; 20]);
    assert_eq!(wire.len(), 33);
    assert_eq!(read_frame_front(&wire).unwrap(), header);
    assert_eq!(finish_frame(header, Some(vec![1, 2])).unwrap(), (header, vec![1, 2]));
    assert_eq!(finish_frame(header, None).unwrap_err(), ProtocolError::AeadFailed);
}

#[test]
fn syn_frame_carries_the_public_key() {
    let header = header(Flags::syn(), 3, 0);
    let pubkey = [0x77u8; 32];
    let wire = encrypt_syn_frame(&test_key(), &header, &pubkey, b"abc").unwrap();
    assert_eq!(wire.len(), 13 + 32 + 3 + 16);
    assert_eq!(parse_syn_front(&wire).unwrap(), (header, pubkey));
    // The public key is authenticated.
    let mut tampered = wire.clone();
    tampered[20] ^= 1;
    assert_eq!(
        decrypt_syn_payload(&test_key(), &tampered).unwrap_err(),
        ProtocolError::AeadFailed
    );
    assert_eq!(decrypt_syn_payload(&test_key(), &wire).unwrap(), b"abc".to_vec());
}

#[test]
fn connect_bytes_are_as_documented() {
    let v4 = ConnectRequest {
        protocol: TransportProtocol::Udp,
        dest_ip: IpAddr::v4(1, 2, 3, 4),
        dest_port: 0x0506,
    };
    assert_eq!(v4.encode(), vec![2, 4, 1, 2, 3, 4, 5, 6]);
    let v6 = ConnectRequest {
        protocol: TransportProtocol::Tcp,
        dest_ip: IpAddr::V6(0x000102030405060708090A0B0C0D0E0F),
        dest_port: 80,
    };
    assert_eq!(
        v6.encode(),
        vec![1, 16, 0, 1, 2, 3, 4, 5, 6, 7, 8, 9, 10, 11, 12, 13, 14, 15, 0, 80]
    );
}

#[test]
fn connect_errors() {
    let truncated = |got, need| ProtocolError::Truncated { got, need };
    assert_eq!(ConnectRequest::decode(&[1, 4, 0]).unwrap_err(), truncated(3, 4));
    // Unknown protocol.
    assert_eq!(ConnectRequest::decode(&[3, 4, 0, 0, 0, 0, 0, 0]).unwrap_err(), truncated(8, 4));
    // Address length that is neither 4 nor 16.
    assert_eq!(ConnectRequest::decode(&[1, 5, 0, 0, 0, 0, 0, 0]).unwrap_err(), truncated(8, 9));
    // Too few bytes for the address and port.
    assert_eq!(ConnectRequest::decode(&[1, 4, 0, 0, 0, 0, 0]).unwrap_err(), truncated(7, 8));
    assert_eq!(ConnectRequest::decode(&[2, 16, 0, 0, 0, 0, 0]).unwrap_err(), truncated(7, 20));
    // Bytes behind the message are passed over.
    let request = ConnectRequest::decode(&[1, 4, 9, 8, 7, 6, 0, 80, 255, 255]).unwrap();
    assert_eq!(request.dest_ip, IpAddr::v4(9, 8, 7, 6));
    assert_eq!(request.dest_port, 80);
}

#[test]
fn transport_bytes() {
    assert_eq!(TransportProtocol::from_byte(1), Some(TransportProtocol::Tcp));
    assert_eq!(TransportProtocol::from_byte(2), Some(TransportProtocol::Udp));
    assert_eq!(TransportProtocol::from_byte(0), None);
    assert_eq!(TransportProtocol::from_byte(3), None);
    assert_eq!(TransportProtocol::Tcp.to_byte(), 1);
    assert_eq!(TransportProtocol::Udp.to_byte(), 2);
}
