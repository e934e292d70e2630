use lowping::addr::{IpAddr, SocketAddr};
use lowping::bytes::{
    array_of, push_be, read_be, store_be, to_signed, to_unsigned,
};
use lowping::table::{Key, Stamped, Table};
use lowping::text::{chars_of, dec_text, parse_ipv4, push_dotted, same_text};
use lowping::tunnel::{OpenedTunnel, UdpSession};

#[test]
fn big_endian_numbers() {
    let mut out = vec![9];
    push_be(&mut out, 0x0102030405, 4);
    assert_eq!(out, vec![9, 2, 3, 4, 5]);
    store_be(&mut out, 1, 0xAABB, 2);
    assert_eq!(out, vec![9, 0xAA, 0xBB, 4, 5]);
    assert_eq!(read_be(&out), 0x09AABB0405);
    assert_eq!(read_be(&[]), 0);
    assert_eq!(read_be(&[0xFF; 16]), u128::MAX);
    let array: [u8; 3] = array_of(&[1, 2, 3]);
    assert_eq!(array, [1, 2, 3]);
}

#[test]
fn signed_bit_patterns() {
    for x in [0, 1, -1, i64::MAX, i64::MIN, -1234567890123] {
        assert_eq!(to_unsigned(x), x as u64);
        assert_eq!(to_signed(x as u64), x);
    }
}

#[test]
fn texts() {
    assert_eq!(dec_text(0), "0");
    assert_eq!(dec_text(10), "10");
    assert_eq!(dec_text(u128::MAX), u128::MAX.to_string());
    let mut text = String::from("@");
    push_dotted(&mut text, 0xC0A80001);
    assert_eq!(text, "@192.168.0.1");
    assert_eq!(parse_ipv4("192.168.0.1"), Some(0xC0A80001));
    assert_eq!(parse_ipv4("192.168.0.01"), None);
    assert_eq!(chars_of("a→b"), vec!['a', '→', 'b']);
    assert!(same_text("→", "→"));
    assert!(!same_text("a", "ab"));
}

#[test]
fn addresses() {
    assert_eq!(IpAddr::v4(1, 2, 3, 4), IpAddr::V4(0x01020304));
    // Addresses of different families are different keys.
    assert_ne!(IpAddr::V4(7).rank(), IpAddr::V6(7).rank());
    let a = SocketAddr::new(IpAddr::V4(7), 1);
    let b = SocketAddr::new(IpAddr::V6(7), 1);
    assert_ne!(a.rank(), b.rank());
}

#[test]
fn tables_are_maps() {
    let mut table: Table<u16, &str> = Table::new();
    assert_eq!(table.len(), 0);
    for (k, v) in [(5, "e"), (1, "a"), (9, "i"), (5, "E")] {
        table.insert(k, v);
    }
    assert_eq!(table.len(), 3);
    assert_eq!(table.get(&5), Some(&"E"));
    assert_eq!(table.get(&6), None);
    assert!(table.contains(&9));
    *table.get_mut(&9).unwrap() = "I";
    assert_eq!(table.get(&9), Some(&"I"));
    assert!(table.get_mut(&8).is_none());
    let mut keys = table.keys();
    keys.sort();
    assert_eq!(keys, vec![1, 5, 9]);
    assert!(table.remove(&5));
    assert!(!table.remove(&5));
    assert_eq!(table.get(&5), None);
    assert_eq!(table.len(), 2);
}

#[test]
fn idle_entries_are_dropped() {
    let tunnel = OpenedTunnel { aead_key: [0; 32], connection_id: 0, syn_wire: vec![] };
    let mut table: Table<u16, UdpSession> = Table::new();
    for k in 0..10u16 {
        table.insert(k, UdpSession::new(&tunnel, k as u64 * 1_000_000_000));
    }
    assert_eq!(table.get(&3).unwrap().stamp(), 3_000_000_000);
    let dropped = table.drop_idle(10_000_000_000, 5);
    assert_eq!(dropped.len(), 5);
    assert_eq!(table.len(), 5);
    assert!(!table.contains(&4));
    assert!(table.contains(&5));
}
