use lowping::addr::{IpAddr, SocketAddr};
use lowping::capture::{
    process_packet, read_packet, CaptureError, FixedResolver, FlowEntry, PacketInfo, Protocol,
    RedirectRule, RedirectStats, RouteAction, RouteResolver, WinDivertCapture,
};
use lowping::table::Table;

const SEC: u64 = 1_000_000_000;

fn server() -> SocketAddr {
    SocketAddr::new(IpAddr::v4(1, 2, 3, 4), 7777)
}

fn local() -> SocketAddr {
    SocketAddr::new(IpAddr::v4(127, 0, 0, 1), 9000)
}

fn rule() -> RedirectRule {
    RedirectRule {
        protocol: Protocol::Udp,
        dst_ip: server().ip,
        dst_port_lo: 7777,
        dst_port_hi: 7800,
        redirect_to_ip: local().ip,
        redirect_to_port: local().port,
    }
}

/// A packet with a header of `words` 32-bit words.
fn packet(words: u8, proto: u8, src: ([u8; 4], u16), dst: ([u8; 4], u16)) -> Vec<u8> {
    let header_len = words as usize * 4;
    let mut data = vec![0u8; header_len + 8];
    data[0] = 0x40 + words;
    data[9] = proto;
    data[12..16].copy_from_slice(&src.0);
    data[16..20].copy_from_slice(&dst.0);
    data[header_len..header_len + 2].copy_from_slice(&src.1.to_be_bytes());
    data[header_len + 2..header_len + 4].copy_from_slice(&dst.1.to_be_bytes());
    data.extend_from_slice(b"payload");
    data
}

fn outbound() -> Vec<u8> {
    packet(5, 17, ([192, 168, 0, 2], 50000), ([1, 2, 3, 4], 7777))
}

#[test]
fn reads_packets() {
    assert_eq!(
        read_packet(&outbound()),
        Some(PacketInfo {
            header_len: 20,
            protocol: Protocol::Udp,
            src_ip: 0xC0A80002,
            dst_ip: 0x01020304,
            src_port: 50000,
            dst_port: 7777,
        })
    );
    let with_options = packet(6, 6, ([192, 168, 0, 2], 1), ([1, 2, 3, 4], 2));
    let info = read_packet(&with_options).unwrap();
    assert_eq!(info.header_len, 24);
    assert_eq!(info.protocol, Protocol::Tcp);
    assert_eq!((info.src_port, info.dst_port), (1, 2));
}

#[test]
fn refuses_packets_it_cannot_read() {
    let good = outbound();
    assert_eq!(read_packet(&good[..27]), None);
    assert!(read_packet(&good[..28]).is_some());
    let mut v6 = good.clone();
    v6[0] = 0x65;
    assert_eq!(read_packet(&v6), None);
    let mut short_header = good.clone();
    short_header[0] = 0x44;
    assert_eq!(read_packet(&short_header), None);
    let mut long_header = good.clone();
    long_header[0] = 0x4F;
    assert_eq!(read_packet(&long_header), None);
    let mut icmp = good.clone();
    icmp[9] = 1;
    assert_eq!(read_packet(&icmp), None);
}

#[test]
fn fixed_rules_decide_by_protocol_address_and_port() {
    let other = RedirectRule { redirect_to_port: 9001, dst_port_hi: 9999, ..rule() };
    let mut resolver = FixedResolver(vec![rule(), other]);
    let at = |port| SocketAddr::new(server().ip, port);
    let to = |port| RouteAction::RewriteTo(SocketAddr::new(local().ip, port));
    assert_eq!(resolver.resolve(at(7776), Protocol::Udp, 0), RouteAction::Passthrough);
    assert_eq!(resolver.resolve(at(7777), Protocol::Udp, 0), to(9000));
    assert_eq!(resolver.resolve(at(7800), Protocol::Udp, 0), to(9000));
    assert_eq!(resolver.resolve(at(7801), Protocol::Udp, 0), to(9001));
    assert_eq!(resolver.resolve(at(7777), Protocol::Tcp, 0), RouteAction::Passthrough);
    let elsewhere = SocketAddr::new(IpAddr::v4(1, 2, 3, 5), 7777);
    assert_eq!(resolver.resolve(elsewhere, Protocol::Udp, 0), RouteAction::Passthrough);
}

#[test]
fn outbound_is_redirected_and_response_undoes_it() {
    let mut resolver = FixedResolver(vec![rule()]);
    let mut flows: Table<u16, FlowEntry> = Table::new();
    let out = process_packet(&outbound(), true, &mut resolver, &mut flows, 5).unwrap();
    assert_eq!(out, packet(5, 17, ([192, 168, 0, 2], 50000), ([127, 0, 0, 1], 9000)));
    assert_eq!(
        flows.get(&50000),
        Some(&FlowEntry {
            orig_dst_ip: 0x01020304,
            orig_dst_port: 7777,
            redirect_target: local(),
            last_seen: 5,
        })
    );
    // The answer from the local target comes back to the game's port.
    let answer = packet(6, 17, ([127, 0, 0, 1], 9000), ([192, 168, 0, 2], 50000));
    let back = process_packet(&answer, false, &mut resolver, &mut flows, 9).unwrap();
    assert_eq!(back, packet(6, 17, ([1, 2, 3, 4], 7777), ([192, 168, 0, 2], 50000)));
    assert_eq!(flows.get(&50000).unwrap().last_seen, 9);
    assert_eq!(flows.len(), 1);
}

#[test]
fn what_is_not_redirected_is_left_alone() {
    let mut resolver = FixedResolver(vec![]);
    let mut flows: Table<u16, FlowEntry> = Table::new();
    assert_eq!(process_packet(&outbound(), true, &mut resolver, &mut flows, 5), None);
    assert_eq!(process_packet(&outbound(), false, &mut resolver, &mut flows, 5), None);
    // A target that is not IPv4 cannot be written into the packet.
    let v6 = RedirectRule { redirect_to_ip: IpAddr::V6(1), ..rule() };
    let mut to_v6 = FixedResolver(vec![v6]);
    assert_eq!(process_packet(&outbound(), true, &mut to_v6, &mut flows, 5), None);
    assert_eq!(flows.len(), 0);
}

#[test]
fn filter_of_one_rule() {
    let capture = WinDivertCapture::new(vec![rule()]);
    assert_eq!(
        capture.build_filter().unwrap(),
        "(outbound and ((udp and ip.DstAddr == 1.2.3.4 and udp.DstPort >= 7777 and \
         udp.DstPort <= 7800))) or (inbound and ((udp and ip.SrcAddr == 127.0.0.1 and \
         udp.SrcPort == 9000)))"
    );
}

#[test]
fn filter_of_several_rules_and_bridges() {
    let tcp = RedirectRule {
        protocol: Protocol::Tcp,
        dst_ip: IpAddr::v4(5, 6, 7, 8),
        dst_port_lo: 443,
        dst_port_hi: 443,
        redirect_to_ip: IpAddr::v4(127, 0, 0, 2),
        redirect_to_port: 9001,
    };
    let v6 = RedirectRule { dst_ip: IpAddr::V6(3), redirect_to_ip: IpAddr::V6(1), ..rule() };
    let bridges = vec![
        SocketAddr::new(IpAddr::v4(149, 28, 240, 106), 52820),
        SocketAddr::new(IpAddr::V6(2), 52820),
    ];
    let capture = WinDivertCapture::with_rules(vec![rule(), v6, tcp], bridges);
    assert_eq!(
        capture.build_filter().unwrap(),
        "(outbound and ((udp and ip.DstAddr == 1.2.3.4 and udp.DstPort >= 7777 and \
         udp.DstPort <= 7800) or (tcp and ip.DstAddr == 5.6.7.8 and tcp.DstPort >= 443 and \
         tcp.DstPort <= 443)) and ip.DstAddr != 149.28.240.106) or (inbound and \
         ((udp and ip.SrcAddr == 127.0.0.1 and udp.SrcPort == 9000) or \
         (tcp and ip.SrcAddr == 127.0.0.2 and tcp.SrcPort == 9001)))"
    );
}

#[test]
fn filter_leaves_out_what_no_rule_matches() {
    let filter = |dst_ip, redirect_to_ip| {
        let rule = RedirectRule { dst_ip, redirect_to_ip, ..rule() };
        WinDivertCapture::new(vec![rule]).build_filter().unwrap()
    };
    let outbound = "(outbound and ((udp and ip.DstAddr == 1.2.3.4 and udp.DstPort >= 7777 and \
                    udp.DstPort <= 7800)))";
    let inbound = "(inbound and ((udp and ip.SrcAddr == 127.0.0.1 and udp.SrcPort == 9000)))";
    assert_eq!(filter(server().ip, local().ip), format!("{outbound} or {inbound}"));
    assert_eq!(filter(IpAddr::V6(3), local().ip), inbound);
    assert_eq!(filter(server().ip, IpAddr::V6(1)), outbound);
    assert_eq!(filter(IpAddr::V6(3), IpAddr::V6(1)), "false");
}

#[test]
fn filter_of_several_targets_and_bridges() {
    let resolver = FixedResolver(vec![]);
    let targets = vec![
        SocketAddr::new(IpAddr::v4(127, 0, 0, 1), 9700),
        SocketAddr::new(IpAddr::V6(1), 9),
        SocketAddr::new(IpAddr::v4(127, 0, 0, 2), 0),
    ];
    let bridges = vec![
        SocketAddr::new(IpAddr::v4(149, 28, 240, 106), 52820),
        SocketAddr::new(IpAddr::V6(2), 52820),
    ];
    let capture = WinDivertCapture::with_resolver(resolver, targets, bridges);
    assert_eq!(
        capture.build_filter().unwrap(),
        "(udp and outbound and not (ip.DstAddr == 149.28.240.106 or ip.DstAddr == 127.0.0.1 or \
         ip.DstAddr == 127.0.0.2)) or (udp and inbound and ((ip.SrcAddr == 127.0.0.1 and \
         udp.SrcPort == 9700) or (ip.SrcAddr == 127.0.0.2 and udp.SrcPort == 0)))"
    );
    let v6_only = WinDivertCapture::with_resolver(
        FixedResolver(vec![]),
        vec![SocketAddr::new(IpAddr::V6(1), 9)],
        vec![],
    );
    assert_eq!(v6_only.build_filter().unwrap(), "(udp and outbound) or (udp and inbound and ())");
}

#[test]
fn filter_needs_targets() {
    let capture = WinDivertCapture::new(vec![]);
    match capture.build_filter() {
        Err(CaptureError::Other(message)) => assert_eq!(
            message,
            "no redirect targets — at least one is needed to capture inbound responses"
        ),
        _ => panic!("a filter without targets"),
    }
}

#[test]
fn starts_once() {
    let mut capture = WinDivertCapture::new(vec![rule()]);
    assert!(!capture.is_running());
    assert!(capture.start(0).unwrap().is_some());
    assert!(capture.is_running());
    assert_eq!(capture.start(0).unwrap(), None);
    capture.stop();
    assert!(!capture.is_running());
    // A capture that cannot start is not running, however often it is tried.
    let mut empty = WinDivertCapture::with_rules(vec![], vec![server()]);
    for _ in 0..2 {
        assert!(matches!(empty.start(0), Err(CaptureError::Other(_))));
        assert!(!empty.is_running());
    }
}

#[test]
fn counts_what_it_does() {
    let mut capture = WinDivertCapture::new(vec![rule()]);
    assert_eq!(capture.stats(), RedirectStats::default());
    assert!(capture.take_packet(&outbound(), true, 1).is_some());
    capture.count_rewritten(true);
    let answer = packet(5, 17, ([127, 0, 0, 1], 9000), ([192, 168, 0, 2], 50000));
    assert!(capture.take_packet(&answer, false, 2).is_some());
    capture.count_rewritten(false);
    capture.count_rewritten(false);
    assert!(capture.take_packet(b"noise", true, 3).is_none());
    assert_eq!(
        capture.stats(),
        RedirectStats {
            outbound_redirected: 1,
            inbound_rewritten: 2,
            dropped_unparseable: 1,
            active_flows: 1,
        }
    );
    assert_eq!(capture.flow_origin(50000), Some(server()));
    assert_eq!(capture.flow_origin(50001), None);
    assert_eq!(capture.active_flows(), vec![(50000, server())]);
}

#[test]
fn idle_flows_are_dropped() {
    let mut capture = WinDivertCapture::new(vec![rule()]);
    capture.start(0).unwrap();
    capture.take_packet(&outbound(), true, 10 * SEC);
    let other = packet(5, 17, ([192, 168, 0, 2], 50001), ([1, 2, 3, 4], 7777));
    capture.take_packet(&other, true, 100 * SEC);
    // Not due before more than 15 s have passed.
    assert_eq!(capture.reap_flows(15 * SEC), 0);
    assert_eq!(capture.reap_flows(130 * SEC), 0);
    // Due, and the first flow has been idle for more than 120 s.
    assert_eq!(capture.reap_flows(146 * SEC), 1);
    assert_eq!(capture.flow_origin(50000), None);
    assert_eq!(capture.flow_origin(50001), Some(server()));
    assert_eq!(capture.reap_flows(150 * SEC), 0);
}
