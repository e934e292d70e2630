use lowping::addr::{IpAddr, SocketAddr};
use lowping::aws_regions::{AwsLookup, AwsRanges, Prefix};
use lowping::capture::{Protocol, RedirectRule, RouteAction, RouteResolver, WinDivertCapture};
use lowping::config::{default_paths, default_pipe, default_true};
use lowping::dashboard::{
    age_text, bridge_row, bridge_rtt_text, decision_row, decisions_title, path_rtt_text, region_label,
    route_text, rtt_grade, RttGrade,
};
use lowping::forwarder::{default_proto, default_udp_idle, install_capture, Config, Rule};
use lowping::protocol::TransportProtocol;
use lowping::router::{BridgeEntry, Route, Router, RttTable};
use lowping::smart::{
    bridge_endpoints, default_margin, estimated_rtt, redirect_targets, SmartResolver,
    SmartRoutingConfig,
};

fn listen() -> SocketAddr {
    SocketAddr::new(IpAddr::v4(127, 0, 0, 1), 9000)
}

fn rule(protocol: &str, capture: bool) -> Rule {
    Rule {
        listen: listen(),
        bridge: SocketAddr::new(IpAddr::v4(203, 0, 113, 5), 51820),
        bridge_x25519_pubkey_hex: "00".repeat(32),
        license_token: String::new(),
        dest_ip: IpAddr::v4(1, 2, 3, 4),
        dest_port: 80,
        protocol: protocol.to_string(),
        udp_idle_secs: default_udp_idle(),
        capture,
        capture_dst_port_lo: None,
        capture_dst_port_hi: None,
        capture_dst_ip: None,
    }
}

#[test]
fn rules_that_ask_for_capture_are_redirected() {
    let wide = Rule {
        capture_dst_port_lo: Some(7777),
        capture_dst_port_hi: Some(7800),
        capture_dst_ip: Some(IpAddr::v4(9, 9, 9, 9)),
        ..rule("udp", true)
    };
    let single = Rule { capture_dst_port_lo: Some(443), ..rule("tcp", true) };
    let rules = [rule("tcp", true), rule("udp", false), rule("sctp", true), wide, single];
    let redirect = |protocol, dst_ip, lo, hi| RedirectRule {
        protocol,
        dst_ip,
        dst_port_lo: lo,
        dst_port_hi: hi,
        redirect_to_ip: listen().ip,
        redirect_to_port: listen().port,
    };
    assert_eq!(
        install_capture(&rules),
        vec![
            redirect(Protocol::Tcp, IpAddr::v4(1, 2, 3, 4), 80, 80),
            redirect(Protocol::Udp, IpAddr::v4(9, 9, 9, 9), 7777, 7800),
            redirect(Protocol::Tcp, IpAddr::v4(1, 2, 3, 4), 443, 443),
        ]
    );
    assert_eq!(install_capture(&[rule("udp", false)]), vec![]);
}

#[test]
fn protocols_of_rules() {
    assert_eq!(rule("tcp", false).transport(), Ok(TransportProtocol::Tcp));
    assert_eq!(rule("udp", false).transport(), Ok(TransportProtocol::Udp));
    assert_eq!(rule("UDP", false).transport(), Err("unknown protocol: UDP".to_string()));
    assert_eq!(rule("tcp", false).dest(), SocketAddr::new(IpAddr::v4(1, 2, 3, 4), 80));
    assert_eq!(default_proto(), "tcp");
    assert_eq!(default_udp_idle(), 90);
}

#[test]
fn listen_override_needs_a_rule() {
    let elsewhere = SocketAddr::new(IpAddr::v4(127, 0, 0, 1), 1);
    let mut config =
        Config { rules: vec![rule("tcp", false), rule("udp", false)], smart_routing: None };
    config.override_listen(elsewhere).unwrap();
    assert_eq!(config.rules[0].listen, elsewhere);
    assert_eq!(config.rules[1].listen, listen());
    let mut empty = Config { rules: vec![], smart_routing: None };
    assert_eq!(
        empty.override_listen(elsewhere),
        Err("--listen given but no rules in config".to_string())
    );
}

fn bridge(name: &str, listen_port: u16, us_east_1: i64) -> BridgeEntry {
    let mut region_rtt_ns = RttTable::new();
    region_rtt_ns.set("us-east-1", us_east_1);
    BridgeEntry {
        name: name.to_string(),
        endpoint: SocketAddr::new(IpAddr::v4(149, 28, 240, 106), listen_port),
        bridge_x25519_pubkey_hex: String::new(),
        license_token: String::new(),
        listen_port,
        region_rtt_ns,
    }
}

fn resolver(direct_ms: Option<i64>) -> SmartResolver {
    let aws = AwsLookup::load_bundled(AwsRanges {
        sync_token: String::new(),
        create_date: String::new(),
        prefixes: vec![Prefix {
            ip_prefix: "18.88.0.0/18".to_string(),
            region: "us-east-1".to_string(),
        }],
    });
    let bridges = vec![bridge("nj", 9700, 5_000_000), bridge("dallas", 9701, 1_500_000)];
    let mut direct = RttTable::new();
    if let Some(ms) = direct_ms {
        direct.set("us-east-1", ms * 1_000_000);
    }
    let mut resolver = SmartResolver::new(Router::new(bridges, aws), direct);
    for name in ["nj", "dallas"] {
        resolver.record_client_to_bridge(name, estimated_rtt(name));
    }
    resolver
}

fn fortnite() -> SocketAddr {
    SocketAddr::new(IpAddr::v4(18, 88, 19, 234), 22222)
}

#[test]
fn smart_resolver_redirects_to_the_best_bridge() {
    let to_dallas = RouteAction::RewriteTo(SocketAddr::new(IpAddr::v4(127, 0, 0, 1), 9701));
    assert_eq!(resolver(Some(40)).resolve(fortnite(), Protocol::Udp, 0), to_dallas);
    assert_eq!(resolver(Some(25)).resolve(fortnite(), Protocol::Udp, 0), RouteAction::Passthrough);
    // Without a direct estimate a bridge is always picked.
    assert_eq!(resolver(None).resolve(fortnite(), Protocol::Udp, 0), to_dallas);
    let cloudflare = SocketAddr::new(IpAddr::v4(1, 1, 1, 1), 443);
    assert_eq!(resolver(None).resolve(cloudflare, Protocol::Udp, 0), RouteAction::Passthrough);
}

#[test]
fn smart_resolver_works_in_a_capture() {
    let resolver = resolver(Some(40));
    let targets = redirect_targets(resolver.router().bridges());
    let endpoints = bridge_endpoints(resolver.router().bridges());
    assert_eq!(targets[1], SocketAddr::new(IpAddr::v4(127, 0, 0, 1), 9701));
    assert_eq!(endpoints[0], SocketAddr::new(IpAddr::v4(149, 28, 240, 106), 9700));
    let mut capture = WinDivertCapture::with_resolver(resolver, targets, endpoints);
    let mut data = vec![0u8; 28];
    data[0] = 0x45;
    data[9] = 17;
    data[16..20].copy_from_slice(&[18, 88, 19, 234]);
    data[20..24].copy_from_slice(&[0xC3, 0x50, 0x56, 0xCE]);
    let out = capture.take_packet(&data, true, 0).unwrap();
    assert_eq!(&out[16..20], &[127, 0, 0, 1]);
    assert_eq!(&out[22..24], &9701u16.to_be_bytes());
    assert_eq!(capture.flow_origin(50000), Some(fortnite()));
}

#[test]
fn estimates_by_name() {
    assert_eq!(estimated_rtt("dallas"), 22_000_000);
    assert_eq!(estimated_rtt("nj"), 35_000_000);
    assert_eq!(estimated_rtt("seattle"), 50_000_000);
    assert_eq!(estimated_rtt("sea"), 50_000_000);
    assert_eq!(estimated_rtt("frankfurt"), 110_000_000);
    assert_eq!(estimated_rtt("fra"), 110_000_000);
    assert_eq!(estimated_rtt("tokyo"), 40_000_000);
    assert_eq!(default_margin(), 2_000_000);
}

#[test]
fn defaults_of_the_client() {
    assert!(default_true());
    assert_eq!(default_paths(), 1);
    assert_eq!(default_pipe(), r"\\.\pipe\lowping");
}

#[test]
fn ages() {
    assert_eq!(age_text(0), "0s");
    assert_eq!(age_text(59), "59s");
    assert_eq!(age_text(60), "1m");
    assert_eq!(age_text(3599), "59m");
    assert_eq!(age_text(3600), "1h");
    assert_eq!(age_text(u64::MAX), "5124095576030431h");
}

#[test]
fn round_trips_are_shown_like_floats() {
    for ns in [0, 49_000, 1_500_000, 22_000_000, 23_500_000, 110_250_000, 110_350_001, 999_960_000] {
        let ms = ns as f64 / 1_000_000.0;
        assert_eq!(bridge_rtt_text(Some(ns)), format!("{:5.1} ms", ms));
        assert_eq!(path_rtt_text(Some(ns as i128)), format!("{:5.1}ms", ms));
        assert_eq!(path_rtt_text(Some(-ns as i128 - 1)), format!("{:5.1}ms", -ms - 0.000001));
    }
    assert_eq!(bridge_rtt_text(None), "  --   ");
    assert_eq!(path_rtt_text(None), "  --  ");
    assert_eq!(path_rtt_text(Some(12_345_678_900_000)), "12345678.9ms");
    assert_eq!(
        path_rtt_text(Some(i128::MIN)),
        "-170141183460469231731687303715884.1ms"
    );
}

#[test]
fn grades() {
    assert_eq!(rtt_grade(None), RttGrade::Unknown);
    assert_eq!(rtt_grade(Some(29_999_999)), RttGrade::Good);
    assert_eq!(rtt_grade(Some(30_000_000)), RttGrade::Fair);
    assert_eq!(rtt_grade(Some(59_999_999)), RttGrade::Fair);
    assert_eq!(rtt_grade(Some(60_000_000)), RttGrade::Poor);
}

#[test]
fn rows_about_decisions() {
    let row = decision_row(
        75,
        "18.88.19.234:22222",
        Some("us-east-1"),
        Some(40_000_000),
        Some(23_500_000),
        Route::ViaBridge(1),
        Some("dallas"),
    );
    assert_eq!(row.when, "1m");
    assert_eq!(row.dest, "18.88.19.234:22222");
    assert_eq!(row.region, "us-east-1");
    assert_eq!(row.direct, " 40.0ms");
    assert_eq!(row.via, " 23.5ms");
    assert_eq!(row.route, "→ dallas");
    let bare = decision_row(5, "1.1.1.1:443", None, None, None, Route::Direct, None);
    assert_eq!(bare.when, "5s");
    assert_eq!(bare.region, "-");
    assert_eq!(bare.direct, "  --  ");
    assert_eq!(bare.via, "  --  ");
    assert_eq!(bare.route, "direct");
    assert_eq!(route_text(Route::ViaBridge(0), None), "→ ");
    assert_eq!(region_label(None), "-");
    assert_eq!(decisions_title(12, 3), " route decisions (12 cached, 3 recent) ");
}

#[test]
fn rows_about_bridges() {
    let row = bridge_row("dallas", "149.28.240.106:51820", Some(22_000_000), 9701);
    assert_eq!(row.name, "dallas");
    assert_eq!(row.endpoint, "149.28.240.106:51820");
    assert_eq!(row.rtt, " 22.0 ms");
    assert_eq!(row.grade, RttGrade::Good);
    assert_eq!(row.listen, ":9701");
    let unmeasured = bridge_row("nj", "1.2.3.4:1", None, 0);
    assert_eq!(unmeasured.rtt, "  --   ");
    assert_eq!(unmeasured.grade, RttGrade::Unknown);
    assert_eq!(unmeasured.listen, ":0");
}

#[test]
fn smart_routing_needs_a_bridge() {
    let config = |bridges| SmartRoutingConfig {
        bridges,
        direct_rtt_ns: RttTable::new(),
        margin_ns: default_margin(),
    };
    assert_eq!(config(vec![bridge("nj", 9700, 0)]).check(), Ok(()));
    assert_eq!(config(vec![]).check(), Err("smart_routing.bridges is empty".to_string()));
}

#[test]
fn unmeasured_bridges_have_round_trips() {
    let mut resolver = resolver(None);
    resolver.record_client_to_bridge("paris", 1);
    resolver.record_placeholders();
    assert_eq!(resolver.router().client_to_bridge("nj"), Some(30_000_000));
    assert_eq!(resolver.router().client_to_bridge("dallas"), Some(30_000_000));
    assert_eq!(resolver.router().client_to_bridge("paris"), Some(1));
    resolver.record_estimates();
    assert_eq!(resolver.router().client_to_bridge("nj"), Some(35_000_000));
    assert_eq!(resolver.router().client_to_bridge("dallas"), Some(22_000_000));
    let capture = WinDivertCapture::with_resolver(resolver, vec![], vec![]);
    assert_eq!(capture.resolver_ref().router().bridges().len(), 2);
}
