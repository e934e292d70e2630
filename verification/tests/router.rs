use lowping::addr::{IpAddr, SocketAddr};
use lowping::aws_regions::{AwsLookup, AwsRanges, Prefix};
use lowping::dashboard::{DecisionHistory, HISTORY_LEN};
use lowping::router::{BridgeEntry, Decision, Route, Router, RttTable};

fn ms(rtt: f64) -> i64 {
    (rtt * 1_000_000.0) as i64
}

fn at(secs: u64) -> u64 {
    secs * 1_000_000_000
}

fn aws() -> AwsLookup {
    let prefix = |ip_prefix: &str, region: &str| Prefix {
        ip_prefix: ip_prefix.to_string(),
        region: region.to_string(),
    };
    AwsLookup::load_bundled(AwsRanges {
        sync_token: String::new(),
        create_date: String::new(),
        prefixes: vec![
            prefix("18.88.0.0/18", "us-east-1"),
            prefix("44.224.0.0/11", "us-west-2"),
            prefix("3.128.0.0/9", "us-east-2"),
        ],
    })
}

fn rtts(list: &[(&str, f64)]) -> RttTable {
    let mut table = RttTable::new();
    for (name, rtt) in list {
        table.set(name, ms(*rtt));
    }
    table
}

fn nj_bridge() -> BridgeEntry {
    BridgeEntry {
        name: "nj".into(),
        endpoint: SocketAddr::new(IpAddr::v4(45, 77, 158, 154), 52820),
        bridge_x25519_pubkey_hex: "00".repeat(32),
        license_token: "tok".into(),
        listen_port: 9700,
        region_rtt_ns: rtts(&[("us-east-1", 5.0), ("us-east-2", 12.0), ("us-west-2", 70.0)]),
    }
}

fn dallas_bridge() -> BridgeEntry {
    BridgeEntry {
        name: "dallas".into(),
        endpoint: SocketAddr::new(IpAddr::v4(149, 28, 240, 106), 52820),
        bridge_x25519_pubkey_hex: "00".repeat(32),
        license_token: "tok".into(),
        listen_port: 9701,
        region_rtt_ns: rtts(&[("us-east-1", 1.5), ("us-east-2", 2.5), ("us-west-2", 30.0)]),
    }
}

fn fortnite() -> SocketAddr {
    SocketAddr::new(IpAddr::v4(18, 88, 19, 234), 22222)
}

#[test]
fn picks_direct_when_direct_is_fastest() {
    let mut r = Router::new(vec![nj_bridge(), dallas_bridge()], aws());
    // Pretend client→NJ=35, client→Dallas=22
    r.record_client_to_bridge("nj", ms(35.0));
    r.record_client_to_bridge("dallas", ms(22.0));

    // Fortnite NA-East server (us-east-1, direct=18ms from client)
    let route = r.pick(fortnite(), Some(ms(18.0)), at(0));
    // Best bridge: dallas (22 + 1.5 = 23.5). Direct is 18. Direct wins.
    assert_eq!(route, Route::Direct);
}

#[test]
fn picks_bridge_when_direct_is_slower() {
    let mut r = Router::new(vec![nj_bridge(), dallas_bridge()], aws());
    r.record_client_to_bridge("nj", ms(35.0));
    r.record_client_to_bridge("dallas", ms(22.0));

    // Same dest but pretend client's direct path is bad today (40ms)
    let route = r.pick(fortnite(), Some(ms(40.0)), at(0));
    // Dallas: 22 + 1.5 = 23.5. NJ: 35 + 5 = 40. Dallas wins, beats direct (40)
    assert_eq!(route, Route::ViaBridge(1));
}

#[test]
fn no_bridge_chosen_when_within_margin() {
    let mut r = Router::new(vec![dallas_bridge()], aws());
    r.record_client_to_bridge("dallas", ms(22.0));
    // Direct = 24 (just barely worse than bridge total 23.5)
    // Margin is 2ms → 23.5 + 2 = 25.5 > 24 → direct wins
    assert_eq!(r.pick(fortnite(), Some(ms(24.0)), at(0)), Route::Direct);
}

#[test]
fn picks_correct_bridge_per_region() {
    let mut r = Router::new(vec![nj_bridge(), dallas_bridge()], aws());
    r.record_client_to_bridge("nj", ms(35.0));
    r.record_client_to_bridge("dallas", ms(22.0));

    // For us-west-2 destination (some 44.x.x.x), NJ has 70ms path, Dallas 30ms
    // Direct = bad (60ms)
    // NJ:     35 + 70 = 105
    // Dallas: 22 + 30 = 52
    // Dallas wins (and beats direct 60)
    let dest = SocketAddr::new(IpAddr::v4(44, 232, 10, 1), 7777);
    assert_eq!(r.pick(dest, Some(ms(60.0)), at(0)), Route::ViaBridge(1)); // dallas (idx 1)
}

#[test]
fn unknown_region_falls_through_to_direct() {
    let mut r = Router::new(vec![dallas_bridge()], aws());
    r.record_client_to_bridge("dallas", ms(22.0));
    // 1.1.1.1 is Cloudflare, not in AWS — we have no path estimate
    let dest = SocketAddr::new(IpAddr::v4(1, 1, 1, 1), 443);
    assert_eq!(r.pick(dest, Some(ms(18.0)), at(0)), Route::Direct);
}

#[test]
fn cache_returns_same_decision_within_interval() {
    let mut r = Router::new(vec![dallas_bridge()], aws());
    r.record_client_to_bridge("dallas", ms(22.0));
    let r1 = r.pick(fortnite(), Some(ms(40.0)), at(0));
    // Even with a different direct_rtt the second call should return cached
    let r2 = r.pick(fortnite(), Some(ms(5.0)), at(0));
    assert_eq!(r1, r2);
}

#[test]
fn decisions_are_made_anew_after_the_interval() {
    let mut r = Router::new(vec![dallas_bridge()], aws());
    r.record_client_to_bridge("dallas", ms(22.0));
    assert_eq!(r.pick(fortnite(), Some(ms(40.0)), at(10)), Route::ViaBridge(0));
    assert_eq!(r.pick(fortnite(), Some(ms(5.0)), at(70) - 1), Route::ViaBridge(0));
    assert_eq!(r.pick(fortnite(), Some(ms(5.0)), at(70)), Route::Direct);
    assert_eq!(r.cache_size(), 1);
    assert_eq!(
        r.cached_decision(fortnite().ip),
        Some(Decision {
            route: Route::Direct,
            decided_at: at(70),
            direct_rtt_ns: Some(ms(5.0)),
            via_bridge_rtt_ns: Some(23_500_000),
        })
    );
}

#[test]
fn decisions_are_kept_per_address() {
    let mut r = Router::new(vec![dallas_bridge()], aws());
    r.record_client_to_bridge("dallas", ms(22.0));
    r.pick(fortnite(), Some(ms(40.0)), at(0));
    // Another port of the same address shares the decision.
    let other_port = SocketAddr::new(fortnite().ip, 1);
    assert_eq!(r.pick(other_port, Some(ms(1.0)), at(1)), Route::ViaBridge(0));
    let v6 = SocketAddr::new(IpAddr::V6(0x1258_13ea), 1);
    assert_eq!(r.pick(v6, None, at(1)), Route::Direct);
    assert_eq!(r.cache_size(), 2);
    assert_eq!(r.cached_decision(IpAddr::v4(9, 9, 9, 9)), None);
}

#[test]
fn unknown_direct_path_takes_any_bridge() {
    let mut r = Router::new(vec![nj_bridge(), dallas_bridge()], aws());
    // Nothing measured: no bridge can be estimated.
    assert_eq!(r.decide(fortnite().ip, None, at(0)).route, Route::Direct);
    r.record_client_to_bridge("nj", ms(900.0));
    assert_eq!(r.decide(fortnite().ip, None, at(0)).route, Route::ViaBridge(0));
    assert_eq!(r.client_to_bridge("nj"), Some(ms(900.0)));
    assert_eq!(r.client_to_bridge("dallas"), None);
}

#[test]
fn first_of_equally_cheap_bridges_is_taken() {
    let mut r = Router::new(vec![nj_bridge(), dallas_bridge()], aws());
    r.record_client_to_bridge("nj", ms(10.0));
    r.record_client_to_bridge("dallas", ms(13.5));
    assert_eq!(r.pick(fortnite(), None, at(0)), Route::ViaBridge(0));
}

#[test]
fn margin_is_exact_and_can_be_chosen() {
    // 23.5 + 2 < direct is needed.
    let mut r = Router::new(vec![dallas_bridge()], aws());
    r.record_client_to_bridge("dallas", ms(22.0));
    assert_eq!(r.decide(fortnite().ip, Some(25_500_000), at(0)).route, Route::Direct);
    assert_eq!(r.decide(fortnite().ip, Some(25_500_001), at(0)).route, Route::ViaBridge(0));
    let mut wide = Router::with_margin(vec![dallas_bridge()], aws(), ms(20.0));
    wide.record_client_to_bridge("dallas", ms(22.0));
    assert_eq!(wide.pick(fortnite(), Some(ms(40.0)), at(0)), Route::Direct);
}

#[test]
fn bridge_without_the_region_is_passed_over() {
    let mut bridge = dallas_bridge();
    bridge.region_rtt_ns = rtts(&[("eu-west-1", 1.0)]);
    let mut r = Router::new(vec![bridge], aws());
    r.record_client_to_bridge("dallas", ms(1.0));
    assert_eq!(r.pick(fortnite(), None, at(0)), Route::Direct);
    assert_eq!(r.bridges().len(), 1);
    assert_eq!(r.region_for(fortnite().ip), Some("us-east-1"));
}

#[test]
fn extreme_round_trips_do_not_overflow() {
    let mut bridge = dallas_bridge();
    bridge.region_rtt_ns.set("us-east-1", i64::MAX);
    let mut r = Router::new(vec![bridge], aws());
    r.record_client_to_bridge("dallas", i64::MAX);
    assert_eq!(r.pick(fortnite(), Some(i64::MAX), u64::MAX), Route::Direct);
    assert_eq!(r.pick(fortnite(), Some(i64::MIN), u64::MAX), Route::Direct);
}

#[test]
fn rtt_table_keeps_the_last_value() {
    let mut table = RttTable::new();
    assert_eq!(table.get("a"), None);
    table.set("a", 1);
    table.set("b", 2);
    table.set("a", 3);
    assert_eq!(table.get("a"), Some(3));
    assert_eq!(table.get("b"), Some(2));
    assert_eq!(table.get(""), None);
}

#[test]
fn decisions_are_remembered_newest_first() {
    let mut r = Router::new(vec![nj_bridge(), dallas_bridge()], aws());
    r.record_client_to_bridge("dallas", ms(22.0));
    let mut history = DecisionHistory::new();
    history.note(&r, fortnite(), at(0));
    assert_eq!(history.recent(9).len(), 0);

    r.pick(fortnite(), Some(ms(40.0)), at(1));
    history.note(&r, fortnite(), at(1));
    // It was not decided anew.
    history.note(&r, fortnite(), at(2));
    let elsewhere = SocketAddr::new(IpAddr::v4(9, 9, 9, 9), 53);
    r.pick(elsewhere, Some(ms(40.0)), at(3));
    history.note(&r, elsewhere, at(3));
    let list = history.recent(9);
    assert_eq!(list.len(), 2);
    assert_eq!((list[0].dest, list[0].decision.route), (elsewhere, Route::Direct));
    assert_eq!((&list[0].region, &list[0].bridge_name), (&None, &None));
    assert_eq!((list[1].dest, list[1].decision.decided_at), (fortnite(), at(1)));
    assert_eq!(list[1].decision.route, Route::ViaBridge(1));
    assert_eq!(list[1].region.as_deref(), Some("us-east-1"));
    assert_eq!(list[1].bridge_name.as_deref(), Some("dallas"));
    assert_eq!(history.recent(1)[0].dest, elsewhere);

    for i in 0..HISTORY_LEN as u64 {
        let dest = SocketAddr::new(IpAddr::v4(18, 88, 0, i as u8), 1);
        r.pick(dest, None, at(10 + i));
        history.note(&r, dest, at(10 + i));
    }
    let list = history.recent(usize::MAX);
    assert_eq!(list.len(), HISTORY_LEN);
    assert_eq!(list[0].decision.decided_at, at(265));
    assert_eq!(list[HISTORY_LEN - 1].decision.decided_at, at(10));
}
