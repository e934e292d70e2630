use lowping::addr::IpAddr;
use lowping::aws_regions::{parse_cidr, AwsLookup, AwsRanges, Prefix};

fn prefix(ip_prefix: &str, region: &str) -> Prefix {
    Prefix { ip_prefix: ip_prefix.to_string(), region: region.to_string() }
}

fn compile(prefixes: Vec<Prefix>) -> AwsLookup {
    AwsLookup::load_bundled(AwsRanges {
        sync_token: "1714694400".to_string(),
        create_date: "2026-05-03-00-00-00".to_string(),
        prefixes,
    })
}

/// An excerpt of what AWS publishes.
fn lookup() -> AwsLookup {
    compile(vec![
        prefix("3.5.140.0/22", "ap-northeast-2"),
        prefix("18.88.0.0/18", "us-east-1"),
        prefix("44.224.0.0/11", "us-west-2"),
        prefix("3.4.12.4/32", "eu-west-1"),
        prefix("52.95.0.0/20", "eu-central-1"),
    ])
}

#[test]
fn lookup_returns_us_east_1_for_known_ip() {
    let lookup = lookup();
    // 18.88.19.234 — confirmed AWS us-east-1 EC2 (Fortnite NAE server)
    let ip = IpAddr::v4(18, 88, 19, 234);
    assert_eq!(lookup.region_for(ip), Some("us-east-1"));
}

#[test]
fn non_aws_ip_returns_none() {
    let lookup = lookup();
    // Cloudflare DNS, definitely not AWS
    let ip = IpAddr::v4(1, 1, 1, 1);
    assert_eq!(lookup.region_for(ip), None);
}

#[test]
fn long_mask_wins_over_short_mask() {
    // If both 18.88.0.0/18 and 18.0.0.0/8 cover the IP, the /18 region wins,
    // whichever comes first in the list.
    let ip = IpAddr::v4(18, 88, 19, 234);
    let a = compile(vec![prefix("18.88.0.0/18", "us-east-1"), prefix("18.0.0.0/8", "other")]);
    assert_eq!(a.region_for(ip), Some("us-east-1"));
    let b = compile(vec![prefix("18.0.0.0/8", "other"), prefix("18.88.0.0/18", "us-east-1")]);
    assert_eq!(b.region_for(ip), Some("us-east-1"));
    assert_eq!(b.region_for(IpAddr::v4(18, 1, 0, 0)), Some("other"));
    let _ = lookup().region_for(IpAddr::v4(3, 5, 140, 4));
}

#[test]
fn loads_thousands_of_prefixes() {
    let mut prefixes = Vec::new();
    for i in 0..6000u32 {
        let text = format!("{}.{}.{}.0/24", 10 + i / 65536, i / 256 % 256, i % 256);
        prefixes.push(prefix(&text, &format!("region-{}", i % 24)));
    }
    let lookup = compile(prefixes);
    assert!(lookup.prefix_count() > 5000, "snapshot should have many prefixes");
    assert!(lookup.region_count() > 20, "AWS has 20+ regions");
    assert_eq!(lookup.prefix_count(), 6000);
    assert_eq!(lookup.region_count(), 24);
    assert_eq!(lookup.region_for(IpAddr::v4(10, 3, 5, 77)), Some("region-5"));
}

#[test]
fn snapshot_fields_are_kept() {
    let lookup = lookup();
    assert_eq!(lookup.sync_token, "1714694400");
    assert_eq!(lookup.create_date, "2026-05-03-00-00-00");
}

#[test]
fn a_short_mask_is_found_behind_many_longer_ones() {
    let mut prefixes = vec![prefix("20.0.0.0/8", "wide")];
    for i in 0..200u32 {
        prefixes.push(prefix(&format!("20.0.{}.0/24", i), "narrow"));
    }
    let lookup = compile(prefixes);
    assert_eq!(lookup.region_for(IpAddr::v4(20, 0, 199, 1)), Some("narrow"));
    assert_eq!(lookup.region_for(IpAddr::v4(20, 0, 200, 1)), Some("wide"));
    assert_eq!(lookup.region_for(IpAddr::v4(20, 255, 255, 255)), Some("wide"));
    assert_eq!(lookup.region_for(IpAddr::v4(21, 0, 0, 0)), None);
}

#[test]
fn an_address_that_starts_a_range_takes_the_longest_mask() {
    let lookup = compile(vec![
        prefix("20.0.0.0/24", "c"),
        prefix("20.0.0.0/16", "b"),
        prefix("20.0.0.0/8", "a"),
    ]);
    assert_eq!(lookup.region_for(IpAddr::v4(20, 0, 0, 0)), Some("c"));
    assert_eq!(lookup.region_for(IpAddr::v4(20, 0, 1, 0)), Some("b"));
    assert_eq!(lookup.region_for(IpAddr::v4(20, 1, 0, 0)), Some("a"));
}

#[test]
fn the_last_of_equal_ranges_decides() {
    let lookup = compile(vec![
        prefix("20.0.0.0/8", "first"),
        prefix("20.0.0.0/8", "second"),
        prefix("20.0.0.0/8", "second"),
    ]);
    assert_eq!(lookup.prefix_count(), 2);
    assert_eq!(lookup.region_count(), 2);
    assert_eq!(lookup.region_for(IpAddr::v4(20, 9, 9, 9)), Some("second"));
}

#[test]
fn ranges_stand_in_the_table_once() {
    let lookup = compile(vec![
        prefix("20.0.0.0/8", "a"),
        prefix("20.0.0.0/8", "b"),
        prefix("20.0.0.0/8", "a"),
        prefix("20.1.2.3/8", "b"),
        prefix("20.0.0.0/9", "a"),
    ]);
    assert_eq!(lookup.prefix_count(), 3);
    assert_eq!(lookup.region_count(), 2);
    assert_eq!(lookup.region_for(IpAddr::v4(20, 200, 0, 0)), Some("b"));
    assert_eq!(lookup.region_for(IpAddr::v4(20, 100, 0, 0)), Some("a"));
}

#[test]
fn whole_space_and_single_addresses() {
    let lookup = compile(vec![prefix("0.0.0.0/0", "all"), prefix("255.255.255.255/32", "one")]);
    assert_eq!(lookup.region_for(IpAddr::v4(0, 0, 0, 0)), Some("all"));
    assert_eq!(lookup.region_for(IpAddr::v4(255, 255, 255, 254)), Some("all"));
    assert_eq!(lookup.region_for(IpAddr::v4(255, 255, 255, 255)), Some("one"));
}

#[test]
fn empty_table_and_ipv6_have_no_region() {
    let empty = compile(vec![]);
    assert_eq!(empty.prefix_count(), 0);
    assert_eq!(empty.region_for(IpAddr::v4(18, 88, 19, 234)), None);
    let all = compile(vec![prefix("0.0.0.0/0", "all")]);
    assert_eq!(all.region_for(IpAddr::V6(1)), None);
}

#[test]
fn unreadable_ranges_are_passed_over() {
    let lookup = compile(vec![
        prefix("2600:1f00::/24", "v6"),
        prefix("18.88.0.0", "no-mask"),
        prefix("18.88.0.0/18", "us-east-1"),
        prefix("18.88.0.0/33", "long-mask"),
    ]);
    assert_eq!(lookup.prefix_count(), 1);
    assert_eq!(lookup.region_count(), 1);
}

#[test]
fn cidr_notation() {
    assert_eq!(parse_cidr("18.88.0.0/18"), Some((0x12580000, 18)));
    // Bits beyond the mask are dropped.
    assert_eq!(parse_cidr("18.88.63.255/18"), Some((0x12580000, 18)));
    assert_eq!(parse_cidr("255.255.255.255/0"), Some((0, 0)));
    assert_eq!(parse_cidr("1.2.3.4/32"), Some((0x01020304, 32)));
    assert_eq!(parse_cidr("1.2.3.4/+8"), Some((0x01000000, 8)));
    assert_eq!(parse_cidr("1.2.3.4/008"), Some((0x01000000, 8)));
    for text in [
        "",
        "/",
        "1.2.3.4",
        "1.2.3.4/",
        "1.2.3.4/33",
        "1.2.3.4/256",
        "1.2.3.4/99999999999999999999",
        "1.2.3.4/+",
        "1.2.3.4/-8",
        "1.2.3.4/8/8",
        "1.2.3.4/8 ",
        "1.2.3/8",
        "1.2.3.4.5/8",
        "1.2.3.256/8",
        "01.2.3.4/8",
        "1.2.3./8",
        ".1.2.3/8",
        "1..2.3/8",
        "a.b.c.d/8",
        " 1.2.3.4/8",
        "4294967297.2.3.4/8",
    ] {
        assert_eq!(parse_cidr(text), None, "{}", text);
    }
}
