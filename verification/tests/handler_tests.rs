use dns_filter::answer::{Ipv4, ResolvedIp, ResponseCode, ANSWER_TTL};
use dns_filter::blockset::{BlockSet, MatchKind};
use dns_filter::handler::{answer_for_resolution, decide, Resolution};

fn set_from(lines: &[&str]) -> BlockSet {
    let lines: Vec<String> = lines.iter().map(|l| l.to_string()).collect();
    BlockSet::build(&lines)
}

fn v4(a: u8, b: u8, c: u8, d: u8) -> ResolvedIp {
    ResolvedIp::V4(Ipv4 { a, b, c, d })
}

#[test]
fn blocked_query_yields_one_sinkhole_record() {
    let bs = set_from(&["ads.example.com"]);
    let d = decide(&bs, "Ads.Example.COM.");
    assert_eq!(d.name, "ads.example.com");
    assert!(d.matched.is_some());

    let a = dns_filter::answer::sinkhole_answer("Ads.Example.COM.");
    assert_eq!(a.code, ResponseCode::NoError);
    assert_eq!(a.records.len(), 1);
    assert_eq!(a.records[0].name, "Ads.Example.COM.");
    assert_eq!(a.records[0].ttl, 300);
    assert_eq!(a.records[0].addr, Ipv4 { a: 0, b: 0, c: 0, d: 0 });
}

#[test]
fn allowed_query_is_forwarded() {
    let bs = set_from(&["ads.example.com"]);
    let d = decide(&bs, "google.com.");
    assert_eq!(d.name, "google.com");
    assert!(d.matched.is_none());
}

#[test]
fn empty_blocklist_forwards_every_query() {
    let bs = set_from(&[]);
    for name in ["ads.example.com", "x.ads.example.com", "google.com"] {
        let d = decide(&bs, name);
        assert!(d.matched.is_none());
    }
}

#[test]
fn resolved_answer_keeps_ipv4_addresses_in_order() {
    let ips = vec![v4(93, 184, 216, 34), v4(10, 0, 0, 1)];
    let a = answer_for_resolution("example.com", &Resolution::Resolved(ips));
    assert_eq!(a.code, ResponseCode::NoError);
    assert_eq!(a.records.len(), 2);
    assert_eq!(a.records[0].addr, Ipv4 { a: 93, b: 184, c: 216, d: 34 });
    assert_eq!(a.records[1].addr, Ipv4 { a: 10, b: 0, c: 0, d: 1 });
    for r in &a.records {
        assert_eq!(r.name, "example.com");
        assert_eq!(r.ttl, ANSWER_TTL);
    }
}

#[test]
fn ipv6_addresses_are_omitted_from_the_answer() {
    let ips = vec![ResolvedIp::V6(1), v4(1, 2, 3, 4), ResolvedIp::V6(0x20010db8)];
    let a = answer_for_resolution("example.com", &Resolution::Resolved(ips));
    assert_eq!(a.code, ResponseCode::NoError);
    assert_eq!(a.records.len(), 1);
    assert_eq!(a.records[0].addr, Ipv4 { a: 1, b: 2, c: 3, d: 4 });
}

#[test]
fn empty_resolution_is_success_with_zero_records() {
    let a = answer_for_resolution("example.com", &Resolution::Resolved(Vec::new()));
    assert_eq!(a.code, ResponseCode::NoError);
    assert_eq!(a.records.len(), 0);
}

#[test]
fn failed_resolution_yields_name_error_and_no_records() {
    let a = answer_for_resolution("example.com", &Resolution::Failed);
    assert_eq!(a.code, ResponseCode::NxDomain);
    assert_eq!(a.records.len(), 0);
}

#[test]
fn match_reason_is_described_for_observability() {
    let bs = set_from(&["ads.example.com"]);

    let m = decide(&bs, "ads.example.com").matched.unwrap();
    assert_eq!(m.kind, MatchKind::Exact);
    assert_eq!(m.describe(), "exact match with ads.example.com");

    let m = decide(&bs, "x.ads.example.com").matched.unwrap();
    assert_eq!(m.describe(), "subdomain of ads.example.com");

    let m = decide(&bs, "example.com").matched.unwrap();
    assert_eq!(m.describe(), "superdomain of ads.example.com");
}
