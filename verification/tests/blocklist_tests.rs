use dns_filter::blockset::{BlockSet, MatchKind};
use dns_filter::normalize::{normalize_name, trim};

fn set_from(lines: &[&str]) -> BlockSet {
    let lines: Vec<String> = lines.iter().map(|l| l.to_string()).collect();
    BlockSet::build(&lines)
}

#[test]
fn listed_domain_is_blocked() {
    let bs = set_from(&["ads.example.com", "tracker.net"]);
    assert!(bs.is_blocked("ads.example.com"));
    assert!(bs.is_blocked("tracker.net"));
}

#[test]
fn subdomain_of_listed_domain_is_blocked() {
    let bs = set_from(&["ads.example.com"]);
    assert!(bs.is_blocked("x.ads.example.com"));
    assert!(bs.is_blocked("a.b.ads.example.com"));
}

#[test]
fn superdomain_of_listed_domain_is_blocked() {
    let bs = set_from(&["ads.example.com"]);
    assert!(bs.is_blocked("example.com"));
    assert!(bs.is_blocked("com"));
}

#[test]
fn unrelated_domain_is_not_blocked() {
    let bs = set_from(&["ads.example.com", "tracker.net"]);
    assert!(!bs.is_blocked("google.com"));
    assert!(!bs.is_blocked("example.org"));
    assert!(!bs.is_blocked("ads.example.net"));
    assert!(!bs.is_blocked("badexample.com"));
    assert!(!bs.is_blocked("ample.com"));
}

#[test]
fn similar_but_not_dot_separated_is_not_blocked() {
    let bs = set_from(&["tracker.net"]);
    assert!(!bs.is_blocked("xtracker.net"));
    assert!(!bs.is_blocked("tracker.nets"));
}

#[test]
fn match_kinds_and_entries_are_reported() {
    let bs = set_from(&["ads.example.com"]);

    let m = bs.find_match("ads.example.com").unwrap();
    assert_eq!(m.kind, MatchKind::Exact);
    assert_eq!(m.entry, "ads.example.com");

    let m = bs.find_match("x.ads.example.com").unwrap();
    assert_eq!(m.kind, MatchKind::Subdomain);
    assert_eq!(m.entry, "ads.example.com");

    let m = bs.find_match("example.com").unwrap();
    assert_eq!(m.kind, MatchKind::Superdomain);
    assert_eq!(m.entry, "ads.example.com");

    assert!(bs.find_match("google.com").is_none());
}

#[test]
fn comments_and_blank_lines_are_skipped() {
    let bs = set_from(&["ads.example.com", "# comment", "", "tracker.net."]);
    assert_eq!(bs.len(), 2);
    assert!(bs.is_blocked("ads.example.com"));
    assert!(bs.is_blocked("tracker.net"));
    assert!(bs.is_blocked("x.ads.example.com"));
    assert!(!bs.is_blocked("comment"));
    assert!(!bs.is_blocked("google.com"));
}

#[test]
fn entries_are_normalized_at_build() {
    let bs = set_from(&["  ADS.Example.COM.  ", "\ttracker.net\r"]);
    assert_eq!(bs.len(), 2);
    assert!(bs.is_blocked("ads.example.com"));
    assert!(bs.is_blocked("tracker.net"));
    let m = bs.find_match("ads.example.com").unwrap();
    assert_eq!(m.entry, "ads.example.com");
}

#[test]
fn case_and_dot_variants_collapse_to_one_entry() {
    let bs = set_from(&["ads.example.com", "ADS.example.com.", "ads.EXAMPLE.com"]);
    assert_eq!(bs.len(), 1);
}

#[test]
fn pathological_lines_are_skipped_not_fatal() {
    let bs = set_from(&[".", "   ", "# ads.example.com", "tracker.net"]);
    assert_eq!(bs.len(), 1);
    assert!(bs.is_blocked("tracker.net"));
    assert!(!bs.is_blocked("ads.example.com"));
}

#[test]
fn empty_blocklist_blocks_nothing() {
    let bs = set_from(&[]);
    assert_eq!(bs.len(), 0);
    assert!(!bs.is_blocked("ads.example.com"));
    assert!(!bs.is_blocked("google.com"));
    assert!(!bs.is_blocked(""));
}

#[test]
fn normalization_lowercases_and_strips_one_root_dot() {
    assert_eq!(normalize_name("Example.COM."), "example.com");
    assert_eq!(normalize_name("example.com"), "example.com");
    assert_eq!(normalize_name("EXAMPLE.COM"), "example.com");
    assert_eq!(normalize_name("example.com.."), "example.com.");
    assert_eq!(normalize_name("."), "");
    assert_eq!(normalize_name(""), "");
}

#[test]
fn trim_removes_surrounding_whitespace_only() {
    assert_eq!(trim("  ads.example.com \t\r\n"), "ads.example.com");
    assert_eq!(trim("ads.example.com"), "ads.example.com");
    assert_eq!(trim(" a b "), "a b");
    assert_eq!(trim("   "), "");
    assert_eq!(trim(""), "");
}

#[test]
fn rebuilding_from_the_same_lines_yields_an_equal_set() {
    let lines = ["ads.example.com", "# comment", "tracker.net.", "ADS.example.com"];
    let first = set_from(&lines);
    let second = set_from(&lines);
    assert_eq!(first.len(), second.len());
    for name in ["ads.example.com", "tracker.net", "x.ads.example.com", "google.com"] {
        assert_eq!(first.is_blocked(name), second.is_blocked(name));
    }
}

#[test]
fn normalization_is_idempotent_on_samples() {
    for raw in ["Example.COM.", "ads.example.com", "A.B.C.", "tracker.net", ".", ""] {
        let once = normalize_name(raw);
        let twice = normalize_name(&once);
        assert_eq!(once, twice);
    }
}

#[test]
fn normalized_variants_are_treated_identically() {
    let bs = set_from(&["ads.example.com"]);
    let a = normalize_name("Example.COM.");
    let b = normalize_name("example.com");
    assert_eq!(a, b);
    assert_eq!(bs.is_blocked(&a), bs.is_blocked(&b));
}
