use triangle::config::{default_addr, default_timeout, Config, Forward};
use triangle::error::ProxyError;
use triangle::proxy::{IpAddress, ProxyTransport, SocketAddress};

fn rule(patterns: &[&str], dst: Vec<ProxyTransport>) -> Forward {
    Forward { src: patterns.iter().map(|p| p.to_string()).collect(), dst }
}

fn direct(patterns: &[&str]) -> Forward {
    rule(patterns, vec![ProxyTransport::Direct])
}

fn config(rules: Vec<Forward>) -> Config {
    Config { listen_addr: default_addr(), timeout_ms: default_timeout(), forwards: rules }
}

#[test]
fn defaults_are_ten_seconds_and_port_8443() {
    assert_eq!(default_timeout(), 10000);
    assert_eq!(default_addr(), SocketAddress { ip: IpAddress::V4(0), port: 8443 });
}

#[test]
fn star_label_matches_subdomains() {
    let r = direct(&["*.example.com"]);
    assert!(r.matches("foo.example.com"));
    assert!(r.matches("a.b.example.com"));
}

#[test]
fn star_label_needs_a_label() {
    let r = direct(&["*.example.com"]);
    assert!(!r.matches("example.com"));
}

#[test]
fn star_matches_the_empty_run() {
    assert!(direct(&["*"]).matches(""));
    assert!(direct(&["a*"]).matches("a"));
    assert!(direct(&["*.example.com"]).matches(".example.com"));
}

#[test]
fn question_mark_takes_exactly_one_character() {
    let r = direct(&["c?t.example"]);
    assert!(r.matches("cat.example"));
    assert!(r.matches("cot.example"));
    assert!(!r.matches("ct.example"));
    assert!(!r.matches("coat.example"));
}

#[test]
fn matching_is_case_sensitive_and_whole_string() {
    let r = direct(&["example.com"]);
    assert!(r.matches("example.com"));
    assert!(!r.matches("Example.com"));
    assert!(!r.matches("example.com.evil"));
    assert!(!r.matches("www.example.com"));
}

#[test]
fn a_pattern_is_not_handed_back_as_its_own_answer() {
    // The text decides, not the pattern alone.
    let r = direct(&["a?c"]);
    assert!(r.matches("abc"));
    assert!(!r.matches("a?"));
}

#[test]
fn any_pattern_of_a_rule_suffices() {
    let r = direct(&["*.example.com", "api.example.com"]);
    assert!(r.matches("api.example.com"));
    let r = direct(&["nothing.here", "api.example.com"]);
    assert!(r.matches("api.example.com"));
    assert!(!direct(&[]).matches("api.example.com"));
}

#[test]
fn earlier_rule_wins() {
    let c = config(vec![
        direct(&["other.example"]),
        direct(&["*.example.com"]),
        rule(&["api.example.com"], vec![ProxyTransport::Socks5(vec![])]),
    ]);
    assert_eq!(c.resolve_index("api.example.com"), Some(1));
    assert_eq!(c.resolve("api.example.com"), Some(&c.forwards[1]));
}

#[test]
fn pattern_position_does_not_change_the_rule() {
    let a = config(vec![direct(&["*.example.com", "api.example.com"]), direct(&["*"])]);
    let b = config(vec![direct(&["api.example.com", "*.example.com"]), direct(&["*"])]);
    assert_eq!(a.resolve_index("api.example.com"), Some(0));
    assert_eq!(b.resolve_index("api.example.com"), Some(0));
}

#[test]
fn unmatched_host_resolves_to_none() {
    let c = config(vec![direct(&["example.com"]), direct(&["*.internal"])]);
    assert_eq!(c.resolve_index("unmatched.example"), None);
    assert_eq!(c.resolve("unmatched.example"), None);
    assert_eq!(config(vec![]).resolve("example.com"), None);
}

#[test]
fn rules_without_transport_are_not_well_formed() {
    assert!(config(vec![direct(&["a"])]).is_well_formed());
    assert!(config(vec![]).is_well_formed());
    assert!(!config(vec![direct(&["a"]), rule(&["b"], vec![])]).is_well_formed());
}

#[test]
fn route_fails_with_the_unmatched_name() {
    let c = config(vec![direct(&["example.com"]), direct(&["*.internal"])]);
    assert_eq!(c.route("svc.internal"), Ok(&c.forwards[1]));
    assert_eq!(c.route("unmatched.example"), Err(ProxyError::NoMatch("unmatched.example".into())));
}
