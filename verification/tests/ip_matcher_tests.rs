use sni_proxy::IpAddr;
use sni_proxy::IpMatcher;

fn ip(s: &str) -> IpAddr {
    IpAddr::parse(s).unwrap()
}

#[test]
fn test_exact_ipv4_match() {
    let matcher = IpMatcher::new(vec!["192.168.1.1".to_string(), "10.0.0.1".to_string()]);

    assert!(matcher.matches(ip("192.168.1.1")));
    assert!(matcher.matches(ip("10.0.0.1")));
    assert!(!matcher.matches(ip("192.168.1.2")));
    assert!(!matcher.matches(ip("10.0.0.2")));
}

#[test]
fn test_exact_ipv6_match() {
    let matcher = IpMatcher::new(vec!["::1".to_string(), "2001:db8::1".to_string()]);

    assert!(matcher.matches(ip("::1")));
    assert!(matcher.matches(ip("2001:db8::1")));
    assert!(!matcher.matches(ip("::2")));
    assert!(!matcher.matches(ip("2001:db8::2")));
}

#[test]
fn test_ipv4_cidr_match() {
    let matcher = IpMatcher::new(vec!["192.168.1.0/24".to_string(), "10.0.0.0/8".to_string()]);

    assert!(matcher.matches(ip("192.168.1.1")));
    assert!(matcher.matches(ip("192.168.1.100")));
    assert!(matcher.matches(ip("192.168.1.255")));
    assert!(!matcher.matches(ip("192.168.2.1")));

    assert!(matcher.matches(ip("10.0.0.1")));
    assert!(matcher.matches(ip("10.255.255.255")));
    assert!(!matcher.matches(ip("11.0.0.1")));
}

#[test]
fn test_ipv6_cidr_match() {
    let matcher = IpMatcher::new(vec!["2001:db8::/32".to_string(), "fe80::/10".to_string()]);

    assert!(matcher.matches(ip("2001:db8::1")));
    assert!(matcher.matches(ip("2001:db8:ffff:ffff:ffff:ffff:ffff:ffff")));
    assert!(!matcher.matches(ip("2001:db9::1")));

    assert!(matcher.matches(ip("fe80::1")));
    assert!(matcher.matches(ip("febf:ffff:ffff:ffff:ffff:ffff:ffff:ffff")));
    assert!(!matcher.matches(ip("fec0::1")));
}

#[test]
fn test_mixed_exact_and_cidr() {
    let matcher = IpMatcher::new(vec![
        "192.168.1.1".to_string(),
        "192.168.2.0/24".to_string(),
        "::1".to_string(),
        "2001:db8::/32".to_string(),
    ]);

    assert!(matcher.matches(ip("192.168.1.1")));
    assert!(matcher.matches(ip("::1")));

    assert!(matcher.matches(ip("192.168.2.100")));
    assert!(matcher.matches(ip("2001:db8::5")));

    assert!(!matcher.matches(ip("192.168.1.2")));
    assert!(!matcher.matches(ip("192.168.3.1")));
    assert!(!matcher.matches(ip("::2")));
    assert!(!matcher.matches(ip("2001:db9::1")));
}

#[test]
fn test_localhost() {
    let matcher = IpMatcher::new(vec!["127.0.0.0/8".to_string(), "::1".to_string()]);

    assert!(matcher.matches(ip("127.0.0.1")));
    assert!(matcher.matches(ip("127.0.0.255")));
    assert!(matcher.matches(ip("127.255.255.255")));

    assert!(matcher.matches(ip("::1")));

    assert!(!matcher.matches(ip("192.168.1.1")));
    assert!(!matcher.matches(ip("::2")));
}

#[test]
fn test_private_networks() {
    let matcher = IpMatcher::new(vec![
        "10.0.0.0/8".to_string(),
        "172.16.0.0/12".to_string(),
        "192.168.0.0/16".to_string(),
    ]);

    assert!(matcher.matches(ip("10.0.0.1")));
    assert!(matcher.matches(ip("10.255.255.255")));

    assert!(matcher.matches(ip("172.16.0.1")));
    assert!(matcher.matches(ip("172.31.255.255")));
    assert!(!matcher.matches(ip("172.32.0.1")));

    assert!(matcher.matches(ip("192.168.0.1")));
    assert!(matcher.matches(ip("192.168.255.255")));
    assert!(!matcher.matches(ip("192.169.0.1")));
}

#[test]
fn test_is_empty() {
    let empty_matcher = IpMatcher::new(vec![]);
    assert!(empty_matcher.is_empty());

    let non_empty_matcher = IpMatcher::new(vec!["192.168.1.1".to_string()]);
    assert!(!non_empty_matcher.is_empty());
}

#[test]
fn test_invalid_patterns() {
    let matcher = IpMatcher::new(vec![
        "invalid".to_string(),
        "192.168.1.1.1".to_string(),
        "192.168.1.0/33".to_string(),
        "2001:db8::/129".to_string(),
        "".to_string(),
    ]);

    assert!(matcher.is_empty());
}

#[test]
fn test_cidr_single_host() {
    let matcher = IpMatcher::new(vec!["192.168.1.1/32".to_string()]);

    assert!(matcher.matches(ip("192.168.1.1")));
    assert!(!matcher.matches(ip("192.168.1.2")));

    let matcher_v6 = IpMatcher::new(vec!["2001:db8::1/128".to_string()]);

    assert!(matcher_v6.matches(ip("2001:db8::1")));
    assert!(!matcher_v6.matches(ip("2001:db8::2")));
}

#[test]
fn test_cidr_all() {
    let matcher_v4 = IpMatcher::new(vec!["0.0.0.0/0".to_string()]);

    assert!(matcher_v4.matches(ip("192.168.1.1")));
    assert!(matcher_v4.matches(ip("8.8.8.8")));
    assert!(matcher_v4.matches(ip("255.255.255.255")));

    let matcher_v6 = IpMatcher::new(vec!["::/0".to_string()]);

    assert!(matcher_v6.matches(ip("::1")));
    assert!(matcher_v6.matches(ip("2001:db8::1")));
    assert!(matcher_v6.matches(ip("ffff:ffff:ffff:ffff:ffff:ffff:ffff:ffff")));
}

#[test]
fn cidr_boundary_is_exact() {
    // a /25 splits the last octet: 0..=127 in, 128..=255 out
    let matcher = IpMatcher::new(vec!["198.51.100.0/25".to_string()]);
    assert!(matcher.matches(ip("198.51.100.0")));
    assert!(matcher.matches(ip("198.51.100.127")));
    assert!(!matcher.matches(ip("198.51.100.128")));
    assert!(!matcher.matches(ip("198.51.100.255")));
}

#[test]
fn patterns_are_trimmed() {
    let matcher = IpMatcher::new(vec!["  10.0.0.0/8 ".to_string(), " 192.0.2.7".to_string()]);
    assert!(matcher.matches(ip("10.1.2.3")));
    assert!(matcher.matches(ip("192.0.2.7")));
}
