use sni_proxy::DomainMatcher;

#[test]
fn test_domain_matcher_exact() {
    let matcher = DomainMatcher::new(vec!["example.com".to_string(), "github.com".to_string()]);

    assert!(matcher.matches("example.com"));
    assert!(matcher.matches("EXAMPLE.COM"));
    assert!(matcher.matches("github.com"));
    assert!(!matcher.matches("www.example.com"));
    assert!(!matcher.matches("notexample.com"));
}

#[test]
fn test_domain_matcher_wildcard() {
    let matcher = DomainMatcher::new(vec!["*.example.com".to_string(), "github.com".to_string()]);

    assert!(matcher.matches("www.example.com"));
    assert!(matcher.matches("api.example.com"));
    assert!(matcher.matches("test.api.example.com"));
    assert!(matcher.matches("WWW.EXAMPLE.COM"));

    assert!(matcher.matches("github.com"));
    assert!(matcher.matches("GITHUB.COM"));

    assert!(!matcher.matches("example.com"));
    assert!(!matcher.matches("notexample.com"));
    assert!(!matcher.matches("www.github.com"));
}

#[test]
fn test_domain_matcher_mixed() {
    let matcher = DomainMatcher::new(vec![
        "example.com".to_string(),
        "*.example.com".to_string(),
        "*.api.example.com".to_string(),
        "github.com".to_string(),
    ]);

    assert!(matcher.matches("example.com"));
    assert!(matcher.matches("github.com"));

    assert!(matcher.matches("www.example.com"));
    assert!(matcher.matches("mail.example.com"));

    assert!(matcher.matches("v1.api.example.com"));
    assert!(matcher.matches("v2.api.example.com"));

    assert!(!matcher.matches("www.github.com"));
    assert!(!matcher.matches("test.com"));
}

#[test]
fn test_domain_matcher_edge_cases() {
    let matcher = DomainMatcher::new(vec!["*.example.com".to_string()]);

    assert!(!matcher.matches("example.com"));
    assert!(!matcher.matches("notexample.com"));
    assert!(!matcher.matches("testexample.com"));
    assert!(matcher.matches("a.example.com"));
    assert!(matcher.matches("test.sub.example.com"));
}

#[test]
fn test_domain_matcher_case_insensitive() {
    let matcher = DomainMatcher::new(vec!["Example.Com".to_string(), "*.GitHub.IO".to_string()]);

    assert!(matcher.matches("example.com"));
    assert!(matcher.matches("EXAMPLE.COM"));
    assert!(matcher.matches("Example.Com"));
    assert!(matcher.matches("user.github.io"));
    assert!(matcher.matches("USER.GITHUB.IO"));
}

#[test]
fn test_domain_matcher_empty() {
    let matcher = DomainMatcher::new(vec![]);

    assert!(!matcher.matches("example.com"));
    assert!(!matcher.matches("www.example.com"));
}

#[test]
fn test_domain_matcher_wildcard_sorting() {
    let matcher = DomainMatcher::new(vec![
        "*.com".to_string(),
        "*.example.com".to_string(),
        "*.api.example.com".to_string(),
    ]);

    assert!(matcher.matches("v1.api.example.com"));
    assert!(matcher.matches("www.example.com"));
    assert!(matcher.matches("test.com"));
}

#[test]
fn listed_name_always_matches() {
    let entries = vec!["Allow.Test".to_string(), "other.example".to_string()];
    let matcher = DomainMatcher::new(entries.clone());
    for e in &entries {
        assert!(matcher.matches(e));
        assert!(matcher.matches(&e.to_uppercase()));
    }
}

#[test]
fn wildcard_rejects_bare_suffix_but_takes_labels() {
    let matcher = DomainMatcher::new(vec!["*.apex.com".to_string()]);
    assert!(!matcher.matches("apex.com"));
    assert!(!matcher.matches("notapex.com"));
    assert!(matcher.matches("a.apex.com"));
    assert!(matcher.matches("deep.a.apex.com"));
}
