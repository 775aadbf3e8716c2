use sni_proxy::dns_cache::dedup_ips;
use sni_proxy::{DnsCache, IpAddr};

fn ip(s: &str) -> IpAddr {
    IpAddr::parse(s).unwrap()
}

#[test]
fn lookup_after_insert_returns_the_same_ordered_list() {
    let mut cache = DnsCache::new(10);
    let ips = vec![ip("93.184.216.34"), ip("2606:2800:220:1:248:1893:25c8:1946"), ip("10.0.0.7")];
    cache.insert("example.com".to_string(), ips.clone());
    let got = cache.lookup("example.com").unwrap();
    assert_eq!(got, ips);
}

#[test]
fn capacity_overflow_evicts_exactly_the_least_recently_used() {
    let mut cache = DnsCache::new(3);
    cache.insert("a.test".to_string(), vec![ip("10.0.0.1")]);
    cache.insert("b.test".to_string(), vec![ip("10.0.0.2")]);
    cache.insert("c.test".to_string(), vec![ip("10.0.0.3")]);
    assert_eq!(cache.len(), 3);

    // one more distinct insert: only the least recently used entry leaves
    cache.insert("d.test".to_string(), vec![ip("10.0.0.4")]);
    assert_eq!(cache.len(), 3);
    assert!(cache.lookup("a.test").is_none());
    assert!(cache.lookup("b.test").is_some());
    assert!(cache.lookup("c.test").is_some());
    assert!(cache.lookup("d.test").is_some());
}

#[test]
fn a_hit_refreshes_the_entry() {
    let mut cache = DnsCache::new(2);
    cache.insert("a.test".to_string(), vec![ip("10.0.0.1")]);
    cache.insert("b.test".to_string(), vec![ip("10.0.0.2")]);
    // touch a, then insert c: b is now the least recently used one
    assert!(cache.lookup("a.test").is_some());
    cache.insert("c.test".to_string(), vec![ip("10.0.0.3")]);
    assert!(cache.lookup("a.test").is_some());
    assert!(cache.lookup("b.test").is_none());
}

#[test]
fn reinsert_replaces_the_list() {
    let mut cache = DnsCache::new(4);
    cache.insert("a.test".to_string(), vec![ip("10.0.0.1")]);
    cache.insert("a.test".to_string(), vec![ip("10.0.0.9"), ip("10.0.0.1")]);
    assert_eq!(cache.len(), 1);
    let got = cache.lookup("a.test").unwrap();
    assert_eq!(got, vec![ip("10.0.0.9"), ip("10.0.0.1")]);
}

#[test]
fn clear_empties_the_cache() {
    let mut cache = DnsCache::new(4);
    cache.insert("a.test".to_string(), vec![ip("10.0.0.1")]);
    cache.clear();
    assert_eq!(cache.len(), 0);
    assert!(cache.lookup("a.test").is_none());
}

#[test]
fn dedup_keeps_first_occurrences_in_order() {
    let ips = vec![ip("10.0.0.1"), ip("10.0.0.2"), ip("10.0.0.1"), ip("10.0.0.3"), ip("10.0.0.2")];
    let out = dedup_ips(&ips);
    assert_eq!(out, vec![ip("10.0.0.1"), ip("10.0.0.2"), ip("10.0.0.3")]);
    assert!(dedup_ips(&vec![]).is_empty());
}
