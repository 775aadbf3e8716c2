use sni_proxy::{ConnectionGuard, Metrics};

#[test]
fn counters_start_at_zero_and_move_one_by_one() {
    let mut m = Metrics::new();
    assert_eq!(m.get_total_connections(), 0);
    assert_eq!(m.get_active_connections(), 0);
    assert_eq!(m.get_rejected_requests(), 0);

    m.inc_total_connections();
    m.inc_rejected_requests();
    m.inc_dns_cache_hits();
    m.inc_dns_cache_misses();
    m.add_bytes_received(11);
    m.add_bytes_sent(22);

    let s = m.snapshot();
    assert_eq!(s.total_connections, 1);
    assert_eq!(s.rejected_requests, 1);
    assert_eq!(s.dns_cache_hits, 1);
    assert_eq!(s.dns_cache_misses, 1);
    assert_eq!(s.bytes_received, 11);
    assert_eq!(s.bytes_sent, 22);
    assert_eq!(s.failed_connections, 0);
    assert_eq!(s.direct_requests, 0);
    assert_eq!(s.socks5_requests, 0);
    assert_eq!(s.sni_parse_errors, 0);
    assert_eq!(s.socks5_errors, 0);
    assert_eq!(s.connection_timeouts, 0);
}

#[test]
fn a_guard_counts_one_active_connection_until_finished() {
    let mut m = Metrics::new();
    let g1 = ConnectionGuard::new(&mut m);
    let g2 = ConnectionGuard::new(&mut m);
    assert_eq!(m.get_total_connections(), 2);
    assert_eq!(m.get_active_connections(), 2);

    g1.finish(&mut m);
    assert_eq!(m.get_active_connections(), 1);
    assert_eq!(m.get_total_connections(), 2);

    g2.finish(&mut m);
    assert_eq!(m.get_active_connections(), 0);
    assert_eq!(m.get_total_connections(), 2);
}

#[test]
fn default_metrics_are_zero() {
    let m = Metrics::default();
    assert_eq!(m.get_total_connections(), 0);
    assert_eq!(m.get_active_connections(), 0);
}

#[test]
fn the_summary_names_every_counter() {
    let mut m = Metrics::new();
    m.inc_total_connections();
    m.add_bytes_received(7);
    m.inc_dns_cache_misses();
    let s = m.print_summary();
    assert_eq!(
        s,
        "total connections: 1\nactive connections: 0\nfailed connections: 0\n\
         direct requests: 0\nsocks5 requests: 0\nrejected requests: 0\n\
         bytes received: 7\nbytes sent: 0\ndns cache hits: 0\ndns cache misses: 1\n\
         sni parse errors: 0\nsocks5 errors: 0\nconnection timeouts: 0"
    );
}
