use sni_proxy::ip_traffic::summary_table;
use sni_proxy::{format_bytes, IpAddr, IpTrafficTracker};

fn ip(s: &str) -> IpAddr {
    IpAddr::parse(s).unwrap()
}

#[test]
fn test_ip_traffic_tracker() {
    let mut tracker = IpTrafficTracker::new(100, None, None);
    let addr = ip("192.168.1.1");

    tracker.record_connection(addr);
    tracker.record_connection(addr);

    tracker.record_received(addr, 1000);
    tracker.record_sent(addr, 2000);

    let stats = tracker.get_stats(&addr).unwrap();
    assert_eq!(stats.connections, 2);
    assert_eq!(stats.bytes_received, 1000);
    assert_eq!(stats.bytes_sent, 2000);
    assert_eq!(stats.total_bytes, 3000);
}

#[test]
fn test_top_n() {
    let mut tracker = IpTrafficTracker::new(100, None, None);

    let ip1 = ip("192.168.1.1");
    let ip2 = ip("192.168.1.2");
    let ip3 = ip("192.168.1.3");

    tracker.record_connection(ip1);
    tracker.record_sent(ip1, 1000);

    tracker.record_connection(ip2);
    tracker.record_sent(ip2, 3000);

    tracker.record_connection(ip3);
    tracker.record_sent(ip3, 2000);

    let top = tracker.get_top_n(2);
    assert_eq!(top.len(), 2);
    assert_eq!(top[0].ip, ip2);
    assert_eq!(top[1].ip, ip3);
}

#[test]
fn test_format_bytes() {
    assert_eq!(format_bytes(500), "500 B");
    assert_eq!(format_bytes(1024), "1.00 KB");
    assert_eq!(format_bytes(1024 * 1024), "1.00 MB");
    assert_eq!(format_bytes(1024 * 1024 * 1024), "1.00 GB");
}

#[test]
fn format_bytes_rounds_to_two_decimals() {
    assert_eq!(format_bytes(1536), "1.50 KB");
    assert_eq!(format_bytes(1024 + 51), "1.05 KB");
    assert_eq!(format_bytes(1024u64 * 1024 * 1024 * 1024), "1.00 TB");
}

#[test]
fn test_disabled_tracker() {
    let mut tracker = IpTrafficTracker::disabled();
    assert!(!tracker.is_enabled());

    let addr = ip("192.168.1.1");
    tracker.record_connection(addr);
    tracker.record_sent(addr, 1000);

    assert_eq!(tracker.get_tracked_count(), 0);
    assert!(tracker.get_stats(&addr).is_none());
}

#[test]
fn accountant_totals_match_transfers() {
    // three connections from one address, each committing its byte counts
    let mut tracker = IpTrafficTracker::new(16, None, None);
    let addr = ip("203.0.113.9");
    let transfers: [(u64, u64); 3] = [(10, 20), (300, 4), (5, 6000)];
    for (a, b) in transfers.iter() {
        tracker.record_connection(addr);
        tracker.record_received(addr, *a);
        tracker.record_sent(addr, *b);
    }
    let stats = tracker.get_stats(&addr).unwrap();
    assert_eq!(stats.connections, 3);
    assert_eq!(stats.bytes_received, 10 + 300 + 5);
    assert_eq!(stats.bytes_sent, 20 + 4 + 6000);
}

#[test]
fn eviction_drops_least_recent_address() {
    let mut tracker = IpTrafficTracker::new(2, None, None);
    let a = ip("10.0.0.1");
    let b = ip("10.0.0.2");
    let c = ip("10.0.0.3");
    tracker.record_connection(a);
    tracker.record_connection(b);
    tracker.record_connection(c);
    assert_eq!(tracker.get_tracked_count(), 2);
    assert!(tracker.get_stats(&a).is_none());
    assert!(tracker.get_stats(&b).is_some());
    assert!(tracker.get_stats(&c).is_some());
}

#[test]
fn byte_commits_do_not_track_new_addresses() {
    let mut tracker = IpTrafficTracker::new(4, None, None);
    let a = ip("10.0.0.1");
    tracker.record_received(a, 100);
    tracker.record_sent(a, 100);
    assert_eq!(tracker.get_tracked_count(), 0);
    assert!(tracker.get_stats(&a).is_none());
}

#[test]
fn the_table_lays_out_fixed_columns() {
    let mut tracker = IpTrafficTracker::new(8, None, None);
    let a = ip("10.0.0.1");
    tracker.record_connection(a);
    tracker.record_received(a, 1024);
    tracker.record_sent(a, 500);
    let top = tracker.get_top_n(10);
    let table = summary_table(&top, tracker.get_tracked_count());
    let lines: Vec<&str> = table.lines().collect();
    assert_eq!(lines[0], format!("{:<4} {:<40} {:>12} {:>12} {:>12} {:>8}", "rank", "ip", "up", "down", "total", "conns"));
    assert_eq!(lines[1], "-".repeat(100));
    assert_eq!(
        lines[2],
        format!("{:<4} {:<40} {:>12} {:>12} {:>12} {:>8}", 1, "10.0.0.1", "1.00 KB", "500 B", "1.49 KB", 1)
    );
    assert_eq!(lines[3], "-".repeat(100));
    assert_eq!(lines[4], "tracked addresses: 1");

    let empty = summary_table(&Vec::new(), 0);
    assert_eq!(empty, "no tracked traffic\n");
}
