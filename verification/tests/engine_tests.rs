use sni_proxy::engine::{
    account_failure, account_route, engine_step, plan_connection, ConnectFailure, ConnectionPlan,
    EngineAction, EngineEvent, EngineState, Route,
};
use sni_proxy::{DomainMatcher, IpAddr, IpMatcher, Metrics};

/// A minimal ClientHello record that carries `sni` in a server_name
/// extension.
fn client_hello(sni: &str) -> Vec<u8> {
    let name = sni.as_bytes();
    let n = name.len();
    let ext_body_len = 5 + n;
    let ext_total = 4 + ext_body_len;
    let hs_body = 2 + 32 + 1 + 2 + 2 + 1 + 1 + 2 + ext_total;
    let rec_len = 4 + hs_body;
    let mut v = vec![
        0x16,
        0x03,
        0x01,
        (rec_len >> 8) as u8,
        (rec_len & 0xff) as u8,
        0x01,
        0x00,
        (hs_body >> 8) as u8,
        (hs_body & 0xff) as u8,
        0x03,
        0x03,
    ];
    for _ in 0..32 {
        v.push(0);
    }
    v.push(0);
    v.push(0);
    v.push(2);
    v.push(0);
    v.push(0);
    v.push(1);
    v.push(0);
    v.push((ext_total >> 8) as u8);
    v.push((ext_total & 0xff) as u8);
    v.push(0);
    v.push(0);
    v.push((ext_body_len >> 8) as u8);
    v.push((ext_body_len & 0xff) as u8);
    v.push(((n + 3) >> 8) as u8);
    v.push(((n + 3) & 0xff) as u8);
    v.push(0);
    v.push((n >> 8) as u8);
    v.push((n & 0xff) as u8);
    v.extend_from_slice(name);
    v
}

fn ip(s: &str) -> IpAddr {
    IpAddr::parse(s).unwrap()
}

#[test]
fn direct_route_on_wildcard_match() {
    // direct = ["*.example.com"], no SOCKS5; SNI api.example.com
    let direct = DomainMatcher::new(vec!["*.example.com".to_string()]);
    let hello = client_hello("api.example.com");
    let plan = plan_connection(&None, ip("198.51.100.20"), &hello, &direct, &None);
    match plan {
        ConnectionPlan::Direct(host) => assert_eq!(host, "api.example.com"),
        _ => panic!("expected the direct route"),
    }
    let mut m = Metrics::new();
    m.inc_total_connections();
    account_route(&mut m, Route::Direct);
    assert_eq!(m.direct_requests, 1);
    assert_eq!(m.total_connections, 1);
    assert_eq!(m.socks5_requests, 0);
    assert_eq!(m.rejected_requests, 0);
}

#[test]
fn socks5_route_takes_precedence() {
    // direct = ["cdn.example.com"], socks5 = ["*.example.com"]; both match
    let direct = DomainMatcher::new(vec!["cdn.example.com".to_string()]);
    let socks5 = Some(DomainMatcher::new(vec!["*.example.com".to_string()]));
    let hello = client_hello("cdn.example.com");
    let plan = plan_connection(&None, ip("198.51.100.20"), &hello, &direct, &socks5);
    match plan {
        ConnectionPlan::Socks5(host) => assert_eq!(host, "cdn.example.com"),
        _ => panic!("expected the SOCKS5 route"),
    }
    let mut m = Metrics::new();
    account_route(&mut m, Route::Socks5);
    assert_eq!(m.socks5_requests, 1);
    assert_eq!(m.direct_requests, 0);
}

#[test]
fn refusal_by_domain() {
    // direct = ["allow.test"]; SNI deny.test
    let direct = DomainMatcher::new(vec!["allow.test".to_string()]);
    let hello = client_hello("deny.test");
    let plan = plan_connection(&None, ip("198.51.100.20"), &hello, &direct, &None);
    assert!(matches!(plan, ConnectionPlan::RejectDomain));
    let mut m = Metrics::new();
    account_route(&mut m, Route::Rejected);
    assert_eq!(m.rejected_requests, 1);
    assert_eq!(m.direct_requests, 0);
    assert_eq!(m.socks5_requests, 0);
}

#[test]
fn refusal_by_ip_precedes_the_read() {
    // ip_whitelist = ["10.0.0.0/8"]; peer 192.0.2.5
    let direct = DomainMatcher::new(vec!["allow.test".to_string()]);
    let matcher = Some(IpMatcher::new(vec!["10.0.0.0/8".to_string()]));
    let hello = client_hello("allow.test");
    let plan = plan_connection(&matcher, ip("192.0.2.5"), &hello, &direct, &None);
    assert!(matches!(plan, ConnectionPlan::RejectIp));
    let mut m = Metrics::new();
    account_route(&mut m, Route::Rejected);
    assert_eq!(m.rejected_requests, 1);

    // the same hello from a whitelisted source goes through
    let plan = plan_connection(&matcher, ip("10.1.2.3"), &hello, &direct, &None);
    assert!(matches!(plan, ConnectionPlan::Direct(_)));
}

#[test]
fn malformed_hello_is_refused_before_any_dial() {
    let direct = DomainMatcher::new(vec!["allow.test".to_string()]);
    let hello = vec![0x16, 0x03, 0x01, 0x00, 0x02, 0x00, 0x00];
    let plan = plan_connection(&None, ip("198.51.100.20"), &hello, &direct, &None);
    assert!(matches!(plan, ConnectionPlan::RejectSni));
    let mut m = Metrics::new();
    account_failure(&mut m, ConnectFailure::SniParse);
    assert_eq!(m.sni_parse_errors, 1);
    assert_eq!(m.failed_connections, 1);
    assert_eq!(m.rejected_requests, 0);
}

#[test]
fn shutdown_stops_accepting_and_drains() {
    // accepting; two connections come in, then the signal
    let (s, a) = engine_step(EngineState::Accepting, EngineEvent::Accepted);
    assert_eq!(a, EngineAction::HandleConnection);
    let (s, a) = engine_step(s, EngineEvent::Accepted);
    assert_eq!(a, EngineAction::HandleConnection);
    let (s, a) = engine_step(s, EngineEvent::Shutdown);
    assert_eq!(a, EngineAction::WaitTick);
    assert!(matches!(s, EngineState::Draining(30)));

    // three long-lived connections keep the drain polling
    let mut state = s;
    for _ in 0..5 {
        let (ns, a) = engine_step(state, EngineEvent::DrainTick(3));
        assert_eq!(a, EngineAction::WaitTick);
        assert!(!matches!(a, EngineAction::HandleConnection));
        state = ns;
    }
    // the last one closes: the next poll finishes cleanly
    let (s, a) = engine_step(state, EngineEvent::DrainTick(0));
    assert_eq!(a, EngineAction::FinishClean);
    assert_eq!(s, EngineState::Stopped(true));
}

#[test]
fn drain_deadline_forces_the_exit() {
    let mut state = EngineState::Draining(30);
    let mut steps = 0;
    loop {
        let (ns, a) = engine_step(state, EngineEvent::DrainTick(1));
        assert!(!matches!(a, EngineAction::HandleConnection));
        steps += 1;
        state = ns;
        if let EngineState::Stopped(clean) = state {
            assert!(!clean);
            break;
        }
        assert!(steps <= 30, "the drain must stop within its deadline");
    }
    assert_eq!(steps, 30);
}

#[test]
fn accept_errors_back_off_and_continue() {
    let (s, a) = engine_step(EngineState::Accepting, EngineEvent::AcceptFailed);
    assert_eq!(a, EngineAction::SleepRetry);
    assert_eq!(s, EngineState::Accepting);
}
