use sni_proxy::socks5::{build_connect_request, build_greeting, Socks5Action, Socks5Event};
use sni_proxy::{Socks5Error, Socks5Session};

#[test]
fn framing_matches_the_wire_format() {
    // greeting then connect for (host, port, no-auth):
    // 05 01 00 | 05 01 00 03 L h... p_hi p_lo
    let greeting = build_greeting(0);
    assert_eq!(greeting, vec![0x05, 0x01, 0x00]);

    let connect = build_connect_request("example.com", 443).unwrap();
    let mut expected = vec![0x05, 0x01, 0x00, 0x03, 11];
    expected.extend_from_slice(b"example.com");
    expected.push(0x01);
    expected.push(0xbb);
    assert_eq!(connect, expected);
}

#[test]
fn connect_request_rejects_long_hosts() {
    let long = "a".repeat(256);
    assert_eq!(build_connect_request(&long, 443), Err(Socks5Error::HostTooLong));
    let just_fits = "a".repeat(255);
    assert!(build_connect_request(&just_fits, 443).is_ok());
}

#[test]
fn no_auth_handshake_walkthrough() {
    let mut s = Socks5Session::new("example.com".to_string(), 443, None, None);

    let a = s.step(Socks5Event::Started);
    match a {
        Socks5Action::SendThenRead(frame, n) => {
            assert_eq!(frame, vec![0x05, 0x01, 0x00]);
            assert_eq!(n, 2);
        }
        _ => panic!("expected the greeting"),
    }

    let a = s.step(Socks5Event::Received(vec![0x05, 0x00]));
    match a {
        Socks5Action::SendThenRead(frame, n) => {
            assert_eq!(frame[0..5], [0x05, 0x01, 0x00, 0x03, 11]);
            assert_eq!(n, 4);
        }
        _ => panic!("expected the connect request"),
    }

    // success reply with an IPv4 bound address
    let a = s.step(Socks5Event::Received(vec![0x05, 0x00, 0x00, 0x01]));
    match a {
        Socks5Action::Read(n) => assert_eq!(n, 6),
        _ => panic!("expected a bound-address read"),
    }

    let a = s.step(Socks5Event::Received(vec![0, 0, 0, 0, 0, 0]));
    assert!(matches!(a, Socks5Action::Done));
}

#[test]
fn auth_handshake_walkthrough() {
    let mut s = Socks5Session::new(
        "example.com".to_string(),
        443,
        Some("user".to_string()),
        Some("pass".to_string()),
    );

    let a = s.step(Socks5Event::Started);
    match a {
        Socks5Action::SendThenRead(frame, _) => assert_eq!(frame, vec![0x05, 0x01, 0x02]),
        _ => panic!("expected the greeting"),
    }

    let a = s.step(Socks5Event::Received(vec![0x05, 0x02]));
    match a {
        Socks5Action::SendThenRead(frame, n) => {
            let mut expected = vec![0x01, 4];
            expected.extend_from_slice(b"user");
            expected.push(4);
            expected.extend_from_slice(b"pass");
            assert_eq!(frame, expected);
            assert_eq!(n, 2);
        }
        _ => panic!("expected the credential frame"),
    }

    let a = s.step(Socks5Event::Received(vec![0x01, 0x00]));
    assert!(matches!(a, Socks5Action::SendThenRead(_, 4)));

    // domain-typed bound address: one length byte, then name and port
    let a = s.step(Socks5Event::Received(vec![0x05, 0x00, 0x00, 0x03]));
    match a {
        Socks5Action::Read(n) => assert_eq!(n, 1),
        _ => panic!("expected the length read"),
    }
    let a = s.step(Socks5Event::Received(vec![3]));
    match a {
        Socks5Action::Read(n) => assert_eq!(n, 5),
        _ => panic!("expected the domain read"),
    }
    let a = s.step(Socks5Event::Received(vec![b'a', b'b', b'c', 0x01, 0xbb]));
    assert!(matches!(a, Socks5Action::Done));
}

#[test]
fn auth_rejection_fails_the_handshake() {
    let mut s = Socks5Session::new(
        "example.com".to_string(),
        443,
        Some("user".to_string()),
        Some("pass".to_string()),
    );
    let _ = s.step(Socks5Event::Started);
    let _ = s.step(Socks5Event::Received(vec![0x05, 0x02]));
    let a = s.step(Socks5Event::Received(vec![0x01, 0x01]));
    assert!(matches!(a, Socks5Action::Fail(Socks5Error::AuthFailed)));
}

#[test]
fn bad_version_fails_the_handshake() {
    let mut s = Socks5Session::new("example.com".to_string(), 443, None, None);
    let _ = s.step(Socks5Event::Started);
    let a = s.step(Socks5Event::Received(vec![0x04, 0x00]));
    assert!(matches!(a, Socks5Action::Fail(Socks5Error::BadVersion)));
}

#[test]
fn method_mismatch_fails_the_handshake() {
    let mut s = Socks5Session::new("example.com".to_string(), 443, None, None);
    let _ = s.step(Socks5Event::Started);
    let a = s.step(Socks5Event::Received(vec![0x05, 0xff]));
    assert!(matches!(a, Socks5Action::Fail(Socks5Error::AuthMethodUnsupported)));
}

#[test]
fn reply_codes_map_to_their_errors() {
    let cases: [(u8, Socks5Error); 9] = [
        (1, Socks5Error::GeneralFailure),
        (2, Socks5Error::RuleViolation),
        (3, Socks5Error::NetworkUnreachable),
        (4, Socks5Error::HostUnreachable),
        (5, Socks5Error::ConnectionRefused),
        (6, Socks5Error::TtlExpired),
        (7, Socks5Error::CommandNotSupported),
        (8, Socks5Error::AddressTypeNotSupported),
        (9, Socks5Error::UnknownReply(9)),
    ];
    for (code, err) in cases.iter() {
        let mut s = Socks5Session::new("example.com".to_string(), 443, None, None);
        let _ = s.step(Socks5Event::Started);
        let _ = s.step(Socks5Event::Received(vec![0x05, 0x00]));
        let a = s.step(Socks5Event::Received(vec![0x05, *code, 0x00, 0x01]));
        match a {
            Socks5Action::Fail(e) => assert_eq!(e, *err),
            _ => panic!("expected a failure"),
        }
    }
}

#[test]
fn io_failure_ends_the_handshake() {
    let mut s = Socks5Session::new("example.com".to_string(), 443, None, None);
    let a = s.step(Socks5Event::Failed(Socks5Error::Timeout));
    assert!(matches!(a, Socks5Action::Fail(Socks5Error::Timeout)));
}
