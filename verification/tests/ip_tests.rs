use sni_proxy::IpAddr;

#[test]
fn parses_dotted_quads() {
    assert_eq!(IpAddr::parse("0.0.0.0"), Some(IpAddr::V4(0)));
    assert_eq!(IpAddr::parse("255.255.255.255"), Some(IpAddr::V4(0xffff_ffff)));
    assert_eq!(IpAddr::parse("192.168.1.1"), Some(IpAddr::V4(0xc0a8_0101)));
    assert_eq!(IpAddr::parse("10.0.0.1"), Some(IpAddr::V4(0x0a00_0001)));
}

#[test]
fn rejects_malformed_dotted_quads() {
    assert!(IpAddr::parse("192.168.1").is_none());
    assert!(IpAddr::parse("192.168.1.1.1").is_none());
    assert!(IpAddr::parse("192.168.1.256").is_none());
    assert!(IpAddr::parse("192.168.01.1").is_none());
    assert!(IpAddr::parse("192.168..1").is_none());
    assert!(IpAddr::parse("").is_none());
    assert!(IpAddr::parse("a.b.c.d").is_none());
}

#[test]
fn parses_colon_groups() {
    assert_eq!(IpAddr::parse("::"), Some(IpAddr::V6(0)));
    assert_eq!(IpAddr::parse("::1"), Some(IpAddr::V6(1)));
    assert_eq!(
        IpAddr::parse("2001:db8::1"),
        Some(IpAddr::V6(0x2001_0db8_0000_0000_0000_0000_0000_0001))
    );
    assert_eq!(
        IpAddr::parse("1:2:3:4:5:6:7:8"),
        Some(IpAddr::V6(0x0001_0002_0003_0004_0005_0006_0007_0008))
    );
    assert_eq!(
        IpAddr::parse("fe80::"),
        Some(IpAddr::V6(0xfe80_0000_0000_0000_0000_0000_0000_0000))
    );
    assert_eq!(
        IpAddr::parse("::ffff:1"),
        Some(IpAddr::V6(0x0000_0000_0000_0000_0000_0000_ffff_0001))
    );
    assert_eq!(
        IpAddr::parse("FFFF::ABCD"),
        Some(IpAddr::V6(0xffff_0000_0000_0000_0000_0000_0000_abcd))
    );
}

#[test]
fn rejects_malformed_colon_groups() {
    assert!(IpAddr::parse(":").is_none());
    assert!(IpAddr::parse(":::").is_none());
    assert!(IpAddr::parse("1:2").is_none());
    assert!(IpAddr::parse("1::2::3").is_none());
    assert!(IpAddr::parse("1:2:3:4:5:6:7:8:9").is_none());
    assert!(IpAddr::parse("12345::").is_none());
    assert!(IpAddr::parse("g::1").is_none());
    assert!(IpAddr::parse("1:2:3:4:5:6:7").is_none());
}

#[test]
fn rendering_and_parsing_are_inverses() {
    let cases = [
        "0.0.0.0",
        "255.255.255.255",
        "192.168.1.1",
        "::1",
        "2001:db8::1",
        "fe80::",
        "1:2:3:4:5:6:7:8",
    ];
    for text in cases.iter() {
        let a = IpAddr::parse(text).unwrap();
        assert_eq!(IpAddr::parse(&a.to_text()), Some(a));
    }
}

#[test]
fn rendered_forms_are_plain() {
    assert_eq!(IpAddr::parse("192.168.1.1").unwrap().to_text(), "192.168.1.1");
    assert_eq!(IpAddr::parse("10.0.0.7").unwrap().to_text(), "10.0.0.7");
    assert_eq!(IpAddr::parse("::1").unwrap().to_text(), "0:0:0:0:0:0:0:1");
    assert_eq!(
        IpAddr::parse("2001:db8::1").unwrap().to_text(),
        "2001:db8:0:0:0:0:0:1"
    );
}
