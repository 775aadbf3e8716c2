use sni_proxy::parse_sni;

/// A minimal ClientHello record that carries `sni` in a server_name
/// extension.
fn client_hello(sni: &str) -> Vec<u8> {
    let name = sni.as_bytes();
    let n = name.len();
    let ext_body_len = 5 + n;
    let ext_total = 4 + ext_body_len;
    let hs_body = 2 + 32 + 1 + 2 + 2 + 1 + 1 + 2 + ext_total;
    let rec_len = 4 + hs_body;
    let mut v = vec![
        0x16,
        0x03,
        0x01,
        (rec_len >> 8) as u8,
        (rec_len & 0xff) as u8,
        0x01,
        0x00,
        (hs_body >> 8) as u8,
        (hs_body & 0xff) as u8,
        0x03,
        0x03,
    ];
    for _ in 0..32 {
        v.push(0);
    }
    v.push(0); // session id length
    v.push(0);
    v.push(2); // cipher suites length
    v.push(0);
    v.push(0);
    v.push(1); // compression methods length
    v.push(0);
    v.push((ext_total >> 8) as u8);
    v.push((ext_total & 0xff) as u8);
    v.push(0); // extension type: server_name
    v.push(0);
    v.push((ext_body_len >> 8) as u8);
    v.push((ext_body_len & 0xff) as u8);
    v.push(((n + 3) >> 8) as u8);
    v.push(((n + 3) & 0xff) as u8);
    v.push(0); // name type: host_name
    v.push((n >> 8) as u8);
    v.push((n & 0xff) as u8);
    v.extend_from_slice(name);
    v
}

#[test]
fn test_parse_sni() {
    let data = vec![0x16, 0x03, 0x01];
    let result = parse_sni(&data);
    assert!(result.is_none());
}

#[test]
fn parses_well_formed_hello() {
    let data = client_hello("api.example.com");
    assert_eq!(parse_sni(&data), Some("api.example.com".to_string()));
}

#[test]
fn name_length_is_bounded() {
    // a well-formed record always yields a name of 1 to 255 bytes
    let long = "a".repeat(255);
    let data = client_hello(&long);
    let got = parse_sni(&data).unwrap();
    assert_eq!(got.len(), 255);

    let data = client_hello("x");
    assert_eq!(parse_sni(&data), Some("x".to_string()));
}

#[test]
fn rejects_truncated_record() {
    // the truncated handshake from the malformed-hello scenario
    let data = vec![0x16, 0x03, 0x01, 0x00, 0x02, 0x00, 0x00];
    assert!(parse_sni(&data).is_none());
}

#[test]
fn rejects_wrong_record_type() {
    let mut data = client_hello("example.com");
    data[0] = 0x17;
    assert!(parse_sni(&data).is_none());

    let mut data = client_hello("example.com");
    data[1] = 0x02;
    assert!(parse_sni(&data).is_none());
}

#[test]
fn rejects_overstated_handshake_length() {
    let mut data = client_hello("example.com");
    data[6] = 0xff; // handshake length far beyond the buffer
    assert!(parse_sni(&data).is_none());
}

#[test]
fn never_panics_on_arbitrary_prefixes() {
    // every prefix of a valid record is handled, never panicking
    let data = client_hello("api.example.com");
    for cut in 0..data.len() {
        let _ = parse_sni(&data[..cut]);
    }
}
