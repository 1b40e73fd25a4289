use netbricks_nf::tls::{
    extract_certificates, is_serverhello, on_frame, parse_tls_frame, Handshake, TLS_HEADER_LEN,
};

fn record(body: &[u8]) -> Vec<u8> {
    let mut r = vec![0x16, 0x03, 0x03, (body.len() >> 8) as u8, body.len() as u8];
    r.extend_from_slice(body);
    r
}

fn handshake(typ: u8, body: &[u8]) -> Vec<u8> {
    let n = body.len();
    let mut h = vec![typ, (n >> 16) as u8, (n >> 8) as u8, n as u8];
    h.extend_from_slice(body);
    h
}

fn server_hello() -> Vec<u8> {
    let mut body = vec![0x03, 0x03];
    body.extend((1u8..=32).collect::<Vec<u8>>());
    body.extend_from_slice(&[0x00, 0xc0, 0x2f, 0x00]);
    record(&handshake(0x02, &body))
}

fn certificate(certs: &[&[u8]]) -> Vec<u8> {
    let mut entries = Vec::new();
    for c in certs {
        let n = c.len();
        entries.extend_from_slice(&[(n >> 16) as u8, (n >> 8) as u8, n as u8]);
        entries.extend_from_slice(c);
    }
    let n = entries.len();
    let mut body = vec![(n >> 16) as u8, (n >> 8) as u8, n as u8];
    body.extend(entries);
    record(&handshake(0x0b, &body))
}

fn server_key_exchange() -> Vec<u8> {
    record(&handshake(0x0c, &[1, 2, 3]))
}

fn server_hello_done() -> Vec<u8> {
    record(&handshake(0x0e, &[]))
}

fn flight(second: Vec<u8>) -> Vec<u8> {
    let mut f = server_hello();
    f.extend(second);
    f.extend(server_key_exchange());
    f.extend(server_hello_done());
    f
}

#[test]
fn on_frame_reads_server_hello_and_its_length() {
    let sh = server_hello();
    let (h, n) = on_frame(&sh).expect("a ServerHello frame");
    assert!(matches!(h, Handshake::ServerHello));
    assert_eq!(n + TLS_HEADER_LEN, sh.len());
    assert_eq!(n, 42);
}

#[test]
fn on_frame_rejects_short_and_non_handshake_records() {
    assert!(on_frame(&[]).is_none());
    assert!(on_frame(&[0x16, 0x03, 0x03]).is_none());
    // The length field runs past the end.
    assert!(on_frame(&[0x16, 0x03, 0x03, 0x00, 0x09, 0x0e, 0x00, 0x00, 0x00]).is_none());
    // Application data is not a handshake.
    let mut app = server_hello_done();
    app[0] = 0x17;
    assert!(on_frame(&app).is_none());
}

#[test]
fn on_frame_tells_handshake_messages_apart() {
    let (h, _) = on_frame(&server_hello_done()).unwrap();
    assert!(matches!(h, Handshake::ServerHelloDone));
    let (h, _) = on_frame(&server_key_exchange()).unwrap();
    assert!(matches!(h, Handshake::ServerKeyExchange));
    let (h, _) = on_frame(&certificate(&[&[0xaa, 0xbb]])).unwrap();
    match h {
        Handshake::Certificate(c) => assert_eq!(c, vec![vec![0xaa, 0xbb]]),
        _ => panic!("expected a Certificate"),
    }
}

#[test]
fn is_serverhello_only_for_server_hello_first() {
    assert!(is_serverhello(&server_hello()));
    assert!(is_serverhello(&flight(certificate(&[&[1]]))));
    assert!(!is_serverhello(&server_hello_done()));
    assert!(!is_serverhello(&[]));
}

#[test]
fn parse_tls_frame_returns_the_chain() {
    let f = flight(certificate(&[&[0xaa, 0xbb, 0xcc], &[0x01]]));
    let certs = parse_tls_frame(&f).expect("a certificate chain");
    assert_eq!(certs, vec![vec![0xaa, 0xbb, 0xcc], vec![0x01]]);
}

#[test]
fn parse_tls_frame_fails_without_certificate() {
    let f = flight(server_key_exchange());
    assert!(parse_tls_frame(&f).is_err());
    // Only the first frame: the second is missing.
    assert!(parse_tls_frame(&server_hello()).is_err());
}

#[test]
fn extract_certificates_checks_the_flight() {
    let f = flight(certificate(&[&[7, 7]]));
    assert_eq!(extract_certificates(&f).unwrap().unwrap(), vec![vec![7, 7]]);
    // Truncated after the certificate: the walk would run out of frames.
    let mut t = server_hello();
    t.extend(certificate(&[&[7, 7]]));
    assert!(extract_certificates(&t).is_none());
    // No frame at all.
    assert!(extract_certificates(&[0x17]).is_none());
    // Second frame missing: the walk stops there, with an error.
    assert!(extract_certificates(&server_hello()).unwrap().is_err());
}
