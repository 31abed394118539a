use tls_client_hello_parser::encode::encode;
use tls_client_hello_parser::{
    ClientHelloPayload, ContentType, DetectError, Detector, Extension, HandshakeType, ParseError,
    Parser,
};

fn be16_bytes(v: u16) -> [u8; 2] {
    [(v >> 8) as u8, (v & 0xff) as u8]
}

fn sni_ext(host: &[u8]) -> Extension {
    let mut data = Vec::new();
    let list_len = (host.len() + 3) as u16;
    data.extend_from_slice(&be16_bytes(list_len));
    data.push(0);
    data.extend_from_slice(&be16_bytes(host.len() as u16));
    data.extend_from_slice(host);
    Extension { extension_type: 0, data }
}

fn sigalgs_ext(schemes: &[u16]) -> Extension {
    let mut data = Vec::new();
    data.extend_from_slice(&be16_bytes((2 * schemes.len()) as u16));
    for s in schemes {
        data.extend_from_slice(&be16_bytes(*s));
    }
    Extension { extension_type: 13, data }
}

fn alpn_ext(protos: &[&[u8]]) -> Extension {
    let mut body = Vec::new();
    for p in protos {
        body.push(p.len() as u8);
        body.extend_from_slice(p);
    }
    let mut data = Vec::new();
    data.extend_from_slice(&be16_bytes(body.len() as u16));
    data.extend_from_slice(&body);
    Extension { extension_type: 16, data }
}

fn versions_ext(versions: &[u16]) -> Extension {
    let mut data = Vec::new();
    data.push((2 * versions.len()) as u8);
    for v in versions {
        data.extend_from_slice(&be16_bytes(*v));
    }
    Extension { extension_type: 43, data }
}

fn early_data_ext() -> Extension {
    Extension { extension_type: 42, data: Vec::new() }
}

fn sample_payload(extensions: Vec<Extension>) -> ClientHelloPayload {
    ClientHelloPayload {
        legacy_version: 0x0303,
        random: vec![7; 32],
        session_id: Vec::new(),
        cipher_suites: vec![0x1301],
        compression_methods: vec![0],
        extensions,
    }
}

fn hello_bytes(p: &ClientHelloPayload) -> Vec<u8> {
    encode(p).expect("encodable")
}

fn detect_in_chunks(bytes: &[u8], chunk: usize) -> ClientHelloPayload {
    let mut detector = Detector::new();
    for piece in bytes.chunks(chunk) {
        match detector.feed(piece) {
            Ok(None) => continue,
            Ok(Some(p)) => return p,
            Err(e) => panic!("{e:?}"),
        }
    }
    panic!("no decision after all chunks");
}

#[test]
fn chunk_size_independence() {
    let payload = sample_payload(vec![sni_ext(b"example.com"), sigalgs_ext(&[0x0403])]);
    let bytes = hello_bytes(&payload);
    let p1 = detect_in_chunks(&bytes, 1);
    let p3 = detect_in_chunks(&bytes, 3);
    let p7 = detect_in_chunks(&bytes, 7);
    let pall = detect_in_chunks(&bytes, bytes.len());
    assert_eq!(p1, payload);
    assert_eq!(p1, p3);
    assert_eq!(p3, p7);
    assert_eq!(p7, pall);
}

#[test]
fn partiality() {
    let payload = sample_payload(vec![sni_ext(b"example.com"), sigalgs_ext(&[0x0403])]);
    let bytes = hello_bytes(&payload);
    // An empty chunk would signal end of stream, so the empty prefix
    // is exercised through a one-byte feed instead.
    for n in 1..bytes.len() {
        let mut parser = Parser::new();
        match parser.parse(&bytes[..n]) {
            Ok(None) => {}
            x => panic!("prefix of {n} bytes: {x:?}"),
        }
    }
}

#[test]
fn eof_handling() {
    let mut detector = Detector::new();
    match detector.feed(b"") {
        Err(DetectError::EndOfStream) => {}
        x => panic!("{x:?}"),
    }

    let mut detector = Detector::new();
    match detector.feed(b"foo") {
        Ok(None) => {}
        x => panic!("{x:?}"),
    }
    match detector.feed(b"") {
        Err(DetectError::EndOfStream) => {}
        x => panic!("{x:?}"),
    }
}

#[test]
fn non_client_hello_rejection() {
    // One well-formed Handshake record whose body declares ServerHello.
    let bytes = [22, 3, 1, 0, 4, 2, 0, 0, 0];
    let mut detector = Detector::new();
    match detector.feed(&bytes) {
        Err(DetectError::Parse(ParseError::InappropriateHandshakeMessage { expected, got })) => {
            assert_eq!(expected, HandshakeType::ClientHello);
            assert_eq!(got, HandshakeType::ServerHello);
        }
        x => panic!("{x:?}"),
    }
}

#[test]
fn wrong_content_type() {
    // A well-formed record of type Alert as the very first record.
    let bytes = [21, 3, 1, 0, 2, 1, 2];
    let mut detector = Detector::new();
    match detector.feed(&bytes) {
        Err(DetectError::Parse(ParseError::UnexpectedContentType(got))) => {
            assert_eq!(got, ContentType::Alert);
        }
        x => panic!("{x:?}"),
    }
}

#[test]
fn round_trip() {
    let payload = sample_payload(vec![sni_ext(b"example.com"), early_data_ext()]);
    let bytes = hello_bytes(&payload);
    let mut parser = Parser::new();
    match parser.parse(&bytes) {
        Ok(Some(decoded)) => {
            assert_eq!(decoded, payload);
            assert_eq!(decoded.sni_hostname().as_deref(), Some("example.com"));
            assert_eq!(decoded.cipher_suites, vec![0x1301]);
            assert_eq!(decoded.extensions.len(), 2);
        }
        x => panic!("{x:?}"),
    }
}

#[test]
fn oversized_record() {
    // Header declares 0x4801 = 18433 payload bytes, one more than the
    // maximum; rejected from the header alone.
    let bytes = [22, 3, 1, 0x48, 0x01];
    let mut detector = Detector::new();
    match detector.feed(&bytes) {
        Err(DetectError::Parse(ParseError::CorruptRecord)) => {}
        x => panic!("{x:?}"),
    }
}

#[test]
fn missing_signature_algorithms() {
    let payload = sample_payload(vec![sni_ext(b"example.com")]);
    let bytes = hello_bytes(&payload);

    let mut detector = Detector::new();
    match detector.feed(&bytes) {
        Err(DetectError::Parse(ParseError::MissingSignatureAlgorithms)) => {}
        x => panic!("{x:?}"),
    }

    let mut parser = Parser::new();
    match parser.parse(&bytes) {
        Ok(Some(decoded)) => match decoded.client_hello() {
            Err(ParseError::MissingSignatureAlgorithms) => {}
            x => panic!("{x:?}"),
        },
        x => panic!("{x:?}"),
    }
}

#[test]
fn projection_of_all_fields() {
    let payload = sample_payload(vec![
        sni_ext(b"example.com"),
        sigalgs_ext(&[0x0403, 0x0804]),
        alpn_ext(&[b"h2", b"http/1.1"]),
        versions_ext(&[0x0304]),
        early_data_ext(),
    ]);
    let bytes = hello_bytes(&payload);
    let decoded = detect_in_chunks(&bytes, 11);
    assert_eq!(decoded.get_versions_extension(), Some(vec![0x0304]));
    let ch = decoded.client_hello().expect("client_hello");
    assert_eq!(ch.server_name().as_deref(), Some("example.com"));
    assert_eq!(ch.signature_schemes(), &vec![0x0403, 0x0804]);
    assert_eq!(
        ch.alpn(),
        &Some(vec![b"h2".to_vec(), b"http/1.1".to_vec()])
    );
    assert_eq!(ch.cipher_suites(), &vec![0x1301]);
}

#[test]
fn invalid_hostname_treated_as_absent() {
    let payload = sample_payload(vec![sni_ext(b"exa_mple.com"), sigalgs_ext(&[0x0403])]);
    let bytes = hello_bytes(&payload);
    let decoded = detect_in_chunks(&bytes, 5);
    assert_eq!(decoded.sni_hostname(), None);
    let ch = decoded.client_hello().expect("client_hello");
    assert_eq!(ch.server_name(), &None);
}

#[test]
fn hostname_label_rules() {
    let cases: [(&[u8], bool); 7] = [
        (b"example.com", true),
        (b"a-b.c0", true),
        (b"-bad.com", false),
        (b"bad-.com", false),
        (b"bad..com", false),
        (b".bad.com", false),
        (b"bad.com.", false),
    ];
    for (host, ok) in cases {
        let payload = sample_payload(vec![sni_ext(host), sigalgs_ext(&[0x0403])]);
        let bytes = hello_bytes(&payload);
        let decoded = detect_in_chunks(&bytes, 4);
        assert_eq!(decoded.sni_hostname().is_some(), ok, "{host:?}");
    }

    // Label length boundary: 63 bytes is the longest label.
    let mut label63 = vec![b'a'; 63];
    label63.extend_from_slice(b".com");
    let mut label64 = vec![b'a'; 64];
    label64.extend_from_slice(b".com");
    // Name length boundary: 253 bytes is the longest name.
    let mut name253 = Vec::new();
    for _ in 0..63 {
        name253.extend_from_slice(b"aaa.");
    }
    name253.extend_from_slice(b"b");
    assert_eq!(name253.len(), 253);
    let mut name254 = Vec::new();
    for _ in 0..63 {
        name254.extend_from_slice(b"aaa.");
    }
    name254.extend_from_slice(b"bc");
    assert_eq!(name254.len(), 254);
    let long_cases: [(&[u8], bool); 4] =
        [(&label63, true), (&label64, false), (&name253, true), (&name254, false)];
    for (host, ok) in long_cases {
        let payload = sample_payload(vec![sni_ext(host), sigalgs_ext(&[0x0403])]);
        let bytes = hello_bytes(&payload);
        let decoded = detect_in_chunks(&bytes, 16);
        assert_eq!(decoded.sni_hostname().is_some(), ok, "len {}", host.len());
    }
}

#[test]
fn handshake_spanning_records() {
    let payload = sample_payload(vec![sni_ext(b"example.com"), sigalgs_ext(&[0x0403])]);
    let whole = hello_bytes(&payload);
    let handshake = &whole[5..];
    let (part1, part2) = handshake.split_at(10);
    let mut bytes = Vec::new();
    bytes.extend_from_slice(&[22, 3, 1]);
    bytes.extend_from_slice(&be16_bytes(part1.len() as u16));
    bytes.extend_from_slice(part1);
    bytes.extend_from_slice(&[22, 3, 1]);
    bytes.extend_from_slice(&be16_bytes(part2.len() as u16));
    bytes.extend_from_slice(part2);
    let decoded = detect_in_chunks(&bytes, bytes.len());
    assert_eq!(decoded, payload);
    let again = detect_in_chunks(&bytes, 3);
    assert_eq!(again, payload);
}

#[test]
fn non_handshake_record_during_reassembly() {
    // A complete ClientHello record is still being reassembled when an
    // Alert record arrives: rejected, not silently skipped.
    let payload = sample_payload(vec![sni_ext(b"example.com"), sigalgs_ext(&[0x0403])]);
    let whole = hello_bytes(&payload);
    let handshake = &whole[5..];
    let (part1, part2) = handshake.split_at(10);
    let mut bytes = Vec::new();
    bytes.extend_from_slice(&[22, 3, 1]);
    bytes.extend_from_slice(&be16_bytes(part1.len() as u16));
    bytes.extend_from_slice(part1);
    bytes.extend_from_slice(&[21, 3, 1, 0, 2, 1, 2]);
    bytes.extend_from_slice(&[22, 3, 1]);
    bytes.extend_from_slice(&be16_bytes(part2.len() as u16));
    bytes.extend_from_slice(part2);
    let mut detector = Detector::new();
    match detector.feed(&bytes) {
        Err(DetectError::Parse(ParseError::UnexpectedContentType(got))) => {
            assert_eq!(got, ContentType::Alert);
        }
        x => panic!("{x:?}"),
    }
}

#[test]
fn corrupt_message_payload() {
    // Complete handshake message whose declared two-byte body cannot
    // hold a ClientHello.
    let bytes = [22, 3, 1, 0, 6, 1, 0, 0, 2, 3, 3];
    let mut detector = Detector::new();
    match detector.feed(&bytes) {
        Err(DetectError::Parse(ParseError::CorruptMessagePayload)) => {}
        x => panic!("{x:?}"),
    }
}

#[test]
fn zero_length_records_are_consumed() {
    let payload = sample_payload(vec![sni_ext(b"example.com"), sigalgs_ext(&[0x0403])]);
    let whole = hello_bytes(&payload);
    let mut bytes = vec![22, 3, 1, 0, 0];
    bytes.extend_from_slice(&whole);
    let decoded = detect_in_chunks(&bytes, bytes.len());
    assert_eq!(decoded, payload);
}

#[test]
fn trailing_bytes_do_not_change_the_decision() {
    let payload = sample_payload(vec![sni_ext(b"example.com"), sigalgs_ext(&[0x0403])]);
    let mut bytes = hello_bytes(&payload);
    bytes.extend_from_slice(b"junk");
    let decoded = detect_in_chunks(&bytes, bytes.len());
    assert_eq!(decoded, payload);
}

#[test]
fn buffer_limit_exceeded() {
    let mut detector = Detector::new();
    let chunk = vec![0u8; 65537];
    match detector.feed(&chunk) {
        Err(DetectError::BufferLimitExceeded) => {}
        x => panic!("{x:?}"),
    }
}

#[test]
fn encode_refuses_oversized_fields() {
    let mut payload = sample_payload(vec![sigalgs_ext(&[0x0403])]);
    payload.session_id = vec![0; 33];
    assert_eq!(encode(&payload), None);

    let mut payload = sample_payload(vec![sigalgs_ext(&[0x0403])]);
    payload.random = vec![0; 31];
    assert_eq!(encode(&payload), None);
}
