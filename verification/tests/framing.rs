//! Header acquisition and request parsing against concrete byte streams.

use tinyhttpd::reader::{collect_available, HeaderReader, PROBE_CHUNK};
use tinyhttpd::request::{parse_request, ParseError};

#[test]
fn empty_stream_takes_one_cycle() {
    let (bytes, cycles) = collect_available(&[]);
    assert_eq!(bytes, Vec::<u8>::new());
    assert_eq!(cycles, 1);
}

#[test]
fn short_stream_takes_one_cycle() {
    let stream = b"GET / HTTP/1.1\r\n\r\n";
    assert!(stream.len() < PROBE_CHUNK);
    let (bytes, cycles) = collect_available(stream);
    assert_eq!(bytes, stream.to_vec());
    assert_eq!(cycles, 1);
}

#[test]
fn window_boundary_spends_one_extra_cycle() {
    // A complete request whose terminator ends exactly on a probe-window
    // boundary: two full windows, then one empty probe to detect the end.
    let mut stream = b"GET /".to_vec();
    stream.extend_from_slice(&vec![b'a'; 2 * PROBE_CHUNK - 18]);
    stream.extend_from_slice(b" HTTP/1.1\r\n\r\n");
    assert_eq!(stream.len(), 2 * PROBE_CHUNK);
    let (bytes, cycles) = collect_available(&stream);
    assert_eq!(bytes, stream.to_vec());
    assert_eq!(cycles, 3);
}

#[test]
fn just_under_boundary_needs_no_extra_cycle() {
    let stream = [7u8; 49];
    let (bytes, cycles) = collect_available(&stream);
    assert_eq!(bytes, stream.to_vec());
    assert_eq!(cycles, 2);
}

#[test]
fn fragmented_delivery_reconstructs_original() {
    let original: Vec<u8> = b"GET /index.html HTTP/1.1\r\nhost: localhost\r\n\r\n".to_vec();
    let cuts = [
        vec![25, original.len()],
        vec![1, 24, original.len()],
        vec![5, 10, 15, 20, 40, original.len()],
    ];
    for cut in cuts.iter() {
        let mut reader = HeaderReader::new();
        let mut start = 0;
        for &end in cut.iter() {
            reader.absorb(&original[start..end]);
            start = end;
        }
        if !reader.is_complete() {
            reader.absorb(&[]);
        }
        assert_eq!(reader.into_bytes(), original);
    }
}

#[test]
fn full_window_never_completes_the_reader() {
    let mut reader = HeaderReader::new();
    reader.absorb(&[65u8; PROBE_CHUNK]);
    assert!(!reader.is_complete());
    reader.absorb(&[]);
    assert!(reader.is_complete());
}

#[test]
fn parses_request_line_and_fields() {
    let bytes = b"GET /index.html HTTP/1.1\r\nhost: localhost\r\naccept: text/plain\r\n\r\n";
    let parsed = parse_request(bytes).unwrap();
    assert_eq!(parsed.line.method, b"GET".to_vec());
    assert_eq!(parsed.line.target, b"/index.html".to_vec());
    assert_eq!(parsed.line.version, b"HTTP/1.1".to_vec());
    assert_eq!(parsed.fields.len(), 2);
    assert_eq!(parsed.fields[0].name, b"host".to_vec());
    assert_eq!(parsed.fields[0].value, b"localhost".to_vec());
    assert_eq!(parsed.fields[1].name, b"accept".to_vec());
    assert_eq!(parsed.fields[1].value, b"text/plain".to_vec());
    assert_eq!(parsed.header_len, bytes.len());
}

#[test]
fn header_length_stops_before_body_bytes() {
    let bytes = b"GET / HTTP/1.1\r\n\r\nBODY";
    let parsed = parse_request(bytes).unwrap();
    assert_eq!(parsed.header_len, bytes.len() - 4);
    assert_eq!(parsed.fields.len(), 0);
}

#[test]
fn field_value_leading_spaces_are_dropped() {
    let bytes = b"GET / HTTP/1.1\r\na:   spaced\r\n\r\n";
    let parsed = parse_request(bytes).unwrap();
    assert_eq!(parsed.fields[0].name, b"a".to_vec());
    assert_eq!(parsed.fields[0].value, b"spaced".to_vec());
}

#[test]
fn empty_method_is_preserved_not_rejected() {
    let bytes = b" / HTTP/1.1\r\n\r\n";
    let parsed = parse_request(bytes).unwrap();
    assert_eq!(parsed.line.method, Vec::<u8>::new());
    assert_eq!(parsed.line.target, b"/".to_vec());
}

#[test]
fn empty_buffer_is_malformed() {
    assert!(matches!(parse_request(&[]), Err(ParseError::MissingTerminator)));
}

#[test]
fn missing_terminator_is_malformed() {
    let r = parse_request(b"GET / HTTP/1.1\r\nhost: x\r\n");
    assert!(matches!(r, Err(ParseError::MissingTerminator)));
}

#[test]
fn request_line_without_two_spaces_is_malformed() {
    assert!(matches!(
        parse_request(b"GET/index.html\r\n\r\n"),
        Err(ParseError::BadRequestLine)
    ));
    assert!(matches!(
        parse_request(b"GET /index.html\r\n\r\n"),
        Err(ParseError::BadRequestLine)
    ));
}

#[test]
fn empty_version_is_malformed() {
    assert!(matches!(
        parse_request(b"GET / \r\n\r\n"),
        Err(ParseError::BadRequestLine)
    ));
}

#[test]
fn field_line_without_colon_is_malformed() {
    assert!(matches!(
        parse_request(b"GET / HTTP/1.1\r\nbadfield\r\n\r\n"),
        Err(ParseError::BadField)
    ));
}

#[test]
fn field_line_with_nothing_after_colon_is_malformed() {
    assert!(matches!(
        parse_request(b"GET / HTTP/1.1\r\na:\r\n\r\n"),
        Err(ParseError::BadField)
    ));
}
