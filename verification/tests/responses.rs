//! Response construction, dispatch and target resolution.

use tinyhttpd::handler::{
    not_implemented_response, plan_from_header, plan_request, resolve_target,
    response_bytes, serve_static_response, FileOutcome, Plan, RequestError,
};
use tinyhttpd::request::ParseError;
use tinyhttpd::response::{build_head, render_decimal, BuildError, HeaderField, ResponseHead};

#[test]
fn render_decimal_exact_values() {
    assert_eq!(render_decimal(0), b"0".to_vec());
    assert_eq!(render_decimal(7), b"7".to_vec());
    assert_eq!(render_decimal(200), b"200".to_vec());
    assert_eq!(render_decimal(12345), b"12345".to_vec());
    assert_eq!(render_decimal(u64::MAX), b"18446744073709551615".to_vec());
}

#[test]
fn head_serializes_in_exact_order() {
    let head = ResponseHead {
        version: b"HTTP/1.1".to_vec(),
        status: 200,
        reason: b"OK".to_vec(),
        fields: vec![
            HeaderField { name: b"content-type".to_vec(), value: b"text/html".to_vec() },
            HeaderField { name: b"x-second".to_vec(), value: b"later".to_vec() },
        ],
    };
    let bytes = build_head(&head).unwrap();
    assert_eq!(
        bytes,
        b"HTTP/1.1 200 OK\r\ncontent-type: text/html\r\nx-second: later\r\n\r\n".to_vec()
    );
}

#[test]
fn head_with_reserved_byte_is_refused() {
    let head = ResponseHead {
        version: b"HTTP/1.1".to_vec(),
        status: 200,
        reason: b"O\rK".to_vec(),
        fields: Vec::new(),
    };
    assert_eq!(build_head(&head), Err(BuildError::InvalidToken));

    let head = ResponseHead {
        version: b"HTTP/1.1".to_vec(),
        status: 200,
        reason: b"OK".to_vec(),
        fields: vec![HeaderField { name: b"bad:name".to_vec(), value: b"v".to_vec() }],
    };
    assert_eq!(build_head(&head), Err(BuildError::InvalidToken));
}

#[test]
fn served_file_yields_exact_200_response() {
    let response = serve_static_response(FileOutcome::Content(b"hello".to_vec()));
    let bytes = response_bytes(&response).unwrap();
    assert_eq!(
        bytes,
        b"HTTP/1.1 200 OK\r\ncontent-type: text/html\r\ncontent-length: 5\r\n\r\nhello".to_vec()
    );
}

#[test]
fn empty_file_yields_content_length_zero() {
    let response = serve_static_response(FileOutcome::Content(Vec::new()));
    let bytes = response_bytes(&response).unwrap();
    assert_eq!(
        bytes,
        b"HTTP/1.1 200 OK\r\ncontent-type: text/html\r\ncontent-length: 0\r\n\r\n".to_vec()
    );
}

#[test]
fn missing_file_yields_bare_404_response() {
    let response = serve_static_response(FileOutcome::NotFound);
    let bytes = response_bytes(&response).unwrap();
    assert_eq!(bytes, b"HTTP/1.1 404 Not Found\r\n\r\nnot found".to_vec());
}

#[test]
fn unreadable_file_is_answered_like_a_missing_one() {
    let response = serve_static_response(FileOutcome::Unreadable);
    let bytes = response_bytes(&response).unwrap();
    assert_eq!(bytes, b"HTTP/1.1 404 Not Found\r\n\r\nnot found".to_vec());
}

#[test]
fn non_get_methods_yield_bare_501_response() {
    let response = not_implemented_response();
    let bytes = response_bytes(&response).unwrap();
    assert_eq!(bytes, b"HTTP/1.1 501 Not Implemented\r\n\r\nnot implemented".to_vec());
}

#[test]
fn get_dispatches_to_file_resolution() {
    match plan_request(b"GET", b"/index.html") {
        Ok(Plan::Fetch(path)) => assert_eq!(path, b"./index.html".to_vec()),
        _ => panic!("expected a fetch plan"),
    }
}

#[test]
fn every_other_method_token_is_not_implemented() {
    let methods: [&[u8]; 5] = [b"get", b"POST", b"HEAD", b"", &[0xC3, 0xA9]];
    for method in methods.iter() {
        match plan_request(method, b"/index.html") {
            Ok(Plan::RespondNotImplemented) => {}
            _ => panic!("expected the not-implemented plan"),
        }
    }
}

#[test]
fn resolution_strips_the_query_and_keeps_the_path() {
    let resolved = resolve_target(b"/a/b?q=1").unwrap();
    assert_eq!(resolved, b"./a/b".to_vec());
}

#[test]
fn unparsable_target_fails_resolution() {
    assert!(resolve_target(b"/a b").is_none());
    match plan_request(b"GET", b"/a b") {
        Err(RequestError::UnresolvableTarget) => {}
        _ => panic!("expected an unresolvable target"),
    }
}

#[test]
fn full_header_plans_a_fetch() {
    match plan_from_header(b"GET /hello.html HTTP/1.1\r\nhost: x\r\n\r\n") {
        Ok(Plan::Fetch(path)) => assert_eq!(path, b"./hello.html".to_vec()),
        _ => panic!("expected a fetch plan"),
    }
}

#[test]
fn full_header_with_other_method_plans_501() {
    match plan_from_header(b"POST /hello.html HTTP/1.1\r\n\r\n") {
        Ok(Plan::RespondNotImplemented) => {}
        _ => panic!("expected the not-implemented plan"),
    }
}

#[test]
fn incomplete_header_is_reported_malformed() {
    match plan_from_header(b"GET /hello.html HTT") {
        Err(RequestError::Malformed(ParseError::MissingTerminator)) => {}
        _ => panic!("expected a malformed-request error"),
    }
}

#[test]
fn identical_requests_get_identical_responses() {
    let content = b"<html>same</html>".to_vec();
    let first = response_bytes(&serve_static_response(FileOutcome::Content(content.clone())))
        .unwrap();
    let second = response_bytes(&serve_static_response(FileOutcome::Content(content)))
        .unwrap();
    assert_eq!(first, second);
}
