//! Request-head parsing over the wire bytes.

use minihttp::context::Context;
use minihttp::errors::ParseError;
use minihttp::request::{parse_method, Method};

#[test]
fn ping_request_parses() {
    let mut ctx = Context::new();
    ctx.feed(b"GET /ping HTTP/1.1\r\nHost x\r\n\r\n");
    assert!(ctx.head_ready());
    let url = ctx.read_request().unwrap();
    assert_eq!(url, b"/ping".to_vec());
    let req = ctx.request().as_ref().unwrap();
    assert_eq!(req.method, Method::Get);
    assert_eq!(req.url, b"/ping".to_vec());
    assert_eq!(req.headers.get(b"host").unwrap().as_slice(), b"x");
    assert_eq!(req.size, 0);
}

#[test]
fn post_with_content_length_parses() {
    let mut ctx = Context::new();
    ctx.feed(b"POST /move HTTP/1.1\r\nContent-length 2\r\n\r\n{}");
    assert!(ctx.head_ready());
    let url = ctx.read_request().unwrap();
    assert_eq!(url, b"/move".to_vec());
    let req = ctx.request().as_ref().unwrap();
    assert_eq!(req.method, Method::Post);
    assert_eq!(req.url, b"/move".to_vec());
    assert_eq!(req.size, 2);
}

#[test]
fn missing_target_is_rejected_without_response() {
    let mut ctx = Context::new();
    ctx.feed(b"GET\r\n\r\n");
    assert!(ctx.head_ready());
    let r = ctx.read_request();
    assert_eq!(r, Err(ParseError::MissingTarget));
    assert!(ctx.request().is_none());
    assert_eq!(ctx.take_output(), Vec::<u8>::new());
}

#[test]
fn unknown_method_is_rejected() {
    let mut ctx = Context::new();
    ctx.feed(b"FOO /x HTTP/1.1\r\n\r\n");
    assert_eq!(ctx.read_request(), Err(ParseError::UnknownMethod));
}

#[test]
fn lowercased_method_token_is_rejected() {
    let mut ctx = Context::new();
    ctx.feed(b"get /x HTTP/1.1\r\n\r\n");
    assert_eq!(ctx.read_request(), Err(ParseError::UnknownMethod));
}

#[test]
fn empty_head_has_no_method() {
    let mut ctx = Context::new();
    ctx.feed(b"\r\n");
    assert!(ctx.head_ready());
    assert_eq!(ctx.read_request(), Err(ParseError::UnknownMethod));
}

#[test]
fn every_recognized_method_parses() {
    assert_eq!(parse_method(b"GET"), Some(Method::Get));
    assert_eq!(parse_method(b"POST"), Some(Method::Post));
    assert_eq!(parse_method(b"PUT"), Some(Method::Put));
    assert_eq!(parse_method(b"PATCH"), Some(Method::Patch));
    assert_eq!(parse_method(b"DELETE"), Some(Method::Delete));
    assert_eq!(parse_method(b"HEAD"), None);
    assert_eq!(parse_method(b"GETX"), None);
    assert_eq!(parse_method(b""), None);
}

#[test]
fn each_method_parses_in_a_full_head() {
    for (token, method) in [
        (&b"GET"[..], Method::Get),
        (&b"POST"[..], Method::Post),
        (&b"PUT"[..], Method::Put),
        (&b"PATCH"[..], Method::Patch),
        (&b"DELETE"[..], Method::Delete),
    ] {
        let mut head = token.to_vec();
        head.extend_from_slice(b" /x HTTP/1.1\r\n\r\n");
        let mut ctx = Context::new();
        ctx.feed(&head);
        let url = ctx.read_request().unwrap();
        assert_eq!(url, b"/x".to_vec());
        assert_eq!(ctx.request().as_ref().unwrap().method, method);
    }
}

#[test]
fn malformed_header_line_is_rejected() {
    let mut ctx = Context::new();
    ctx.feed(b"GET / HTTP/1.1\r\nBadHeader\r\n\r\n");
    assert_eq!(ctx.read_request(), Err(ParseError::MalformedHeader));
}

#[test]
fn unparseable_content_length_is_rejected() {
    let mut ctx = Context::new();
    ctx.feed(b"GET / HTTP/1.1\r\ncontent-length abc\r\n\r\n");
    assert_eq!(ctx.read_request(), Err(ParseError::InvalidContentLength));
}

#[test]
fn oversized_content_length_is_rejected() {
    let mut ctx = Context::new();
    ctx.feed(b"GET / HTTP/1.1\r\ncontent-length 99999999999999999999999999\r\n\r\n");
    assert_eq!(ctx.read_request(), Err(ParseError::InvalidContentLength));
}

#[test]
fn content_length_header_is_case_insensitive() {
    let mut ctx = Context::new();
    ctx.feed(b"POST /move HTTP/1.1\r\nCONTENT-LENGTH 5\r\n\r\n");
    ctx.read_request().unwrap();
    assert_eq!(ctx.request().as_ref().unwrap().size, 5);
}

#[test]
fn last_header_occurrence_wins() {
    let mut ctx = Context::new();
    ctx.feed(b"GET / HTTP/1.1\r\nX-Tag a\r\nX-Tag b\r\n\r\n");
    ctx.read_request().unwrap();
    let req = ctx.request().as_ref().unwrap();
    assert_eq!(req.headers.get(b"x-tag").unwrap().as_slice(), b"b");
}

#[test]
fn bare_lf_line_endings_are_accepted() {
    let mut ctx = Context::new();
    ctx.feed(b"GET /ping HTTP/1.1\nHost x\n\n");
    let url = ctx.read_request().unwrap();
    assert_eq!(url, b"/ping".to_vec());
    let req = ctx.request().as_ref().unwrap();
    assert_eq!(req.headers.get(b"host").unwrap().as_slice(), b"x");
}

#[test]
fn head_not_ready_until_blank_line() {
    let mut ctx = Context::new();
    ctx.feed(b"GET /ping HTTP/1.1\r\nHost x\r\n");
    assert!(!ctx.head_ready());
    ctx.feed(b"\r\n");
    assert!(ctx.head_ready());
}

#[test]
fn http_version_token_is_ignored() {
    let mut ctx = Context::new();
    ctx.feed(b"GET /ping\r\n\r\n");
    let url = ctx.read_request().unwrap();
    assert_eq!(url, b"/ping".to_vec());
}

#[test]
fn content_length_accepts_a_leading_plus() {
    let mut ctx = Context::new();
    ctx.feed(b"POST /move HTTP/1.1\r\ncontent-length +5\r\n\r\n");
    ctx.read_request().unwrap();
    assert_eq!(ctx.request().as_ref().unwrap().size, 5);
}

#[test]
fn bare_plus_content_length_is_rejected() {
    let mut ctx = Context::new();
    ctx.feed(b"POST /move HTTP/1.1\r\ncontent-length +\r\n\r\n");
    assert_eq!(ctx.read_request(), Err(ParseError::InvalidContentLength));
}

#[test]
fn negative_content_length_is_rejected() {
    let mut ctx = Context::new();
    ctx.feed(b"POST /move HTTP/1.1\r\ncontent-length -5\r\n\r\n");
    assert_eq!(ctx.read_request(), Err(ParseError::InvalidContentLength));
}

#[test]
fn plus_before_garbage_is_rejected() {
    let mut ctx = Context::new();
    ctx.feed(b"POST /move HTTP/1.1\r\ncontent-length +5x\r\n\r\n");
    assert_eq!(ctx.read_request(), Err(ParseError::InvalidContentLength));
}
