//! Response writing: byte-exact framing.

use minihttp::context::Context;

#[test]
fn status_then_body_produces_exact_bytes() {
    let mut ctx = Context::new();
    ctx.write_status(404);
    ctx.write_body("application/json", b"{\"code\":404}");
    let out = ctx.take_output();
    assert_eq!(
        out,
        b"HTTP/1.1 404 OK\r\ncontent-type application/json\r\ncontent-length 12\r\n\r\n{\"code\":404}".to_vec()
    );
}

#[test]
fn status_line_always_ends_with_ok() {
    for code in [200u16, 404, 500, 301, 0, 65535] {
        let mut ctx = Context::new();
        ctx.write_status(code);
        let out = ctx.take_output();
        assert!(out.ends_with(b" OK\r\n"));
        let expected = format!("HTTP/1.1 {} OK\r\n", code);
        assert_eq!(out, expected.as_bytes().to_vec());
    }
}

#[test]
fn write_header_is_space_separated() {
    let mut ctx = Context::new();
    ctx.write_header("x-request-id", "42");
    assert_eq!(ctx.take_output(), b"x-request-id 42\r\n".to_vec());
}

#[test]
fn take_output_drains() {
    let mut ctx = Context::new();
    ctx.write_status(200);
    let first = ctx.take_output();
    assert!(!first.is_empty());
    assert_eq!(ctx.take_output(), Vec::<u8>::new());
}

#[test]
fn content_length_counts_the_exact_bytes() {
    let mut ctx = Context::new();
    ctx.write_body("text/plain", b"hello");
    assert_eq!(
        ctx.take_output(),
        b"content-type text/plain\r\ncontent-length 5\r\n\r\nhello".to_vec()
    );
}

#[test]
fn empty_body_has_length_zero() {
    let mut ctx = Context::new();
    ctx.write_body("text/plain", b"");
    assert_eq!(
        ctx.take_output(),
        b"content-type text/plain\r\ncontent-length 0\r\n\r\n".to_vec()
    );
}
