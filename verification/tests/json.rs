//! The body codec: JSON in, JSON out, exactly as many bytes as declared.

use minihttp::context::Context;
use minihttp::errors::DecodeError;

fn ok_true() -> serde_json::Value {
    let mut m = serde_json::Map::new();
    m.insert("ok".to_string(), serde_json::Value::Bool(true));
    serde_json::Value::Object(m)
}

#[test]
fn write_json_round_trips_and_counts_bytes() {
    let value = ok_true();
    let mut ctx = Context::new();
    ctx.write_json(&value).unwrap();
    let out = ctx.take_output();
    let sep = out.windows(4).position(|w| w == b"\r\n\r\n").unwrap();
    let head = &out[..sep];
    let body = &out[sep + 4..];
    let decoded: serde_json::Value = serde_json::from_slice(body).unwrap();
    assert_eq!(decoded, value);
    let head_text = String::from_utf8(head.to_vec()).unwrap();
    let mut saw_type = false;
    let mut saw_len = false;
    for line in head_text.split("\r\n") {
        if let Some(v) = line.strip_prefix("content-type ") {
            assert_eq!(v, "application/json");
            saw_type = true;
        }
        if let Some(v) = line.strip_prefix("content-length ") {
            assert_eq!(v.parse::<usize>().unwrap(), body.len());
            saw_len = true;
        }
    }
    assert!(saw_type && saw_len);
    assert_eq!(body, serde_json::to_vec(&value).unwrap().as_slice());
}

#[test]
fn written_body_reads_back_through_a_connection() {
    let value = ok_true();
    let mut writer = Context::new();
    writer.write_json(&value).unwrap();
    let out = writer.take_output();
    let sep = out.windows(4).position(|w| w == b"\r\n\r\n").unwrap();
    let body = &out[sep + 4..];

    let mut reader = Context::new();
    let head = format!("POST /move HTTP/1.1\r\ncontent-length {}\r\n\r\n", body.len());
    reader.feed(head.as_bytes());
    reader.feed(body);
    reader.read_request().unwrap();
    assert!(reader.body_ready());
    let read_back = reader.read_json().unwrap();
    assert_eq!(read_back, value);
}

#[test]
fn empty_object_body_reads_back() {
    let mut ctx = Context::new();
    ctx.feed(b"POST /move HTTP/1.1\r\nContent-length 2\r\n\r\n{}");
    ctx.read_request().unwrap();
    let v = ctx.read_json().unwrap();
    assert_eq!(v, serde_json::Value::Object(serde_json::Map::new()));
}

#[test]
fn read_json_without_a_request_is_refused() {
    let mut ctx = Context::new();
    ctx.feed(b"{}");
    assert_eq!(ctx.read_json(), Err(DecodeError::NoRequest));
}

#[test]
fn non_json_body_is_malformed() {
    let mut ctx = Context::new();
    ctx.feed(b"POST /move HTTP/1.1\r\ncontent-length 3\r\n\r\nabc");
    ctx.read_request().unwrap();
    assert_eq!(ctx.read_json(), Err(DecodeError::Malformed));
}

#[test]
fn truncated_body_is_malformed() {
    let mut ctx = Context::new();
    ctx.feed(b"POST /move HTTP/1.1\r\ncontent-length 9\r\n\r\n{\"a\":");
    ctx.read_request().unwrap();
    assert_eq!(ctx.read_json(), Err(DecodeError::Malformed));
}

#[test]
fn read_never_consumes_past_the_declared_length() {
    // Two declared bytes, then trailing garbage on the same connection: the
    // read must stop at the declared length, or decoding would fail.
    let mut ctx = Context::new();
    ctx.feed(b"POST /move HTTP/1.1\r\ncontent-length 2\r\n\r\n{}garbage");
    ctx.read_request().unwrap();
    let v = ctx.read_json().unwrap();
    assert_eq!(v, serde_json::Value::Object(serde_json::Map::new()));
}

#[test]
fn declared_zero_reads_an_empty_body() {
    let mut ctx = Context::new();
    ctx.feed(b"POST /move HTTP/1.1\r\n\r\n{}");
    ctx.read_request().unwrap();
    assert_eq!(ctx.request().as_ref().unwrap().size, 0);
    // Nothing declared, nothing consumed: an empty body is not JSON.
    assert_eq!(ctx.read_json(), Err(DecodeError::Malformed));
}

#[test]
fn float_body_round_trips_exactly() {
    // A value whose serialization the default-precision parser reads back one
    // ulp off; with exact float parsing it must come back identical.
    let value = serde_json::Value::from(51.248178375505404f64);
    let mut writer = Context::new();
    writer.write_json(&value).unwrap();
    let out = writer.take_output();
    let sep = out.windows(4).position(|w| w == b"\r\n\r\n").unwrap();
    let decoded: serde_json::Value = serde_json::from_slice(&out[sep + 4..]).unwrap();
    assert_eq!(decoded, value);
}

#[test]
fn a_parsed_float_body_rewrites_identically() {
    let body = b"{\"pi\":3.141592653589793}";
    let mut reader = Context::new();
    let head = format!("POST /move HTTP/1.1\r\ncontent-length {}\r\n\r\n", body.len());
    reader.feed(head.as_bytes());
    reader.feed(body);
    reader.read_request().unwrap();
    let v = reader.read_json().unwrap();
    let mut writer = Context::new();
    writer.write_json(&v).unwrap();
    let out = writer.take_output();
    let sep = out.windows(4).position(|w| w == b"\r\n\r\n").unwrap();
    let v2: serde_json::Value = serde_json::from_slice(&out[sep + 4..]).unwrap();
    assert_eq!(v2, v);
}
