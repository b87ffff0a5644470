//! Header lookup: case-insensitive both ways.

use minihttp::headers::Headers;

#[test]
fn lookup_by_any_casing_finds_the_value() {
    let mut h = Headers::new();
    h.insert(b"X-Api-Key", b"v1".to_vec());
    assert_eq!(h.get(b"x-api-key").unwrap().as_slice(), b"v1");
    assert_eq!(h.get(b"X-API-KEY").unwrap().as_slice(), b"v1");
    assert_eq!(h.get(b"X-Api-Key").unwrap().as_slice(), b"v1");
    assert_eq!(h.get(b"xX-aPi-kEy"), None);
    assert_eq!(h.get(b"other"), None);
}

#[test]
fn names_are_stored_lowercased() {
    let mut h = Headers::new();
    h.insert(b"HOST", b"example".to_vec());
    assert_eq!(h.get(b"host").unwrap().as_slice(), b"example");
}

#[test]
fn later_insert_overwrites_under_any_casing() {
    let mut h = Headers::new();
    h.insert(b"Content-Length", b"1".to_vec());
    h.insert(b"CONTENT-LENGTH", b"2".to_vec());
    assert_eq!(h.get(b"content-length").unwrap().as_slice(), b"2");
}

#[test]
fn distinct_names_stay_distinct() {
    let mut h = Headers::new();
    h.insert(b"a", b"1".to_vec());
    h.insert(b"b", b"2".to_vec());
    assert_eq!(h.get(b"A").unwrap().as_slice(), b"1");
    assert_eq!(h.get(b"B").unwrap().as_slice(), b"2");
}
