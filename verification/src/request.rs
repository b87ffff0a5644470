//! The request parser: the request line and the header block, read from the
//! lines of a header block into a structured request.

use vstd::prelude::*;

use crate::ascii::{dec_digits, dec_value, is_wire_dec, lower, parse_dec, to_lower};
use crate::errors::ParseError;
use crate::headers::Headers;

verus! {

/// The request methods this engine recognizes. An unrecognized token is a
/// parse failure, not a representable value.
#[derive(Clone, Copy, Debug, PartialEq, Eq, Structural)]
pub enum Method {
    Get,
    Post,
    Patch,
    Put,
    Delete,
}

/// Whether a byte is the whitespace that separates tokens on a line: a space
/// or a horizontal tab.
pub open spec fn is_ws(b: u8) -> bool {
    b == 0x20 || b == 0x09
}

/// The index of the first non-whitespace byte at or after `pos`, or `l.len()`.
pub open spec fn skip_ws(l: Seq<u8>, pos: int) -> int
    decreases l.len() - pos,
{
    if pos < 0 || pos >= l.len() {
        l.len() as int
    } else if is_ws(l[pos]) {
        skip_ws(l, pos + 1)
    } else {
        pos
    }
}

/// The index of the first whitespace byte at or after `pos`, or `l.len()`.
pub open spec fn token_end(l: Seq<u8>, pos: int) -> int
    decreases l.len() - pos,
{
    if pos < 0 || pos >= l.len() {
        l.len() as int
    } else if is_ws(l[pos]) {
        pos
    } else {
        token_end(l, pos + 1)
    }
}

/// Where the first token of a line starts.
pub open spec fn token1_start(l: Seq<u8>) -> int {
    skip_ws(l, 0)
}

/// Whether a line has a first token.
pub open spec fn has_token1(l: Seq<u8>) -> bool {
    token1_start(l) < l.len()
}

/// The first token of a line.
pub open spec fn token1(l: Seq<u8>) -> Seq<u8> {
    l.subrange(token1_start(l), token_end(l, token1_start(l)))
}

/// Where the second token of a line starts.
pub open spec fn token2_start(l: Seq<u8>) -> int {
    skip_ws(l, token_end(l, token1_start(l)))
}

/// Whether a line has a second token.
pub open spec fn has_token2(l: Seq<u8>) -> bool {
    token2_start(l) < l.len()
}

/// The second token of a line.
pub open spec fn token2(l: Seq<u8>) -> Seq<u8> {
    l.subrange(token2_start(l), token_end(l, token2_start(l)))
}

/// What `skip_ws` finds: whitespace up to it, non-whitespace at it.
pub proof fn lemma_skip_ws(l: Seq<u8>, pos: int)
    requires
        0 <= pos <= l.len(),
    ensures
        pos <= skip_ws(l, pos) <= l.len(),
        skip_ws(l, pos) < l.len() ==> !is_ws(l[skip_ws(l, pos)]),
        forall|k: int| pos <= k < skip_ws(l, pos) ==> is_ws(l[k]),
    decreases l.len() - pos,
{
    if pos < l.len() && is_ws(l[pos]) {
        lemma_skip_ws(l, pos + 1);
    }
}

/// What `token_end` finds: non-whitespace up to it, whitespace at it.
pub proof fn lemma_token_end(l: Seq<u8>, pos: int)
    requires
        0 <= pos <= l.len(),
    ensures
        pos <= token_end(l, pos) <= l.len(),
        token_end(l, pos) < l.len() ==> is_ws(l[token_end(l, pos)]),
        forall|k: int| pos <= k < token_end(l, pos) ==> !is_ws(l[k]),
    decreases l.len() - pos,
{
    if pos < l.len() && !is_ws(l[pos]) {
        lemma_token_end(l, pos + 1);
    }
}

/// The method a token names, if any. Matching is exact and case-sensitive.
pub open spec fn method_of(t: Seq<u8>) -> Option<Method> {
    if t == seq![0x47u8, 0x45u8, 0x54u8] {  // GET
        Some(Method::Get)
    } else if t == seq![0x50u8, 0x4fu8, 0x53u8, 0x54u8] {  // POST
        Some(Method::Post)
    } else if t == seq![0x50u8, 0x41u8, 0x54u8, 0x43u8, 0x48u8] {  // PATCH
        Some(Method::Patch)
    } else if t == seq![0x50u8, 0x55u8, 0x54u8] {  // PUT
        Some(Method::Put)
    } else if t == seq![0x44u8, 0x45u8, 0x4cu8, 0x45u8, 0x54u8, 0x45u8] {  // DELETE
        Some(Method::Delete)
    } else {
        None
    }
}

/// Recognize a method token.
pub fn parse_method(t: &[u8]) -> (r: Option<Method>)
    ensures
        r == method_of(t@),
{
    if t.len() == 3 && t[0] == 0x47 && t[1] == 0x45 && t[2] == 0x54 {
        proof {
            assert(t@ =~= seq![0x47u8, 0x45u8, 0x54u8]);
        }
        Some(Method::Get)
    } else if t.len() == 4 && t[0] == 0x50 && t[1] == 0x4f && t[2] == 0x53 && t[3] == 0x54 {
        proof {
            assert(t@ =~= seq![0x50u8, 0x4fu8, 0x53u8, 0x54u8]);
        }
        Some(Method::Post)
    } else if t.len() == 5 && t[0] == 0x50 && t[1] == 0x41 && t[2] == 0x54 && t[3] == 0x43 && t[4]
        == 0x48 {
        proof {
            assert(t@ =~= seq![0x50u8, 0x41u8, 0x54u8, 0x43u8, 0x48u8]);
        }
        Some(Method::Patch)
    } else if t.len() == 3 && t[0] == 0x50 && t[1] == 0x55 && t[2] == 0x54 {
        proof {
            assert(t@ =~= seq![0x50u8, 0x55u8, 0x54u8]);
        }
        Some(Method::Put)
    } else if t.len() == 6 && t[0] == 0x44 && t[1] == 0x45 && t[2] == 0x4c && t[3] == 0x45 && t[4]
        == 0x54 && t[5] == 0x45 {
        proof {
            assert(t@ =~= seq![0x44u8, 0x45u8, 0x4cu8, 0x45u8, 0x54u8, 0x45u8]);
        }
        Some(Method::Delete)
    } else {
        None
    }
}

/// Law: a token parses to a method exactly when it is one of the five
/// recognized method tokens, and to that method.
pub proof fn lemma_method_token(t: Seq<u8>)
    ensures
        method_of(t) is Some <==> (t == seq![0x47u8, 0x45u8, 0x54u8] || t == seq![
            0x50u8,
            0x4fu8,
            0x53u8,
            0x54u8,
        ] || t == seq![0x50u8, 0x41u8, 0x54u8, 0x43u8, 0x48u8] || t == seq![0x50u8, 0x55u8, 0x54u8]
            || t == seq![0x44u8, 0x45u8, 0x4cu8, 0x45u8, 0x54u8, 0x45u8]),
{
}

/// A structured request head, as parsing leaves it in the connection.
pub ghost struct RequestModel {
    pub method: Method,
    pub url: Seq<u8>,
    pub headers: Map<Seq<u8>, Seq<u8>>,
    pub size: nat,
}

/// A parsed request: its method, its raw target, its header mapping, and the
/// declared body length.
#[derive(Debug)]
pub struct Request {
    pub method: Method,
    pub url: Vec<u8>,
    pub headers: Headers,
    pub size: usize,
}

impl View for Request {
    type V = RequestModel;

    open spec fn view(&self) -> RequestModel {
        RequestModel {
            method: self.method,
            url: self.url@,
            headers: self.headers@,
            size: self.size as nat,
        }
    }
}

impl Request {
    /// An empty request: a GET of the empty target with no headers and no
    /// body.
    pub fn new() -> (r: Request)
        ensures
            r@.method == Method::Get,
            r@.url == Seq::<u8>::empty(),
            r@.headers == Map::<Seq<u8>, Seq<u8>>::empty(),
            r@.size == 0,
    {
        Request { method: Method::Get, url: Vec::new(), headers: Headers::new(), size: 0 }
    }
}

/// What the request line gives: a recognized method and a target, or the
/// failure the line deserves. Tokens past the second (an HTTP version) are
/// ignored.
pub open spec fn parse_request_line(l: Seq<u8>) -> Result<(Method, Seq<u8>), ParseError> {
    if !has_token1(l) {
        Err(ParseError::UnknownMethod)
    } else {
        match method_of(token1(l)) {
            None => Err(ParseError::UnknownMethod),
            Some(m) => if !has_token2(l) {
                Err(ParseError::MissingTarget)
            } else {
                Ok((m, token2(l)))
            },
        }
    }
}

/// What a header line gives: a lowercased name and a value, or a failure
/// where the line has fewer than two tokens. Tokens past the second are
/// ignored.
pub open spec fn parse_header_line(l: Seq<u8>) -> Result<(Seq<u8>, Seq<u8>), ParseError> {
    if !has_token1(l) || !has_token2(l) {
        Err(ParseError::MalformedHeader)
    } else {
        Ok((lower(token1(l)), token2(l)))
    }
}

/// The mapping the header lines build over `acc`, each line inserted in
/// order, a later line overwriting an earlier one of the same name.
pub open spec fn headers_of(lines: Seq<Seq<u8>>, acc: Map<Seq<u8>, Seq<u8>>) -> Result<
    Map<Seq<u8>, Seq<u8>>,
    ParseError,
>
    decreases lines.len(),
{
    if lines.len() == 0 {
        Ok(acc)
    } else {
        match parse_header_line(lines[0]) {
            Err(e) => Err(e),
            Ok((k, v)) => headers_of(lines.skip(1), acc.insert(k, v)),
        }
    }
}

/// The lowercased name of the header that declares the body length.
pub open spec fn content_length_key() -> Seq<u8> {
    seq![
        0x63u8,
        0x6fu8,
        0x6eu8,
        0x74u8,
        0x65u8,
        0x6eu8,
        0x74u8,
        0x2du8,
        0x6cu8,
        0x65u8,
        0x6eu8,
        0x67u8,
        0x74u8,
        0x68u8,
    ]
}

/// The declared body length a header mapping gives: the value of
/// "content-length" read as a decimal (one optional leading plus sign, then
/// digits) that fits in `usize`, or zero where the header is absent.
pub open spec fn declared_len(h: Map<Seq<u8>, Seq<u8>>) -> Result<nat, ParseError> {
    if !h.contains_key(content_length_key()) {
        Ok(0)
    } else if is_wire_dec(h[content_length_key()]) && dec_value(
        dec_digits(h[content_length_key()]),
    ) <= usize::MAX {
        Ok(dec_value(dec_digits(h[content_length_key()])))
    } else {
        Err(ParseError::InvalidContentLength)
    }
}

/// What a whole header block gives: the request parsed from its lines, or the
/// first failure. A block with no lines at all has no method token.
pub open spec fn parse_head_lines(lines: Seq<Seq<u8>>) -> Result<RequestModel, ParseError> {
    if lines.len() == 0 {
        Err(ParseError::UnknownMethod)
    } else {
        match parse_request_line(lines[0]) {
            Err(e) => Err(e),
            Ok((m, u)) => match headers_of(lines.skip(1), Map::empty()) {
                Err(e) => Err(e),
                Ok(h) => match declared_len(h) {
                    Err(e) => Err(e),
                    Ok(n) => Ok(RequestModel { method: m, url: u, headers: h, size: n }),
                },
            },
        }
    }
}

/// Law: a parsed request declares exactly the body length its
/// "content-length" header carries, and zero where none is present.
pub proof fn lemma_declared_body_length(lines: Seq<Seq<u8>>, m: RequestModel)
    requires
        parse_head_lines(lines) == Ok::<RequestModel, ParseError>(m),
    ensures
        m.size == if m.headers.contains_key(content_length_key()) {
            dec_value(dec_digits(m.headers[content_length_key()]))
        } else {
            0
        },
{
}

/// What a whole received stream gives from `pos`: the request parsed from
/// the lines of the header block that starts there.
pub open spec fn parse_head(s: Seq<u8>, pos: int) -> Result<RequestModel, ParseError> {
    parse_head_lines(crate::lines::head_lines(s, pos))
}

/// Copy a range of a byte string.
pub fn copy_range(s: &Vec<u8>, from: usize, to: usize) -> (r: Vec<u8>)
    requires
        from <= to <= s@.len(),
    ensures
        r@ == s@.subrange(from as int, to as int),
{
    let mut r: Vec<u8> = Vec::new();
    let mut i: usize = from;
    while i < to
        invariant
            from <= i <= to <= s@.len(),
            r@.len() == i - from,
            forall|j: int| 0 <= j < i - from ==> r@[j] == s@[from + j],
        decreases to - i,
    {
        r.push(s[i]);
        i = i + 1;
    }
    proof {
        assert(r@ =~= s@.subrange(from as int, to as int));
    }
    r
}

/// The first two tokens of a line, where the line has them.
fn first_two_tokens(l: &Vec<u8>) -> (r: (Option<Vec<u8>>, Option<Vec<u8>>))
    ensures
        match r.0 {
            Some(t) => has_token1(l@) && t@ == token1(l@),
            None => !has_token1(l@),
        },
        match r.1 {
            Some(t) => has_token2(l@) && t@ == token2(l@),
            None => !has_token2(l@),
        },
{
    let s1 = skip_ws_exec(l, 0);
    if s1 == l.len() {
        proof {
            lemma_skip_ws(l@, 0);
        }
        return (None, None);
    }
    let e1 = token_end_exec(l, s1);
    let t1 = copy_range(l, s1, e1);
    let s2 = skip_ws_exec(l, e1);
    if s2 == l.len() {
        return (Some(t1), None);
    }
    let e2 = token_end_exec(l, s2);
    let t2 = copy_range(l, s2, e2);
    (Some(t1), Some(t2))
}

/// Find the first non-whitespace byte at or after `pos`.
fn skip_ws_exec(l: &Vec<u8>, pos: usize) -> (r: usize)
    requires
        pos <= l@.len(),
    ensures
        r == skip_ws(l@, pos as int),
        pos <= r <= l@.len(),
{
    proof {
        lemma_skip_ws(l@, pos as int);
    }
    let mut i: usize = pos;
    while i < l.len()
        invariant
            pos <= i <= l@.len(),
            skip_ws(l@, pos as int) == skip_ws(l@, i as int),
        decreases l@.len() - i,
    {
        if !(l[i] == 0x20 || l[i] == 0x09) {
            return i;
        }
        i = i + 1;
    }
    i
}

/// Find the first whitespace byte at or after `pos`.
fn token_end_exec(l: &Vec<u8>, pos: usize) -> (r: usize)
    requires
        pos <= l@.len(),
    ensures
        r == token_end(l@, pos as int),
        pos <= r <= l@.len(),
{
    proof {
        lemma_token_end(l@, pos as int);
    }
    let mut i: usize = pos;
    while i < l.len()
        invariant
            pos <= i <= l@.len(),
            token_end(l@, pos as int) == token_end(l@, i as int),
        decreases l@.len() - i,
    {
        if l[i] == 0x20 || l[i] == 0x09 {
            return i;
        }
        i = i + 1;
    }
    i
}

/// Parse the request line of a head.
pub fn read_first_line(l: &Vec<u8>) -> (r: Result<(Method, Vec<u8>), ParseError>)
    ensures
        match r {
            Ok((m, u)) => parse_request_line(l@) == Ok::<(Method, Seq<u8>), ParseError>(
                (m, u@),
            ),
            Err(e) => parse_request_line(l@) == Err::<(Method, Seq<u8>), ParseError>(e),
        },
{
    let (t1, t2) = first_two_tokens(l);
    let t1 = match t1 {
        None => {
            return Err(ParseError::UnknownMethod);
        },
        Some(t) => t,
    };
    let m = match parse_method(t1.as_slice()) {
        None => {
            return Err(ParseError::UnknownMethod);
        },
        Some(m) => m,
    };
    match t2 {
        None => Err(ParseError::MissingTarget),
        Some(u) => Ok((m, u)),
    }
}

/// Parse one header line into a lowercased name and a value.
pub fn read_header_line(l: &Vec<u8>) -> (r: Result<(Vec<u8>, Vec<u8>), ParseError>)
    ensures
        match r {
            Ok((k, v)) => parse_header_line(l@) == Ok::<(Seq<u8>, Seq<u8>), ParseError>(
                (k@, v@),
            ),
            Err(e) => parse_header_line(l@) == Err::<(Seq<u8>, Seq<u8>), ParseError>(e),
        },
{
    let (t1, t2) = first_two_tokens(l);
    match (t1, t2) {
        (Some(k), Some(v)) => Ok((to_lower(k.as_slice()), v)),
        _ => Err(ParseError::MalformedHeader),
    }
}

/// Parse a whole header block, given as its lines.
pub fn parse_lines(lines: &Vec<Vec<u8>>) -> (r: Result<Request, ParseError>)
    ensures
        match r {
            Ok(req) => parse_head_lines(lines@.map_values(|l: Vec<u8>| l@)) == Ok::<
                RequestModel,
                ParseError,
            >(req@),
            Err(e) => parse_head_lines(lines@.map_values(|l: Vec<u8>| l@)) == Err::<
                RequestModel,
                ParseError,
            >(e),
        },
{
    let ghost spec_lines = lines@.map_values(|l: Vec<u8>| l@);
    if lines.len() == 0 {
        return Err(ParseError::UnknownMethod);
    }
    let (method, url) = match read_first_line(&lines[0]) {
        Err(e) => {
            return Err(e);
        },
        Ok(p) => p,
    };
    let mut headers = Headers::new();
    let mut i: usize = 1;
    while i < lines.len()
        invariant
            1 <= i <= spec_lines.len(),
            spec_lines == lines@.map_values(|l: Vec<u8>| l@),
            spec_lines.len() == lines@.len(),
            parse_request_line(spec_lines[0]) == Ok::<(Method, Seq<u8>), ParseError>(
                (method, url@),
            ),
            headers_of(spec_lines.skip(1), Map::empty()) == headers_of(
                spec_lines.skip(i as int),
                headers@,
            ),
        decreases lines@.len() - i,
    {
        proof {
            assert(spec_lines.skip(i as int)[0] == spec_lines[i as int]);
        }
        let (k, v) = match read_header_line(&lines[i]) {
            Err(e) => {
                return Err(e);
            },
            Ok(p) => p,
        };
        headers.insert(k.as_slice(), v);
        proof {
            crate::ascii::lemma_lower_idempotent(token1(spec_lines[i as int]));
            assert(spec_lines.skip(i as int).skip(1) =~= spec_lines.skip(i as int + 1));
        }
        i = i + 1;
    }
    proof {
        assert(spec_lines.skip(i as int) =~= Seq::<Seq<u8>>::empty());
    }
    let key = content_length_name();
    proof {
        assert(lower(key@) =~= content_length_key());
    }
    let size = match headers.get(key.as_slice()) {
        None => 0,
        Some(v) => match parse_dec(v.as_slice()) {
            None => {
                return Err(ParseError::InvalidContentLength);
            },
            Some(n) => n,
        },
    };
    Ok(Request { method, url, headers, size })
}

/// The name of the header that declares the body length, as the engine looks
/// it up.
fn content_length_name() -> (r: Vec<u8>)
    ensures
        r@ == content_length_key(),
{
    let mut r: Vec<u8> = Vec::new();
    r.push(0x63);  // c
    r.push(0x6f);  // o
    r.push(0x6e);  // n
    r.push(0x74);  // t
    r.push(0x65);  // e
    r.push(0x6e);  // n
    r.push(0x74);  // t
    r.push(0x2d);  // -
    r.push(0x6c);  // l
    r.push(0x65);  // e
    r.push(0x6e);  // n
    r.push(0x67);  // g
    r.push(0x74);  // t
    r.push(0x68);  // h
    proof {
        assert(r@ =~= content_length_key());
    }
    r
}

} // verus!
