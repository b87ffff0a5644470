//! The connection context: one request/response cycle over an in-memory byte
//! stream. The caller feeds the bytes received on a connection in, and sends
//! the bytes written out; everything between — head parsing, the
//! length-delimited body read, response framing — is in here.

use vstd::prelude::*;
use vstd::string::StringSliceAdditionalSpecFns;

use crate::ascii::{dec_repr, u64_to_dec};
use crate::errors::{DecodeError, EncodeError, ParseError};
use crate::json::{from_json_bytes, json_bytes, json_value_of, to_json_bytes, within_parse_depth};
use crate::lines::{has_line, head_end, head_lines, lemma_lf_at, line_at, CR, LF};
use crate::request::{copy_range, parse_head, parse_lines, Request, RequestModel};

verus! {

/// What a connection context holds: the bytes received so far, how many of
/// them are consumed, the request head once read, and the bytes written so
/// far.
pub ghost struct ContextModel {
    pub input: Seq<u8>,
    pub pos: int,
    pub request: Option<RequestModel>,
    pub output: Seq<u8>,
}

/// One connection, one request: the engine's state between feeding bytes in
/// and taking response bytes out.
pub struct Context {
    input: Vec<u8>,
    pos: usize,
    request: Option<Request>,
    output: Vec<u8>,
}

impl View for Context {
    type V = ContextModel;

    closed spec fn view(&self) -> ContextModel {
        ContextModel {
            input: self.input@,
            pos: self.pos as int,
            request: match self.request {
                Some(r) => Some(r@),
                None => None,
            },
            output: self.output@,
        }
    }
}

/// How many body bytes a read consumes: the declared length, or what is
/// there, whichever is less.
pub open spec fn taken(input: Seq<u8>, pos: int, size: nat) -> int {
    if pos + size <= input.len() {
        size as int
    } else {
        input.len() - pos
    }
}

/// The bytes a body read consumes.
pub open spec fn body_slice(input: Seq<u8>, pos: int, size: nat) -> Seq<u8> {
    input.subrange(pos, pos + taken(input, pos, size))
}

/// What a body read returns: the JSON value of the consumed bytes, or the
/// refusal.
pub open spec fn read_body_result(input: Seq<u8>, pos: int, size: nat) -> Result<
    serde_json::Value,
    DecodeError,
> {
    match json_value_of(body_slice(input, pos, size)) {
        Some(v) => Ok(v),
        None => Err(DecodeError::Malformed),
    }
}

/// Law: a JSON body written whole reads back as the value it was written
/// from, when read under a declared length that covers exactly the written
/// bytes.
pub proof fn lemma_body_round_trip(input: Seq<u8>, pos: int, size: nat, v: serde_json::Value)
    requires
        0 <= pos,
        pos + size <= input.len(),
        json_value_of(input.subrange(pos, pos + size)) == Some(v),
    ensures
        read_body_result(input, pos, size) == Ok::<serde_json::Value, DecodeError>(v),
        taken(input, pos, size) == size,
{
}

/// The line every response starts with: the protocol, the code, and the
/// literal reason text "OK", whatever the code.
pub open spec fn status_line(code: u16) -> Seq<u8> {
    "HTTP/1.1 ".spec_bytes() + dec_repr(code as nat) + " OK\r\n".spec_bytes()
}

/// Law: a status line ends with the literal reason text " OK" and a line
/// break, whatever the code.
pub proof fn lemma_status_line_ends_ok(code: u16)
    ensures
        status_line(code).len() >= " OK\r\n".spec_bytes().len(),
        status_line(code).subrange(
            status_line(code).len() - " OK\r\n".spec_bytes().len(),
            status_line(code).len() as int,
        ) == " OK\r\n".spec_bytes(),
{
    let l = status_line(code);
    let tail = " OK\r\n".spec_bytes();
    assert(l.subrange(l.len() - tail.len(), l.len() as int) =~= tail);
}

/// One response header line: the name, one space, the value, a line break.
pub open spec fn header_line(name: Seq<u8>, value: Seq<u8>) -> Seq<u8> {
    name + seq![0x20u8] + value + seq![CR, LF]
}

/// The terminal frame of a response: a content-type header, a content-length
/// header carrying the exact byte count, a blank separator line, and the raw
/// body.
pub open spec fn body_frame(content_type: Seq<u8>, body: Seq<u8>) -> Seq<u8> {
    header_line("content-type".spec_bytes(), content_type) + header_line(
        "content-length".spec_bytes(),
        dec_repr(body.len()),
    ) + seq![CR, LF] + body
}

/// Append bytes to a buffer.
fn push_bytes(out: &mut Vec<u8>, bytes: &[u8])
    ensures
        final(out)@ == old(out)@ + bytes@,
{
    let mut i: usize = 0;
    while i < bytes.len()
        invariant
            i <= bytes@.len(),
            out@ == old(out)@ + bytes@.subrange(0, i as int),
        decreases bytes@.len() - i,
    {
        proof {
            assert(out@.push(bytes@[i as int]) =~= old(out)@ + bytes@.subrange(0, i as int + 1));
        }
        out.push(bytes[i]);
        i = i + 1;
    }
    proof {
        assert(old(out)@ + bytes@.subrange(0, bytes@.len() as int) =~= old(out)@ + bytes@);
    }
}

impl Context {
    #[verifier::type_invariant]
    spec fn wf(self) -> bool {
        self.pos <= self.input@.len()
    }

    /// A fresh connection context: nothing received, nothing consumed, no
    /// request, nothing written.
    pub fn new() -> (r: Context)
        ensures
            r@.input == Seq::<u8>::empty(),
            r@.pos == 0,
            r@.request is None,
            r@.output == Seq::<u8>::empty(),
    {
        Context { input: Vec::new(), pos: 0, request: None, output: Vec::new() }
    }

    /// Hand the context bytes received on the connection.
    pub fn feed(&mut self, data: &[u8])
        ensures
            final(self)@.input == old(self)@.input + data@,
            final(self)@.pos == old(self)@.pos,
            final(self)@.request == old(self)@.request,
            final(self)@.output == old(self)@.output,
    {
        proof {
            use_type_invariant(&*self);
        }
        let saved_pos = self.pos;
        self.pos = 0;
        let mut input: Vec<u8> = Vec::new();
        core::mem::swap(&mut input, &mut self.input);
        push_bytes(&mut input, data);
        core::mem::swap(&mut input, &mut self.input);
        self.pos = saved_pos;
    }

    /// Whether the bytes received so far hold a complete request head: lines
    /// up to and including a blank one.
    pub fn head_ready(&self) -> (r: bool)
        ensures
            r == (head_end(self@.input, self@.pos) is Some),
    {
        proof {
            use_type_invariant(&*self);
        }
        match crate::lines::scan_head_end(&self.input, self.pos) {
            Some(_) => true,
            None => false,
        }
    }

    /// Whether the bytes received so far hold the whole declared body of the
    /// request that was read.
    pub fn body_ready(&self) -> (r: bool)
        ensures
            r == match self@.request {
                Some(m) => self@.pos + m.size <= self@.input.len(),
                None => false,
            },
    {
        proof {
            use_type_invariant(&*self);
        }
        match &self.request {
            None => false,
            Some(req) => self.input.len() - self.pos >= req.size,
        }
    }

    /// The request this context read, if it has read one.
    pub fn request(&self) -> (r: &Option<Request>)
        ensures
            match r {
                Some(req) => self@.request == Some(req@),
                None => self@.request is None,
            },
    {
        &self.request
    }

    /// The response bytes written so far, leaving the context's output empty.
    pub fn take_output(&mut self) -> (r: Vec<u8>)
        ensures
            r@ == old(self)@.output,
            final(self)@.output == Seq::<u8>::empty(),
            final(self)@.input == old(self)@.input,
            final(self)@.pos == old(self)@.pos,
            final(self)@.request == old(self)@.request,
    {
        proof {
            use_type_invariant(&*self);
        }
        let mut out: Vec<u8> = Vec::new();
        core::mem::swap(&mut out, &mut self.output);
        out
    }

    /// Read the request head from the received bytes: consume its lines, keep
    /// the parsed request, and return the raw target as the dispatch key. On
    /// a parse failure the head's bytes are still consumed, no request is
    /// kept, and the failure says what the head deserved.
    pub fn read_request(&mut self) -> (r: Result<Vec<u8>, ParseError>)
        requires
            head_end(old(self)@.input, old(self)@.pos) is Some,
        ensures
            final(self)@.input == old(self)@.input,
            final(self)@.output == old(self)@.output,
            head_end(old(self)@.input, old(self)@.pos) == Some(final(self)@.pos),
            match parse_head(old(self)@.input, old(self)@.pos) {
                Ok(m) => r matches Ok(u) && u@ == m.url && final(self)@.request == Some(m),
                Err(e) => r == Err::<Vec<u8>, ParseError>(e) && final(self)@.request == old(
                    self,
                )@.request,
            },
    {
        proof {
            use_type_invariant(&*self);
        }
        let ghost s = self.input@;
        let ghost p0 = self.pos as int;
        let mut lines: Vec<Vec<u8>> = Vec::new();
        proof {
            assert(lines@.map_values(|l: Vec<u8>| l@) + head_lines(s, p0) =~= head_lines(s, p0));
        }
        loop
            invariant_except_break
                head_end(s, self.pos as int) == head_end(s, p0),
                head_lines(s, p0) == lines@.map_values(|l: Vec<u8>| l@) + head_lines(
                    s,
                    self.pos as int,
                ),
            invariant
                self.pos <= self.input@.len(),
                self.input@ == s,
                self.output@ == old(self).output@,
                self.request == old(self).request,
                head_end(s, p0) is Some,
            ensures
                self.input@ == s,
                self.output@ == old(self).output@,
                self.request == old(self).request,
                self.pos <= self.input@.len(),
                head_end(s, p0) == Some(self.pos as int),
                head_lines(s, p0) == lines@.map_values(|l: Vec<u8>| l@),
            decreases s.len() - self.pos,
        {
            proof {
                lemma_lf_at(s, self.pos as int);
                assert(head_end(s, self.pos as int) is Some);
                assert(has_line(s, self.pos as int));
            }
            let lf = crate::lines::find_lf(&self.input, self.pos);
            let len = self.input.len();
            proof {
                assert(lf < len);
            }
            let mut end = lf;
            if end > self.pos && self.input[end - 1] == CR {
                end = end - 1;
            }
            let line = copy_range(&self.input, self.pos, end);
            proof {
                let raw = s.subrange(self.pos as int, lf as int);
                if end < lf {
                    assert(raw.len() > 0 && raw[raw.len() - 1] == CR);
                    assert(line@ =~= raw.drop_last());
                } else {
                    if raw.len() > 0 {
                        assert(raw[raw.len() - 1] == s[lf - 1]);
                    }
                    assert(line@ =~= raw);
                }
                assert(line@ == line_at(s, self.pos as int));
            }
            let ghost prev = self.pos as int;
            self.pos = lf + 1;
            if line.len() == 0 {
                proof {
                    assert(head_end(s, prev) == Some(self.pos as int));
                    assert(head_lines(s, prev) =~= Seq::<Seq<u8>>::empty());
                    assert(lines@.map_values(|l: Vec<u8>| l@) + head_lines(s, prev)
                        =~= lines@.map_values(|l: Vec<u8>| l@));
                }
                break;
            }
            lines.push(line);
            proof {
                assert(head_end(s, prev) == head_end(s, self.pos as int));
                assert(head_lines(s, prev) == seq![line_at(s, prev)] + head_lines(
                    s,
                    self.pos as int,
                ));
                assert(lines@.map_values(|l: Vec<u8>| l@) =~= lines@.subrange(
                    0,
                    lines@.len() - 1,
                ).map_values(|l: Vec<u8>| l@) + seq![line_at(s, prev)]);
                assert(lines@.subrange(0, lines@.len() - 1).map_values(|l: Vec<u8>| l@) + (seq![
                    line_at(s, prev),
                ] + head_lines(s, self.pos as int)) =~= lines@.map_values(|l: Vec<u8>| l@)
                    + head_lines(s, self.pos as int));
            }
        }
        match parse_lines(&lines) {
            Ok(req) => {
                let url = copy_range(&req.url, 0, req.url.len());
                proof {
                    assert(url@ =~= req.url@);
                }
                self.request = Some(req);
                Ok(url)
            },
            Err(e) => Err(e),
        }
    }

    /// Read the request body as a JSON value. Consumes exactly the declared
    /// body length from the received bytes — never more — or what is there,
    /// if the stream ends short; bytes past the declared length stay where
    /// they are. Needs a request head first, and refuses bytes that are not
    /// the JSON of any value. A value read here is within the parser's depth
    /// limit, so writing it back with `write_json` round-trips.
    pub fn read_json(&mut self) -> (r: Result<serde_json::Value, DecodeError>)
        ensures
            final(self)@.input == old(self)@.input,
            final(self)@.output == old(self)@.output,
            final(self)@.request == old(self)@.request,
            r matches Ok(v) ==> within_parse_depth(v),
            match old(self)@.request {
                None => r == Err::<serde_json::Value, DecodeError>(DecodeError::NoRequest)
                    && final(self)@.pos == old(self)@.pos,
                Some(m) => final(self)@.pos == old(self)@.pos + taken(
                    old(self)@.input,
                    old(self)@.pos,
                    m.size,
                ) && final(self)@.pos <= old(self)@.pos + m.size && r == read_body_result(
                    old(self)@.input,
                    old(self)@.pos,
                    m.size,
                ),
            },
    {
        proof {
            use_type_invariant(&*self);
        }
        let size = match &self.request {
            None => {
                return Err(DecodeError::NoRequest);
            },
            Some(req) => req.size,
        };
        let avail = self.input.len() - self.pos;
        let n = if size < avail {
            size
        } else {
            avail
        };
        let body = copy_range(&self.input, self.pos, self.pos + n);
        self.pos = self.pos + n;
        match from_json_bytes(body.as_slice()) {
            Ok(v) => Ok(v),
            Err(_) => Err(DecodeError::Malformed),
        }
    }

    /// Write the status line: the protocol, the given code, and the literal
    /// reason text "OK", whatever the code.
    pub fn write_status(&mut self, code: u16)
        ensures
            final(self)@.output == old(self)@.output + status_line(code),
            final(self)@.input == old(self)@.input,
            final(self)@.pos == old(self)@.pos,
            final(self)@.request == old(self)@.request,
    {
        proof {
            use_type_invariant(&*self);
        }
        let mut out: Vec<u8> = Vec::new();
        core::mem::swap(&mut out, &mut self.output);
        push_bytes(&mut out, "HTTP/1.1 ".as_bytes());
        let digits = u64_to_dec(code as u64);
        push_bytes(&mut out, digits.as_slice());
        push_bytes(&mut out, " OK\r\n".as_bytes());
        core::mem::swap(&mut out, &mut self.output);
        proof {
            assert(self.output@ =~= old(self).output@ + status_line(code));
        }
    }

    /// Write one header line: the name, one space, the value, a line break.
    pub fn write_header(&mut self, header: &str, val: &str)
        ensures
            final(self)@.output == old(self)@.output + header_line(
                header.spec_bytes(),
                val.spec_bytes(),
            ),
            final(self)@.input == old(self)@.input,
            final(self)@.pos == old(self)@.pos,
            final(self)@.request == old(self)@.request,
    {
        proof {
            use_type_invariant(&*self);
        }
        let mut out: Vec<u8> = Vec::new();
        core::mem::swap(&mut out, &mut self.output);
        push_bytes(&mut out, header.as_bytes());
        out.push(0x20);
        push_bytes(&mut out, val.as_bytes());
        out.push(CR);
        out.push(LF);
        core::mem::swap(&mut out, &mut self.output);
        proof {
            assert(self.output@ =~= old(self).output@ + header_line(
                header.spec_bytes(),
                val.spec_bytes(),
            ));
        }
    }

    /// Write the terminal frame of the response: a content-type header, a
    /// content-length header carrying the exact byte count of `body`, a blank
    /// line, and the raw body.
    pub fn write_body(&mut self, content_type: &str, body: &[u8])
        ensures
            final(self)@.output == old(self)@.output + body_frame(
                content_type.spec_bytes(),
                body@,
            ),
            final(self)@.input == old(self)@.input,
            final(self)@.pos == old(self)@.pos,
            final(self)@.request == old(self)@.request,
    {
        self.write_header("content-type", content_type);
        proof {
            use_type_invariant(&*self);
        }
        let mut out: Vec<u8> = Vec::new();
        core::mem::swap(&mut out, &mut self.output);
        push_bytes(&mut out, "content-length".as_bytes());
        out.push(0x20);
        let digits = u64_to_dec(body.len() as u64);
        push_bytes(&mut out, digits.as_slice());
        out.push(CR);
        out.push(LF);
        out.push(CR);
        out.push(LF);
        push_bytes(&mut out, body);
        core::mem::swap(&mut out, &mut self.output);
        proof {
            assert((body.len() as u64) as nat == body@.len());
            assert(self.output@ =~= old(self).output@ + body_frame(
                content_type.spec_bytes(),
                body@,
            ));
        }
    }

    /// Serialize a value as JSON and write it as the response body, under
    /// content-type "application/json" and the serialization's exact byte
    /// length. Serializing a `serde_json::Value` cannot fail, so the frame is
    /// always emitted; the written body reads back as an equal value wherever
    /// the value nests within the parser's recursion limit.
    pub fn write_json(&mut self, body: &serde_json::Value) -> (r: Result<(), EncodeError>)
        ensures
            r is Ok,
            final(self)@.output == old(self)@.output + body_frame(
                "application/json".spec_bytes(),
                json_bytes(*body),
            ),
            within_parse_depth(*body) ==> json_value_of(json_bytes(*body)) == Some(*body),
            final(self)@.input == old(self)@.input,
            final(self)@.pos == old(self)@.pos,
            final(self)@.request == old(self)@.request,
    {
        let buf = match to_json_bytes(body) {
            Ok(b) => b,
            Err(_) => {
                // Unreachable: the wrapper's contract rules an Err out.
                return Err(EncodeError::Serialize);
            },
        };
        self.write_body("application/json", buf.as_slice());
        Ok(())
    }
}

} // verus!
