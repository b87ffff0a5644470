//! The line reader: a byte stream split into text lines at LF boundaries,
//! with one trailing CR stripped, up to the first zero-length line, which
//! ends a header block.

use vstd::prelude::*;

verus! {

/// The line feed byte.
pub const LF: u8 = 0x0a;

/// The carriage return byte.
pub const CR: u8 = 0x0d;

/// The index of the first line feed at or after `pos`, or `s.len()` if there
/// is none.
pub open spec fn lf_at(s: Seq<u8>, pos: int) -> int
    decreases s.len() - pos,
{
    if pos < 0 || pos >= s.len() {
        s.len() as int
    } else if s[pos] == LF {
        pos
    } else {
        lf_at(s, pos + 1)
    }
}

/// What `lf_at` finds: the first line feed at or after `pos`, if any.
pub proof fn lemma_lf_at(s: Seq<u8>, pos: int)
    requires
        0 <= pos <= s.len(),
    ensures
        pos <= lf_at(s, pos) <= s.len(),
        lf_at(s, pos) < s.len() ==> s[lf_at(s, pos)] == LF,
        forall|k: int| pos <= k < lf_at(s, pos) ==> s[k] != LF,
    decreases s.len() - pos,
{
    if pos < s.len() && s[pos] != LF {
        lemma_lf_at(s, pos + 1);
    }
}

/// Whether the stream holds a complete line at `pos`: a line feed somewhere
/// at or after it.
pub open spec fn has_line(s: Seq<u8>, pos: int) -> bool {
    lf_at(s, pos) < s.len()
}

/// A line with one trailing CR removed.
pub open spec fn strip_cr(l: Seq<u8>) -> Seq<u8> {
    if l.len() > 0 && l[l.len() - 1] == CR {
        l.drop_last()
    } else {
        l
    }
}

/// The content of the line that starts at `pos`: the bytes up to the next
/// line feed, with one trailing CR removed.
pub open spec fn line_at(s: Seq<u8>, pos: int) -> Seq<u8> {
    strip_cr(s.subrange(pos, lf_at(s, pos)))
}

/// The position just after the line that starts at `pos`.
pub open spec fn line_end(s: Seq<u8>, pos: int) -> int {
    lf_at(s, pos) + 1
}

/// The position just after the first zero-length line at or after `pos` (the
/// end of a header block), or `None` while the stream does not yet hold one.
pub open spec fn head_end(s: Seq<u8>, pos: int) -> Option<int>
    decreases s.len() - pos,
        via head_end_dec
{
    if pos < 0 || !has_line(s, pos) {
        None
    } else if line_at(s, pos).len() == 0 {
        Some(line_end(s, pos))
    } else {
        head_end(s, line_end(s, pos))
    }
}

#[via_fn]
proof fn head_end_dec(s: Seq<u8>, pos: int) {
    if !(pos < 0 || !has_line(s, pos)) {
        lemma_lf_at(s, pos);
    }
}

/// The lines of the header block that starts at `pos`: every line before the
/// first zero-length one.
pub open spec fn head_lines(s: Seq<u8>, pos: int) -> Seq<Seq<u8>>
    decreases s.len() - pos,
        via head_lines_dec
{
    if pos < 0 || !has_line(s, pos) || line_at(s, pos).len() == 0 {
        Seq::empty()
    } else {
        seq![line_at(s, pos)] + head_lines(s, line_end(s, pos))
    }
}

#[via_fn]
proof fn head_lines_dec(s: Seq<u8>, pos: int) {
    if !(pos < 0 || !has_line(s, pos) || line_at(s, pos).len() == 0) {
        lemma_lf_at(s, pos);
    }
}

/// Find the first line feed at or after `pos`.
pub fn find_lf(s: &Vec<u8>, pos: usize) -> (r: usize)
    requires
        pos <= s@.len(),
    ensures
        r == lf_at(s@, pos as int),
{
    let mut i: usize = pos;
    while i < s.len()
        invariant
            pos <= i <= s@.len(),
            lf_at(s@, pos as int) == lf_at(s@, i as int),
        decreases s@.len() - i,
    {
        if s[i] == LF {
            return i;
        }
        i = i + 1;
    }
    i
}

/// Whether the stream holds a complete header block at `pos`: lines up to and
/// including a zero-length one.
pub fn scan_head_end(s: &Vec<u8>, pos: usize) -> (r: Option<usize>)
    requires
        pos <= s@.len(),
    ensures
        match r {
            Some(e) => head_end(s@, pos as int) == Some(e as int),
            None => head_end(s@, pos as int) is None,
        },
{
    let mut i: usize = pos;
    loop
        invariant
            pos <= i <= s@.len(),
            head_end(s@, pos as int) == head_end(s@, i as int),
        decreases s@.len() - i,
    {
        let lf = find_lf(s, i);
        proof {
            lemma_lf_at(s@, i as int);
        }
        if lf >= s.len() {
            return None;
        }
        let start_empty = lf == i || (lf == i + 1 && s[i] == CR);
        proof {
            assert(start_empty == (line_at(s@, i as int).len() == 0)) by {
                assert(s@.subrange(i as int, lf as int).len() == lf - i);
                if lf == i + 1 {
                    assert(s@.subrange(i as int, lf as int)[0] == s@[i as int]);
                }
            };
        }
        if start_empty {
            return Some(lf + 1);
        }
        i = lf + 1;
    }
}

} // verus!
