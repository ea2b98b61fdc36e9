//! The header: `%PDF-` and the version on the first line, then an optional
//! comment line of binary bytes.
use vstd::prelude::*;
use vstd::slice::slice_subrange;
use crate::scanner::{keyword_bytes, keyword_text};
use crate::structure::{Header, HeaderModel, Keyword, ParseError};
use crate::text::{ascii_chars, ascii_string, is_ascii_bytes};
use crate::utils::{bytes_at, is_eol_byte, is_pdf_eol, line_break_len, line_break_length, occurs_at};

verus! {

/// The end of the line that holds position `i`: the first end-of-line byte
/// from `i` on, or the end of the buffer.
pub open spec fn line_end(s: Seq<u8>, i: int) -> int
    decreases s.len() - i,
{
    if 0 <= i < s.len() && !is_eol_byte(s[i]) {
        line_end(s, i + 1)
    } else {
        i
    }
}

/// Some byte of `lo..hi` is 128 or more.
pub open spec fn has_high_byte(s: Seq<u8>, lo: int, hi: int) -> bool {
    exists|k: int| lo <= k < hi && #[trigger] s[k] >= 128
}

/// The header at `pos`: `%PDF-`, then a non-empty ASCII version up to the
/// end of the line; the file has binary data when the next line holds a
/// byte of 128 or more.
pub open spec fn header_spec(s: Seq<u8>, pos: int) -> Result<HeaderModel, ParseError> {
    let v = pos + 5;
    let e = line_end(s, v);
    let next = e + line_break_len(s, e);
    if !occurs_at(s, pos, keyword_text(Keyword::Header)) || e == v || !is_ascii_bytes(
        s.subrange(v, e),
    ) {
        Err(ParseError::MalformedHeader)
    } else {
        Ok(
            HeaderModel {
                version: ascii_chars(s.subrange(v, e)),
                has_binary_comment: has_high_byte(s, next, line_end(s, next)),
            },
        )
    }
}

/// A buffer that starts with `%PDF-1.7`, then a comment line of bytes of 128
/// or more, reads as version `1.7` with binary data.
pub proof fn lemma_binary_comment_header(s: Seq<u8>)
    requires
        15 <= s.len(),
        s.subrange(0, 15) == seq![
            37u8, 80u8, 68u8, 70u8, 45u8, 49u8, 46u8, 55u8, 10u8,
            37u8, 195u8, 162u8, 195u8, 163u8, 10u8,
        ],
    ensures
        header_spec(s, 0) == Ok::<HeaderModel, ParseError>(
            HeaderModel { version: seq!['1', '.', '7'], has_binary_comment: true },
        ),
{
    let p = s.subrange(0, 15);
    assert forall|i: int| 0 <= i < 15 implies s[i] == #[trigger] p[i] by {}
    assert(s.subrange(0, 5) =~= keyword_text(Keyword::Header));
    assert(line_end(s, 8) == 8);
    assert(line_end(s, 7) == 8);
    assert(line_end(s, 6) == 8);
    assert(line_end(s, 5) == 8);
    assert(line_break_len(s, 8) == 1);
    assert(line_end(s, 14) == 14);
    assert(line_end(s, 13) == 14);
    assert(line_end(s, 12) == 14);
    assert(line_end(s, 11) == 14);
    assert(line_end(s, 10) == 14);
    assert(line_end(s, 9) == 14);
    assert(s[10] >= 128);
    let v = s.subrange(5, 8);
    assert(v =~= seq![49u8, 46u8, 55u8]);
    assert(is_ascii_bytes(v));
    assert(ascii_chars(v) =~= seq!['1', '.', '7']);
}

/// A buffer that starts with `%PDF-1.4`, then the line `ASCII_ONLY_LINE`,
/// has no binary data.
pub proof fn lemma_ascii_only_header(s: Seq<u8>)
    requires
        25 <= s.len(),
        s.subrange(0, 25) == seq![
            37u8, 80u8, 68u8, 70u8, 45u8, 49u8, 46u8, 52u8, 10u8,
            65u8, 83u8, 67u8, 73u8, 73u8, 95u8, 79u8, 78u8, 76u8, 89u8, 95u8, 76u8, 73u8, 78u8,
            69u8, 10u8,
        ],
    ensures
        header_spec(s, 0) is Ok,
        header_spec(s, 0).unwrap().has_binary_comment == false,
{
    let p = s.subrange(0, 25);
    assert forall|i: int| 0 <= i < 25 implies s[i] == #[trigger] p[i] by {}
    assert(s.subrange(0, 5) =~= keyword_text(Keyword::Header));
    assert(line_end(s, 8) == 8);
    assert(line_end(s, 7) == 8);
    assert(line_end(s, 6) == 8);
    assert(line_end(s, 5) == 8);
    assert(line_break_len(s, 8) == 1);
    assert(line_end(s, 24) == 24);
    assert(line_end(s, 23) == 24);
    assert(line_end(s, 22) == 24);
    assert(line_end(s, 21) == 24);
    assert(line_end(s, 20) == 24);
    assert(line_end(s, 19) == 24);
    assert(line_end(s, 18) == 24);
    assert(line_end(s, 17) == 24);
    assert(line_end(s, 16) == 24);
    assert(line_end(s, 15) == 24);
    assert(line_end(s, 14) == 24);
    assert(line_end(s, 13) == 24);
    assert(line_end(s, 12) == 24);
    assert(line_end(s, 11) == 24);
    assert(line_end(s, 10) == 24);
    assert(line_end(s, 9) == 24);
    assert(!has_high_byte(s, 9, 24));
    assert(is_ascii_bytes(s.subrange(5, 8)));
}

/// Finds the end of the row that holds `pos`, and where the row after it
/// begins.
pub fn take_first_row(data: &[u8], pos: usize) -> (r: (usize, usize))
    requires
        pos <= data@.len(),
    ensures
        r.0 == line_end(data@, pos as int),
        r.1 == r.0 + line_break_len(data@, r.0 as int),
        pos <= r.0 <= r.1 <= data@.len(),
{
    let mut j = pos;
    while j < data.len() && !is_pdf_eol(data[j])
        invariant
            pos <= j <= data@.len(),
            line_end(data@, pos as int) == line_end(data@, j as int),
        decreases data@.len() - j,
    {
        j = j + 1;
    }
    let lb = line_break_length(data, j);
    (j, j + lb)
}

/// Reads the row that starts at `pos`, the comment line of the header:
/// returns where it ends, where the row after it begins, and whether it
/// holds a byte of 128 or more, the mark of a file with binary data.
pub fn take_second_row(data: &[u8], pos: usize) -> (r: (usize, usize, bool))
    requires
        pos <= data@.len(),
    ensures
        r.0 == line_end(data@, pos as int),
        r.1 == r.0 + line_break_len(data@, r.0 as int),
        pos <= r.0 <= r.1 <= data@.len(),
        r.2 == has_high_byte(data@, pos as int, r.0 as int),
{
    let (end, next) = take_first_row(data, pos);
    let mut k = pos;
    while k < end
        invariant
            pos <= k <= end <= data@.len(),
            end == line_end(data@, pos as int),
            next == end + line_break_len(data@, end as int),
            end <= next <= data@.len(),
            forall|m: int| pos <= m < k ==> #[trigger] data@[m] < 128,
        decreases end - k,
    {
        if data[k] >= 128 {
            assert(data@[k as int] >= 128);
            return (end, next, true);
        }
        k = k + 1;
    }
    (end, next, false)
}

/// Reads the header at `pos`, the start of the `%PDF-` keyword.
pub fn read_header(data: &[u8], pos: usize) -> (r: Result<Header, ParseError>)
    ensures
        match header_spec(data@, pos as int) {
            Ok(h) => r matches Ok(x) && x@ == h,
            Err(e) => r == Err::<Header, ParseError>(e),
        },
{
    let tag = keyword_bytes(Keyword::Header);
    if pos > data.len() || data.len() - pos < tag.len() || !bytes_at(data, pos, &tag) {
        return Err(ParseError::MalformedHeader);
    }
    let v = pos + 5;
    let (e, next) = take_first_row(data, v);
    if e == v {
        return Err(ParseError::MalformedHeader);
    }
    let mut k = v;
    while k < e
        invariant
            v <= k <= e <= data@.len(),
            v == pos + 5,
            e == line_end(data@, v as int),
            e != v,
            occurs_at(data@, pos as int, keyword_text(Keyword::Header)),
            forall|m: int| v <= m < k ==> #[trigger] data@[m] < 128,
        decreases e - k,
    {
        if data[k] >= 128 {
            assert(data@.subrange(v as int, e as int)[k - v] >= 128);
            assert(!is_ascii_bytes(data@.subrange(v as int, e as int)));
            return Err(ParseError::MalformedHeader);
        }
        k = k + 1;
    }
    assert(is_ascii_bytes(data@.subrange(v as int, e as int)));
    let version = match ascii_string(slice_subrange(data, v, e)) {
        Some(text) => text,
        None => {
            return Err(ParseError::MalformedHeader);
        },
    };
    let (_, _, has_binary_comment) = take_second_row(data, next);
    Ok(Header { version, has_binary_comment })
}

} // verus!
