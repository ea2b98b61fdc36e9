//! The trailer: the dictionary `<< /Key value ... >>` after the `trailer`
//! keyword.
use vstd::prelude::*;
use vstd::slice::{slice_subrange, slice_to_vec};
use crate::characters::{is_white_space, is_white_space_byte};
use crate::structure::{ObjectStatus, ParseError, Trailer, TrailerKey, TrailerValue, TrailerValueModel};
use crate::text::{ascii_chars, ascii_string, is_ascii_bytes};
use crate::utils::{
    all_digits, bytes_at, decimal_value, digits_end, lemma_digits_end, parse_decimal, skip_digits,
};

verus! {

/// `<`
pub const LESS: u8 = 60;
/// `>`
pub const GREATER: u8 = 62;
/// `/`, which opens a name.
pub const SOLIDUS: u8 = 47;
/// `[`
pub const LEFT_BRACKET: u8 = 91;
/// `]`
pub const RIGHT_BRACKET: u8 = 93;
/// `+`
pub const PLUS: u8 = 43;
/// `-`
pub const MINUS: u8 = 45;

/// A hexadecimal digit.
pub open spec fn is_hex_digit(b: u8) -> bool {
    (48u8 <= b <= 57u8) || (65u8 <= b <= 70u8) || (97u8 <= b <= 102u8)
}

/// The first position from `i` on that does not hold white space, below `hi`.
pub open spec fn skip_ws(s: Seq<u8>, i: int, hi: int) -> int
    decreases hi - i,
{
    if 0 <= i < hi && i < s.len() && is_white_space_byte(s[i]) {
        skip_ws(s, i + 1, hi)
    } else {
        i
    }
}

/// The end of `lo..hi` once the white space at its end is dropped.
pub open spec fn trim_end(s: Seq<u8>, lo: int, hi: int) -> int
    decreases hi - lo,
{
    if lo < hi && 0 < hi <= s.len() && is_white_space_byte(s[hi - 1]) {
        trim_end(s, lo, hi - 1)
    } else {
        hi
    }
}

/// The end of a key that starts at `i`: the next white space.
pub open spec fn key_end(s: Seq<u8>, i: int, hi: int) -> int
    decreases hi - i,
{
    if 0 <= i < hi && i < s.len() && !is_white_space_byte(s[i]) {
        key_end(s, i + 1, hi)
    } else {
        i
    }
}

/// The end of a value that starts at `i`: the next `/`.
pub open spec fn value_end(s: Seq<u8>, i: int, hi: int) -> int
    decreases hi - i,
{
    if 0 <= i < hi && i < s.len() && s[i] != SOLIDUS {
        value_end(s, i + 1, hi)
    } else {
        i
    }
}

/// The end of the run of hexadecimal digits that starts at `i`.
pub open spec fn hex_end(s: Seq<u8>, i: int, hi: int) -> int
    decreases hi - i,
{
    if 0 <= i < hi && i < s.len() && is_hex_digit(s[i]) {
        hex_end(s, i + 1, hi)
    } else {
        i
    }
}

/// The first `<<` at or after `i`.
pub open spec fn find_open(s: Seq<u8>, i: int) -> Option<int>
    decreases s.len() - i,
{
    if i < 0 || i + 1 >= s.len() {
        None
    } else if s[i] == LESS && s[i + 1] == LESS {
        Some(i)
    } else {
        find_open(s, i + 1)
    }
}

/// The `>>` that closes a dictionary, searched from `i` inside `depth`
/// nested dictionaries.
pub open spec fn find_close(s: Seq<u8>, i: int, depth: nat) -> Option<int>
    decreases s.len() - i,
{
    if i < 0 || i + 1 >= s.len() {
        None
    } else if s[i] == GREATER && s[i + 1] == GREATER {
        if depth == 0 {
            Some(i)
        } else {
            find_close(s, i + 2, (depth - 1) as nat)
        }
    } else if s[i] == LESS && s[i + 1] == LESS {
        find_close(s, i + 2, depth + 1)
    } else {
        find_close(s, i + 1, depth)
    }
}

/// The dictionary body after `pos`: the bytes strictly between the first
/// `<<` and the `>>` that closes it, as a range.
pub open spec fn body_spec(s: Seq<u8>, pos: int) -> Option<(int, int)> {
    match find_open(s, pos) {
        None => None,
        Some(o) => match find_close(s, o + 2, 0) {
            None => None,
            Some(c) => Some((o + 2, c)),
        },
    }
}

/// The key that the bytes `k` name.
pub open spec fn key_spec(k: Seq<u8>) -> TrailerKey {
    if k == seq![83u8, 105u8, 122u8, 101u8] {
        TrailerKey::Size
    } else if k == seq![80u8, 114u8, 101u8, 118u8] {
        TrailerKey::Prev
    } else if k == seq![82u8, 111u8, 111u8, 116u8] {
        TrailerKey::Root
    } else if k == seq![69u8, 110u8, 99u8, 114u8, 121u8, 112u8, 116u8] {
        TrailerKey::Encrypt
    } else if k == seq![73u8, 110u8, 102u8, 111u8] {
        TrailerKey::Info
    } else if k == seq![73u8, 68u8] {
        TrailerKey::ID
    } else {
        TrailerKey::Unknown
    }
}

/// The status word of an indirect object: `obj` or `R`.
pub open spec fn status_spec(w: Seq<u8>) -> ObjectStatus {
    if w == seq![111u8, 98u8, 106u8] {
        ObjectStatus::Definition
    } else if w == seq![82u8] {
        ObjectStatus::Reference
    } else {
        ObjectStatus::Unknown
    }
}

/// A signed decimal integer in `lo..hi`, white space around it allowed.
pub open spec fn integer_spec(s: Seq<u8>, lo: int, hi: int) -> Option<i64> {
    let a = skip_ws(s, lo, hi);
    let b = trim_end(s, a, hi);
    let d = if a < b && (s[a] == MINUS || s[a] == PLUS) {
        a + 1
    } else {
        a
    };
    if a < b && d < b && all_digits(s.subrange(d, b)) {
        let n = decimal_value(s.subrange(d, b)) as int;
        let v = if s[a] == MINUS {
            -n
        } else {
            n
        };
        if i64::MIN <= v <= i64::MAX {
            Some(v as i64)
        } else {
            None
        }
    } else {
        None
    }
}

/// `<object number> <generation number> <word>` in `lo..hi`, white space
/// around it allowed.
pub open spec fn object_spec(s: Seq<u8>, lo: int, hi: int) -> Option<TrailerValueModel> {
    let a = skip_ws(s, lo, hi);
    let b = trim_end(s, a, hi);
    let d1 = digits_end(s, a);
    let w1 = skip_ws(s, d1, b);
    let d2 = digits_end(s, w1);
    let w2 = skip_ws(s, d2, b);
    if a < d1 < w1 < d2 < w2 < b && decimal_value(s.subrange(a, d1)) <= i64::MAX
        && decimal_value(s.subrange(w1, d2)) <= i64::MAX {
        Some(
            TrailerValueModel::IndirectReference {
                object_number: decimal_value(s.subrange(a, d1)) as i64,
                generation_number: decimal_value(s.subrange(w1, d2)) as i64,
                kind: status_spec(s.subrange(w2, b)),
            },
        )
    } else {
        None
    }
}

/// `[ <hex> <hex> ]` in `lo..hi`: an array of two hexadecimal strings,
/// white space around and between its parts allowed.
pub open spec fn array_spec(s: Seq<u8>, lo: int, hi: int) -> Option<TrailerValueModel> {
    let a = skip_ws(s, lo, hi);
    let b = trim_end(s, a, hi);
    let e = b - 1;
    let i1 = skip_ws(s, a + 1, e);
    let h1 = hex_end(s, i1 + 1, e);
    let i2 = skip_ws(s, h1 + 1, e);
    let h2 = hex_end(s, i2 + 1, e);
    if a + 2 <= b && s[a] == LEFT_BRACKET && s[e] == RIGHT_BRACKET && i1 < e && s[i1] == LESS
        && h1 < e && s[h1] == GREATER && i2 < e && s[i2] == LESS && h2 < e && s[h2] == GREATER
        && skip_ws(s, h2 + 1, e) == e {
        Some(
            TrailerValueModel::HexStringArray(
                seq![ascii_chars(s.subrange(i1 + 1, h1)), ascii_chars(s.subrange(i2 + 1, h2))],
            ),
        )
    } else {
        None
    }
}

/// The value in `lo..hi` decoded as the grammar of `key` asks: an integer
/// for `Size`, an indirect object for `Root` and `Info`, two hexadecimal
/// strings for `ID`, and the raw bytes for any other key.
pub open spec fn value_spec(key: TrailerKey, s: Seq<u8>, lo: int, hi: int) -> Option<TrailerValueModel> {
    match key {
        TrailerKey::Size => match integer_spec(s, lo, hi) {
            Some(i) => Some(TrailerValueModel::Integer(i)),
            None => None,
        },
        TrailerKey::Root | TrailerKey::Info => object_spec(s, lo, hi),
        TrailerKey::ID => array_spec(s, lo, hi),
        _ => Some(TrailerValueModel::Opaque(s.subrange(lo, hi))),
    }
}

/// The pair whose `/` stands at `i`: its key runs to the next white space,
/// its value from there to the next `/`. Also gives where the value
/// ends.
pub open spec fn pair_spec(s: Seq<u8>, i: int, hi: int) -> Option<((TrailerKey, TrailerValueModel), int)> {
    let k = key_end(s, i + 1, hi);
    let v = value_end(s, k, hi);
    let key = key_spec(s.subrange(i + 1, k));
    match value_spec(key, s, k, v) {
        None => None,
        Some(val) => Some(((key, val), v)),
    }
}

/// The pairs from the `/` at `i` up to `hi`.
pub open spec fn pairs_spec(s: Seq<u8>, i: int, hi: int) -> Option<Seq<(TrailerKey, TrailerValueModel)>>
    decreases hi - i,
{
    if !(0 <= i < hi <= s.len()) {
        Some(Seq::empty())
    } else {
        match pair_spec(s, i, hi) {
            None => None,
            Some((p, v)) => if i < v < hi {
                match pairs_spec(s, v, hi) {
                    None => None,
                    Some(rest) => Some(seq![p] + rest),
                }
            } else {
                Some(seq![p])
            },
        }
    }
}

/// The pairs of the dictionary body `lo..hi`: white space, then nothing or
/// a first `/`.
pub open spec fn dict_entries_spec(s: Seq<u8>, lo: int, hi: int) -> Option<Seq<(TrailerKey, TrailerValueModel)>> {
    let f = skip_ws(s, lo, hi);
    if f == hi {
        Some(Seq::empty())
    } else if f < hi && s[f] == SOLIDUS {
        pairs_spec(s, f, hi)
    } else {
        None
    }
}

/// The byte ranges of the pairs from the `/` at `i` up to `hi`: for each,
/// where its key starts, where the key ends and where its value ends.
pub open spec fn pair_ranges(s: Seq<u8>, i: int, hi: int) -> Seq<(int, int, int)>
    decreases hi - i,
{
    if !(0 <= i < hi <= s.len()) {
        Seq::empty()
    } else {
        let k = key_end(s, i + 1, hi);
        let v = value_end(s, k, hi);
        if i < v < hi {
            seq![(i + 1, k, v)] + pair_ranges(s, v, hi)
        } else {
            seq![(i + 1, k, v)]
        }
    }
}

/// The byte ranges of the pairs of the dictionary body `lo..hi`.
pub open spec fn dict_ranges_spec(s: Seq<u8>, lo: int, hi: int) -> Option<Seq<(int, int, int)>> {
    let f = skip_ws(s, lo, hi);
    if f == hi {
        Some(Seq::empty())
    } else if f < hi && s[f] == SOLIDUS {
        Some(pair_ranges(s, f, hi))
    } else {
        None
    }
}

/// Byte ranges as integers.
pub open spec fn ranges_view(v: Seq<(usize, usize, usize)>) -> Seq<(int, int, int)> {
    v.map_values(|r: (usize, usize, usize)| (r.0 as int, r.1 as int, r.2 as int))
}

/// `Size` is present, and no key but `Unknown` comes twice.
pub open spec fn keys_ok(es: Seq<(TrailerKey, TrailerValueModel)>) -> bool {
    &&& exists|i: int| 0 <= i < es.len() && #[trigger] es[i].0 == TrailerKey::Size
    &&& forall|i: int, j: int|
        0 <= i < j < es.len() && #[trigger] es[i].0 == #[trigger] es[j].0 ==> es[i].0
            == TrailerKey::Unknown
}

/// The trailer dictionary after `pos`.
pub open spec fn trailer_spec(s: Seq<u8>, pos: int) -> Option<Seq<(TrailerKey, TrailerValueModel)>> {
    match body_spec(s, pos) {
        None => None,
        Some((b, c)) => match dict_entries_spec(s, b, c) {
            None => None,
            Some(es) => if keys_ok(es) {
                Some(es)
            } else {
                None
            },
        },
    }
}

/// The run of hexadecimal digits from `i` stays in bounds and holds only
/// hexadecimal digits, which are ASCII.
pub proof fn lemma_hex_end(s: Seq<u8>, i: int, hi: int)
    requires
        0 <= i <= hi <= s.len(),
    ensures
        i <= hex_end(s, i, hi) <= hi,
        is_ascii_bytes(s.subrange(i, hex_end(s, i, hi))),
    decreases hi - i,
{
    if i < hi && is_hex_digit(s[i]) {
        lemma_hex_end(s, i + 1, hi);
        let e = hex_end(s, i, hi);
        let t = s.subrange(i, e);
        assert forall|k: int| 0 <= k < t.len() implies #[trigger] t[k] < 128 by {
            if k > 0 {
                assert(t[k] == s.subrange(i + 1, e)[k - 1]);
            }
        }
    } else {
        assert(is_ascii_bytes(s.subrange(i, i)));
    }
}

/// Moves past the white space from `i`, up to `hi`.
pub fn skip_white_space(data: &[u8], i: usize, hi: usize) -> (r: usize)
    requires
        i <= hi <= data@.len(),
    ensures
        r == skip_ws(data@, i as int, hi as int),
        i <= r <= hi,
{
    let mut j = i;
    while j < hi && is_white_space(data[j])
        invariant
            i <= j <= hi <= data@.len(),
            skip_ws(data@, i as int, hi as int) == skip_ws(data@, j as int, hi as int),
        decreases hi - j,
    {
        j = j + 1;
    }
    j
}

/// Drops the white space at the end of `lo..hi`: returns the new end.
pub fn trim_white_space_end(data: &[u8], lo: usize, hi: usize) -> (r: usize)
    requires
        lo <= hi <= data@.len(),
    ensures
        r == trim_end(data@, lo as int, hi as int),
        lo <= r <= hi,
{
    let mut j = hi;
    while lo < j && is_white_space(data[j - 1])
        invariant
            lo <= j <= hi <= data@.len(),
            trim_end(data@, lo as int, hi as int) == trim_end(data@, lo as int, j as int),
        decreases j - lo,
    {
        j = j - 1;
    }
    j
}

/// Reads a trailer key that starts at `pos`, just after its `/`, and
/// returns where it ends.
fn key_end_at(data: &[u8], pos: usize, hi: usize) -> (r: usize)
    requires
        pos <= hi <= data@.len(),
    ensures
        r == key_end(data@, pos as int, hi as int),
        pos <= r <= hi,
{
    let mut j = pos;
    while j < hi && !is_white_space(data[j])
        invariant
            pos <= j <= hi <= data@.len(),
            key_end(data@, pos as int, hi as int) == key_end(data@, j as int, hi as int),
        decreases hi - j,
    {
        j = j + 1;
    }
    j
}

/// Finds the end of the trailer value that starts at `pos`: the next `/`,
/// or `hi`.
pub fn take_trailer_kv_value(data: &[u8], pos: usize, hi: usize) -> (r: usize)
    requires
        pos <= hi <= data@.len(),
    ensures
        r == value_end(data@, pos as int, hi as int),
        pos <= r <= hi,
{
    let mut j = pos;
    while j < hi && data[j] != SOLIDUS
        invariant
            pos <= j <= hi <= data@.len(),
            value_end(data@, pos as int, hi as int) == value_end(data@, j as int, hi as int),
        decreases hi - j,
    {
        j = j + 1;
    }
    j
}

/// Moves past the hexadecimal digits from `i`, up to `hi`.
fn skip_hex_digits(data: &[u8], i: usize, hi: usize) -> (r: usize)
    requires
        i <= hi <= data@.len(),
    ensures
        r == hex_end(data@, i as int, hi as int),
        i <= r <= hi,
{
    let mut j = i;
    while j < hi && ((48 <= data[j] && data[j] <= 57) || (65 <= data[j] && data[j] <= 70) || (97
        <= data[j] && data[j] <= 102))
        invariant
            i <= j <= hi <= data@.len(),
            hex_end(data@, i as int, hi as int) == hex_end(data@, j as int, hi as int),
        decreases hi - j,
    {
        j = j + 1;
    }
    j
}

/// Locates the trailer dictionary after `pos`: returns the range of its
/// body, strictly between the first `<<` and the `>>` that closes it.
/// Dictionaries nested in the body are skipped whole.
pub fn take_trailer_body(data: &[u8], pos: usize) -> (r: Result<(usize, usize), ParseError>)
    ensures
        match body_spec(data@, pos as int) {
            Some((b, c)) => r matches Ok((x, y)) && x == b && y == c,
            None => r == Err::<(usize, usize), ParseError>(ParseError::MalformedTrailer),
        },
        r matches Ok((b, c)) ==> b <= c <= data@.len(),
{
    let n = data.len();
    let mut o = pos;
    loop
        invariant
            n == data@.len(),
            pos <= o,
            find_open(data@, pos as int) == find_open(data@, o as int),
        ensures
            o + 1 < n,
            find_open(data@, pos as int) == Some(o as int),
        decreases n - o,
    {
        if o >= n || n - o < 2 {
            return Err(ParseError::MalformedTrailer);
        }
        if data[o] == LESS && data[o + 1] == LESS {
            break;
        }
        o = o + 1;
    }
    let start = o + 2;
    let mut i = start;
    let mut depth: usize = 0;
    loop
        invariant
            n == data@.len(),
            find_open(data@, pos as int) == Some(o as int),
            start == o + 2,
            start <= i,
            depth <= i,
            find_close(data@, start as int, 0) == find_close(data@, i as int, depth as nat),
        ensures
            i + 1 < n,
            find_close(data@, start as int, 0) == Some(i as int),
        decreases n - i,
    {
        if i >= n || n - i < 2 {
            return Err(ParseError::MalformedTrailer);
        }
        if data[i] == GREATER && data[i + 1] == GREATER {
            if depth == 0 {
                break;
            }
            depth = depth - 1;
            i = i + 2;
        } else if data[i] == LESS && data[i + 1] == LESS {
            depth = depth + 1;
            i = i + 2;
        } else {
            i = i + 1;
        }
    }
    Ok((start, i))
}

/// Tests whether `data[lo..hi]` holds exactly the bytes `lit`.
fn range_is(data: &[u8], lo: usize, hi: usize, lit: &Vec<u8>) -> (r: bool)
    requires
        lo <= hi <= data@.len(),
    ensures
        r == (data@.subrange(lo as int, hi as int) == lit@),
{
    if hi - lo != lit.len() {
        return false;
    }
    bytes_at(data, lo, lit)
}

/// Reads the key that starts at `pos`, just after its `/`: returns which
/// key it is and where it ends.
pub fn take_trailer_kv_key(data: &[u8], pos: usize, hi: usize) -> (r: (TrailerKey, usize))
    requires
        pos <= hi <= data@.len(),
    ensures
        r.1 == key_end(data@, pos as int, hi as int),
        pos <= r.1 <= hi,
        r.0 == key_spec(data@.subrange(pos as int, r.1 as int)),
{
    let e = key_end_at(data, pos, hi);
    let key = if range_is(data, pos, e, &vec![83u8, 105u8, 122u8, 101u8]) {
        TrailerKey::Size
    } else if range_is(data, pos, e, &vec![80u8, 114u8, 101u8, 118u8]) {
        TrailerKey::Prev
    } else if range_is(data, pos, e, &vec![82u8, 111u8, 111u8, 116u8]) {
        TrailerKey::Root
    } else if range_is(data, pos, e, &vec![69u8, 110u8, 99u8, 114u8, 121u8, 112u8, 116u8]) {
        TrailerKey::Encrypt
    } else if range_is(data, pos, e, &vec![73u8, 110u8, 102u8, 111u8]) {
        TrailerKey::Info
    } else if range_is(data, pos, e, &vec![73u8, 68u8]) {
        TrailerKey::ID
    } else {
        TrailerKey::Unknown
    };
    (key, e)
}

/// Decodes the signed decimal integer in `data[lo..hi]`.
pub fn parse_integer(data: &[u8], lo: usize, hi: usize) -> (r: Option<TrailerValue>)
    requires
        lo <= hi <= data@.len(),
    ensures
        r == match integer_spec(data@, lo as int, hi as int) {
            Some(i) => Some(TrailerValue::Integer(i)),
            None => None,
        },
{
    let a = skip_white_space(data, lo, hi);
    let b = trim_white_space_end(data, a, hi);
    if a >= b {
        return None;
    }
    let negative = data[a] == MINUS;
    let d = if data[a] == MINUS || data[a] == PLUS {
        a + 1
    } else {
        a
    };
    if d >= b {
        return None;
    }
    match parse_decimal(data, d, b) {
        None => None,
        Some(n) => {
            let v: i128 = if negative {
                -(n as i128)
            } else {
                n as i128
            };
            if v < i64::MIN as i128 || v > i64::MAX as i128 {
                None
            } else {
                Some(TrailerValue::Integer(v as i64))
            }
        },
    }
}

/// Decodes `<object number> <generation number> <word>` in `data[lo..hi]`:
/// the word `obj` marks a definition, `R` a reference.
pub fn parse_object(data: &[u8], lo: usize, hi: usize) -> (r: Option<TrailerValue>)
    requires
        lo <= hi <= data@.len(),
    ensures
        match object_spec(data@, lo as int, hi as int) {
            Some(m) => r matches Some(v) && v@ == m,
            None => r is None,
        },
{
    let a = skip_white_space(data, lo, hi);
    let b = trim_white_space_end(data, a, hi);
    let d1 = skip_digits(data, a);
    proof {
        lemma_digits_end(data@, a as int);
    }
    if !(a < d1 && d1 < b) {
        return None;
    }
    let w1 = skip_white_space(data, d1, b);
    let d2 = skip_digits(data, w1);
    proof {
        lemma_digits_end(data@, w1 as int);
    }
    if !(d1 < w1 && w1 < d2 && d2 < b) {
        return None;
    }
    let w2 = skip_white_space(data, d2, b);
    if !(d2 < w2 && w2 < b) {
        return None;
    }
    let object_number = parse_decimal(data, a, d1);
    let generation_number = parse_decimal(data, w1, d2);
    match (object_number, generation_number) {
        (Some(o), Some(g)) => {
            if o > i64::MAX as u64 || g > i64::MAX as u64 {
                return None;
            }
            let definition = vec![111u8, 98u8, 106u8];
            let reference = vec![82u8];
            assert(definition@ =~= seq![111u8, 98u8, 106u8]);
            assert(reference@ =~= seq![82u8]);
            let kind = if range_is(data, w2, b, &definition) {
                ObjectStatus::Definition
            } else if range_is(data, w2, b, &reference) {
                ObjectStatus::Reference
            } else {
                ObjectStatus::Unknown
            };
            Some(
                TrailerValue::IndirectReference {
                    object_number: o as i64,
                    generation_number: g as i64,
                    kind,
                },
            )
        },
        _ => None,
    }
}

/// Decodes `[ <hex> <hex> ]` in `data[lo..hi]`: an array of two hexadecimal
/// strings.
pub fn parse_array(data: &[u8], lo: usize, hi: usize) -> (r: Option<TrailerValue>)
    requires
        lo <= hi <= data@.len(),
    ensures
        match array_spec(data@, lo as int, hi as int) {
            Some(m) => r matches Some(v) && v@ == m,
            None => r is None,
        },
{
    let a = skip_white_space(data, lo, hi);
    let b = trim_white_space_end(data, a, hi);
    if b - a < 2 || data[a] != LEFT_BRACKET || data[b - 1] != RIGHT_BRACKET {
        return None;
    }
    let e = b - 1;
    let i1 = skip_white_space(data, a + 1, e);
    if i1 >= e || data[i1] != LESS {
        return None;
    }
    let h1 = skip_hex_digits(data, i1 + 1, e);
    if h1 >= e || data[h1] != GREATER {
        return None;
    }
    let i2 = skip_white_space(data, h1 + 1, e);
    if i2 >= e || data[i2] != LESS {
        return None;
    }
    let h2 = skip_hex_digits(data, i2 + 1, e);
    if h2 >= e || data[h2] != GREATER {
        return None;
    }
    let tail = skip_white_space(data, h2 + 1, e);
    if tail != e {
        return None;
    }
    proof {
        lemma_hex_end(data@, i1 + 1, e as int);
        lemma_hex_end(data@, i2 + 1, e as int);
    }
    let first = ascii_string(slice_subrange(data, i1 + 1, h1));
    let second = ascii_string(slice_subrange(data, i2 + 1, h2));
    match (first, second) {
        (Some(x), Some(y)) => {
            let strings = vec![x, y];
            assert(strings@.map_values(|s: String| s@) =~= seq![x@, y@]);
            Some(TrailerValue::HexStringArray(strings))
        },
        _ => None,
    }
}

/// Keeps the raw bytes of `data[lo..hi]`, for a key without a grammar of its
/// own.
pub fn parse_unknown(data: &[u8], lo: usize, hi: usize) -> (r: TrailerValue)
    requires
        lo <= hi <= data@.len(),
    ensures
        r@ == TrailerValueModel::Opaque(data@.subrange(lo as int, hi as int)),
{
    TrailerValue::Opaque(slice_to_vec(slice_subrange(data, lo, hi)))
}

/// Reads the pair whose `/` stands at `i`, and returns it with the position
/// where its value ends.
pub fn take_trailer_entry(data: &[u8], i: usize, hi: usize) -> (r: Result<
    ((TrailerKey, TrailerValue), usize),
    ParseError,
>)
    requires
        i < hi <= data@.len(),
    ensures
        match pair_spec(data@, i as int, hi as int) {
            Some((p, v)) => r matches Ok((pair, n)) && (pair.0, pair.1@) == p && n == v,
            None => r == Err::<((TrailerKey, TrailerValue), usize), ParseError>(
                ParseError::MalformedTrailer,
            ),
        },
        r matches Ok((_, n)) ==> i < n <= hi,
{
    let (key, k) = take_trailer_kv_key(data, i + 1, hi);
    let v = take_trailer_kv_value(data, k, hi);
    let value = match key {
        TrailerKey::Size => parse_integer(data, k, v),
        TrailerKey::Root | TrailerKey::Info => parse_object(data, k, v),
        TrailerKey::ID => parse_array(data, k, v),
        _ => Some(parse_unknown(data, k, v)),
    };
    match value {
        None => Err(ParseError::MalformedTrailer),
        Some(val) => Ok(((key, val), v)),
    }
}

/// Splits the dictionary body `data[lo..hi]` into its pairs, in body order,
/// without decoding them: for each pair, where its key starts, where the key
/// ends and where its value ends.
pub fn take_trailer_kv_pairs(data: &[u8], lo: usize, hi: usize) -> (r: Result<
    Vec<(usize, usize, usize)>,
    ParseError,
>)
    requires
        lo <= hi <= data@.len(),
    ensures
        match dict_ranges_spec(data@, lo as int, hi as int) {
            Some(rs) => r matches Ok(v) && ranges_view(v@) == rs,
            None => r == Err::<Vec<(usize, usize, usize)>, ParseError>(
                ParseError::MalformedTrailer,
            ),
        },
{
    let mut out: Vec<(usize, usize, usize)> = Vec::new();
    let f = skip_white_space(data, lo, hi);
    if f == hi {
        assert(ranges_view(out@) =~= Seq::empty());
        return Ok(out);
    }
    if data[f] != SOLIDUS {
        return Err(ParseError::MalformedTrailer);
    }
    let mut i = f;
    assert(ranges_view(out@) + pair_ranges(data@, i as int, hi as int) =~= pair_ranges(
        data@,
        f as int,
        hi as int,
    ));
    loop
        invariant_except_break
            pair_ranges(data@, f as int, hi as int) == ranges_view(out@) + pair_ranges(
                data@,
                i as int,
                hi as int,
            ),
        invariant
            f <= i < hi <= data@.len(),
            dict_ranges_spec(data@, lo as int, hi as int) == Some(
                pair_ranges(data@, f as int, hi as int),
            ),
        ensures
            pair_ranges(data@, f as int, hi as int) == ranges_view(out@),
        decreases hi - i,
    {
        let k = key_end_at(data, i + 1, hi);
        let v = take_trailer_kv_value(data, k, hi);
        let ghost before = ranges_view(out@);
        let ghost item = (i + 1, k as int, v as int);
        out.push((i + 1, k, v));
        proof {
            assert(ranges_view(out@) =~= before.push(item));
            if i < v < hi {
                assert(before + (seq![item] + pair_ranges(data@, v as int, hi as int)) =~= ranges_view(
                    out@,
                ) + pair_ranges(data@, v as int, hi as int));
            } else {
                assert(before + seq![item] =~= ranges_view(out@));
            }
        }
        if v < hi {
            i = v;
        } else {
            break;
        }
    }
    Ok(out)
}

/// Reads every pair of the dictionary body `data[lo..hi]`, in body order,
/// pairs with an unknown key included.
pub fn take_trailer_kv_pair(data: &[u8], lo: usize, hi: usize) -> (r: Result<
    Vec<(TrailerKey, TrailerValue)>,
    ParseError,
>)
    requires
        lo <= hi <= data@.len(),
    ensures
        match dict_entries_spec(data@, lo as int, hi as int) {
            Some(es) => r matches Ok(v) && v@.map_values(
                |e: (TrailerKey, TrailerValue)| (e.0, e.1@),
            ) == es,
            None => r == Err::<Vec<(TrailerKey, TrailerValue)>, ParseError>(
                ParseError::MalformedTrailer,
            ),
        },
{
    let mut entries: Vec<(TrailerKey, TrailerValue)> = Vec::new();
    let f = skip_white_space(data, lo, hi);
    if f == hi {
        assert(entries@.map_values(|e: (TrailerKey, TrailerValue)| (e.0, e.1@)) =~= Seq::empty());
        return Ok(entries);
    }
    if data[f] != SOLIDUS {
        return Err(ParseError::MalformedTrailer);
    }
    let mut i = f;
    loop
        invariant_except_break
            pairs_spec(data@, f as int, hi as int) == match pairs_spec(data@, i as int, hi as int) {
                Some(rest) => Some(
                    entries@.map_values(|e: (TrailerKey, TrailerValue)| (e.0, e.1@)) + rest,
                ),
                None => None,
            },
        invariant
            f <= i < hi <= data@.len(),
            dict_entries_spec(data@, lo as int, hi as int) == pairs_spec(data@, f as int, hi as int),
        ensures
            pairs_spec(data@, f as int, hi as int) == Some(
                entries@.map_values(|e: (TrailerKey, TrailerValue)| (e.0, e.1@)),
            ),
        decreases hi - i,
    {
        match take_trailer_entry(data, i, hi) {
            Err(e) => {
                return Err(e);
            },
            Ok((pair, v)) => {
                let ghost before = entries@.map_values(|e: (TrailerKey, TrailerValue)| (e.0, e.1@));
                let ghost p = (pair.0, pair.1@);
                entries.push(pair);
                proof {
                    let after = entries@.map_values(|e: (TrailerKey, TrailerValue)| (e.0, e.1@));
                    assert(after =~= before.push(p));
                    if let Some(rest) = pairs_spec(data@, v as int, hi as int) {
                        assert(before + (seq![p] + rest) =~= after + rest);
                    }
                    assert(before + seq![p] =~= after);
                }
                if v < hi {
                    i = v;
                } else {
                    break;
                }
            },
        }
    }
    Ok(entries)
}

/// Tests that `Size` is present and that no key but `Unknown` comes twice.
fn has_well_formed_keys(entries: &Vec<(TrailerKey, TrailerValue)>) -> (r: bool)
    ensures
        r == keys_ok(entries@.map_values(|e: (TrailerKey, TrailerValue)| (e.0, e.1@))),
{
    let ghost es = entries@.map_values(|e: (TrailerKey, TrailerValue)| (e.0, e.1@));
    let mut has_size = false;
    let mut i: usize = 0;
    while i < entries.len()
        invariant
            i <= entries@.len(),
            es == entries@.map_values(|e: (TrailerKey, TrailerValue)| (e.0, e.1@)),
            has_size == exists|j: int| 0 <= j < i && #[trigger] es[j].0 == TrailerKey::Size,
            forall|a: int, b: int|
                0 <= a < b < i && #[trigger] es[a].0 == #[trigger] es[b].0 ==> es[a].0
                    == TrailerKey::Unknown,
        decreases entries@.len() - i,
    {
        let key = entries[i].0;
        assert(es[i as int].0 == key);
        if key == TrailerKey::Size {
            has_size = true;
        }
        if key != TrailerKey::Unknown {
            let mut j: usize = 0;
            while j < i
                invariant
                    j <= i < entries@.len(),
                    es == entries@.map_values(|e: (TrailerKey, TrailerValue)| (e.0, e.1@)),
                    es[i as int].0 == key,
                    key != TrailerKey::Unknown,
                    forall|a: int| 0 <= a < j ==> #[trigger] es[a].0 != key,
                decreases i - j,
            {
                assert(es[j as int].0 == entries@[j as int].0);
                if entries[j].0 == key {
                    assert(es.len() == entries@.len());
                    assert(es[j as int].0 == es[i as int].0);
                    assert(!keys_ok(es));
                    return false;
                }
                j = j + 1;
            }
        }
        i = i + 1;
    }
    has_size
}

/// Reads the trailer after `pos`: locates its dictionary, reads its pairs,
/// and checks that `Size` is present and that no known key comes twice.
pub fn read_trailer(data: &[u8], pos: usize) -> (r: Result<Trailer, ParseError>)
    ensures
        match trailer_spec(data@, pos as int) {
            Some(es) => r matches Ok(t) && t@ == es,
            None => r == Err::<Trailer, ParseError>(ParseError::MalformedTrailer),
        },
{
    let (b, c) = match take_trailer_body(data, pos) {
        Err(e) => {
            return Err(e);
        },
        Ok(range) => range,
    };
    let entries = match take_trailer_kv_pair(data, b, c) {
        Err(e) => {
            return Err(e);
        },
        Ok(entries) => entries,
    };
    if !has_well_formed_keys(&entries) {
        return Err(ParseError::MalformedTrailer);
    }
    Ok(Trailer { entries })
}

} // verus!
