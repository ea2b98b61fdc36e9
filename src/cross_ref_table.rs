//! The cross-reference table: subsections of fixed-width entries that give
//! the byte offset of each object.
use vstd::prelude::*;
use crate::characters::is_white_space_byte;
use crate::scanner::{keyword_bytes, keyword_text};
use crate::structure::{
    CrossRefTable, Keyword, ParseError, Subsection, SubsectionEntry, SubsectionModel,
};
use crate::utils::{
    all_digits, bytes_at, decimal_value, digits_end, is_digit, lemma_decimal_bound, lemma_digits_end,
    line_break_len, line_break_length, occurs_at, parse_decimal, pow10, skip_digits, CR, LF,
    SPACE,
};

verus! {

/// The letter `n`, which marks an entry in use.
pub const IN_USE: u8 = 110;

/// The letter `f`, which marks a free entry.
pub const FREE: u8 = 102;

/// The width of an entry in bytes.
pub const ENTRY_LEN: usize = 20;

/// The two-byte line ends that may close an entry: SP CR, SP LF or CR LF.
pub open spec fn is_entry_eol(a: u8, b: u8) -> bool {
    (a == SPACE && b == CR) || (a == SPACE && b == LF) || (a == CR && b == LF)
}

/// The entry written by the 20 bytes `w`, if they are well formed.
pub open spec fn entry_spec(w: Seq<u8>) -> Option<SubsectionEntry> {
    if w.len() == 20 && all_digits(w.subrange(0, 10)) && w[10] == SPACE && all_digits(
        w.subrange(11, 16),
    ) && w[16] == SPACE && (w[17] == IN_USE || w[17] == FREE) && is_entry_eol(w[18], w[19]) {
        Some(
            SubsectionEntry {
                byte_offset: decimal_value(w.subrange(0, 10)) as u64,
                generation_number: decimal_value(w.subrange(11, 16)) as u32,
                in_use: w[17] == IN_USE,
            },
        )
    } else {
        None
    }
}

/// The entry in the 20 bytes of `s` that start at `pos`.
pub open spec fn entry_at(s: Seq<u8>, pos: int) -> Option<SubsectionEntry> {
    if 0 <= pos && pos + 20 <= s.len() {
        entry_spec(s.subrange(pos, pos + 20))
    } else {
        None
    }
}

/// The `n` entries that follow each other from `pos` on.
pub open spec fn entries_spec(s: Seq<u8>, pos: int, n: nat) -> Option<Seq<SubsectionEntry>>
    decreases n,
{
    if n == 0 {
        Some(Seq::empty())
    } else {
        match entry_at(s, pos) {
            None => None,
            Some(e) => match entries_spec(s, pos + 20, (n - 1) as nat) {
                None => None,
                Some(rest) => Some(seq![e] + rest),
            },
        }
    }
}

/// The line `<first object number> <entry count><EOL>` at `pos`: the two
/// numbers and the position after the line.
pub open spec fn section_header_spec(s: Seq<u8>, pos: int) -> Option<(u64, u64, int)> {
    let a = digits_end(s, pos);
    let b = digits_end(s, a + 1);
    if 0 <= pos < a < s.len() && s[a] == SPACE && a + 1 < b && line_break_len(s, b) > 0
        && decimal_value(s.subrange(pos, a)) <= u64::MAX && decimal_value(s.subrange(a + 1, b))
        <= u64::MAX {
        Some(
            (
                decimal_value(s.subrange(pos, a)) as u64,
                decimal_value(s.subrange(a + 1, b)) as u64,
                b + line_break_len(s, b),
            ),
        )
    } else {
        None
    }
}

/// The subsection at `pos`, and the position after its last entry.
pub open spec fn section_spec(s: Seq<u8>, pos: int) -> Option<(SubsectionModel, int)> {
    match section_header_spec(s, pos) {
        None => None,
        Some((start, count, body)) => match entries_spec(s, body, count as nat) {
            None => None,
            Some(es) => Some(
                (
                    SubsectionModel { start_object_number: start, entry_count: count, entries: es },
                    body + 20 * count,
                ),
            ),
        },
    }
}

/// The subsections from `pos` up to the `trailer` keyword or the end of the
/// buffer, and the position where they stop.
pub open spec fn table_spec(s: Seq<u8>, pos: int) -> Option<(Seq<SubsectionModel>, int)>
    decreases s.len() - pos,
{
    if pos >= s.len() || occurs_at(s, pos, keyword_text(Keyword::Trailer)) {
        Some((Seq::empty(), pos))
    } else {
        match section_spec(s, pos) {
            None => None,
            Some((sec, next)) => if pos < next <= s.len() {
                match table_spec(s, next) {
                    None => None,
                    Some((rest, end)) => Some((seq![sec] + rest, end)),
                }
            } else {
                None
            },
        }
    }
}

/// The cross-reference table after `xref`: one or more subsections, up to
/// the `trailer` keyword or the end of the buffer.
pub open spec fn xref_table_spec(s: Seq<u8>, pos: int) -> Option<(Seq<SubsectionModel>, int)> {
    match table_spec(s, pos) {
        Some((t, end)) => if t.len() > 0 {
            Some((t, end))
        } else {
            None
        },
        None => None,
    }
}

/// Decoding `n` entries yields `n` entries, the last one ending `20 * n`
/// bytes on.
pub proof fn lemma_entries_len(s: Seq<u8>, pos: int, n: nat)
    requires
        entries_spec(s, pos, n) is Some,
    ensures
        entries_spec(s, pos, n).unwrap().len() == n,
        n > 0 ==> pos + 20 * n <= s.len(),
    decreases n,
{
    if n > 0 {
        lemma_entries_len(s, pos + 20, (n - 1) as nat);
    }
}

/// The `w` decimal digits of `n`, zero-padded on the left: the last `w`
/// digits where `n` has more.
pub open spec fn padded_digits(n: nat, w: nat) -> Seq<u8>
    decreases w,
{
    if w == 0 {
        Seq::empty()
    } else {
        padded_digits(n / 10, (w - 1) as nat).push((48 + n % 10) as u8)
    }
}

/// The 20 bytes that write an entry, ending in CR LF.
pub open spec fn entry_bytes(e: SubsectionEntry) -> Seq<u8> {
    padded_digits(e.byte_offset as nat, 10) + seq![SPACE] + padded_digits(
        e.generation_number as nat,
        5,
    ) + seq![SPACE, if e.in_use {
        IN_USE
    } else {
        FREE
    }, CR, LF]
}

/// Zero-padded digits are digits, and they read back as the number when it
/// has no more than `w` digits.
pub proof fn lemma_padded_digits(n: nat, w: nat)
    ensures
        padded_digits(n, w).len() == w,
        all_digits(padded_digits(n, w)),
        n < pow10(w) ==> decimal_value(padded_digits(n, w)) == n,
    decreases w,
{
    if w > 0 {
        let p = pow10((w - 1) as nat);
        lemma_padded_digits(n / 10, (w - 1) as nat);
        let d = padded_digits(n, w);
        let t = padded_digits(n / 10, (w - 1) as nat);
        assert(d.drop_last() =~= t);
        assert forall|i: int| 0 <= i < d.len() implies is_digit(#[trigger] d[i]) by {
            if i < t.len() {
                assert(d[i] == t[i]);
            }
        }
        if n < pow10(w) {
            assert(n / 10 < p) by (nonlinear_arith)
                requires
                    n < 10 * p,
            ;
            assert((n / 10) * 10 + n % 10 == n) by (nonlinear_arith);
        }
    }
}

/// Writing an entry and reading the 20 bytes back gives the same entry,
/// for every offset of at most ten digits and generation of at most five.
pub proof fn lemma_entry_round_trip(e: SubsectionEntry)
    requires
        e.byte_offset <= 9999999999,
        e.generation_number <= 99999,
    ensures
        entry_bytes(e).len() == 20,
        entry_spec(entry_bytes(e)) == Some(e),
{
    reveal_with_fuel(pow10, 11);
    let w = entry_bytes(e);
    lemma_padded_digits(e.byte_offset as nat, 10);
    lemma_padded_digits(e.generation_number as nat, 5);
    assert(w.subrange(0, 10) =~= padded_digits(e.byte_offset as nat, 10));
    assert(w.subrange(11, 16) =~= padded_digits(e.generation_number as nat, 5));
}

/// Every entry of a run that decodes is itself well formed.
pub proof fn lemma_entries_each(s: Seq<u8>, pos: int, n: nat, j: nat)
    requires
        entries_spec(s, pos, n) is Some,
        j < n,
    ensures
        entry_at(s, pos + 20 * j) is Some,
    decreases n,
{
    if j > 0 {
        lemma_entries_len(s, pos + 20, (n - 1) as nat);
        lemma_entries_each(s, pos + 20, (n - 1) as nat, (j - 1) as nat);
        assert(pos + 20 + 20 * (j - 1) == pos + 20 * j);
    }
}

/// A header line `0 2` followed by two well-formed entries reads as the
/// subsection of two entries, those two in order, whatever follows; the
/// offset and generation of each are the numbers written in its slot.
pub proof fn lemma_two_entry_section(e1: Seq<u8>, e2: Seq<u8>, rest: Seq<u8>)
    requires
        entry_spec(e1) is Some,
        entry_spec(e2) is Some,
    ensures
        ({
            let s = seq![48u8, SPACE, 50u8, LF] + e1 + e2 + rest;
            section_spec(s, 0) == Some(
                (
                    SubsectionModel {
                        start_object_number: 0,
                        entry_count: 2,
                        entries: seq![entry_spec(e1).unwrap(), entry_spec(e2).unwrap()],
                    },
                    44int,
                ),
            )
        }),
        entry_spec(e1).unwrap().byte_offset == decimal_value(e1.subrange(0, 10)),
        entry_spec(e1).unwrap().generation_number == decimal_value(e1.subrange(11, 16)),
        entry_spec(e2).unwrap().byte_offset == decimal_value(e2.subrange(0, 10)),
        entry_spec(e2).unwrap().generation_number == decimal_value(e2.subrange(11, 16)),
{
    let s = seq![48u8, SPACE, 50u8, LF] + e1 + e2 + rest;
    assert(digits_end(s, 1) == 1);
    assert(digits_end(s, 0) == 1);
    assert(digits_end(s, 3) == 3);
    assert(digits_end(s, 2) == 3);
    assert(line_break_len(s, 3) == 1);
    assert(s.subrange(0, 1) =~= seq![48u8]);
    assert(s.subrange(2, 3) =~= seq![50u8]);
    assert(seq![48u8].drop_last() =~= Seq::<u8>::empty());
    assert(seq![50u8].drop_last() =~= Seq::<u8>::empty());
    assert(decimal_value(Seq::<u8>::empty()) == 0);
    assert(decimal_value(seq![48u8]) == 0);
    assert(decimal_value(seq![50u8]) == 2);
    assert(s.subrange(4, 24) =~= e1);
    assert(s.subrange(24, 44) =~= e2);
    assert(entries_spec(s, 44, 0) == Some(Seq::<SubsectionEntry>::empty()));
    assert(entries_spec(s, 24, 1) == Some(seq![entry_spec(e2).unwrap()]));
    assert(seq![entry_spec(e1).unwrap()] + seq![entry_spec(e2).unwrap()] =~= seq![
        entry_spec(e1).unwrap(),
        entry_spec(e2).unwrap(),
    ]);
    reveal_with_fuel(pow10, 11);
    lemma_decimal_bound(e1.subrange(0, 10));
    lemma_decimal_bound(e1.subrange(11, 16));
    lemma_decimal_bound(e2.subrange(0, 10));
    lemma_decimal_bound(e2.subrange(11, 16));
}

/// An entry that is not 20 bytes wide is rejected, never read out of step:
/// one of 19 bytes, whose line ends with a lone LF, and one of 21 bytes,
/// whose 21st byte is white space, each make the table fail.
pub proof fn lemma_misaligned_entry_rejected(s: Seq<u8>, pos: int, k: nat)
    requires
        section_header_spec(s, pos) is Some,
        k < section_header_spec(s, pos).unwrap().1,
        ({
            let at = section_header_spec(s, pos).unwrap().2 + 20 * k;
            ||| (at + 19 <= s.len() && s[at + 18] == LF)
            ||| (at + 21 <= s.len() && is_white_space_byte(s[at + 20]))
        }),
    ensures
        table_spec(s, pos) is None,
        xref_table_spec(s, pos) is None,
{
    let (start, count, body) = section_header_spec(s, pos).unwrap();
    let at = body + 20 * k;
    assert(0 <= pos < s.len());
    assert(!occurs_at(s, pos, keyword_text(Keyword::Trailer))) by {
        lemma_digits_end(s, pos);
        if occurs_at(s, pos, keyword_text(Keyword::Trailer)) {
            assert(s.subrange(pos, pos + 8)[0] == 116u8);
        }
    }
    if entries_spec(s, body, count as nat) is Some {
        lemma_entries_each(s, body, count as nat, k);
        lemma_entries_len(s, body, count as nat);
        assert(s.subrange(at, at + 20)[18] == s[at + 18]);
        assert(s.subrange(at, at + 20)[0] == s[at]);
        if k + 1 < count {
            lemma_entries_each(s, body, count as nat, k + 1);
            assert(s.subrange(at + 20, at + 40)[0] == s[at + 20]);
            assert(s.subrange(at + 20, at + 40).subrange(0, 10)[0] == s[at + 20]);
        } else {
            let next = body + 20 * count;
            assert(next == at + 20);
            assert(!occurs_at(s, next, keyword_text(Keyword::Trailer))) by {
                if occurs_at(s, next, keyword_text(Keyword::Trailer)) {
                    assert(s.subrange(next, next + 8)[0] == 116u8);
                }
            }
            lemma_digits_end(s, next);
            assert(section_header_spec(s, next) is None);
            assert(section_spec(s, next) is None);
            assert(table_spec(s, next) is None);
            assert(section_spec(s, pos) == Some(
                (
                    SubsectionModel {
                        start_object_number: start,
                        entry_count: count,
                        entries: entries_spec(s, body, count as nat).unwrap(),
                    },
                    next,
                ),
            ));
        }
    }
}

/// Appends the `w` zero-padded digits of `n` to `out`.
fn push_padded_digits(out: &mut Vec<u8>, n: u64, w: usize)
    ensures
        final(out)@ == old(out)@ + padded_digits(n as nat, w as nat),
    decreases w,
{
    if w == 0 {
        assert(old(out)@ + padded_digits(n as nat, 0) =~= old(out)@);
    } else {
        push_padded_digits(out, n / 10, w - 1);
        let digit = (48 + n % 10) as u8;
        let ghost before = out@;
        out.push(digit);
        assert(out@ =~= old(out)@ + padded_digits(n as nat, w as nat));
    }
}

impl SubsectionEntry {
    /// Writes the entry in its 20-byte form, ending in CR LF.
    pub fn to_bytes(&self) -> (r: Vec<u8>)
        requires
            self.byte_offset <= 9999999999,
            self.generation_number <= 99999,
        ensures
            r@ == entry_bytes(*self),
            entry_spec(r@) == Some(*self),
    {
        let mut out: Vec<u8> = Vec::new();
        push_padded_digits(&mut out, self.byte_offset, 10);
        out.push(SPACE);
        push_padded_digits(&mut out, self.generation_number as u64, 5);
        out.push(SPACE);
        out.push(if self.in_use { IN_USE } else { FREE });
        out.push(CR);
        out.push(LF);
        assert(out@ =~= entry_bytes(*self));
        proof {
            lemma_entry_round_trip(*self);
        }
        out
    }
}

/// Reads the 20-byte entry at `pos`, and returns it with the position after
/// it.
pub fn read_subsection(data: &[u8], pos: usize) -> (r: Result<(SubsectionEntry, usize), ParseError>)
    ensures
        match entry_at(data@, pos as int) {
            Some(e) => r matches Ok((x, n)) && x == e && n == pos + 20,
            None => r == Err::<(SubsectionEntry, usize), ParseError>(
                ParseError::MalformedCrossReferenceSection,
            ),
        },
        r matches Ok((_, n)) ==> n <= data@.len(),
{
    if pos > data.len() || data.len() - pos < ENTRY_LEN {
        return Err(ParseError::MalformedCrossReferenceSection);
    }
    let ghost w = data@.subrange(pos as int, pos + 20);
    assert(w.subrange(0, 10) =~= data@.subrange(pos as int, pos + 10));
    assert(w.subrange(11, 16) =~= data@.subrange(pos + 11, pos + 16));
    let offset = parse_decimal(data, pos, pos + 10);
    let generation = parse_decimal(data, pos + 11, pos + 16);
    let flag = data[pos + 17];
    let eol_a = data[pos + 18];
    let eol_b = data[pos + 19];
    let eol_ok = (eol_a == SPACE && eol_b == CR) || (eol_a == SPACE && eol_b == LF) || (eol_a
        == CR && eol_b == LF);
    if data[pos + 10] != SPACE || data[pos + 16] != SPACE || !(flag == IN_USE || flag == FREE)
        || !eol_ok {
        return Err(ParseError::MalformedCrossReferenceSection);
    }
    proof {
        reveal_with_fuel(pow10, 11);
        if all_digits(w.subrange(0, 10)) {
            lemma_decimal_bound(w.subrange(0, 10));
        }
        if all_digits(w.subrange(11, 16)) {
            lemma_decimal_bound(w.subrange(11, 16));
        }
    }
    match (offset, generation) {
        (Some(o), Some(g)) => Ok(
            (
                SubsectionEntry {
                    byte_offset: o,
                    generation_number: g as u32,
                    in_use: flag == IN_USE,
                },
                pos + ENTRY_LEN,
            ),
        ),
        _ => Err(ParseError::MalformedCrossReferenceSection),
    }
}

/// Reads `num_entries` entries, one after another from `pos`, and returns
/// them with the position after the last.
pub fn read_subsections(data: &[u8], pos: usize, num_entries: u64) -> (r: Result<
    (Vec<SubsectionEntry>, usize),
    ParseError,
>)
    ensures
        match entries_spec(data@, pos as int, num_entries as nat) {
            Some(es) => r matches Ok((v, n)) && v@ == es && n == pos + 20 * num_entries,
            None => r == Err::<(Vec<SubsectionEntry>, usize), ParseError>(
                ParseError::MalformedCrossReferenceSection,
            ),
        },
{
    let mut entries: Vec<SubsectionEntry> = Vec::new();
    let mut at: usize = pos;
    let mut k: u64 = 0;
    while k < num_entries
        invariant
            k <= num_entries,
            at == pos + 20 * k,
            entries@.len() == k,
            entries_spec(data@, pos as int, num_entries as nat) == match entries_spec(
                data@,
                at as int,
                (num_entries - k) as nat,
            ) {
                Some(rest) => Some(entries@ + rest),
                None => None,
            },
        decreases num_entries - k,
    {
        let e = read_subsection(data, at);
        match e {
            Err(err) => {
                return Err(err);
            },
            Ok((entry, after)) => {
                let ghost before = entries@;
                entries.push(entry);
                proof {
                    let later = entries_spec(data@, at + 20, (num_entries - k - 1) as nat);
                    if let Some(rest) = later {
                        assert(before + (seq![entry] + rest) =~= entries@ + rest);
                    }
                }
                at = after;
                k = k + 1;
            },
        }
    }
    assert(entries@ + Seq::<SubsectionEntry>::empty() =~= entries@);
    Ok((entries, at))
}

/// Reads the subsection at `pos`: its header line, then as many entries as
/// the header announces. Returns it with the position after its last entry.
pub fn read_cross_ref_section(data: &[u8], pos: usize) -> (r: Result<(Subsection, usize), ParseError>)
    ensures
        match section_spec(data@, pos as int) {
            Some((m, next)) => r matches Ok((sub, n)) && sub@ == m && n == next && sub.wf(),
            None => r == Err::<(Subsection, usize), ParseError>(
                ParseError::MalformedCrossReferenceSection,
            ),
        },
{
    let a = skip_digits(data, pos);
    proof {
        lemma_digits_end(data@, pos as int);
    }
    if !(pos < a && a < data.len() && data[a] == SPACE) {
        return Err(ParseError::MalformedCrossReferenceSection);
    }
    let b = skip_digits(data, a + 1);
    proof {
        lemma_digits_end(data@, a + 1);
    }
    if !(a + 1 < b) {
        return Err(ParseError::MalformedCrossReferenceSection);
    }
    let lb = line_break_length(data, b);
    if lb == 0 {
        return Err(ParseError::MalformedCrossReferenceSection);
    }
    let start = parse_decimal(data, pos, a);
    let count = parse_decimal(data, a + 1, b);
    match (start, count) {
        (Some(st), Some(c)) => {
            match read_subsections(data, b + lb, c) {
                Err(e) => Err(e),
                Ok((entries, next)) => {
                    proof {
                        lemma_entries_len(data@, (b + lb) as int, c as nat);
                    }
                    Ok((Subsection { start_object_number: st, entry_count: c, entries }, next))
                },
            }
        },
        _ => Err(ParseError::MalformedCrossReferenceSection),
    }
}

/// Reads the cross-reference table that starts at `pos`, just after the
/// `xref` keyword: one or more subsections, up to the `trailer` keyword or
/// the end of the buffer. Returns it with the position where it stops.
pub fn read_cross_ref_table(data: &[u8], pos: usize) -> (r: Result<(CrossRefTable, usize), ParseError>)
    ensures
        match xref_table_spec(data@, pos as int) {
            Some((m, end)) => r matches Ok((t, n)) && t@ == m && n == end && forall|i: int|
                0 <= i < t.subsections@.len() ==> (#[trigger] t.subsections@[i]).wf(),
            None => r == Err::<(CrossRefTable, usize), ParseError>(
                ParseError::MalformedCrossReferenceSection,
            ),
        },
{
    let trailer = keyword_bytes(Keyword::Trailer);
    let mut subsections: Vec<Subsection> = Vec::new();
    let mut at: usize = pos;
    loop
        invariant
            trailer@ == keyword_text(Keyword::Trailer),
            forall|i: int| 0 <= i < subsections@.len() ==> (#[trigger] subsections@[i]).wf(),
            table_spec(data@, pos as int) == match table_spec(data@, at as int) {
                Some((rest, end)) => Some(
                    (subsections@.map_values(|s: Subsection| s@) + rest, end),
                ),
                None => None,
            },
        ensures
            at >= data@.len() || occurs_at(data@, at as int, keyword_text(Keyword::Trailer)),
            table_spec(data@, pos as int) == match table_spec(data@, at as int) {
                Some((rest, end)) => Some(
                    (subsections@.map_values(|s: Subsection| s@) + rest, end),
                ),
                None => None,
            },
        decreases data@.len() - at,
    {
        if at >= data.len() || bytes_at(data, at, &trailer) {
            break;
        }
        match read_cross_ref_section(data, at) {
            Err(e) => {
                return Err(e);
            },
            Ok((sec, next)) => {
                if !(at < next && next <= data.len()) {
                    return Err(ParseError::MalformedCrossReferenceSection);
                }
                let ghost before = subsections@.map_values(|s: Subsection| s@);
                let ghost m = sec@;
                subsections.push(sec);
                proof {
                    assert(subsections@.map_values(|s: Subsection| s@) =~= before.push(m));
                    if let Some((rest, end)) = table_spec(data@, next as int) {
                        assert(before + (seq![m] + rest) =~= before.push(m) + rest);
                    }
                }
                at = next;
            },
        }
    }
    if subsections.len() == 0 {
        return Err(ParseError::MalformedCrossReferenceSection);
    }
    let table = CrossRefTable { subsections };
    proof {
        let v = subsections@.map_values(|s: Subsection| s@);
        assert(v + Seq::<SubsectionModel>::empty() =~= v);
    }
    Ok((table, at))
}

} // verus!
