//! Byte-level helpers shared by the decoders.
use vstd::prelude::*;

verus! {

/// Line feed.
pub const LF: u8 = 10;
/// Carriage return.
pub const CR: u8 = 13;
/// Space.
pub const SPACE: u8 = 32;
/// The digit zero.
pub const ZERO: u8 = 48;
/// The digit nine.
pub const NINE: u8 = 57;

/// A byte that marks the end of a line: line feed or carriage return.
pub open spec fn is_eol_byte(b: u8) -> bool {
    b == 10u8 || b == 13u8
}

/// An ASCII decimal digit.
pub open spec fn is_digit(b: u8) -> bool {
    48u8 <= b <= 57u8
}

/// Every byte of `s` is a decimal digit.
pub open spec fn all_digits(s: Seq<u8>) -> bool {
    forall|i: int| 0 <= i < s.len() ==> is_digit(#[trigger] s[i])
}

/// The number written by the decimal digits `s`, most significant first.
pub open spec fn decimal_value(s: Seq<u8>) -> nat
    decreases s.len(),
{
    if s.len() == 0 {
        0
    } else {
        decimal_value(s.drop_last()) * 10 + (s.last() - 48) as nat
    }
}

/// `lit` occurs in `s` at position `pos`.
pub open spec fn occurs_at(s: Seq<u8>, pos: int, lit: Seq<u8>) -> bool {
    0 <= pos && pos + lit.len() <= s.len() && s.subrange(pos, pos + lit.len()) == lit
}

/// The length of the line break at `i`: two for CR LF, one for a lone CR
/// or LF, zero where no line ends at `i`.
pub open spec fn line_break_len(s: Seq<u8>, i: int) -> int {
    if 0 <= i && i + 1 < s.len() && s[i] == CR && s[i + 1] == LF {
        2
    } else if 0 <= i < s.len() && is_eol_byte(s[i]) {
        1
    } else {
        0
    }
}

/// The end of the run of digits that starts at `i`.
pub open spec fn digits_end(s: Seq<u8>, i: int) -> int
    decreases s.len() - i,
{
    if 0 <= i < s.len() && is_digit(s[i]) {
        digits_end(s, i + 1)
    } else {
        i
    }
}

/// Ten to the power `n`.
pub open spec fn pow10(n: nat) -> nat
    decreases n,
{
    if n == 0 {
        1
    } else {
        10 * pow10((n - 1) as nat)
    }
}

/// Tests whether a byte ends a line.
pub fn is_pdf_eol(chr: u8) -> (r: bool)
    ensures
        r == is_eol_byte(chr),
{
    chr == LF || chr == CR
}

/// The run of digits from `i` stays in bounds, holds digits only, and ends
/// at a byte that is not a digit or at the end of `s`.
pub proof fn lemma_digits_end(s: Seq<u8>, i: int)
    requires
        0 <= i,
    ensures
        i <= digits_end(s, i),
        i <= s.len() ==> digits_end(s, i) <= s.len(),
        i <= s.len() ==> all_digits(s.subrange(i, digits_end(s, i))),
        digits_end(s, i) < s.len() ==> !is_digit(s[digits_end(s, i)]),
    decreases s.len() - i,
{
    if 0 <= i < s.len() && is_digit(s[i]) {
        lemma_digits_end(s, i + 1);
        let e = digits_end(s, i);
        let t = s.subrange(i, e);
        assert forall|k: int| 0 <= k < t.len() implies is_digit(#[trigger] t[k]) by {
            if k > 0 {
                assert(t[k] == s.subrange(i + 1, e)[k - 1]);
            }
        }
    } else if i <= s.len() {
        assert(all_digits(s.subrange(i, i)));
    }
}

/// `n` digits write a number below ten to the power `n`.
pub proof fn lemma_decimal_bound(s: Seq<u8>)
    requires
        all_digits(s),
    ensures
        decimal_value(s) < pow10(s.len()),
    decreases s.len(),
{
    if s.len() > 0 {
        let t = s.drop_last();
        assert(all_digits(t)) by {
            assert forall|i: int| 0 <= i < t.len() implies is_digit(#[trigger] t[i]) by {
                assert(t[i] == s[i]);
            }
        }
        lemma_decimal_bound(t);
        assert(is_digit(s[s.len() - 1]));
        let a = decimal_value(t);
        let p = pow10(t.len());
        assert(a * 10 + 9 < p * 10) by (nonlinear_arith)
            requires
                a < p,
        ;
    }
}

/// Appending digits never makes a decimal value smaller.
pub proof fn lemma_decimal_prefix_le(s: Seq<u8>, j: int)
    requires
        0 <= j <= s.len(),
        all_digits(s),
    ensures
        decimal_value(s.subrange(0, j)) <= decimal_value(s),
    decreases s.len(),
{
    if j < s.len() {
        let t = s.drop_last();
        assert(all_digits(t)) by {
            assert forall|i: int| 0 <= i < t.len() implies is_digit(#[trigger] t[i]) by {
                assert(t[i] == s[i]);
            }
        }
        lemma_decimal_prefix_le(t, j);
        assert(t.subrange(0, j) =~= s.subrange(0, j));
    } else {
        assert(s.subrange(0, j) =~= s);
    }
}

/// Reads the decimal number held by `data[lo..hi]`: `None` where a byte is
/// not a digit or the number does not fit in a `u64`.
pub fn parse_decimal(data: &[u8], lo: usize, hi: usize) -> (r: Option<u64>)
    requires
        lo <= hi <= data@.len(),
    ensures
        r == (if all_digits(data@.subrange(lo as int, hi as int)) && decimal_value(
            data@.subrange(lo as int, hi as int),
        ) <= u64::MAX {
            Some(decimal_value(data@.subrange(lo as int, hi as int)) as u64)
        } else {
            None::<u64>
        }),
{
    let ghost whole = data@.subrange(lo as int, hi as int);
    let mut v: u64 = 0;
    let mut i: usize = lo;
    while i < hi
        invariant
            lo <= i <= hi <= data@.len(),
            whole == data@.subrange(lo as int, hi as int),
            all_digits(data@.subrange(lo as int, i as int)),
            v == decimal_value(data@.subrange(lo as int, i as int)),
        decreases hi - i,
    {
        let b = data[i];
        let ghost prev = data@.subrange(lo as int, i as int);
        let ghost next = data@.subrange(lo as int, i + 1);
        assert(next.drop_last() =~= prev);
        assert(whole.subrange(0, (i + 1 - lo) as int) =~= next);
        if b < ZERO || b > NINE {
            assert(!is_digit(whole[(i - lo) as int]));
            return None;
        }
        assert(all_digits(next)) by {
            assert forall|k: int| 0 <= k < next.len() implies is_digit(#[trigger] next[k]) by {
                if k < prev.len() {
                    assert(next[k] == prev[k]);
                }
            }
        }
        let d: u64 = (b - ZERO) as u64;
        if v > (u64::MAX - d) / 10 {
            proof {
                if all_digits(whole) {
                    lemma_decimal_prefix_le(whole, (i + 1 - lo) as int);
                }
            }
            return None;
        }
        v = v * 10 + d;
        i = i + 1;
    }
    assert(whole =~= data@.subrange(lo as int, i as int));
    Some(v)
}

/// The length of the line break at `i`.
pub fn line_break_length(data: &[u8], i: usize) -> (r: usize)
    ensures
        r == line_break_len(data@, i as int),
{
    if i < data.len() && data.len() - i > 1 && data[i] == CR && data[i + 1] == LF {
        2
    } else if i < data.len() && is_pdf_eol(data[i]) {
        1
    } else {
        0
    }
}

/// Moves past the run of digits that starts at `i`.
pub fn skip_digits(data: &[u8], i: usize) -> (r: usize)
    ensures
        r == digits_end(data@, i as int),
        i <= r,
        i <= data@.len() ==> r <= data@.len(),
{
    let mut j = i;
    while j < data.len() && ZERO <= data[j] && data[j] <= NINE
        invariant
            i <= j,
            i <= data@.len() ==> j <= data@.len(),
            digits_end(data@, i as int) == digits_end(data@, j as int),
        decreases data@.len() - j,
    {
        j = j + 1;
    }
    j
}

/// Tests whether `lit` occurs in `data` at `pos`.
pub fn bytes_at(data: &[u8], pos: usize, lit: &Vec<u8>) -> (r: bool)
    ensures
        r == occurs_at(data@, pos as int, lit@),
{
    if pos > data.len() || data.len() - pos < lit.len() {
        return false;
    }
    let mut k: usize = 0;
    while k < lit.len()
        invariant
            pos + lit@.len() <= data@.len() <= usize::MAX,
            k <= lit@.len(),
            forall|j: int| 0 <= j < k ==> data@[pos + j] == lit@[j],
        decreases lit@.len() - k,
    {
        if data[pos + k] != lit[k] {
            assert(data@.subrange(pos as int, pos + lit@.len())[k as int] != lit@[k as int]);
            return false;
        }
        k = k + 1;
    }
    assert(data@.subrange(pos as int, pos + lit@.len()) =~= lit@);
    true
}

} // verus!
