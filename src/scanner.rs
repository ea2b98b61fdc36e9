//! The keyword scanner: one pass over the file that finds every structural
//! keyword.
use vstd::prelude::*;
use aho_corasick::AhoCorasick;
use crate::structure::{Keyword, KeywordMatch};
use crate::utils::occurs_at;

verus! {

/// The bytes of each keyword.
pub open spec fn keyword_text(k: Keyword) -> Seq<u8> {
    match k {
        Keyword::Header => seq![37u8, 80u8, 68u8, 70u8, 45u8],
        Keyword::CrossReference => seq![10u8, 120u8, 114u8, 101u8, 102u8, 10u8],
        Keyword::Trailer => seq![116u8, 114u8, 97u8, 105u8, 108u8, 101u8, 114u8, 10u8],
        Keyword::ObjectStart => seq![32u8, 111u8, 98u8, 106u8, 10u8],
        Keyword::ObjectEnd => seq![101u8, 110u8, 100u8, 111u8, 98u8, 106u8, 10u8],
    }
}

/// The bytes of a keyword.
pub fn keyword_bytes(k: Keyword) -> (r: Vec<u8>)
    ensures
        r@ == keyword_text(k),
{
    let r = match k {
        Keyword::Header => vec![37u8, 80u8, 68u8, 70u8, 45u8],
        Keyword::CrossReference => vec![10u8, 120u8, 114u8, 101u8, 102u8, 10u8],
        Keyword::Trailer => vec![116u8, 114u8, 97u8, 105u8, 108u8, 101u8, 114u8, 10u8],
        Keyword::ObjectStart => vec![32u8, 111u8, 98u8, 106u8, 10u8],
        Keyword::ObjectEnd => vec![101u8, 110u8, 100u8, 111u8, 98u8, 106u8, 10u8],
    };
    assert(r@ =~= keyword_text(k));
    r
}

/// The keyword handed to the scanner at each position of the pattern list.
pub open spec fn keyword_at(i: usize) -> Keyword {
    if i == 0 {
        Keyword::Header
    } else if i == 1 {
        Keyword::CrossReference
    } else if i == 2 {
        Keyword::Trailer
    } else if i == 3 {
        Keyword::ObjectStart
    } else {
        Keyword::ObjectEnd
    }
}

/// The pattern list: the bytes of each keyword, in the order of `keyword_at`.
pub open spec fn keyword_set() -> Seq<Seq<u8>> {
    seq![
        keyword_text(Keyword::Header),
        keyword_text(Keyword::CrossReference),
        keyword_text(Keyword::Trailer),
        keyword_text(Keyword::ObjectStart),
        keyword_text(Keyword::ObjectEnd),
    ]
}

/// What aho-corasick's non-overlapping search, with the default standard
/// match semantics, reports for `patterns` in `haystack`: for each match the
/// index of its pattern, its start and its end.
pub uninterp spec fn aho_corasick_matches(patterns: Seq<Seq<u8>>, haystack: Seq<u8>) -> Seq<(usize, usize, usize)>;

/// Each reported match is an occurrence of the pattern it names, and each
/// ends before the next one starts.
pub open spec fn occurrences_in_order(
    patterns: Seq<Seq<u8>>,
    haystack: Seq<u8>,
    ms: Seq<(usize, usize, usize)>,
) -> bool {
    &&& forall|i: int|
        0 <= i < ms.len() ==> {
            let m = #[trigger] ms[i];
            &&& m.0 < patterns.len()
            &&& m.1 <= m.2 <= haystack.len()
            &&& haystack.subrange(m.1 as int, m.2 as int) == patterns[m.0 as int]
        }
    &&& forall|i: int| 0 <= i && i + 1 < ms.len() ==> #[trigger] ms[i].2 <= ms[i + 1].1
}

/// Relies on aho-corasick's `AhoCorasick::new`, which builds a searcher that
/// numbers the patterns in the order given, and on `AhoCorasick::find_iter`,
/// which reports the non-overlapping occurrences of the patterns from left
/// to right. `None` where the searcher cannot be built, which happens only
/// when an internal limit (states, pattern ids, pattern length) is exceeded;
/// the five keywords, of at most eight bytes each, exceed none.
#[verifier::external_body]
fn find_occurrences(patterns: &Vec<Vec<u8>>, haystack: &[u8]) -> (r: Option<Vec<(usize, usize, usize)>>)
    ensures
        patterns.deep_view() == keyword_set() ==> r is Some,
        r is Some ==> r.unwrap()@ == aho_corasick_matches(patterns.deep_view(), haystack@),
        r is Some ==> occurrences_in_order(patterns.deep_view(), haystack@, r.unwrap()@),
{
    match AhoCorasick::new(patterns) {
        Ok(ac) => Some(
            ac.find_iter(haystack).map(|m| (m.pattern().as_usize(), m.start(), m.end())).collect(),
        ),
        Err(_) => None,
    }
}

/// A reported match, with its pattern index turned into the keyword.
pub open spec fn classify(m: (usize, usize, usize)) -> KeywordMatch {
    KeywordMatch { keyword: keyword_at(m.0), start: m.1, end: m.2 }
}

/// The keyword matches that the scanner reports in `s`.
pub open spec fn scan_spec(s: Seq<u8>) -> Seq<KeywordMatch> {
    aho_corasick_matches(keyword_set(), s).map_values(|m: (usize, usize, usize)| classify(m))
}

/// Each match is an occurrence of its keyword, and each ends before the
/// next one starts.
pub open spec fn matches_sound(s: Seq<u8>, ms: Seq<KeywordMatch>) -> bool {
    &&& forall|i: int|
        0 <= i < ms.len() ==> {
            let m = #[trigger] ms[i];
            &&& m.start <= m.end
            &&& occurs_at(s, m.start as int, keyword_text(m.keyword))
        }
    &&& forall|i: int| 0 <= i && i + 1 < ms.len() ==> #[trigger] ms[i].end <= ms[i + 1].start
}

/// The pattern list handed to the scanner.
fn keyword_patterns() -> (r: Vec<Vec<u8>>)
    ensures
        r.deep_view() == keyword_set(),
{
    let r = vec![
        keyword_bytes(Keyword::Header),
        keyword_bytes(Keyword::CrossReference),
        keyword_bytes(Keyword::Trailer),
        keyword_bytes(Keyword::ObjectStart),
        keyword_bytes(Keyword::ObjectEnd),
    ];
    assert forall|i: int| 0 <= i < 5 implies #[trigger] r@[i].deep_view() == r@[i]@ by {
        assert(r@[i].deep_view() =~= r@[i]@);
    }
    assert(r.deep_view() =~= keyword_set());
    r
}

/// Finds every structural keyword of `data` in one pass, in file order.
pub fn scan_keywords(data: &[u8]) -> (r: Vec<KeywordMatch>)
    ensures
        r@ == scan_spec(data@),
        matches_sound(data@, r@),
{
    let patterns = keyword_patterns();
    let raw = find_occurrences(&patterns, data).unwrap();
    let ghost model = raw@.map_values(|m: (usize, usize, usize)| classify(m));
    let mut out: Vec<KeywordMatch> = Vec::new();
    let mut i: usize = 0;
    while i < raw.len()
        invariant
            i <= raw@.len(),
            occurrences_in_order(keyword_set(), data@, raw@),
            model == raw@.map_values(|m: (usize, usize, usize)| classify(m)),
            out@ == model.subrange(0, i as int),
        decreases raw@.len() - i,
    {
        let (p, start, end) = raw[i];
        let keyword = if p == 0 {
            Keyword::Header
        } else if p == 1 {
            Keyword::CrossReference
        } else if p == 2 {
            Keyword::Trailer
        } else if p == 3 {
            Keyword::ObjectStart
        } else {
            Keyword::ObjectEnd
        };
        out.push(KeywordMatch { keyword, start, end });
        assert(out@ =~= model.subrange(0, i + 1));
        i = i + 1;
    }
    assert(out@ =~= model);
    assert(matches_sound(data@, out@)) by {
        assert forall|k: int| 0 <= k < out@.len() implies {
            let m = #[trigger] out@[k];
            &&& m.start <= m.end
            &&& occurs_at(data@, m.start as int, keyword_text(m.keyword))
        } by {
            let q = raw@[k];
            assert(out@[k] == classify(q));
            assert(q.0 < 5);
            assert(keyword_set()[q.0 as int] == keyword_text(keyword_at(q.0)));
        }
        assert forall|k: int| 0 <= k && k + 1 < out@.len() implies #[trigger] out@[k].end
            <= out@[k + 1].start by {
            assert(raw@[k].2 <= raw@[k + 1].1);
        }
    }
    out
}

} // verus!
