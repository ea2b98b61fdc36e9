//! Reading a whole file: the keyword scan, then each part in turn.
use vstd::prelude::*;
use crate::cross_ref_table::{read_cross_ref_table, xref_table_spec};
use crate::header::{header_spec, read_header};
use crate::objects::{get_objects, objects_spec};
use crate::scanner::{keyword_text, matches_sound, scan_keywords, scan_spec};
use crate::structure::{Keyword, KeywordMatch, PDFModel, ParseError, PDF};
use crate::trailer::{read_trailer, trailer_spec};
use crate::utils::occurs_at;

verus! {

/// The first match of keyword `k` among `ms`.
pub open spec fn first_match(ms: Seq<KeywordMatch>, k: Keyword) -> Option<KeywordMatch>
    decreases ms.len(),
{
    if ms.len() == 0 {
        None
    } else if ms[0].keyword == k {
        Some(ms[0])
    } else {
        first_match(ms.drop_first(), k)
    }
}

/// The document that the keyword matches `ms` give in `s`: the header at the
/// first `%PDF-`, the cross-reference table after the first `xref`, the
/// trailer from the first `trailer`, and the object spans. The first failure
/// in that order is the result.
pub open spec fn document_spec(s: Seq<u8>, ms: Seq<KeywordMatch>) -> Result<PDFModel, ParseError> {
    match (
        first_match(ms, Keyword::Header),
        first_match(ms, Keyword::CrossReference),
        first_match(ms, Keyword::Trailer),
    ) {
        (None, _, _) => Err(ParseError::MissingStructuralKeyword(Keyword::Header)),
        (_, None, _) => Err(ParseError::MissingStructuralKeyword(Keyword::CrossReference)),
        (_, _, None) => Err(ParseError::MissingStructuralKeyword(Keyword::Trailer)),
        (Some(h), Some(x), Some(t)) => match header_spec(s, h.start as int) {
            Err(e) => Err(e),
            Ok(header) => match xref_table_spec(s, x.end as int) {
                None => Err(ParseError::MalformedCrossReferenceSection),
                Some((table, _)) => match trailer_spec(s, t.start as int) {
                    None => Err(ParseError::MalformedTrailer),
                    Some(trailer) => match objects_spec(ms) {
                        Err(e) => Err(e),
                        Ok(objects) => Ok(
                            PDFModel { header, cross_ref_table: table, trailer, objects },
                        ),
                    },
                },
            },
        },
    }
}

/// A first match of a keyword is one of the matches.
pub proof fn lemma_first_match_member(ms: Seq<KeywordMatch>, k: Keyword)
    requires
        first_match(ms, k) is Some,
    ensures
        exists|i: int|
            0 <= i < ms.len() && #[trigger] ms[i] == first_match(ms, k).unwrap() && ms[i].keyword
                == k,
    decreases ms.len(),
{
    if ms[0].keyword != k {
        lemma_first_match_member(ms.drop_first(), k);
        let i = choose|i: int|
            0 <= i < ms.drop_first().len() && #[trigger] ms.drop_first()[i] == first_match(
                ms.drop_first(),
                k,
            ).unwrap() && ms.drop_first()[i].keyword == k;
        assert(ms[i + 1] == ms.drop_first()[i]);
    } else {
        assert(ms[0] == first_match(ms, k).unwrap());
    }
}

/// A buffer in which `%PDF-` does not occur reads as a missing keyword,
/// whatever else it holds.
pub proof fn lemma_missing_header_tag(s: Seq<u8>, ms: Seq<KeywordMatch>)
    requires
        matches_sound(s, ms),
        forall|i: int| !occurs_at(s, i, keyword_text(Keyword::Header)),
    ensures
        document_spec(s, ms) == Err::<PDFModel, ParseError>(
            ParseError::MissingStructuralKeyword(Keyword::Header),
        ),
{
    if first_match(ms, Keyword::Header) is Some {
        lemma_first_match_member(ms, Keyword::Header);
        let i = choose|i: int|
            0 <= i < ms.len() && #[trigger] ms[i] == first_match(ms, Keyword::Header).unwrap()
                && ms[i].keyword == Keyword::Header;
        assert(occurs_at(s, ms[i].start as int, keyword_text(ms[i].keyword)));
    }
}

/// Finds the first match of keyword `k`.
fn find_first(matches: &[KeywordMatch], k: Keyword) -> (r: Option<KeywordMatch>)
    ensures
        r == first_match(matches@, k),
{
    let mut i: usize = 0;
    assert(matches@.subrange(0, matches@.len() as int) =~= matches@);
    while i < matches.len()
        invariant
            i <= matches@.len(),
            first_match(matches@, k) == first_match(matches@.subrange(i as int, matches@.len() as int), k),
        decreases matches@.len() - i,
    {
        let ghost rest = matches@.subrange(i as int, matches@.len() as int);
        assert(rest.drop_first() =~= matches@.subrange(i + 1, matches@.len() as int));
        if matches[i].keyword == k {
            return Some(matches[i]);
        }
        i = i + 1;
    }
    None
}

/// Builds the document from the keyword matches of `data`: the header, the
/// cross-reference table, the trailer and the object spans, failing on the
/// first error in that order.
pub fn assemble_document(data: &[u8], matches: &[KeywordMatch]) -> (r: Result<PDF, ParseError>)
    ensures
        match document_spec(data@, matches@) {
            Ok(m) => r matches Ok(p) && p@ == m,
            Err(e) => r == Err::<PDF, ParseError>(e),
        },
{
    let h = find_first(matches, Keyword::Header);
    let x = find_first(matches, Keyword::CrossReference);
    let t = find_first(matches, Keyword::Trailer);
    let (h, x, t) = match (h, x, t) {
        (None, _, _) => {
            return Err(ParseError::MissingStructuralKeyword(Keyword::Header));
        },
        (_, None, _) => {
            return Err(ParseError::MissingStructuralKeyword(Keyword::CrossReference));
        },
        (_, _, None) => {
            return Err(ParseError::MissingStructuralKeyword(Keyword::Trailer));
        },
        (Some(h), Some(x), Some(t)) => (h, x, t),
    };
    let header = match read_header(data, h.start) {
        Err(e) => {
            return Err(e);
        },
        Ok(header) => header,
    };
    let cross_ref_table = match read_cross_ref_table(data, x.end) {
        Err(e) => {
            return Err(e);
        },
        Ok((table, _)) => table,
    };
    let trailer = match read_trailer(data, t.start) {
        Err(e) => {
            return Err(e);
        },
        Ok(trailer) => trailer,
    };
    let objects = match get_objects(matches) {
        Err(e) => {
            return Err(e);
        },
        Ok(objects) => objects,
    };
    Ok(PDF { header, cross_ref_table, trailer, objects })
}

/// Reads a PDF file held in `data`: scans it for its keywords once, then
/// builds the document from them.
pub fn parse_document(data: &[u8]) -> (r: Result<PDF, ParseError>)
    ensures
        matches_sound(data@, scan_spec(data@)),
        match document_spec(data@, scan_spec(data@)) {
            Ok(m) => r matches Ok(p) && p@ == m,
            Err(e) => r == Err::<PDF, ParseError>(e),
        },
{
    let matches = scan_keywords(data);
    assemble_document(data, matches.as_slice())
}

} // verus!
