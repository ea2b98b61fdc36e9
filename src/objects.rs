//! The byte ranges of the indirect objects, from the ` obj` and `endobj`
//! markers.
use vstd::prelude::*;
use crate::structure::{Keyword, KeywordMatch, ObjectSpan, ParseError};

verus! {

/// The starts of the ` obj` markers among `ms`, in order.
pub open spec fn starts_of(ms: Seq<KeywordMatch>) -> Seq<usize>
    decreases ms.len(),
{
    if ms.len() == 0 {
        Seq::empty()
    } else if ms.last().keyword == Keyword::ObjectStart {
        starts_of(ms.drop_last()).push(ms.last().start)
    } else {
        starts_of(ms.drop_last())
    }
}

/// The starts of the `endobj` markers among `ms`, in order.
pub open spec fn ends_of(ms: Seq<KeywordMatch>) -> Seq<usize>
    decreases ms.len(),
{
    if ms.len() == 0 {
        Seq::empty()
    } else if ms.last().keyword == Keyword::ObjectEnd {
        ends_of(ms.drop_last()).push(ms.last().start)
    } else {
        ends_of(ms.drop_last())
    }
}

/// The i-th start paired with the i-th end gives ranges that are not empty
/// and do not overlap, in file order.
pub open spec fn pairs_well(starts: Seq<usize>, ends: Seq<usize>) -> bool {
    &&& starts.len() == ends.len()
    &&& forall|i: int| 0 <= i < starts.len() ==> #[trigger] starts[i] < ends[i]
    &&& forall|i: int| 0 < i < starts.len() ==> ends[i - 1] <= #[trigger] starts[i]
}

/// The object spans that the markers among `ms` give.
pub open spec fn objects_spec(ms: Seq<KeywordMatch>) -> Result<Seq<ObjectSpan>, ParseError> {
    let starts = starts_of(ms);
    let ends = ends_of(ms);
    if pairs_well(starts, ends) {
        Ok(Seq::new(starts.len(), |i: int| ObjectSpan { start_offset: starts[i], end_offset: ends[i] }))
    } else {
        Err(ParseError::ObjectBoundaryMismatch)
    }
}

/// When the ` obj` markers and the `endobj` markers differ in number, the
/// objects cannot be delimited.
pub proof fn lemma_marker_counts_differ(ms: Seq<KeywordMatch>)
    requires
        starts_of(ms).len() != ends_of(ms).len(),
    ensures
        objects_spec(ms) == Err::<Seq<ObjectSpan>, ParseError>(ParseError::ObjectBoundaryMismatch),
{
}

/// Pairs the i-th ` obj` marker with the i-th `endobj` marker: each span
/// runs from the start of the one to the start of the other.
pub fn get_objects(matches: &[KeywordMatch]) -> (r: Result<Vec<ObjectSpan>, ParseError>)
    ensures
        match objects_spec(matches@) {
            Ok(spans) => r matches Ok(v) && v@ == spans,
            Err(e) => r == Err::<Vec<ObjectSpan>, ParseError>(e),
        },
{
    let mut starts: Vec<usize> = Vec::new();
    let mut ends: Vec<usize> = Vec::new();
    let mut i: usize = 0;
    while i < matches.len()
        invariant
            i <= matches@.len(),
            starts@ == starts_of(matches@.subrange(0, i as int)),
            ends@ == ends_of(matches@.subrange(0, i as int)),
        decreases matches@.len() - i,
    {
        let m = matches[i];
        let ghost prefix = matches@.subrange(0, i + 1);
        assert(prefix.drop_last() =~= matches@.subrange(0, i as int));
        if m.keyword == Keyword::ObjectStart {
            starts.push(m.start);
        } else if m.keyword == Keyword::ObjectEnd {
            ends.push(m.start);
        }
        i = i + 1;
    }
    assert(matches@.subrange(0, i as int) =~= matches@);
    if starts.len() != ends.len() {
        return Err(ParseError::ObjectBoundaryMismatch);
    }
    let mut spans: Vec<ObjectSpan> = Vec::new();
    let mut k: usize = 0;
    while k < starts.len()
        invariant
            k <= starts@.len() == ends@.len(),
            starts@ == starts_of(matches@),
            ends@ == ends_of(matches@),
            forall|j: int| 0 <= j < k ==> #[trigger] starts@[j] < ends@[j],
            forall|j: int| 0 < j < k ==> ends@[j - 1] <= #[trigger] starts@[j],
            spans@ == Seq::new(
                k as nat,
                |j: int| ObjectSpan { start_offset: starts@[j], end_offset: ends@[j] },
            ),
        decreases starts@.len() - k,
    {
        if starts[k] >= ends[k] || (k > 0 && ends[k - 1] > starts[k]) {
            assert(!pairs_well(starts@, ends@));
            return Err(ParseError::ObjectBoundaryMismatch);
        }
        spans.push(ObjectSpan { start_offset: starts[k], end_offset: ends[k] });
        k = k + 1;
        assert(spans@ =~= Seq::new(
            k as nat,
            |j: int| ObjectSpan { start_offset: starts@[j], end_offset: ends@[j] },
        ));
    }
    Ok(spans)
}

} // verus!
