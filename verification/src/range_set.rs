//! The set of disclosed byte offsets, kept in a `rangeset::set::RangeSet`.

use crate::span::Span;
use rangeset::set::RangeSet;
use std::ops::Range;
use vstd::prelude::*;

verus! {

#[verifier::external_type_specification]
#[verifier::external_body]
#[verifier::reject_recursive_types(T)]
pub struct ExRangeSet<T>(RangeSet<T>);

/// The ranges that a range set holds, in the order in which it holds them.
pub uninterp spec fn range_set_spans(set: RangeSet<usize>) -> Seq<Span>;

/// The offsets that at least one of `spans` covers.
pub open spec fn covered(spans: Seq<Span>) -> Set<int> {
    Set::new(
        |i: int| exists|k: int| 0 <= k < spans.len() && (#[trigger] spans[k]).indices().contains(i),
    )
}

/// The offsets that a range set holds.
pub open spec fn revealed_offsets(set: RangeSet<usize>) -> Set<int> {
    covered(range_set_spans(set))
}

/// No span is empty, and each ends before the next begins, with a gap
/// between them.
pub open spec fn canonical(spans: Seq<Span>) -> bool {
    &&& forall|i: int| 0 <= i < spans.len() ==> (#[trigger] spans[i]).start < spans[i].end
    &&& forall|i: int, j: int|
        0 <= i && j == i + 1 && j < spans.len() ==> (#[trigger] spans[i]).end
            < (#[trigger] spans[j]).start
}

/// Builds the set with `RangeSet::from(Vec<Range<usize>>)`, which drops the
/// ranges that are empty or out of order, sorts the rest and merges those
/// that touch or overlap. So the ranges of the set are not empty, ascend
/// with gaps between them, and cover exactly the offsets that some span
/// covers.
#[verifier::external_body]
pub(crate) fn range_set_from(spans: &Vec<Span>) -> (set: RangeSet<usize>)
    ensures
        canonical(range_set_spans(set)),
        revealed_offsets(set) == covered(spans@),
{
    let ranges: Vec<Range<usize>> = spans.iter().map(|s| s.start..s.end).collect();
    RangeSet::from(ranges)
}

/// In a canonical sequence every span ends before any later one begins.
pub proof fn lemma_canonical_ascends(spans: Seq<Span>, i: int, j: int)
    requires
        canonical(spans),
        0 <= i < j < spans.len(),
    ensures
        spans[i].end < spans[j].start,
    decreases j - i,
{
    if i + 1 < j {
        lemma_canonical_ascends(spans, i, j - 1);
        assert(spans[j - 1].start < spans[j - 1].end);
        assert(spans[j - 1].end < spans[j].start);
    } else {
        assert(spans[i].end < spans[j].start);
    }
}

/// The first spans of two canonical sequences that cover the same offsets
/// start at the same offset.
proof fn lemma_first_start(a: Seq<Span>, b: Seq<Span>)
    requires
        canonical(a),
        canonical(b),
        covered(a) == covered(b),
        a.len() > 0,
    ensures
        b.len() > 0,
        b[0].start <= a[0].start,
{
    let x = a[0].start as int;
    assert(a[0].indices().contains(x));
    assert(covered(a).contains(x));
    assert(covered(b).contains(x));
    let k = choose|k: int| 0 <= k < b.len() && (#[trigger] b[k]).indices().contains(x);
    if k > 0 {
        lemma_canonical_ascends(b, 0, k);
        assert(b[0].start < b[0].end);
    }
}

/// The first span of a canonical sequence ends where its offsets first break
/// off, so it ends no later than that of another sequence with the same
/// offsets and the same start.
proof fn lemma_first_end(a: Seq<Span>, b: Seq<Span>)
    requires
        canonical(a),
        canonical(b),
        covered(a) == covered(b),
        a.len() > 0,
        b.len() > 0,
        a[0].start == b[0].start,
    ensures
        b[0].end <= a[0].end,
{
    if a[0].end < b[0].end {
        let x = a[0].end as int;
        assert(a[0].start < a[0].end);
        assert(b[0].indices().contains(x));
        assert(covered(b).contains(x));
        assert(covered(a).contains(x));
        let k = choose|k: int| 0 <= k < a.len() && (#[trigger] a[k]).indices().contains(x);
        if k > 0 {
            lemma_canonical_ascends(a, 0, k);
        }
    }
}

/// Without their first span, which they share, two canonical sequences still
/// cover the same offsets.
proof fn lemma_rest_covers(a: Seq<Span>, b: Seq<Span>)
    requires
        canonical(a),
        canonical(b),
        covered(a) == covered(b),
        a.len() > 0,
        b.len() > 0,
        a[0] == b[0],
    ensures
        covered(a.drop_first()).subset_of(covered(b.drop_first())),
{
    let ra = a.drop_first();
    let rb = b.drop_first();
    assert forall|x: int| covered(ra).contains(x) implies covered(rb).contains(x) by {
        let k = choose|k: int| 0 <= k < ra.len() && (#[trigger] ra[k]).indices().contains(x);
        assert(ra[k] == a[k + 1]);
        lemma_canonical_ascends(a, 0, k + 1);
        assert(a[k + 1].indices().contains(x));
        assert(covered(a).contains(x));
        assert(covered(b).contains(x));
        let m = choose|m: int| 0 <= m < b.len() && (#[trigger] b[m]).indices().contains(x);
        assert(m > 0);
        assert(rb[m - 1] == b[m]);
        assert(rb[m - 1].indices().contains(x));
    }
}

/// What is left of a canonical sequence without its first span is
/// canonical.
proof fn lemma_rest_canonical(a: Seq<Span>)
    requires
        canonical(a),
        a.len() > 0,
    ensures
        canonical(a.drop_first()),
{
    let r = a.drop_first();
    assert forall|i: int| 0 <= i < r.len() implies (#[trigger] r[i]).start < r[i].end by {
        assert(r[i] == a[i + 1]);
    }
    assert forall|i: int, j: int| 0 <= i && j == i + 1 && j < r.len() implies (#[trigger] r[i]).end
        < (#[trigger] r[j]).start by {
        assert(r[i] == a[i + 1]);
        assert(r[j] == a[j + 1]);
    }
}

/// A set of offsets has one canonical sequence of spans only: two canonical
/// sequences that cover the same offsets are the same.
pub proof fn lemma_canonical_unique(a: Seq<Span>, b: Seq<Span>)
    requires
        canonical(a),
        canonical(b),
        covered(a) == covered(b),
    ensures
        a == b,
    decreases a.len(),
{
    if a.len() == 0 {
        if b.len() > 0 {
            lemma_first_start(b, a);
        }
        assert(a =~= b);
    } else {
        lemma_first_start(a, b);
        lemma_first_start(b, a);
        lemma_first_end(a, b);
        lemma_first_end(b, a);
        assert(a[0] == b[0]);
        let ra = a.drop_first();
        let rb = b.drop_first();
        lemma_rest_canonical(a);
        lemma_rest_canonical(b);
        lemma_rest_covers(a, b);
        lemma_rest_covers(b, a);
        assert(covered(ra) =~= covered(rb));
        lemma_canonical_unique(ra, rb);
        assert forall|i: int| 0 <= i < a.len() implies a[i] == b[i] by {
            if i > 0 {
                assert(a[i] == ra[i - 1]);
                assert(b[i] == rb[i - 1]);
            }
        }
        assert(a.len() == ra.len() + 1);
        assert(b.len() == rb.len() + 1);
        assert(a =~= b);
    }
}

} // verus!
