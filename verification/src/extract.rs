//! The summary extractor: find the first boundary in a report text, take the
//! suffix that begins at its heading line, and reject the text when that
//! suffix contains a further boundary.

use vstd::prelude::*;

use crate::boundary::{
    boundary_at, boundary_spans, heading_of, lemma_boundary_bounds, lemma_heading_unique,
    lemma_spans_bounds,
};

verus! {

/// Why a text yields no summary.
#[derive(Clone, Copy, Debug, PartialEq, Eq, Structural)]
pub enum ExtractError {
    /// The boundary pattern occurs nowhere in the text.
    NoSummaryFound,
    /// The boundary pattern occurs again inside the summary region, so the
    /// text holds more than one summary section.
    AmbiguousSummary,
}

/// The first boundary at or after position `i`, as the pair of its line-feed
/// position and its heading position.
pub open spec fn find_from(t: Seq<u8>, i: int) -> Option<(int, int)>
    decreases t.len() - i,
{
    if i >= t.len() {
        None
    } else if boundary_at(t, i) {
        Some((i, heading_of(t, i)))
    } else {
        find_from(t, i + 1)
    }
}

/// What extraction yields on a text: the suffix at the first boundary's
/// heading line, or the error that the text deserves.
pub open spec fn extract_spec(t: Seq<u8>) -> Result<Seq<u8>, ExtractError> {
    match find_from(t, 0) {
        None => Err(ExtractError::NoSummaryFound),
        Some(p) => {
            if exists|i2: int| i2 >= p.1 && boundary_at(t, i2) {
                Err(ExtractError::AmbiguousSummary)
            } else {
                Ok(t.subrange(p.1, t.len() as int))
            }
        },
    }
}

/// Positions free of boundaries can be skipped without changing the search.
proof fn lemma_find_from_skip(t: Seq<u8>, a: int, b: int)
    requires
        a <= b,
        forall|i: int| a <= i < b ==> !boundary_at(t, i),
    ensures
        find_from(t, a) == find_from(t, b),
    decreases b - a,
{
    if a < b {
        if a >= t.len() {
            assert(find_from(t, a) == None::<(int, int)>);
            lemma_find_from_past_end(t, b);
        } else {
            lemma_find_from_skip(t, a + 1, b);
        }
    }
}

/// Past the end of the text there is nothing to find.
proof fn lemma_find_from_past_end(t: Seq<u8>, a: int)
    requires
        a >= t.len(),
    ensures
        find_from(t, a) == None::<(int, int)>,
{
}

/// What the search returns: a boundary with its heading, first among those at
/// or after `a`; or the guarantee that there is none.
pub proof fn lemma_find_from_props(t: Seq<u8>, a: int)
    ensures
        match find_from(t, a) {
            None => forall|i: int| a <= i ==> !boundary_at(t, i),
            Some(p) => {
                &&& a <= p.0
                &&& boundary_spans(t, p.0, p.1)
                &&& forall|i: int| a <= i < p.0 ==> !boundary_at(t, i)
            },
        },
    decreases t.len() - a,
{
    if a >= t.len() {
        assert forall|i: int| a <= i implies !boundary_at(t, i) by {
            if boundary_at(t, i) {
                lemma_boundary_bounds(t, i);
            }
        }
    } else if boundary_at(t, a) {
        let h = choose|h: int| boundary_spans(t, a, h);
        assert(boundary_spans(t, a, heading_of(t, a)));
    } else {
        lemma_find_from_props(t, a + 1);
    }
}

/// Two boundaries never interleave: a boundary that starts after another
/// starts at or after the other's heading line.
pub proof fn lemma_later_boundary_disjoint(t: Seq<u8>, i0: int, h0: int, i1: int)
    requires
        boundary_spans(t, i0, h0),
        boundary_at(t, i1),
        i0 < i1,
    ensures
        i1 >= h0,
{
    if i1 < h0 {
        let j0 = choose|j: int| crate::boundary::sep_with(t, i0, j, h0);
        let h1 = choose|h: int| boundary_spans(t, i1, h);
        let j1 = choose|j: int| crate::boundary::sep_with(t, i1, j, h1);
        let w0 = choose|w: int| crate::boundary::heading_with(t, h0, w);
        // The later boundary opens with a line feed and then a dash, but
        // every position before the first heading holds a dash, a separator
        // terminator, or the heading's leading whitespace.
        assert(t[i1] == crate::boundary::lf());
        assert(t[i1 + 1] == crate::boundary::dash());
        assert(crate::boundary::is_line_ws(t[h0]));
        if i1 < j0 {
            assert(t[i1] == crate::boundary::dash());
            assert(false);
        } else if i1 == j0 {
            assert(t[j0] == crate::boundary::lf());
            assert(h0 == j0 + 1);
            assert(false);
        } else {
            assert(i1 == j0 + 1 && h0 == j0 + 2);
            assert(false);
        }
    }
}

/// Trailing whitespace trimmed for display: space, tab, line feed, carriage
/// return.
pub open spec fn is_trailing_ws(b: u8) -> bool {
    b == 32 || b == 9 || b == 10 || b == 13
}

/// The text with its trailing whitespace removed.
pub open spec fn trim_end_spec(t: Seq<u8>) -> Seq<u8>
    decreases t.len(),
{
    if t.len() == 0 {
        t
    } else if is_trailing_ws(t[t.len() - 1]) {
        trim_end_spec(t.drop_last())
    } else {
        t
    }
}

/// Extract the summary region of a report text: the suffix that begins at
/// the heading line of the text's only boundary.
pub fn extract_summary(text: &Vec<u8>) -> (r: Result<Vec<u8>, ExtractError>)
    ensures
        match r {
            Ok(s) => extract_spec(text@) == Ok::<Seq<u8>, ExtractError>(s@),
            Err(e) => extract_spec(text@) == Err::<Seq<u8>, ExtractError>(e),
        },
{
    match crate::boundary::find_boundary(text, 0) {
        None => {
            proof {
                lemma_find_from_skip(text@, 0, text@.len() as int);
                lemma_find_from_past_end(text@, text@.len() as int);
            }
            Err(ExtractError::NoSummaryFound)
        },
        Some((i, h)) => {
            proof {
                lemma_find_from_skip(text@, 0, i as int);
                assert(boundary_at(text@, i as int));
                assert(boundary_spans(text@, i as int, heading_of(text@, i as int)));
                lemma_heading_unique(
                    text@,
                    i as int,
                    heading_of(text@, i as int),
                    h as int,
                );
                assert(find_from(text@, i as int) == Some((i as int, h as int)));
            }
            match crate::boundary::find_boundary(text, h) {
                Some(p2) => {
                    proof {
                        assert(boundary_at(text@, p2.0 as int));
                    }
                    Err(ExtractError::AmbiguousSummary)
                },
                None => {
                    let tail = vstd::slice::slice_subrange(text.as_slice(), h, text.len());
                    let s = vstd::slice::slice_to_vec(tail);
                    proof {
                        assert forall|i2: int| !(i2 >= h as int && boundary_at(text@, i2)) by {
                            if i2 >= h as int && boundary_at(text@, i2) {
                            }
                        }
                    }
                    Ok(s)
                },
            }
        },
    }
}

/// Remove trailing whitespace, as the summary is shown.
pub fn trim_trailing(text: &Vec<u8>) -> (r: Vec<u8>)
    ensures
        r@ == trim_end_spec(text@),
{
    let mut k = text.len();
    proof {
        assert(text@.subrange(0, text@.len() as int) =~= text@);
    }
    while k > 0 && (text[k - 1] == 32 || text[k - 1] == 9 || text[k - 1] == 10 || text[k - 1] == 13)
        invariant
            k <= text@.len(),
            trim_end_spec(text@) == trim_end_spec(text@.subrange(0, k as int)),
        decreases k,
    {
        proof {
            let cur = text@.subrange(0, k as int);
            assert(cur[k - 1] == text@[k - 1]);
            assert(cur.drop_last() =~= text@.subrange(0, k - 1));
        }
        k = k - 1;
    }
    proof {
        let cur = text@.subrange(0, k as int);
        if k > 0 {
            assert(cur[k - 1] == text@[k - 1]);
        }
        assert(trim_end_spec(cur) == cur);
    }
    vstd::slice::slice_to_vec(vstd::slice::slice_subrange(text.as_slice(), 0, k))
}

/// A text with exactly one boundary yields exactly the suffix that starts at
/// that boundary's heading line.
pub proof fn lemma_single_boundary(t: Seq<u8>, i: int, h: int)
    requires
        boundary_spans(t, i, h),
        forall|i2: int| boundary_at(t, i2) ==> i2 == i,
    ensures
        extract_spec(t) == Ok::<Seq<u8>, ExtractError>(t.subrange(h, t.len() as int)),
{
    lemma_spans_bounds(t, i, h);
    assert(boundary_at(t, i));
    lemma_find_from_props(t, 0);
    lemma_find_from_skip(t, 0, i);
    assert(boundary_spans(t, i, heading_of(t, i)));
    lemma_heading_unique(t, i, heading_of(t, i), h);
    assert(find_from(t, 0) == Some((i, h)));
    assert forall|i2: int| !(i2 >= h && boundary_at(t, i2)) by {
        if i2 >= h && boundary_at(t, i2) {
            assert(i2 == i);
        }
    }
}

/// A text with no boundary is refused as having no summary.
pub proof fn lemma_no_boundary(t: Seq<u8>)
    requires
        forall|i: int| !boundary_at(t, i),
    ensures
        extract_spec(t) == Err::<Seq<u8>, ExtractError>(ExtractError::NoSummaryFound),
{
    lemma_find_from_skip(t, 0, t.len() as int);
    lemma_find_from_past_end(t, t.len() as int);
}

/// A text with two distinct boundaries is refused as ambiguous.
pub proof fn lemma_two_boundaries_ambiguous(t: Seq<u8>, i1: int, i2: int)
    requires
        boundary_at(t, i1),
        boundary_at(t, i2),
        i1 != i2,
    ensures
        extract_spec(t) == Err::<Seq<u8>, ExtractError>(ExtractError::AmbiguousSummary),
{
    let lo = if i1 < i2 { i1 } else { i2 };
    let hi = if i1 < i2 { i2 } else { i1 };
    lemma_boundary_bounds(t, lo);
    lemma_find_from_props(t, 0);
    match find_from(t, 0) {
        None => {
            assert(!boundary_at(t, lo));
            assert(false);
        },
        Some(p) => {
            let (i0, h0) = p;
            assert(i0 <= lo) by {
                if i0 > lo {
                    assert(!boundary_at(t, lo));
                }
            }
            lemma_later_boundary_disjoint(t, i0, h0, hi);
            assert(hi >= h0 && boundary_at(t, hi));
        },
    }
}

/// Extraction depends on the text alone: equal texts yield equal results,
/// so running it twice on an unmodified input is byte-identical.
pub proof fn lemma_extract_deterministic(t1: Seq<u8>, t2: Seq<u8>)
    requires
        t1 == t2,
    ensures
        extract_spec(t1) == extract_spec(t2),
{
}

} // verus!
