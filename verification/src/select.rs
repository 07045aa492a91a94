//! The region selector: which tracks, and which note spans of a track,
//! a requested region touches.
//!
//! A region names a set of track indices (empty = every track) and an
//! optional time window. A span is selected iff its interval
//! `[start_time, end_time]` truly overlaps the window: it must end after
//! the window starts (`end_time > start`, or no start) and begin before
//! the window ends (`start_time < end`, or no end). A note that began
//! before the window and ends inside it, or spans the whole window,
//! counts; a note that merely ends exactly where the window starts does
//! not. Track filtering and time filtering are independent.

use vstd::prelude::*;

use crate::pairing::{Span, SpanS, span_view, spans_view};

verus! {

/// The true interval-overlap rule between a span and the time window.
pub open spec fn span_selected(s: SpanS, start: Option<u64>, end: Option<u64>) -> bool {
    &&& match start {
        Some(st) => s.end_time > st,
        None => true,
    }
    &&& match end {
        Some(en) => s.start_time < en,
        None => true,
    }
}

/// Whether track `i` is eligible: the track set is empty (meaning every
/// track) or holds `i`.
pub open spec fn track_selected(sel: Seq<usize>, i: int) -> bool {
    sel.len() == 0 || exists|k: int| 0 <= k < sel.len() && sel[k] == i
}

/// Decide the overlap rule for one span.
pub fn span_in_window(s: &Span, start: Option<u64>, end: Option<u64>) -> (r: bool)
    ensures
        r == span_selected(span_view(*s), start, end),
{
    let after_start = match start {
        Some(st) => s.end_time > st as u128,
        None => true,
    };
    let before_end = match end {
        Some(en) => s.start_time < en as u128,
        None => true,
    };
    after_start && before_end
}

/// Decide whether track `i` is eligible under the track set `sel`.
pub fn track_in_set(sel: &Vec<usize>, i: usize) -> (r: bool)
    ensures
        r == track_selected(sel@, i as int),
{
    if sel.len() == 0 {
        return true;
    }
    let mut k: usize = 0;
    while k < sel.len()
        invariant
            k <= sel@.len(),
            forall|m: int| 0 <= m < k ==> sel@[m] != i,
        decreases sel@.len() - k,
    {
        if sel[k] == i {
            return true;
        }
        k = k + 1;
    }
    false
}

/// Keep exactly the spans the time window selects, preserving their
/// relative order.
pub fn select_spans(spans: &Vec<Span>, start: Option<u64>, end: Option<u64>) -> (r: Vec<Span>)
    ensures
        spans_view(r@) == spans_view(spans@).filter(
            |s: SpanS| span_selected(s, start, end),
        ),
{
    let ghost pred = |s: SpanS| span_selected(s, start, end);
    let mut out: Vec<Span> = Vec::new();
    let mut j: usize = 0;
    while j < spans.len()
        invariant
            j <= spans@.len(),
            spans_view(out@) == spans_view(spans@).subrange(0, j as int).filter(pred),
            pred == (|s: SpanS| span_selected(s, start, end)),
        decreases spans@.len() - j,
    {
        let ghost prefix = spans_view(spans@).subrange(0, j as int);
        let ghost next = spans_view(spans@).subrange(0, j + 1);
        proof {
            reveal_with_fuel(Seq::filter, 2);
            assert(next.drop_last() =~= prefix);
            assert(next.last() == span_view(spans@[j as int]));
            assert(next.filter(pred) == if pred(next.last()) {
                prefix.filter(pred).push(next.last())
            } else {
                prefix.filter(pred)
            });
        }
        let s = spans[j];
        if span_in_window(&s, start, end) {
            out.push(s);
            proof {
                assert(spans_view(out@) =~= prefix.filter(pred).push(span_view(s)));
            }
        }
        j = j + 1;
    }
    proof {
        assert(spans_view(spans@).subrange(0, spans@.len() as int) =~= spans_view(spans@));
    }
    out
}

} // verus!
