//! The transform engine and the operation surface.
//!
//! A transform touches exactly the two boundary events of each note span
//! that the requested region selects: the begin and the end event of a
//! paired note are mutated identically, and nothing else — no timestamp,
//! no event of an unselected track, no passthrough payload — ever
//! changes. A track is always paired from its full event list first and
//! filtered by the region afterwards, never cut short at a time bound.

use vstd::prelude::*;

use crate::adapter::{smf_model, track_count, track_events, write_track};
use crate::events::{Event, EventKind, RangeArgs, kind_wf, track_wf, tracks_wf};
use crate::normalize::{normalized, to_absolute};
use crate::pairing::{SpanS, lemma_scan_bounded, pair_track, spans_of, spans_view, state_bounded};
use crate::select::{span_in_window, span_selected, track_in_set, track_selected};
use crate::transform::{Transform, transformed_kind};

verus! {

/// Whether some span in `spans` is selected by the time window and has
/// the event at index `j` as one of its two boundaries.
pub open spec fn boundary_touched(
    spans: Seq<SpanS>,
    start: Option<u64>,
    end: Option<u64>,
    j: int,
) -> bool {
    exists|k: int|
        0 <= k < spans.len() && span_selected(#[trigger] spans[k], start, end) && (
        spans[k].start_idx == j || spans[k].end_idx == j)
}

proof fn lemma_boundary_touched_push(
    spans: Seq<SpanS>,
    s: SpanS,
    start: Option<u64>,
    end: Option<u64>,
    j: int,
)
    ensures
        boundary_touched(spans.push(s), start, end, j) == (boundary_touched(spans, start, end, j)
            || (span_selected(s, start, end) && (s.start_idx == j || s.end_idx == j))),
{
    let ext = spans.push(s);
    if boundary_touched(spans, start, end, j) {
        let k = choose|k: int|
            0 <= k < spans.len() && span_selected(#[trigger] spans[k], start, end) && (
            spans[k].start_idx == j || spans[k].end_idx == j);
        assert(ext[k] == spans[k]);
        assert(boundary_touched(ext, start, end, j));
    }
    if span_selected(s, start, end) && (s.start_idx == j || s.end_idx == j) {
        assert(ext[spans.len() as int] == s);
        assert(boundary_touched(ext, start, end, j));
    }
    if boundary_touched(ext, start, end, j) {
        let k = choose|k: int|
            0 <= k < ext.len() && span_selected(#[trigger] ext[k], start, end) && (ext[k].start_idx
                == j || ext[k].end_idx == j);
        if k < spans.len() {
            assert(ext[k] == spans[k]);
            assert(boundary_touched(spans, start, end, j));
        } else {
            assert(ext[k] == s);
        }
    }
}

/// Whether the transform touches the event at index `j` of a track: some
/// note span of the fully paired track is selected by the window and has
/// `j` as a boundary.
pub open spec fn touched(events: Seq<Event>, start: Option<u64>, end: Option<u64>, j: int) -> bool {
    boundary_touched(spans_of(normalized(events)), start, end, j)
}

/// What one track becomes: the same events, in order, with the payloads
/// of the touched boundary events transformed and every delta and every
/// untouched event exactly as before.
pub open spec fn transformed_track(
    events: Seq<Event>,
    t: Transform,
    start: Option<u64>,
    end: Option<u64>,
) -> Seq<Event> {
    Seq::new(
        events.len(),
        |j: int|
            if touched(events, start, end, j) {
                Event { delta: events[j].delta, kind: transformed_kind(t, events[j].kind) }
            } else {
                events[j]
            },
    )
}

/// What the whole file becomes: eligible tracks are transformed, every
/// other track is exactly as before.
pub open spec fn transformed_file(
    tracks: Seq<Seq<Event>>,
    t: Transform,
    sel: Seq<usize>,
    start: Option<u64>,
    end: Option<u64>,
) -> Seq<Seq<Event>> {
    Seq::new(
        tracks.len(),
        |i: int|
            if track_selected(sel, i) {
                transformed_track(tracks[i], t, start, end)
            } else {
                tracks[i]
            },
    )
}

/// Transform one track: pair its full event list into note spans, select
/// the spans the window overlaps, and apply the transform to the two
/// boundary events of each selected span.
pub fn transform_track(
    events: &Vec<Event>,
    t: &Transform,
    start: Option<u64>,
    end: Option<u64>,
) -> (r: Vec<Event>)
    requires
        t.valid(),
    ensures
        r@ == transformed_track(events@, *t, start, end),
{
    let n = events.len();
    let abs = to_absolute(events);
    let spans = pair_track(&abs);
    let ghost av = crate::events::abs_seq_view(abs@);
    let ghost sp = spans_view(spans@);
    proof {
        lemma_scan_bounded(av, av.len() as int);
        assert(state_bounded(crate::pairing::scan(av, av.len() as int), av.len() as int));
        assert(sp == spans_of(normalized(events@)));
        assert(av.len() == n);
    }
    let mut flags: Vec<bool> = Vec::new();
    while flags.len() < n
        invariant
            flags@.len() <= n,
            forall|jj: int| 0 <= jj < flags@.len() ==> !(#[trigger] flags@[jj]),
        decreases n - flags@.len(),
    {
        flags.push(false);
    }
    let mut k: usize = 0;
    while k < spans.len()
        invariant
            k <= spans@.len(),
            sp == spans_view(spans@),
            sp == spans_of(normalized(events@)),
            state_bounded(crate::pairing::scan(av, av.len() as int), av.len() as int),
            av == normalized(events@),
            av.len() == n,
            flags@.len() == n,
            forall|jj: int|
                0 <= jj < n ==> ((#[trigger] flags@[jj]) == boundary_touched(
                    sp.subrange(0, k as int),
                    start,
                    end,
                    jj,
                )),
        decreases spans@.len() - k,
    {
        let ghost prefix = sp.subrange(0, k as int);
        let ghost next = sp.subrange(0, k + 1);
        proof {
            assert(next =~= prefix.push(sp[k as int]));
            assert forall|jj: int| 0 <= jj < n implies boundary_touched(next, start, end, jj)
                == (boundary_touched(prefix, start, end, jj) || (span_selected(
                sp[k as int],
                start,
                end,
            ) && (sp[k as int].start_idx == jj || sp[k as int].end_idx == jj))) by {
                lemma_boundary_touched_push(prefix, sp[k as int], start, end, jj);
            }
        }
        let s = spans[k];
        proof {
            assert(sp[k as int] == crate::pairing::span_view(s));
            assert(0 <= sp[k as int].start_idx < n && 0 <= sp[k as int].end_idx < n);
        }
        if span_in_window(&s, start, end) {
            let fa = &mut flags[s.start_idx];
            *fa = true;
            let fb = &mut flags[s.end_idx];
            *fb = true;
        }
        k = k + 1;
    }
    proof {
        assert(sp.subrange(0, sp.len() as int) =~= sp);
        assert(forall|jj: int|
            0 <= jj < n ==> (#[trigger] flags@[jj]) == touched(events@, start, end, jj));
    }
    let mut out: Vec<Event> = Vec::new();
    let mut j: usize = 0;
    while j < n
        invariant
            j <= n,
            n == events@.len(),
            flags@.len() == n,
            t.valid(),
            out@.len() == j,
            forall|jj: int| 0 <= jj < n ==> (#[trigger] flags@[jj]) == touched(events@, start, end, jj),
            forall|jj: int|
                0 <= jj < j ==> (#[trigger] out@[jj]) == transformed_track(events@, *t, start, end)[jj],
        decreases n - j,
    {
        let e = events[j];
        if flags[j] {
            out.push(Event { delta: e.delta, kind: crate::transform::apply_transform(t, &e.kind) });
        } else {
            out.push(e);
        }
        j = j + 1;
    }
    proof {
        assert(out@ =~= transformed_track(events@, *t, start, end));
    }
    out
}

/// Transform the region of a decoded file in place: every eligible track
/// is paired whole, its selected spans' boundary events are transformed,
/// and nothing else of the file changes. If the transform changes
/// nothing, the file value is left exactly as it was.
pub fn transform_region(smf: &mut midly::Smf<'static>, t: &Transform, range: &RangeArgs)
    requires
        t.valid(),
    ensures
        smf_model(*final(smf)) == transformed_file(
            smf_model(*old(smf)),
            *t,
            range.track@,
            range.start,
            range.end,
        ),
        transformed_file(smf_model(*old(smf)), *t, range.track@, range.start, range.end)
            == smf_model(*old(smf)) ==> *final(smf) == *old(smf),
{
    let ghost m0 = smf_model(*smf);
    let ghost target = transformed_file(m0, *t, range.track@, range.start, range.end);
    let ghost smf0 = *smf;
    let n = track_count(smf);
    let mut i: usize = 0;
    while i < n
        invariant
            i <= n,
            n == m0.len(),
            t.valid(),
            m0 == smf_model(smf0),
            target == transformed_file(m0, *t, range.track@, range.start, range.end),
            smf_model(*smf) == prefix_file(m0, target, i as int),
            target == m0 ==> *smf == smf0,
        decreases n - i,
    {
        proof {
            assert(prefix_file(m0, target, i as int).len() == m0.len());
            assert(smf_model(*smf)[i as int] == m0[i as int]);
        }
        if track_in_set(&range.track, i) {
            let olds = track_events(smf, i);
            let news = transform_track(&olds, t, range.start, range.end);
            proof {
                assert(news@ == transformed_track(m0[i as int], *t, range.start, range.end));
                assert(news@ == target[i as int]);
                assert(news@.len() == olds@.len());
                assert forall|x: int| 0 <= x < news@.len() implies (#[trigger] news@[x]).delta
                    == olds@[x].delta && (news@[x].kind != olds@[x].kind ==> !(news@[x].kind
                    is Other) && kind_wf(news@[x].kind)) by {
                    if touched(olds@, range.start, range.end, x) {
                        crate::transform::lemma_transform_wf(*t, olds@[x].kind);
                        assert(kind_wf(olds@[x].kind));
                    }
                }
            }
            write_track(smf, i, &olds, &news);
            proof {
                assert(smf_model(*smf) =~~= prefix_file(m0, target, i + 1));
                if target == m0 {
                    assert(target[i as int] == m0[i as int]);
                    assert(news@ == olds@);
                }
            }
        } else {
            proof {
                assert(!track_selected(range.track@, i as int));
                assert(target[i as int] == m0[i as int]);
                assert(smf_model(*smf) =~~= prefix_file(m0, target, i + 1));
            }
        }
        i = i + 1;
    }
    proof {
        assert(smf_model(*smf) =~~= target);
    }
}

/// The file with the first `i` tracks already at their target contents
/// and the rest still original.
pub open spec fn prefix_file(m0: Seq<Seq<Event>>, target: Seq<Seq<Event>>, i: int) -> Seq<
    Seq<Event>,
> {
    Seq::new(m0.len(), |x: int| if x < i { target[x] } else { m0[x] })
}

/// Shift the pitch of every note the region selects by `distance`
/// semitones, saturating at the 7-bit bounds; intensities, timestamps and
/// passthrough events are untouched.
pub fn transpose(smf: &mut midly::Smf<'static>, distance: i8, range_args: &RangeArgs)
    ensures
        smf_model(*final(smf)) == transformed_file(
            smf_model(*old(smf)),
            Transform::Transpose { delta: distance },
            range_args.track@,
            range_args.start,
            range_args.end,
        ),
        transformed_file(
            smf_model(*old(smf)),
            Transform::Transpose { delta: distance },
            range_args.track@,
            range_args.start,
            range_args.end,
        ) == smf_model(*old(smf)) ==> *final(smf) == *old(smf),
{
    let t = Transform::Transpose { delta: distance };
    transform_region(smf, &t, range_args);
}

/// Rescale the intensity of every note the region selects:
/// `round((v - center) * num / den) + offset`, rounding half away from
/// zero and saturating at the 7-bit bounds; pitches, timestamps and
/// passthrough events are untouched.
pub fn scale(
    smf: &mut midly::Smf<'static>,
    num: i32,
    den: u32,
    center: i8,
    offset: i8,
    range_args: &RangeArgs,
)
    requires
        den > 0,
    ensures
        smf_model(*final(smf)) == transformed_file(
            smf_model(*old(smf)),
            Transform::Rescale { num, den, center, offset },
            range_args.track@,
            range_args.start,
            range_args.end,
        ),
        transformed_file(
            smf_model(*old(smf)),
            Transform::Rescale { num, den, center, offset },
            range_args.track@,
            range_args.start,
            range_args.end,
        ) == smf_model(*old(smf)) ==> *final(smf) == *old(smf),
{
    let t = Transform::Rescale { num, den, center, offset };
    transform_region(smf, &t, range_args);
}

/// A transpose by zero semitones is a no-op: over any region it leaves
/// every well-formed track of the file exactly as it was.
pub proof fn lemma_transpose_zero_noop(
    tracks: Seq<Seq<Event>>,
    sel: Seq<usize>,
    start: Option<u64>,
    end: Option<u64>,
)
    requires
        tracks_wf(tracks),
    ensures
        transformed_file(tracks, Transform::Transpose { delta: 0 }, sel, start, end) == tracks,
{
    let t = Transform::Transpose { delta: 0 };
    assert forall|i: int| 0 <= i < tracks.len() implies transformed_file(
        tracks,
        t,
        sel,
        start,
        end,
    )[i] == tracks[i] by {
        assert(track_wf(tracks[i]));
        assert forall|j: int| 0 <= j < tracks[i].len() implies transformed_track(
            tracks[i],
            t,
            start,
            end,
        )[j] == tracks[i][j] by {
            let k = tracks[i][j].kind;
            assert(kind_wf(k));
            assert(transformed_kind(t, k) == k);
        }
        assert(transformed_track(tracks[i], t, start, end) =~= tracks[i]);
    }
    assert(transformed_file(tracks, t, sel, start, end) =~~= tracks);
}

/// What a transform can never do: change the shape of the file. The
/// result has the same tracks, each with the same events in the same
/// order; every delta time is kept, and every passthrough event — every
/// event that is not a note boundary — is kept verbatim.
pub proof fn lemma_transform_preserves_structure(
    tracks: Seq<Seq<Event>>,
    t: Transform,
    sel: Seq<usize>,
    start: Option<u64>,
    end: Option<u64>,
)
    ensures
        transformed_file(tracks, t, sel, start, end).len() == tracks.len(),
        forall|i: int|
            0 <= i < tracks.len() ==> (#[trigger] transformed_file(tracks, t, sel, start, end)[i]).len()
                == tracks[i].len(),
        forall|i: int, j: int|
            0 <= i < tracks.len() && 0 <= j < tracks[i].len() ==> (#[trigger] transformed_file(
                tracks,
                t,
                sel,
                start,
                end,
            )[i][j]).delta == tracks[i][j].delta,
        forall|i: int, j: int|
            0 <= i < tracks.len() && 0 <= j < tracks[i].len() && tracks[i][j].kind is Other
                ==> (#[trigger] transformed_file(tracks, t, sel, start, end)[i][j]) == tracks[i][j],
{
    assert forall|i: int, j: int|
        0 <= i < tracks.len() && 0 <= j < tracks[i].len() && tracks[i][j].kind is Other implies (
    #[trigger] transformed_file(tracks, t, sel, start, end)[i][j]) == tracks[i][j] by {
        crate::transform::lemma_transform_wf(t, tracks[i][j].kind);
    }
}

/// A transform is never applied to only one side of a note: for every
/// span the window selects, both the begin and the end event carry the
/// transformed payload; and an event no selected span has as a boundary
/// is kept bit for bit.
pub proof fn lemma_boundaries_transformed_together(
    events: Seq<Event>,
    t: Transform,
    start: Option<u64>,
    end: Option<u64>,
    k: int,
)
    requires
        0 <= k < spans_of(normalized(events)).len(),
        span_selected(spans_of(normalized(events))[k], start, end),
    ensures
        ({
            let s = spans_of(normalized(events))[k];
            let out = transformed_track(events, t, start, end);
            &&& out[s.start_idx].kind == transformed_kind(t, events[s.start_idx].kind)
            &&& out[s.end_idx].kind == transformed_kind(t, events[s.end_idx].kind)
        }),
        forall|j: int|
            0 <= j < events.len() && !touched(events, start, end, j)
                ==> #[trigger] transformed_track(events, t, start, end)[j] == events[j],
{
    let abs = normalized(events);
    lemma_scan_bounded(abs, abs.len() as int);
    let s = spans_of(abs)[k];
    assert(0 <= s.start_idx < events.len() && 0 <= s.end_idx < events.len());
    assert(touched(events, start, end, s.start_idx));
    assert(touched(events, start, end, s.end_idx));
}

/// Track isolation: a transform over a region never changes any event of
/// a track the region does not name.
pub proof fn lemma_track_isolation(
    tracks: Seq<Seq<Event>>,
    t: Transform,
    sel: Seq<usize>,
    start: Option<u64>,
    end: Option<u64>,
    i: int,
)
    requires
        0 <= i < tracks.len(),
        !track_selected(sel, i),
    ensures
        transformed_file(tracks, t, sel, start, end)[i] == tracks[i],
{
}

} // verus!
