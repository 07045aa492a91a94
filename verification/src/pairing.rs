//! The note pairing engine: reconciles note-begin and note-end events of
//! one track into closed note spans.
//!
//! The scan keeps, per pitch, a stack of the begins that are still open.
//! A begin with positive intensity is pushed; a note-end, or a begin with
//! zero intensity (the stream format's own convention for ending a note),
//! pops the most recent open begin of that pitch and emits a closed span
//! — last-in-first-out, so that a retrigger of an already-sounding pitch
//! nests inside the outer note. A close with no open begin of its pitch
//! is dropped silently, and so are begins still open when the track ends:
//! only fully bounded spans are ever emitted. The whole track is always
//! scanned to completion; spans are emitted in the order of their closing
//! events.

use vstd::prelude::*;

use crate::events::{AbsEvent, AbsEventS, EventKind, abs_seq_view};

verus! {

/// A closed note span: one sounding note, from its begin event (index
/// `start_idx` in the track, at `start_time`, pressed with
/// `start_intensity`) to the end event that closed it.
#[derive(Clone, Copy, Debug, PartialEq, Eq, Structural)]
pub struct Span {
    pub pitch: u8,
    pub start_idx: usize,
    pub start_time: u128,
    pub start_intensity: u8,
    pub end_idx: usize,
    pub end_time: u128,
    pub end_intensity: u8,
}

/// Ghost counterpart of `Span`, over mathematical integers.
pub struct SpanS {
    pub pitch: u8,
    pub start_idx: int,
    pub start_time: int,
    pub start_intensity: u8,
    pub end_idx: int,
    pub end_time: int,
    pub end_intensity: u8,
}

pub open spec fn span_view(s: Span) -> SpanS {
    SpanS {
        pitch: s.pitch,
        start_idx: s.start_idx as int,
        start_time: s.start_time as int,
        start_intensity: s.start_intensity,
        end_idx: s.end_idx as int,
        end_time: s.end_time as int,
        end_intensity: s.end_intensity,
    }
}

/// One unmatched note begin, waiting on its pitch's stack.
#[derive(Clone, Copy, Debug)]
pub struct Open {
    pub idx: usize,
    pub time: u128,
    pub intensity: u8,
}

/// Ghost counterpart of `Open`.
pub struct OpenS {
    pub idx: int,
    pub time: int,
    pub intensity: u8,
}

pub open spec fn open_view(o: Open) -> OpenS {
    OpenS { idx: o.idx as int, time: o.time as int, intensity: o.intensity }
}

/// The scan state: one stack of open begins per pitch (128 slots), and
/// the spans closed so far, in closing order.
pub struct PairStateS {
    pub stacks: Seq<Seq<OpenS>>,
    pub spans: Seq<SpanS>,
}

pub open spec fn init_state() -> PairStateS {
    PairStateS { stacks: Seq::new(128, |p: int| Seq::empty()), spans: Seq::empty() }
}

/// Close the most recent open begin of `pitch`, if any, against the event
/// at index `j`, time `time`, intensity `end_intensity`; with no open
/// begin the event is dropped and the state unchanged.
pub open spec fn close_step(
    st: PairStateS,
    pitch: u8,
    j: int,
    time: int,
    end_intensity: u8,
) -> PairStateS {
    let stk = st.stacks[pitch as int];
    if stk.len() == 0 {
        st
    } else {
        let top = stk.last();
        PairStateS {
            stacks: st.stacks.update(pitch as int, stk.drop_last()),
            spans: st.spans.push(
                SpanS {
                    pitch,
                    start_idx: top.idx,
                    start_time: top.time,
                    start_intensity: top.intensity,
                    end_idx: j,
                    end_time: time,
                    end_intensity,
                },
            ),
        }
    }
}

/// How the event at index `j` advances the scan state.
pub open spec fn pair_step(st: PairStateS, j: int, e: AbsEventS) -> PairStateS {
    match e.kind {
        EventKind::NoteBegin { channel, pitch, intensity } => {
            if pitch >= 128 {
                st
            } else if intensity > 0 {
                PairStateS {
                    stacks: st.stacks.update(
                        pitch as int,
                        st.stacks[pitch as int].push(
                            OpenS { idx: j, time: e.time, intensity },
                        ),
                    ),
                    spans: st.spans,
                }
            } else {
                close_step(st, pitch, j, e.time, intensity)
            }
        },
        EventKind::NoteEnd { channel, pitch, intensity } => {
            if pitch >= 128 {
                st
            } else {
                close_step(st, pitch, j, e.time, intensity)
            }
        },
        EventKind::Other => st,
    }
}

/// The scan state after the first `n` events of a normalized track.
pub open spec fn scan(abs: Seq<AbsEventS>, n: int) -> PairStateS
    decreases n,
{
    if n <= 0 {
        init_state()
    } else {
        pair_step(scan(abs, n - 1), n - 1, abs[n - 1])
    }
}

/// The closed note spans of a whole normalized track, in closing order.
pub open spec fn spans_of(abs: Seq<AbsEventS>) -> Seq<SpanS> {
    scan(abs, abs.len() as int).spans
}

/// Every index held by the scan state after `n` events points into the
/// first `n` events.
pub open spec fn state_bounded(st: PairStateS, n: int) -> bool {
    &&& st.stacks.len() == 128
    &&& forall|p: int, k: int|
        0 <= p < 128 && 0 <= k < st.stacks[p].len() ==> 0 <= (#[trigger] st.stacks[p][k]).idx < n
    &&& forall|k: int|
        0 <= k < st.spans.len() ==> 0 <= (#[trigger] st.spans[k]).start_idx < n && 0 <= st.spans[k].end_idx < n
}

pub proof fn lemma_scan_bounded(abs: Seq<AbsEventS>, n: int)
    requires
        0 <= n <= abs.len(),
    ensures
        state_bounded(scan(abs, n), n),
    decreases n,
{
    if n > 0 {
        lemma_scan_bounded(abs, n - 1);
    }
}

/// Every open begin on the stacks after `n` events was recorded with the
/// timestamp of its own event, and every emitted span runs forward: its
/// begin strictly precedes its end and never starts after it in time.
pub open spec fn state_ordered(st: PairStateS, abs: Seq<AbsEventS>, n: int) -> bool {
    &&& st.stacks.len() == 128
    &&& forall|p: int, k: int|
        0 <= p < 128 && 0 <= k < st.stacks[p].len() ==> {
            let o = #[trigger] st.stacks[p][k];
            0 <= o.idx < n && o.time == abs[o.idx].time
        }
    &&& forall|k: int|
        0 <= k < st.spans.len() ==> {
            let s = #[trigger] st.spans[k];
            s.start_idx < s.end_idx && s.start_time <= s.end_time
        }
}

/// The note-span invariant: a span never ends before it starts. Every
/// span the scan of a normalized track emits closes at or after its
/// begin, and its begin event strictly precedes its end event.
pub proof fn lemma_scan_ordered(abs: Seq<AbsEventS>, n: int)
    requires
        crate::normalize::times_nondecreasing(abs),
        0 <= n <= abs.len(),
    ensures
        state_ordered(scan(abs, n), abs, n),
    decreases n,
{
    if n > 0 {
        lemma_scan_ordered(abs, n - 1);
        let st = scan(abs, n - 1);
        let e = abs[n - 1];
        let nxt = pair_step(st, n - 1, e);
        match e.kind {
            EventKind::NoteBegin { channel, pitch, intensity } => {
                if pitch < 128 && !(intensity > 0) {
                    lemma_close_ordered(st, abs, n, pitch, e.time, intensity);
                }
            },
            EventKind::NoteEnd { channel, pitch, intensity } => {
                if pitch < 128 {
                    lemma_close_ordered(st, abs, n, pitch, e.time, intensity);
                }
            },
            EventKind::Other => {},
        }
    }
}

proof fn lemma_close_ordered(
    st: PairStateS,
    abs: Seq<AbsEventS>,
    n: int,
    pitch: u8,
    time: int,
    end_intensity: u8,
)
    requires
        crate::normalize::times_nondecreasing(abs),
        0 < n <= abs.len(),
        time == abs[n - 1].time,
        state_ordered(st, abs, n - 1),
        pitch < 128,
    ensures
        state_ordered(close_step(st, pitch, n - 1, time, end_intensity), abs, n),
{
    let stk = st.stacks[pitch as int];
    let c = close_step(st, pitch, n - 1, time, end_intensity);
    if stk.len() > 0 {
        let top = stk.last();
        assert(top == st.stacks[pitch as int][stk.len() - 1]);
        assert(0 <= top.idx < n - 1 && top.time == abs[top.idx].time);
        assert(abs[top.idx].time <= abs[n - 1].time);
        assert forall|p: int, k: int| 0 <= p < 128 && 0 <= k < c.stacks[p].len() implies {
            let o = #[trigger] c.stacks[p][k];
            0 <= o.idx < n && o.time == abs[o.idx].time
        } by {
            if p == pitch as int {
                assert(c.stacks[p][k] == stk[k]);
                assert(st.stacks[p][k] == stk[k]);
            } else {
                assert(c.stacks[p][k] == st.stacks[p][k]);
            }
        }
        assert forall|k: int| 0 <= k < c.spans.len() implies {
            let s = #[trigger] c.spans[k];
            s.start_idx < s.end_idx && s.start_time <= s.end_time
        } by {
            if k < st.spans.len() {
                assert(c.spans[k] == st.spans[k]);
            } else {
                assert(c.spans[k] == c.spans.last());
            }
        }
    } else {
        assert forall|p: int, k: int| 0 <= p < 128 && 0 <= k < c.stacks[p].len() implies {
            let o = #[trigger] c.stacks[p][k];
            0 <= o.idx < n && o.time == abs[o.idx].time
        } by {
            assert(c.stacks[p][k] == st.stacks[p][k]);
        }
    }
}

/// The note-span invariant, for a whole track: every span the pairing of
/// a delta-timed track yields ends at or after the time it starts, and
/// its begin event stands strictly before its end event.
pub proof fn lemma_spans_well_formed(events: Seq<crate::events::Event>)
    ensures
        forall|k: int|
            0 <= k < spans_of(crate::normalize::normalized(events)).len() ==> {
                let s = #[trigger] spans_of(crate::normalize::normalized(events))[k];
                s.start_idx < s.end_idx && s.start_time <= s.end_time
            },
{
    let abs = crate::normalize::normalized(events);
    crate::normalize::lemma_normalized_monotone(events);
    lemma_scan_ordered(abs, abs.len() as int);
}

/// A track with no positive note begin yields no spans at all: every
/// close event in it is dangling and is dropped, leaving the scan state
/// untouched.
pub proof fn lemma_no_begin_no_spans(abs: Seq<AbsEventS>, n: int)
    requires
        0 <= n <= abs.len(),
        forall|j: int| 0 <= j < abs.len() ==> !((#[trigger] abs[j].kind) matches
            EventKind::NoteBegin { channel, pitch, intensity } && intensity > 0 && pitch < 128),
    ensures
        scan(abs, n) == init_state(),
    decreases n,
{
    if n > 0 {
        lemma_no_begin_no_spans(abs, n - 1);
        assert(init_state().stacks[(0 as u8) as int].len() == 0);
        let st = scan(abs, n - 1);
        match abs[n - 1].kind {
            EventKind::NoteBegin { channel, pitch, intensity } => {
                if pitch < 128 {
                    assert(st.stacks[pitch as int].len() == 0);
                }
            },
            EventKind::NoteEnd { channel, pitch, intensity } => {
                if pitch < 128 {
                    assert(st.stacks[pitch as int].len() == 0);
                }
            },
            EventKind::Other => {},
        }
    }
}

pub open spec fn stacks_view(s: Seq<Vec<Open>>) -> Seq<Seq<OpenS>> {
    s.map_values(|v: Vec<Open>| v@.map_values(|o: Open| open_view(o)))
}

pub open spec fn spans_view(s: Seq<Span>) -> Seq<SpanS> {
    s.map_values(|sp: Span| span_view(sp))
}

/// Pair one normalized track into its closed note spans, in the order
/// their closing events occur. Every event of the track is scanned;
/// begins left open at end of track, and closes with no open begin, are
/// dropped.
pub fn pair_track(abs: &Vec<AbsEvent>) -> (r: Vec<Span>)
    ensures
        spans_view(r@) == spans_of(abs_seq_view(abs@)),
{
    let ghost av = abs_seq_view(abs@);
    let mut stacks: Vec<Vec<Open>> = Vec::new();
    while stacks.len() < 128
        invariant
            stacks@.len() <= 128,
            forall|p: int| 0 <= p < stacks@.len() ==> (#[trigger] stacks@[p])@.len() == 0,
        decreases 128 - stacks@.len(),
    {
        stacks.push(Vec::new());
    }
    let mut spans: Vec<Span> = Vec::new();
    proof {
        assert(stacks_view(stacks@) =~~= init_state().stacks);
        assert(spans_view(spans@) =~= init_state().spans);
    }
    let mut j: usize = 0;
    while j < abs.len()
        invariant
            j <= abs@.len(),
            av == abs_seq_view(abs@),
            stacks@.len() == 128,
            stacks_view(stacks@) == scan(av, j as int).stacks,
            spans_view(spans@) == scan(av, j as int).spans,
        decreases abs@.len() - j,
    {
        let e = abs[j];
        let ghost st = scan(av, j as int);
        proof {
            assert(av[j as int] == crate::events::abs_event_view(abs@[j as int]));
        }
        match e.kind {
            EventKind::NoteBegin { channel, pitch, intensity } => {
                if pitch < 128 {
                    if intensity > 0 {
                        let ghost old_stacks = stacks@;
                        let stk = &mut stacks[pitch as usize];
                        stk.push(Open { idx: j, time: e.time, intensity });
                        proof {
                            let o = Open { idx: j, time: e.time, intensity };
                            assert(stk@.map_values(|x: Open| open_view(x)) =~= old_stacks[pitch as int]@.map_values(|x: Open| open_view(x)).push(open_view(o)));
                            assert(stacks_view(stacks@) =~~= scan(av, j + 1).stacks);
                        }
                    } else {
                        close_exec(&mut stacks, &mut spans, pitch, j, e.time, intensity, Ghost(st));
                    }
                } else {
                    proof {
                        assert(scan(av, j + 1) == st);
                    }
                }
            },
            EventKind::NoteEnd { channel, pitch, intensity } => {
                if pitch < 128 {
                    close_exec(&mut stacks, &mut spans, pitch, j, e.time, intensity, Ghost(st));
                } else {
                    proof {
                        assert(scan(av, j + 1) == st);
                    }
                }
            },
            EventKind::Other => {
                proof {
                    assert(scan(av, j + 1) == st);
                }
            },
        }
        j = j + 1;
    }
    spans
}

/// One close step of the scan: pop the most recent open begin of `pitch`
/// and emit the span it bounds, or drop the event if no begin is open.
fn close_exec(
    stacks: &mut Vec<Vec<Open>>,
    spans: &mut Vec<Span>,
    pitch: u8,
    j: usize,
    time: u128,
    end_intensity: u8,
    Ghost(st): Ghost<PairStateS>,
)
    requires
        pitch < 128,
        old(stacks)@.len() == 128,
        stacks_view(old(stacks)@) == st.stacks,
        spans_view(old(spans)@) == st.spans,
    ensures
        final(stacks)@.len() == 128,
        stacks_view(final(stacks)@) == close_step(st, pitch, j as int, time as int, end_intensity).stacks,
        spans_view(final(spans)@) == close_step(st, pitch, j as int, time as int, end_intensity).spans,
{
    let ghost old_stacks = old(stacks)@;
    let stk = &mut stacks[pitch as usize];
    proof {
        assert(st.stacks[pitch as int] == old_stacks[pitch as int]@.map_values(|x: Open| open_view(x)));
    }
    if stk.len() > 0 {
        let top = stk.pop().unwrap();
        proof {
            let f = |x: Open| open_view(x);
            assert(open_view(top) == st.stacks[pitch as int].last());
            assert(stk@.map_values(f) =~= st.stacks[pitch as int].drop_last());
        }
        let span = Span {
            pitch,
            start_idx: top.idx,
            start_time: top.time,
            start_intensity: top.intensity,
            end_idx: j,
            end_time: time,
            end_intensity,
        };
        spans.push(span);
        proof {
            let c = close_step(st, pitch, j as int, time as int, end_intensity);
            assert(stacks_view(stacks@) =~~= c.stacks);
            assert(spans_view(spans@) =~= c.spans);
        }
    } else {
        proof {
            assert(stacks_view(stacks@) =~~= st.stacks);
        }
    }
}

} // verus!
