//! The absolute-time normalizer: turns a track's delta-timed events into
//! the same events carrying absolute timestamps (running sums of deltas),
//! and back. Neither direction reorders, inserts or drops an event, and
//! the round trip through both directions is the identity.

use vstd::prelude::*;

use crate::events::{AbsEvent, AbsEventS, Event, abs_event_view, abs_seq_view};

verus! {

/// The sum of the first `j` deltas of a track.
pub open spec fn sum_deltas(events: Seq<Event>, j: int) -> int
    decreases j,
{
    if j <= 0 {
        0
    } else {
        sum_deltas(events, j - 1) + events[j - 1].delta
    }
}

/// The absolute timestamp of event `j`: the running sum of deltas up to
/// and including its own.
pub open spec fn abs_time_of(events: Seq<Event>, j: int) -> int {
    sum_deltas(events, j + 1)
}

/// A track normalized to absolute time: the same events, 1:1 and in
/// order, each carrying its running-sum timestamp.
pub open spec fn normalized(events: Seq<Event>) -> Seq<AbsEventS> {
    Seq::new(events.len(), |j: int| AbsEventS { time: abs_time_of(events, j), kind: events[j].kind })
}

/// The inverse: each event's delta is the difference from the previous
/// event's timestamp; the first event's delta is its timestamp.
pub open spec fn denormalized(abs: Seq<AbsEventS>) -> Seq<Event> {
    Seq::new(
        abs.len(),
        |j: int| Event {
            delta: (if j == 0 { abs[0].time } else { abs[j].time - abs[j - 1].time }) as u32,
            kind: abs[j].kind,
        },
    )
}

/// Timestamps from which deltas can be recomputed: non-negative,
/// monotonically non-decreasing, and no step wider than a delta field.
pub open spec fn denormalizable(abs: Seq<AbsEventS>) -> bool {
    &&& (abs.len() > 0 ==> 0 <= abs[0].time <= u32::MAX)
    &&& forall|j: int| 1 <= j < abs.len() ==> abs[j - 1].time <= #[trigger] abs[j].time
        && abs[j].time - abs[j - 1].time <= u32::MAX
}

/// Absolute timestamps that never decrease along the track.
pub open spec fn times_nondecreasing(abs: Seq<AbsEventS>) -> bool {
    forall|i: int, j: int| 0 <= i <= j < abs.len() ==> #[trigger] abs[i].time <= #[trigger] abs[j].time
}

/// A longer running sum is never smaller: deltas are non-negative.
pub proof fn lemma_sum_deltas_monotone(events: Seq<Event>, a: int, b: int)
    requires
        0 <= a <= b,
    ensures
        sum_deltas(events, a) <= sum_deltas(events, b),
    decreases b - a,
{
    if a < b {
        lemma_sum_deltas_monotone(events, a, b - 1);
    }
}

/// A normalized track carries non-decreasing timestamps.
pub proof fn lemma_normalized_monotone(events: Seq<Event>)
    ensures
        times_nondecreasing(normalized(events)),
{
    let abs = normalized(events);
    assert forall|i: int, j: int| 0 <= i <= j < abs.len() implies #[trigger] abs[i].time <= #[trigger] abs[j].time by {
        lemma_sum_deltas_monotone(events, i + 1, j + 1);
    }
}

/// Running sums of `j` deltas stay between `0` and `j` times the widest
/// delta.
pub proof fn lemma_sum_deltas_bounds(events: Seq<Event>, j: int)
    requires
        0 <= j <= events.len(),
    ensures
        0 <= sum_deltas(events, j) <= j * 0xFFFF_FFFF,
    decreases j,
{
    if j > 0 {
        lemma_sum_deltas_bounds(events, j - 1);
        assert((j - 1) * 0xFFFF_FFFF == j * 0xFFFF_FFFF - 0xFFFF_FFFF) by (nonlinear_arith);
    }
}

/// Normalizing and then denormalizing a track reproduces it exactly:
/// the delta-time round trip is lossless for every track.
pub proof fn lemma_normalize_round_trip(events: Seq<Event>)
    ensures
        denormalized(normalized(events)) == events,
{
    let abs = normalized(events);
    assert forall|j: int| 0 <= j < events.len() implies denormalized(abs)[j] == events[j] by {
        assert(abs_time_of(events, j) == sum_deltas(events, j) + events[j].delta);
    }
    assert(denormalized(normalized(events)) =~= events);
}

/// A normalized track is always denormalizable: timestamps never
/// decrease, and consecutive timestamps differ by exactly one delta.
pub proof fn lemma_normalized_denormalizable(events: Seq<Event>)
    ensures
        denormalizable(normalized(events)),
{
    let abs = normalized(events);
    if events.len() > 0 {
        assert(sum_deltas(events, 0) == 0);
        assert(abs[0].time == 0 + events[0].delta);
    }
    assert forall|j: int| 1 <= j < abs.len() implies abs[j - 1].time <= #[trigger] abs[j].time
        && abs[j].time - abs[j - 1].time <= u32::MAX by {
        assert(abs_time_of(events, j) == sum_deltas(events, j) + events[j].delta);
        lemma_sum_deltas_bounds(events, j);
    }
}

/// Denormalizing and then normalizing reproduces the timestamps, as long
/// as they were denormalizable: the inverse direction is lossless too.
pub proof fn lemma_denormalize_round_trip(abs: Seq<AbsEventS>)
    requires
        denormalizable(abs),
    ensures
        normalized(denormalized(abs)) == abs,
{
    let events = denormalized(abs);
    assert forall|j: int| 0 <= j < abs.len() implies sum_deltas(events, j + 1) == abs[j].time by {
        lemma_denormalize_times(abs, j);
    }
    assert(normalized(denormalized(abs)) =~= abs);
}

proof fn lemma_denormalize_times(abs: Seq<AbsEventS>, j: int)
    requires
        denormalizable(abs),
        0 <= j < abs.len(),
    ensures
        sum_deltas(denormalized(abs), j + 1) == abs[j].time,
    decreases j,
{
    let events = denormalized(abs);
    if j == 0 {
        assert(sum_deltas(events, 0) == 0);
        assert(events[0].delta == abs[0].time as u32);
    } else {
        lemma_denormalize_times(abs, j - 1);
        assert(abs[j - 1].time <= abs[j].time && abs[j].time - abs[j - 1].time <= u32::MAX);
        assert(events[j].delta == (abs[j].time - abs[j - 1].time) as u32);
    }
}

/// Normalize one track: the same events, in order, with absolute
/// timestamps in place of deltas.
pub fn to_absolute(events: &Vec<Event>) -> (r: Vec<AbsEvent>)
    ensures
        abs_seq_view(r@) == normalized(events@),
{
    let mut out: Vec<AbsEvent> = Vec::new();
    let mut time: u128 = 0;
    let mut j: usize = 0;
    while j < events.len()
        invariant
            j <= events@.len(),
            out@.len() == j,
            time == sum_deltas(events@, j as int),
            forall|k: int| 0 <= k < j ==> abs_event_view(#[trigger] out@[k]) == normalized(
                events@,
            )[k],
        decreases events@.len() - j,
    {
        proof {
            lemma_sum_deltas_bounds(events@, j as int);
            assert((j as int) * 0xFFFF_FFFF < 0x1_0000_0000_0000_0000_0000_0000i128)
                by (nonlinear_arith)
                requires
                    0 <= j <= usize::MAX,
            ;
        }
        time = time + events[j].delta as u128;
        out.push(AbsEvent { time, kind: events[j].kind });
        j = j + 1;
    }
    proof {
        assert(abs_seq_view(out@) =~= normalized(events@));
    }
    out
}

/// Denormalize one track: recompute each event's delta from the
/// difference of consecutive timestamps.
pub fn to_deltas(abs: &Vec<AbsEvent>) -> (r: Vec<Event>)
    requires
        denormalizable(abs_seq_view(abs@)),
    ensures
        r@ == denormalized(abs_seq_view(abs@)),
{
    let mut out: Vec<Event> = Vec::new();
    let mut prev: u128 = 0;
    let mut j: usize = 0;
    while j < abs.len()
        invariant
            j <= abs@.len(),
            out@.len() == j,
            denormalizable(abs_seq_view(abs@)),
            j > 0 ==> prev == abs@[j - 1].time,
            j == 0 ==> prev == 0,
            forall|k: int| 0 <= k < j ==> out@[k] == denormalized(abs_seq_view(abs@))[k],
        decreases abs@.len() - j,
    {
        let e = abs[j];
        proof {
            let av = abs_seq_view(abs@);
            assert(av[j as int].time == abs@[j as int].time as int);
            if j > 0 {
                assert(av[j - 1].time == abs@[j - 1].time as int);
                assert(av[j - 1].time <= av[j as int].time && av[j as int].time - av[j
                    - 1].time <= u32::MAX);
            } else {
                assert(0 <= av[0].time <= u32::MAX);
            }
        }
        let delta: u128 = e.time - prev;
        out.push(Event { delta: delta as u32, kind: e.kind });
        prev = e.time;
        j = j + 1;
    }
    proof {
        assert(out@ =~= denormalized(abs_seq_view(abs@)));
    }
    out
}

} // verus!
