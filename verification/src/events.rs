use vstd::prelude::*;

verus! {

/// The payload of one track event, as far as the engine reads it.
///
/// A track is an ordered sequence of events, each carrying a delta time.
/// The engine distinguishes only note boundaries; every other message
/// (controller, meta, system-exclusive, ...) is `Other` and is passed
/// through untouched. `channel` is the instrument lane the note message
/// belongs to inside its track; the engine never changes it, it is kept
/// so that a mutated event can be written back in place.
#[derive(Clone, Copy, Debug, PartialEq, Eq, Structural)]
pub enum EventKind {
    NoteBegin { channel: u8, pitch: u8, intensity: u8 },
    NoteEnd { channel: u8, pitch: u8, intensity: u8 },
    Other,
}

/// One delta-timed track event: `delta` ticks after the previous event.
#[derive(Clone, Copy, Debug, PartialEq, Eq, Structural)]
pub struct Event {
    pub delta: u32,
    pub kind: EventKind,
}

/// One event carrying an absolute timestamp instead of a delta.
///
/// Timestamps are running sums of deltas; `u128` holds any such sum,
/// since a track holds at most `usize::MAX` events of delta below `2^32`.
#[derive(Clone, Copy, Debug, PartialEq, Eq, Structural)]
pub struct AbsEvent {
    pub time: u128,
    pub kind: EventKind,
}

/// Ghost counterpart of `AbsEvent`: the timestamp as a mathematical integer.
pub struct AbsEventS {
    pub time: int,
    pub kind: EventKind,
}

pub open spec fn abs_event_view(e: AbsEvent) -> AbsEventS {
    AbsEventS { time: e.time as int, kind: e.kind }
}

pub open spec fn abs_seq_view(s: Seq<AbsEvent>) -> Seq<AbsEventS> {
    s.map_values(|e: AbsEvent| abs_event_view(e))
}

/// A note message is well formed when its fields fit the container
/// format: 7-bit pitch and intensity, 4-bit channel.
pub open spec fn kind_wf(k: EventKind) -> bool {
    match k {
        EventKind::NoteBegin { channel, pitch, intensity } => pitch < 128 && intensity < 128
            && channel < 16,
        EventKind::NoteEnd { channel, pitch, intensity } => pitch < 128 && intensity < 128
            && channel < 16,
        EventKind::Other => true,
    }
}

/// A well-formed track event: well-formed payload and a 28-bit delta,
/// the widest delta the container format can store.
pub open spec fn event_wf(e: Event) -> bool {
    kind_wf(e.kind) && e.delta < 0x1000_0000
}

pub open spec fn track_wf(events: Seq<Event>) -> bool {
    forall|j: int| 0 <= j < events.len() ==> event_wf(#[trigger] events[j])
}

pub open spec fn tracks_wf(tracks: Seq<Seq<Event>>) -> bool {
    forall|i: int| 0 <= i < tracks.len() ==> track_wf(#[trigger] tracks[i])
}

/// The region a transformation is asked to touch: a set of track indices
/// (empty means every track) and an optional inclusive time window.
#[derive(Clone, Debug)]
pub struct RangeArgs {
    /// Which tracks to apply the transformation to (empty = all).
    pub track: Vec<usize>,
    /// Where the transformation window starts.
    pub start: Option<u64>,
    /// Where the transformation window ends.
    pub end: Option<u64>,
}

/// The buffer handed to the decoder was not a valid instance of the
/// container format, or the mutated stream could not be re-encoded.
#[derive(Clone, Copy, Debug, PartialEq, Eq, Structural)]
pub struct FormatError;

} // verus!
