//! The event-stream adapter: the only place the library touches the
//! container-format codec of the `midly` crate.
//!
//! A decoded file is carried as an opaque `midly::Smf` value. Its contents,
//! as far as the engine reads them, are named by the uninterpreted
//! function [`smf_model`]: per track, per event, the delta time and the
//! note payload (everything that is not a note boundary is `Other`).
//! The trusted accessors below state how each call relates to that model.

use vstd::prelude::*;

use midly::num::{u4, u7};
use midly::{MidiMessage, TrackEventKind};

use crate::events::{Event, EventKind, FormatError, event_wf, kind_wf, tracks_wf};

verus! {

#[verifier::external_type_specification]
#[verifier::external_body]
pub struct ExSmf<'a>(midly::Smf<'a>);

/// The contents of a decoded file: one sequence of delta-timed events per
/// track, note boundaries read as `NoteBegin` / `NoteEnd`, every other
/// message as `Other`.
pub uninterp spec fn smf_model(smf: midly::Smf<'static>) -> Seq<Seq<Event>>;

/// The bytes the container encoder produces for a decoded file; encoding
/// depends on the file value alone.
pub uninterp spec fn smf_bytes(smf: midly::Smf<'static>) -> Seq<u8>;

/// What a byte buffer decodes to, a function of the bytes alone: `None`
/// on a buffer that is not a valid instance of the container format,
/// else the model of the decoded file.
pub uninterp spec fn decoded_model(data: Seq<u8>) -> Option<Seq<Seq<Event>>>;

/// Whether the container encoder can write a file: false only past the
/// limits of the format itself (more than 65535 tracks, a single event of
/// 256MB or more, or a track of 4GB or more) — a function of the file
/// value alone.
pub uninterp spec fn smf_encodable(smf: midly::Smf<'static>) -> bool;

/// Relies on `midly::Smf::parse`: decodes a byte buffer into tracks of
/// delta-timed events. Parsing depends on the bytes alone, and succeeds
/// exactly on the valid instances of the container format — on which it
/// yields the decoded tracks. Every note message in a decoded file
/// carries a 7-bit pitch and intensity and a 4-bit channel, and every
/// delta time is 28-bit, by the decoder's own value types.
///
/// The decoded events borrow their payload bytes, so the file is parsed
/// from a copy of the input that is kept alive for the rest of the
/// program: that keeps every passthrough payload intact for re-encoding
/// (`Smf::make_static` would blank them).
#[verifier::external_body]
fn parse_smf(data: &[u8]) -> (r: Result<midly::Smf<'static>, FormatError>)
    ensures
        r is Ok <==> decoded_model(data@) is Some,
        r is Ok ==> Some(smf_model(r->Ok_0)) == decoded_model(data@),
        r is Ok ==> tracks_wf(smf_model(r->Ok_0)),
{
    let kept: &'static [u8] = Box::leak(data.to_vec().into_boxed_slice());
    match midly::Smf::parse(kept) {
        Ok(smf) => Ok(smf),
        Err(_) => Err(FormatError),
    }
}

/// Relies on `midly::Smf::write` into a byte buffer: deterministic
/// encoding of the file. The byte-buffer writer itself is infallible, so
/// the call fails exactly on the files the format cannot hold at all
/// (see [`smf_encodable`]).
#[verifier::external_body]
fn encode_smf(smf: &midly::Smf<'static>) -> (r: Result<Vec<u8>, FormatError>)
    ensures
        r is Ok <==> smf_encodable(*smf),
        r is Ok ==> r->Ok_0@ == smf_bytes(*smf),
{
    let mut buf: Vec<u8> = Vec::new();
    match smf.write(&mut buf) {
        Ok(()) => Ok(buf),
        Err(_) => Err(FormatError),
    }
}

/// Relies on `Vec::len` of `midly::Smf::tracks`: the number of tracks.
#[verifier::external_body]
fn tracks_len(smf: &midly::Smf<'static>) -> (r: usize)
    ensures
        r == smf_model(*smf).len(),
{
    smf.tracks.len()
}

/// Relies on `Vec::len` of a track of `midly::Smf`: its event count.
#[verifier::external_body]
fn track_len(smf: &midly::Smf<'static>, i: usize) -> (r: usize)
    requires
        i < smf_model(*smf).len(),
    ensures
        r == smf_model(*smf)[i as int].len(),
{
    smf.tracks[i].len()
}

/// The number of tracks of a decoded file.
pub fn track_count(smf: &midly::Smf<'static>) -> (r: usize)
    ensures
        r == smf_model(*smf).len(),
{
    tracks_len(smf)
}

/// The number of events of track `i`.
pub fn event_count(smf: &midly::Smf<'static>, i: usize) -> (r: usize)
    requires
        i < smf_model(*smf).len(),
    ensures
        r == smf_model(*smf)[i as int].len(),
{
    track_len(smf, i)
}

/// Relies on `midly::TrackEvent`'s fields and `u4`/`u7`/`u28::as_int`:
/// reads one event of one track. A note-on message is a `NoteBegin`
/// whatever its intensity (the engine itself treats a zero-intensity
/// begin as an end), a note-off is a `NoteEnd`, anything else is `Other`.
#[verifier::external_body]
fn read_event(smf: &midly::Smf<'static>, i: usize, j: usize) -> (r: Event)
    requires
        i < smf_model(*smf).len(),
        j < smf_model(*smf)[i as int].len(),
    ensures
        r == smf_model(*smf)[i as int][j as int],
        event_wf(r),
{
    let e = &smf.tracks[i][j];
    let kind = match e.kind {
        TrackEventKind::Midi { channel, message: MidiMessage::NoteOn { key, vel } } =>
            EventKind::NoteBegin { channel: channel.as_int(), pitch: key.as_int(), intensity: vel.as_int() },
        TrackEventKind::Midi { channel, message: MidiMessage::NoteOff { key, vel } } =>
            EventKind::NoteEnd { channel: channel.as_int(), pitch: key.as_int(), intensity: vel.as_int() },
        _ => EventKind::Other,
    };
    Event { delta: e.delta.as_int(), kind }
}

/// What the model of a file becomes when the payload of the event at
/// track `i`, position `j` is overwritten with `kind`: only that payload
/// changes; its delta time and every other event stay.
pub open spec fn model_with_kind(
    m: Seq<Seq<Event>>,
    i: int,
    j: int,
    kind: EventKind,
) -> Seq<Seq<Event>> {
    m.update(i, m[i].update(j, Event { delta: m[i][j].delta, kind }))
}

/// Relies on assigning `midly::TrackEvent::kind` and on `u4`/`u7::new`
/// (the identity on in-range values): overwrites the payload of one event
/// with a note-on message, leaving its delta time and every other event
/// of the file untouched.
#[verifier::external_body]
fn write_begin_event(smf: &mut midly::Smf<'static>, i: usize, j: usize, channel: u8, pitch: u8, intensity: u8)
    requires
        i < smf_model(*old(smf)).len(),
        j < smf_model(*old(smf))[i as int].len(),
        channel < 16,
        pitch < 128,
        intensity < 128,
    ensures
        smf_model(*final(smf)) == model_with_kind(
            smf_model(*old(smf)),
            i as int,
            j as int,
            EventKind::NoteBegin { channel, pitch, intensity },
        ),
{
    smf.tracks[i][j].kind = TrackEventKind::Midi {
        channel: u4::new(channel),
        message: MidiMessage::NoteOn { key: u7::new(pitch), vel: u7::new(intensity) },
    };
}

/// Relies on assigning `midly::TrackEvent::kind` and on `u4`/`u7::new`
/// (the identity on in-range values): overwrites the payload of one event
/// with a note-off message, leaving its delta time and every other event
/// of the file untouched.
#[verifier::external_body]
fn write_end_event(smf: &mut midly::Smf<'static>, i: usize, j: usize, channel: u8, pitch: u8, intensity: u8)
    requires
        i < smf_model(*old(smf)).len(),
        j < smf_model(*old(smf))[i as int].len(),
        channel < 16,
        pitch < 128,
        intensity < 128,
    ensures
        smf_model(*final(smf)) == model_with_kind(
            smf_model(*old(smf)),
            i as int,
            j as int,
            EventKind::NoteEnd { channel, pitch, intensity },
        ),
{
    smf.tracks[i][j].kind = TrackEventKind::Midi {
        channel: u4::new(channel),
        message: MidiMessage::NoteOff { key: u7::new(pitch), vel: u7::new(intensity) },
    };
}

/// Overwrite the payload of the event at track `i`, position `j` with a
/// note boundary, leaving its delta time and every other event untouched.
fn write_note(smf: &mut midly::Smf<'static>, i: usize, j: usize, kind: EventKind)
    requires
        i < smf_model(*old(smf)).len(),
        j < smf_model(*old(smf))[i as int].len(),
        !(kind is Other),
        kind_wf(kind),
    ensures
        smf_model(*final(smf)) == model_with_kind(smf_model(*old(smf)), i as int, j as int, kind),
{
    match kind {
        EventKind::NoteBegin { channel, pitch, intensity } => {
            write_begin_event(smf, i, j, channel, pitch, intensity);
        },
        EventKind::NoteEnd { channel, pitch, intensity } => {
            write_end_event(smf, i, j, channel, pitch, intensity);
        },
        EventKind::Other => {
            assert(false);
        },
    }
}

/// The track `olds` with the first `j` payloads replaced by those of
/// `news` (deltas are shared by both).
pub open spec fn hybrid_track(olds: Seq<Event>, news: Seq<Event>, j: int) -> Seq<Event> {
    Seq::new(olds.len(), |x: int| if x < j { news[x] } else { olds[x] })
}

/// Overwrite track `i` of the file with `news`, which must keep every
/// delta of the current track `olds` and change payloads only into
/// well-formed note boundaries. Only the changed payloads are written; a
/// `news` equal to `olds` leaves the file value exactly as it was.
pub fn write_track(smf: &mut midly::Smf<'static>, i: usize, olds: &Vec<Event>, news: &Vec<Event>)
    requires
        i < smf_model(*old(smf)).len(),
        olds@ == smf_model(*old(smf))[i as int],
        news@.len() == olds@.len(),
        forall|x: int|
            0 <= x < news@.len() ==> (#[trigger] news@[x]).delta == olds@[x].delta && (news@[x].kind
                != olds@[x].kind ==> !(news@[x].kind is Other) && kind_wf(news@[x].kind)),
    ensures
        smf_model(*final(smf)) == smf_model(*old(smf)).update(i as int, news@),
        news@ == olds@ ==> *final(smf) == *old(smf),
{
    let ghost m0 = smf_model(*smf);
    let ghost smf0 = *smf;
    proof {
        assert(hybrid_track(olds@, news@, 0) =~= olds@);
        assert(m0.update(i as int, hybrid_track(olds@, news@, 0)) =~~= m0);
    }
    let n = news.len();
    let mut j: usize = 0;
    while j < n
        invariant
            j <= n,
            i < m0.len(),
            m0 == smf_model(smf0),
            olds@ == m0[i as int],
            news@.len() == n && olds@.len() == n,
            forall|x: int|
                0 <= x < n ==> (#[trigger] news@[x]).delta == olds@[x].delta && (news@[x].kind
                    != olds@[x].kind ==> !(news@[x].kind is Other) && kind_wf(news@[x].kind)),
            smf_model(*smf) == m0.update(i as int, hybrid_track(olds@, news@, j as int)),
            news@ == olds@ ==> *smf == smf0,
        decreases n - j,
    {
        let oe = olds[j];
        let ne = news[j];
        if ne.kind != oe.kind {
            proof {
                assert(smf_model(*smf)[i as int] == hybrid_track(olds@, news@, j as int));
                assert(hybrid_track(olds@, news@, j as int)[j as int] == olds@[j as int]);
            }
            write_note(smf, i, j, ne.kind);
            proof {
                let h = hybrid_track(olds@, news@, j as int);
                assert(h.update(j as int, Event { delta: h[j as int].delta, kind: ne.kind })
                    =~= hybrid_track(olds@, news@, j + 1));
                assert(smf_model(*smf) =~~= m0.update(
                    i as int,
                    hybrid_track(olds@, news@, j + 1),
                ));
            }
        } else {
            proof {
                assert(news@[j as int] == olds@[j as int]);
                assert(hybrid_track(olds@, news@, j + 1) =~= hybrid_track(olds@, news@, j as int));
            }
        }
        j = j + 1;
    }
    proof {
        assert(hybrid_track(olds@, news@, n as int) =~= news@);
    }
}

/// Decode a byte buffer into a file of tracks of delta-timed events. The
/// call fails exactly on the buffers that are not valid instances of the
/// container format; on the others it yields the decoded tracks.
pub fn parse(data: &[u8]) -> (r: Result<midly::Smf<'static>, FormatError>)
    ensures
        r is Ok <==> decoded_model(data@) is Some,
        r is Ok ==> Some(smf_model(r->Ok_0)) == decoded_model(data@),
        r is Ok ==> tracks_wf(smf_model(r->Ok_0)),
{
    parse_smf(data)
}

/// Encode a file back into bytes. The call fails exactly on the files the
/// container format cannot hold at all.
pub fn encode(smf: &midly::Smf<'static>) -> (r: Result<Vec<u8>, FormatError>)
    ensures
        r is Ok <==> smf_encodable(*smf),
        r is Ok ==> r->Ok_0@ == smf_bytes(*smf),
{
    encode_smf(smf)
}

/// Read all events of track `i`.
pub fn track_events(smf: &midly::Smf<'static>, i: usize) -> (r: Vec<Event>)
    requires
        i < smf_model(*smf).len(),
    ensures
        r@ == smf_model(*smf)[i as int],
        crate::events::track_wf(r@),
{
    let n = event_count(smf, i);
    let mut events: Vec<Event> = Vec::new();
    let mut j: usize = 0;
    while j < n
        invariant
            j <= n,
            n == smf_model(*smf)[i as int].len(),
            i < smf_model(*smf).len(),
            events@.len() == j,
            forall|k: int| 0 <= k < j ==> events@[k] == smf_model(*smf)[i as int][k],
            forall|k: int| 0 <= k < j ==> event_wf(#[trigger] events@[k]),
        decreases n - j,
    {
        let e = read_event(smf, i, j);
        events.push(e);
        j = j + 1;
    }
    assert(events@ =~= smf_model(*smf)[i as int]);
    events
}

} // verus!
