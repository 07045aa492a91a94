use midiedit::events::{Event, EventKind};
use midiedit::normalize::{to_absolute, to_deltas};
use midiedit::pairing::pair_track;

fn begin(delta: u32, pitch: u8, intensity: u8) -> Event {
    Event { delta, kind: EventKind::NoteBegin { channel: 0, pitch, intensity } }
}

fn end(delta: u32, pitch: u8, intensity: u8) -> Event {
    Event { delta, kind: EventKind::NoteEnd { channel: 0, pitch, intensity } }
}

#[test]
fn pairing_simple_note() {
    let events = vec![begin(0, 60, 100), end(10, 60, 0)];
    let abs = to_absolute(&events);
    let spans = pair_track(&abs);
    assert_eq!(spans.len(), 1);
    let s = spans[0];
    assert_eq!(s.pitch, 60);
    assert_eq!(s.start_idx, 0);
    assert_eq!(s.start_time, 0);
    assert_eq!(s.start_intensity, 100);
    assert_eq!(s.end_idx, 1);
    assert_eq!(s.end_time, 10);
    assert_eq!(s.end_intensity, 0);
}

#[test]
fn pairing_retrigger_is_lifo() {
    let events = vec![begin(0, 60, 100), begin(5, 60, 90), end(3, 60, 0), end(4, 60, 0)];
    let abs = to_absolute(&events);
    let spans = pair_track(&abs);
    assert_eq!(spans.len(), 2);
    // The inner retrigger closes first: begin at 5 pairs with the end at 8.
    assert_eq!(spans[0].pitch, 60);
    assert_eq!(spans[0].start_time, 5);
    assert_eq!(spans[0].start_intensity, 90);
    assert_eq!(spans[0].end_time, 8);
    assert_eq!(spans[0].end_intensity, 0);
    // The outer note closes last: begin at 0 pairs with the end at 12.
    assert_eq!(spans[1].pitch, 60);
    assert_eq!(spans[1].start_time, 0);
    assert_eq!(spans[1].start_intensity, 100);
    assert_eq!(spans[1].end_time, 12);
    assert_eq!(spans[1].end_intensity, 0);
}

#[test]
fn dangling_end_is_dropped() {
    let events = vec![end(7, 60, 0)];
    let abs = to_absolute(&events);
    let spans = pair_track(&abs);
    assert_eq!(spans.len(), 0);
}

#[test]
fn dangling_end_of_other_pitch_is_dropped() {
    let events = vec![begin(0, 61, 100), end(5, 60, 0)];
    let abs = to_absolute(&events);
    let spans = pair_track(&abs);
    assert_eq!(spans.len(), 0);
}

#[test]
fn unterminated_begin_is_dropped() {
    let events = vec![begin(0, 60, 100)];
    let abs = to_absolute(&events);
    let spans = pair_track(&abs);
    assert_eq!(spans.len(), 0);
}

#[test]
fn zero_intensity_begin_closes_a_note() {
    let events = vec![begin(0, 60, 100), begin(10, 60, 0)];
    let abs = to_absolute(&events);
    let spans = pair_track(&abs);
    assert_eq!(spans.len(), 1);
    assert_eq!(spans[0].start_time, 0);
    assert_eq!(spans[0].end_time, 10);
    assert_eq!(spans[0].end_intensity, 0);
}

#[test]
fn normalizer_computes_running_sums() {
    let events = vec![begin(3, 60, 100), end(0, 60, 0), begin(7, 62, 90)];
    let abs = to_absolute(&events);
    assert_eq!(abs.len(), 3);
    assert_eq!(abs[0].time, 3);
    assert_eq!(abs[1].time, 3);
    assert_eq!(abs[2].time, 10);
    assert_eq!(abs[0].kind, events[0].kind);
    assert_eq!(abs[1].kind, events[1].kind);
    assert_eq!(abs[2].kind, events[2].kind);
}

#[test]
fn normalizer_round_trips() {
    let events = vec![begin(3, 60, 100), end(0, 60, 0), begin(7, 62, 90), end(100000, 62, 64)];
    let abs = to_absolute(&events);
    let back = to_deltas(&abs);
    assert_eq!(back, events);
}
