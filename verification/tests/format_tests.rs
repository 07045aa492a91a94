use midiedit::adapter::{encode, parse, track_count, track_events};
use midiedit::engine::{scale, transpose};
use midiedit::events::{EventKind, RangeArgs};

fn chunk(tag: &[u8; 4], data: &[u8]) -> Vec<u8> {
    let mut out = Vec::new();
    out.extend_from_slice(tag);
    out.extend_from_slice(&(data.len() as u32).to_be_bytes());
    out.extend_from_slice(data);
    out
}

/// A minimal standard file: header chunk plus one track chunk per entry.
fn file_bytes(format: u16, tracks: &[Vec<u8>]) -> Vec<u8> {
    let mut header = Vec::new();
    header.extend_from_slice(&format.to_be_bytes());
    header.extend_from_slice(&(tracks.len() as u16).to_be_bytes());
    header.extend_from_slice(&0x0060u16.to_be_bytes());
    let mut out = chunk(b"MThd", &header);
    for t in tracks {
        out.extend_from_slice(&chunk(b"MTrk", t));
    }
    out
}

fn simple_track() -> Vec<u8> {
    vec![
        0x00, 0x90, 0x3C, 0x64, // delta 0, note on, pitch 60, intensity 100
        0x0A, 0x80, 0x3C, 0x00, // delta 10, note off, pitch 60, intensity 0
        0x00, 0xFF, 0x2F, 0x00, // delta 0, end of track
    ]
}

fn full_range() -> RangeArgs {
    RangeArgs { track: vec![], start: None, end: None }
}

#[test]
fn parse_rejects_garbage() {
    assert!(parse(b"this is not an event stream").is_err());
    assert!(parse(&[]).is_err());
}

#[test]
fn decode_encode_round_trip_is_byte_identical() {
    let bytes = file_bytes(0, &[simple_track()]);
    let smf = parse(&bytes).unwrap();
    let out = encode(&smf).unwrap();
    assert_eq!(out, bytes);
}

#[test]
fn decode_encode_round_trip_with_running_status() {
    // The second event reuses the note-on status byte of the first.
    let track = vec![
        0x00, 0x90, 0x3C, 0x64, // delta 0, note on, pitch 60, intensity 100
        0x0A, 0x3C, 0x00, // delta 10, running status: note on, intensity 0
        0x00, 0xFF, 0x2F, 0x00,
    ];
    let bytes = file_bytes(0, &[track]);
    let smf = parse(&bytes).unwrap();
    let out = encode(&smf).unwrap();
    assert_eq!(out, bytes);
}

#[test]
fn passthrough_payloads_survive_the_round_trip() {
    // A named track: the name bytes are a passthrough payload the engine
    // never reads, and they must come back verbatim.
    let track = vec![
        0x00, 0xFF, 0x03, 0x04, 0x4C, 0x65, 0x61, 0x64, // track name "Lead"
        0x00, 0x90, 0x3C, 0x64,
        0x0A, 0x80, 0x3C, 0x00,
        0x00, 0xFF, 0x2F, 0x00,
    ];
    let bytes = file_bytes(0, &[track.clone()]);
    let smf = parse(&bytes).unwrap();
    assert_eq!(encode(&smf).unwrap(), bytes);

    // The payload also survives a transform of the notes around it.
    let mut smf = parse(&bytes).unwrap();
    transpose(&mut smf, 2, &full_range());
    let expected = vec![
        0x00, 0xFF, 0x03, 0x04, 0x4C, 0x65, 0x61, 0x64,
        0x00, 0x90, 0x3E, 0x64,
        0x0A, 0x80, 0x3E, 0x00,
        0x00, 0xFF, 0x2F, 0x00,
    ];
    assert_eq!(encode(&smf).unwrap(), file_bytes(0, &[expected]));
}

#[test]
fn decoded_events_are_the_expected_model() {
    let bytes = file_bytes(0, &[simple_track()]);
    let smf = parse(&bytes).unwrap();
    assert_eq!(track_count(&smf), 1);
    let events = track_events(&smf, 0);
    assert_eq!(events.len(), 3);
    assert_eq!(events[0].delta, 0);
    assert_eq!(events[0].kind, EventKind::NoteBegin { channel: 0, pitch: 60, intensity: 100 });
    assert_eq!(events[1].delta, 10);
    assert_eq!(events[1].kind, EventKind::NoteEnd { channel: 0, pitch: 60, intensity: 0 });
    assert_eq!(events[2].delta, 0);
    assert_eq!(events[2].kind, EventKind::Other);
}

#[test]
fn noop_transpose_leaves_bytes_identical() {
    let bytes = file_bytes(0, &[simple_track()]);
    let mut smf = parse(&bytes).unwrap();
    transpose(&mut smf, 0, &full_range());
    let out = encode(&smf).unwrap();
    assert_eq!(out, bytes);
}

#[test]
fn transpose_rewrites_both_boundaries() {
    let bytes = file_bytes(0, &[simple_track()]);
    let mut smf = parse(&bytes).unwrap();
    transpose(&mut smf, 2, &full_range());
    let expected_track = vec![
        0x00, 0x90, 0x3E, 0x64, // pitch 62 now
        0x0A, 0x80, 0x3E, 0x00, // pitch 62 now
        0x00, 0xFF, 0x2F, 0x00,
    ];
    assert_eq!(encode(&smf).unwrap(), file_bytes(0, &[expected_track]));
}

#[test]
fn transpose_saturates_through_the_file() {
    let track = vec![
        0x00, 0x90, 0x7D, 0x64, // pitch 125
        0x0A, 0x80, 0x7D, 0x00,
        0x00, 0xFF, 0x2F, 0x00,
    ];
    let bytes = file_bytes(0, &[track]);
    let mut smf = parse(&bytes).unwrap();
    transpose(&mut smf, 10, &full_range());
    let events = track_events(&smf, 0);
    assert_eq!(events[0].kind, EventKind::NoteBegin { channel: 0, pitch: 127, intensity: 100 });
    assert_eq!(events[1].kind, EventKind::NoteEnd { channel: 0, pitch: 127, intensity: 0 });
}

#[test]
fn transforms_leave_unselected_tracks_untouched() {
    let other_track = vec![
        0x00, 0x90, 0x40, 0x50, // pitch 64, intensity 80
        0x05, 0x80, 0x40, 0x00,
        0x00, 0xFF, 0x2F, 0x00,
    ];
    let bytes = file_bytes(1, &[simple_track(), other_track.clone()]);
    let mut smf = parse(&bytes).unwrap();
    let range = RangeArgs { track: vec![0], start: None, end: None };
    transpose(&mut smf, 2, &range);
    let expected_track0 = vec![
        0x00, 0x90, 0x3E, 0x64,
        0x0A, 0x80, 0x3E, 0x00,
        0x00, 0xFF, 0x2F, 0x00,
    ];
    // Byte comparison of the whole re-encoded file: track 1 verbatim.
    assert_eq!(encode(&smf).unwrap(), file_bytes(1, &[expected_track0, other_track]));
    let events1 = track_events(&smf, 1);
    assert_eq!(events1[0].kind, EventKind::NoteBegin { channel: 0, pitch: 64, intensity: 80 });
    assert_eq!(events1[1].kind, EventKind::NoteEnd { channel: 0, pitch: 64, intensity: 0 });
}

#[test]
fn time_window_selects_overlapping_spans_only() {
    let track = vec![
        0x00, 0x90, 0x3C, 0x64, // note 60 sounding over [0, 10]
        0x0A, 0x80, 0x3C, 0x00,
        0x0A, 0x90, 0x3E, 0x64, // note 62 sounding over [20, 30]
        0x0A, 0x80, 0x3E, 0x00,
        0x00, 0xFF, 0x2F, 0x00,
    ];
    let bytes = file_bytes(0, &[track]);
    let mut smf = parse(&bytes).unwrap();
    let range = RangeArgs { track: vec![], start: Some(15), end: Some(25) };
    transpose(&mut smf, 1, &range);
    let events = track_events(&smf, 0);
    // The note over [0, 10] ends before the window starts: untouched.
    assert_eq!(events[0].kind, EventKind::NoteBegin { channel: 0, pitch: 60, intensity: 100 });
    assert_eq!(events[1].kind, EventKind::NoteEnd { channel: 0, pitch: 60, intensity: 0 });
    // The note over [20, 30] overlaps the window: both boundaries shifted.
    assert_eq!(events[2].kind, EventKind::NoteBegin { channel: 0, pitch: 63, intensity: 100 });
    assert_eq!(events[3].kind, EventKind::NoteEnd { channel: 0, pitch: 63, intensity: 0 });
}

#[test]
fn a_note_across_the_window_boundary_is_still_paired() {
    // The note begins before the window and ends inside it; pairing must
    // scan the whole track, so the transform touches both boundaries,
    // the one before the window included.
    let track = vec![
        0x00, 0x90, 0x3C, 0x64, // begin at 0
        0x64, 0x80, 0x3C, 0x00, // end at 100
        0x00, 0xFF, 0x2F, 0x00,
    ];
    let bytes = file_bytes(0, &[track]);
    let mut smf = parse(&bytes).unwrap();
    let range = RangeArgs { track: vec![], start: Some(90), end: Some(200) };
    transpose(&mut smf, 1, &range);
    let events = track_events(&smf, 0);
    assert_eq!(events[0].kind, EventKind::NoteBegin { channel: 0, pitch: 61, intensity: 100 });
    assert_eq!(events[1].kind, EventKind::NoteEnd { channel: 0, pitch: 61, intensity: 0 });
}

#[test]
fn rescale_touches_both_boundaries_identically() {
    let bytes = file_bytes(0, &[simple_track()]);
    let mut smf = parse(&bytes).unwrap();
    // scale 0.5 around center 64, offset 64.
    scale(&mut smf, 1, 2, 64, 64, &full_range());
    let expected_track = vec![
        0x00, 0x90, 0x3C, 0x52, // round((100-64)/2) + 64 = 82
        0x0A, 0x80, 0x3C, 0x20, // round((0-64)/2) + 64 = 32
        0x00, 0xFF, 0x2F, 0x00,
    ];
    assert_eq!(encode(&smf).unwrap(), file_bytes(0, &[expected_track]));
}

#[test]
fn zero_intensity_begin_pairs_through_the_file() {
    let track = vec![
        0x00, 0x90, 0x3C, 0x64, // begin, intensity 100
        0x0A, 0x3C, 0x00, // running status: begin with intensity 0 closes the note
        0x00, 0xFF, 0x2F, 0x00,
    ];
    let bytes = file_bytes(0, &[track]);
    let mut smf = parse(&bytes).unwrap();
    transpose(&mut smf, 2, &full_range());
    let events = track_events(&smf, 0);
    // Both the begin and its zero-intensity close are boundaries of the
    // paired span, so both are shifted.
    assert_eq!(events[0].kind, EventKind::NoteBegin { channel: 0, pitch: 62, intensity: 100 });
    assert_eq!(events[1].kind, EventKind::NoteBegin { channel: 0, pitch: 62, intensity: 0 });
}

#[test]
fn dangling_end_changes_nothing_in_the_file() {
    let track = vec![
        0x00, 0x80, 0x3C, 0x00, // note off with no open note
        0x00, 0xFF, 0x2F, 0x00,
    ];
    let bytes = file_bytes(0, &[track]);
    let mut smf = parse(&bytes).unwrap();
    transpose(&mut smf, 5, &full_range());
    assert_eq!(encode(&smf).unwrap(), bytes);
}
