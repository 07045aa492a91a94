//! An editor engine for standard musical event-stream files.
//!
//! A file is an ordered list of tracks; a track is an ordered list of
//! delta-timed events. The engine normalizes delta times into absolute
//! timestamps, pairs note-begin and note-end events into closed note
//! spans, selects the spans that overlap a requested region, applies a
//! numeric transform (pitch shift or intensity rescale) to exactly the
//! two boundary events of each selected span, and leaves every other
//! event byte untouched.

pub mod adapter;
pub mod args;
pub mod engine;
pub mod events;
pub mod normalize;
pub mod pairing;
pub mod select;
pub mod transform;
pub mod tui;
