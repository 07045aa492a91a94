//! Plain carriers for the operations a front end can request. The front
//! end parses its command line into these and hands them to the engine;
//! the engine never touches a file path itself.

use vstd::prelude::*;

use crate::events::RangeArgs;

verus! {

/// Check that a file is a valid instance of the container format and
/// print some diagnostics.
#[derive(Clone, Debug)]
pub struct TestFile {
    /// Path of the file to check.
    pub file: String,
}

/// Read a file and print its contents.
#[derive(Clone, Debug)]
pub struct ReadFile {
    /// Path of the file to read.
    pub file: String,
}

/// Transpose a region of a file.
#[derive(Clone, Debug)]
pub struct TransposeFile {
    /// Path of the file to transpose.
    pub file: String,
    /// Number of semitones to transpose by.
    pub amt: i8,
    /// The region to transform.
    pub range: RangeArgs,
}

} // verus!
