use vstd::prelude::*;

use crate::events::EventKind;

verus! {

/// A two-field mutation applied to the boundary events of each selected
/// note span.
///
/// `Transpose` shifts the pitch by `delta` semitones, saturating at the
/// 7-bit bounds. `Rescale` maps an intensity `v` to
/// `round((v - center) * num / den) + offset`, rounding half away from
/// zero and saturating at the 7-bit bounds; the scale factor is the
/// rational `num / den`.
#[derive(Clone, Copy, Debug)]
pub enum Transform {
    Transpose { delta: i8 },
    Rescale { num: i32, den: u32, center: i8, offset: i8 },
}

impl Transform {
    /// A rescale needs a positive denominator; a transpose is always valid.
    pub open spec fn valid(self) -> bool {
        match self {
            Transform::Transpose { .. } => true,
            Transform::Rescale { den, .. } => den > 0,
        }
    }
}

/// Clamp a mathematical integer into the 7-bit range `0 ..= 127`.
pub open spec fn clamp7(x: int) -> u8 {
    if x < 0 {
        0
    } else if x > 127 {
        127
    } else {
        x as u8
    }
}

/// Round `a / d` (for `d > 0`) to the nearest integer, halves away from zero.
pub open spec fn round_half_away(a: int, d: int) -> int {
    if a >= 0 {
        (2 * a + d) / (2 * d)
    } else {
        -((2 * (-a) + d) / (2 * d))
    }
}

/// The pitch a transpose by `delta` yields: saturated, never wrapped.
pub open spec fn shifted_pitch(pitch: u8, delta: i8) -> u8 {
    clamp7(pitch + delta)
}

/// The intensity a rescale yields: `round((v - center) * num / den) + offset`,
/// saturated into `0 ..= 127`.
pub open spec fn rescaled_intensity(v: u8, num: i32, den: u32, center: i8, offset: i8) -> u8 {
    clamp7(round_half_away((v - center) * num, den as int) + offset)
}

/// What a transform does to one event payload: note boundaries get the
/// pitch or intensity mutation, everything else is untouched. A transpose
/// never touches intensity; a rescale never touches pitch; neither
/// touches the channel.
pub open spec fn transformed_kind(t: Transform, k: EventKind) -> EventKind {
    match k {
        EventKind::NoteBegin { channel, pitch, intensity } => match t {
            Transform::Transpose { delta } => EventKind::NoteBegin {
                channel,
                pitch: shifted_pitch(pitch, delta),
                intensity,
            },
            Transform::Rescale { num, den, center, offset } => EventKind::NoteBegin {
                channel,
                pitch,
                intensity: rescaled_intensity(intensity, num, den, center, offset),
            },
        },
        EventKind::NoteEnd { channel, pitch, intensity } => match t {
            Transform::Transpose { delta } => EventKind::NoteEnd {
                channel,
                pitch: shifted_pitch(pitch, delta),
                intensity,
            },
            Transform::Rescale { num, den, center, offset } => EventKind::NoteEnd {
                channel,
                pitch,
                intensity: rescaled_intensity(intensity, num, den, center, offset),
            },
        },
        EventKind::Other => EventKind::Other,
    }
}

/// Clamp an `i64` into the 7-bit range.
fn clamp7_exec(x: i64) -> (r: u8)
    ensures
        r == clamp7(x as int),
{
    if x < 0 {
        0
    } else if x > 127 {
        127
    } else {
        x as u8
    }
}

/// Shift a pitch by `delta` semitones, saturating at `0` and `127`.
pub fn shift_pitch(pitch: u8, delta: i8) -> (r: u8)
    ensures
        r == shifted_pitch(pitch, delta),
{
    let wide: i64 = pitch as i64 + delta as i64;
    clamp7_exec(wide)
}

/// Rescale an intensity around `center` by the rational factor `num / den`,
/// add `offset`, rounding half away from zero and saturating at the 7-bit
/// bounds.
pub fn rescale_intensity(v: u8, num: i32, den: u32, center: i8, offset: i8) -> (r: u8)
    requires
        den > 0,
    ensures
        r == rescaled_intensity(v, num, den, center, offset),
{
    let diff: i64 = v as i64 - center as i64;
    assert(-0x1_0000_0000_0000i64 <= diff * (num as i64) <= 0x1_0000_0000_0000i64)
        by (nonlinear_arith)
        requires
            -384 <= diff <= 384,
            -0x8000_0000i64 <= num as i64 <= 0x8000_0000i64,
    ;
    let prod: i64 = diff * (num as i64);
    let mag: u64 = if prod >= 0 {
        prod as u64
    } else {
        (-prod) as u64
    };
    let den64: u64 = den as u64;
    let q: u64 = (2 * mag + den64) / (2 * den64);
    assert(q <= 2 * mag + den64) by {
        vstd::arithmetic::div_mod::lemma_div_nonincreasing((2 * mag + den64) as int, (2
            * den64) as int);
    }
    let rounded: i64 = if prod >= 0 {
        q as i64
    } else {
        -(q as i64)
    };
    assert(rounded == round_half_away(prod as int, den as int));
    clamp7_exec(rounded + offset as i64)
}

/// Apply a transform to one event payload.
pub fn apply_transform(t: &Transform, k: &EventKind) -> (r: EventKind)
    requires
        t.valid(),
    ensures
        r == transformed_kind(*t, *k),
{
    match *k {
        EventKind::NoteBegin { channel, pitch, intensity } => match *t {
            Transform::Transpose { delta } => EventKind::NoteBegin {
                channel,
                pitch: shift_pitch(pitch, delta),
                intensity,
            },
            Transform::Rescale { num, den, center, offset } => EventKind::NoteBegin {
                channel,
                pitch,
                intensity: rescale_intensity(intensity, num, den, center, offset),
            },
        },
        EventKind::NoteEnd { channel, pitch, intensity } => match *t {
            Transform::Transpose { delta } => EventKind::NoteEnd {
                channel,
                pitch: shift_pitch(pitch, delta),
                intensity,
            },
            Transform::Rescale { num, den, center, offset } => EventKind::NoteEnd {
                channel,
                pitch,
                intensity: rescale_intensity(intensity, num, den, center, offset),
            },
        },
        EventKind::Other => EventKind::Other,
    }
}

/// A transform never turns a well-formed payload into an ill-formed one,
/// and never touches a payload that is not a note boundary.
pub proof fn lemma_transform_wf(t: Transform, k: EventKind)
    ensures
        crate::events::kind_wf(k) ==> crate::events::kind_wf(transformed_kind(t, k)),
        (k is Other) ==> transformed_kind(t, k) == k,
{
}

} // verus!
