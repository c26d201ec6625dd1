//! Piano-roll geometry and note colouring. Time runs left to right in beats;
//! pitch runs bottom to top in semitones over a fixed range.

use vstd::prelude::*;

use crate::text::{decimal, push_decimal};

verus! {

/// Lowest pitch row (C2).
pub const NOTE_MIN: u8 = 36;

/// Highest pitch row (C6).
pub const NOTE_MAX: u8 = 84;

/// How many pitch rows the roll shows.
pub fn rows() -> (r: usize)
    ensures
        r == NOTE_MAX - NOTE_MIN + 1,
{
    (NOTE_MAX - NOTE_MIN + 1) as usize
}

/// The note fill's lightness in hundredths: `0.42 + 0.42 * v / 127` for the
/// velocity `v` capped at 127, rounded to two decimals.
pub open spec fn lightness_hundredths(vel: u8) -> nat {
    let v: nat = if vel > 127 {
        127
    } else {
        vel as nat
    };
    ((84 * (127 + v) + 127) / 254) as nat
}

/// The note fill colour for a velocity: an `oklch` green whose lightness
/// tracks velocity (louder = brighter), from `0.42` to `0.84`.
pub open spec fn spec_note_fill(vel: u8) -> Seq<char> {
    "oklch(0."@ + decimal(lightness_hundredths(vel)) + " 0.15 150)"@
}

/// Louder notes are never darker: the fill's lightness rises with velocity.
pub proof fn lemma_note_fill_monotonic(v1: u8, v2: u8)
    requires
        v1 <= v2,
    ensures
        lightness_hundredths(v1) <= lightness_hundredths(v2),
{
    let a: int = if v1 > 127 { 127 } else { v1 as int };
    let b: int = if v2 > 127 { 127 } else { v2 as int };
    assert(a <= b);
    assert((84 * (127 + a) + 127) / 254 <= (84 * (127 + b) + 127) / 254) by (nonlinear_arith)
        requires
            0 <= a <= b,
    ;
}

/// Note fill colour: a green whose lightness tracks velocity (louder =
/// brighter).
pub fn note_fill(vel: u8) -> (r: String)
    ensures
        r@ == spec_note_fill(vel),
        42 <= lightness_hundredths(vel) <= 84,
{
    let v: u32 = if vel > 127 {
        127
    } else {
        vel as u32
    };
    let h: u32 = (84 * (127 + v) + 127) / 254;
    let mut out = String::from_str("oklch(0.");
    push_decimal(&mut out, h as usize);
    out.append(" 0.15 150)");
    out
}

/// The label of a melodic row (counted from the top): rows on a C show `C`
/// and the octave (MIDI 60 is C4); other rows are unlabelled.
pub open spec fn spec_melodic_row_label(row: nat) -> Option<Seq<char>> {
    let pitch = NOTE_MAX - row;
    if pitch % 12 == 0 {
        Some("C"@ + decimal((pitch / 12 - 1) as nat))
    } else {
        None
    }
}

/// The gutter label of melodic row `row` (counted from the top): octave `C`
/// markers only.
pub fn melodic_row_label(row: usize) -> (r: Option<String>)
    requires
        row < NOTE_MAX - NOTE_MIN + 1,
    ensures
        match r {
            Some(s) => spec_melodic_row_label(row as nat) == Some(s@),
            None => spec_melodic_row_label(row as nat) is None,
        },
{
    let pitch: u8 = NOTE_MAX - row as u8;
    if pitch % 12 == 0 {
        let mut s = String::from_str("C");
        // Pitches on the roll are at least 36, so the octave is positive.
        push_decimal(&mut s, (pitch / 12 - 1) as usize);
        Some(s)
    } else {
        None
    }
}

/// A note's velocity after one wheel notch over it: eight steps louder or
/// softer, kept within 1..=127.
pub open spec fn spec_wheel_velocity(vel: u8, louder: bool) -> u8 {
    let v = vel as int + if louder {
        8int
    } else {
        -8int
    };
    (if v < 1 {
        1
    } else if v > 127 {
        127
    } else {
        v
    }) as u8
}

/// The velocity after a wheel notch over a note (louder for a wheel-up).
pub fn wheel_velocity(vel: u8, louder: bool) -> (r: u8)
    ensures
        r == spec_wheel_velocity(vel, louder),
        1 <= r <= 127,
{
    let dv: i32 = if louder {
        8
    } else {
        -8
    };
    let v: i32 = vel as i32 + dv;
    let c: i32 = if v < 1 {
        1
    } else if v > 127 {
        127
    } else {
        v
    };
    c as u8
}

/// A track's tab label: its name, or `track N` (counting from 1) for an
/// unnamed track.
pub open spec fn spec_track_label(name: Seq<char>, index: nat) -> Seq<char> {
    if name.len() == 0 {
        "track "@ + decimal(index + 1)
    } else {
        name
    }
}

/// The tab label of the track at `index` named `name`.
pub fn track_label(name: &str, index: usize) -> (r: String)
    requires
        index < usize::MAX,
    ensures
        r@ == spec_track_label(name@, index as nat),
{
    if name.is_empty() {
        let mut out = String::from_str("track ");
        push_decimal(&mut out, index + 1);
        proof {
            reveal_strlit("track ");
        }
        out
    } else {
        String::from_str(name)
    }
}

/// The track the roll switches to after a track is added: the last of
/// `track_count` tracks (the first when there are none).
pub fn last_track(track_count: usize) -> (r: usize)
    ensures
        r == if track_count == 0 {
            0
        } else {
            track_count - 1
        },
{
    track_count.saturating_sub(1)
}

} // verus!
