//! A sample-accurate note scheduler for a polyphonic additive synthesizer.
//!
//! The library works in discrete units so that every scheduling decision is
//! exact: instants and durations are counted in sample frames, frequencies in
//! millihertz.  A [`Synth`](synth::Synth) owns a queue of pending [`Note`]s and
//! a sample clock; each call to [`Synth::process`](synth::Synth::process)
//! consumes the notes whose onset falls inside the requested span of frames
//! and returns a render plan: the voices to start and the lengths of the
//! buffer segments to mix between starts.  An audio front end executes the
//! plan with whatever oscillators it likes; the schedule itself — which note
//! starts in which segment, how long each voice lives, and the one-shot
//! completion signal — is verified here.

use vstd::prelude::*;

pub mod keys;
pub mod signal;
pub mod synth;
pub mod voice;

verus! {

/// One scheduled note, in discrete units.
///
/// `time` is the onset measured in sample frames since the start of the
/// score, `freq` is the pitch in millihertz, `duration` the nominal sustain
/// length in sample frames, and `track` selects the timbre profile (wrapped
/// modulo the number of registered profiles).
#[derive(Clone, Copy, Debug, PartialEq, Eq, Structural)]
pub struct Note {
    pub time: u64,
    pub freq: u64,
    pub duration: u64,
    pub track: usize,
}

/// Largest accepted note duration, in frames (about 700 years at 48 kHz).
pub const MAX_DURATION: u64 = 0x4_0000_0000_0000;

/// Largest accepted frequency, in millihertz (1 GHz).
pub const MAX_FREQ: u64 = 1_000_000_000_000;

impl Note {
    /// Bounds under which every derived quantity fits its machine integer.
    pub open spec fn valid(self) -> bool {
        1 <= self.freq <= MAX_FREQ && self.duration <= MAX_DURATION
    }
}

} // verus!
