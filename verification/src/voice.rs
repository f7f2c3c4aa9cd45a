//! Voice lifecycle: the per-note state that the scheduler creates, counts
//! down once per output sample, and retires.
//!
//! A voice's audible side (oscillator phase, envelope amplitude, harmonic
//! weights) is real-valued and belongs to the audio front end.  What is
//! modelled and verified here is everything discrete about a voice: how many
//! samples it lives, when a sustained voice releases, which smoothing
//! coefficient applies to each sample, and when the voice counts as finished.

use vstd::prelude::*;

verus! {

/// Timbre template shared by every note of a track.
///
/// Envelope time constants are held in microseconds.  The harmonic weights of
/// a timbre scale individual partials of the rendered waveform and never
/// influence scheduling, so they stay with the audio front end.
#[derive(Clone, Copy, Debug, PartialEq, Eq, Structural)]
pub enum Profile {
    /// A voice that holds its level until note-off, then rings out.
    Sustained { attack_us: u64, falloff_us: u64 },
    /// A one-shot voice that decays from its onset and ignores note-off.
    Percussive { falloff_us: u64 },
}

/// Largest accepted envelope time constant, in microseconds (ten minutes).
pub const MAX_FALLOFF_US: u64 = 600_000_000;

/// Lifetime of a sustained voice, in samples: the nominal duration plus a
/// release margin of three falloff time constants' worth of cycles,
/// `duration + (3 * falloff / freq) / sample_duration` in continuous terms.
pub open spec fn sustained_budget(duration: u64, falloff_us: u64, freq: u64, rate: u32) -> int {
    duration + (3 * falloff_us * rate) / (1000 * freq)
}

/// Lifetime of a percussive voice, in samples: five falloff time constants'
/// worth of cycles, `(5 * falloff / freq) / sample_duration` in continuous
/// terms, independent of the requested note duration.
pub open spec fn percussive_budget(falloff_us: u64, freq: u64, rate: u32) -> int {
    (5 * falloff_us * rate) / (1000 * freq)
}

impl Profile {
    /// Bounds under which a voice budget fits an `i64`.
    pub open spec fn valid(self) -> bool {
        match self {
            Profile::Sustained { attack_us, falloff_us } => falloff_us <= MAX_FALLOFF_US,
            Profile::Percussive { falloff_us } => falloff_us <= MAX_FALLOFF_US,
        }
    }

    /// The voice this profile produces for a note of the given pitch and
    /// nominal duration at the given sample rate.
    pub open spec fn voice_spec(self, freq: u64, rate: u32, duration: u64) -> Voice {
        match self {
            Profile::Sustained { attack_us, falloff_us } => Voice::Simple(SimpleVoice {
                samples_remaining: sustained_budget(duration, falloff_us, freq, rate) as i64,
            }),
            Profile::Percussive { falloff_us } => Voice::Drum(DrumVoice {
                samples_remaining: percussive_budget(falloff_us, freq, rate) as i64,
            }),
        }
    }

    /// Instantiate a voice for one note.
    pub fn voice(&self, freq: u64, rate: u32, duration: u64) -> (v: Voice)
        requires
            self.valid(),
            1 <= freq <= crate::MAX_FREQ,
            duration <= crate::MAX_DURATION,
        ensures
            v == self.voice_spec(freq, rate, duration),
    {
        match *self {
            Profile::Sustained { attack_us, falloff_us } => {
                Voice::Simple(SimpleVoice::new(freq, rate, duration, falloff_us))
            }
            Profile::Percussive { falloff_us } => {
                Voice::Drum(DrumVoice::new(freq, rate, falloff_us))
            }
        }
    }
}

/// The discrete state of one sounding note.
#[derive(Clone, Copy, Debug, PartialEq, Eq, Structural)]
pub enum Voice {
    Simple(SimpleVoice),
    Drum(DrumVoice),
}

/// Which smoothing coefficient the envelope applies to one sample of a
/// sustained voice.
#[derive(Clone, Copy, Debug, PartialEq, Eq, Structural)]
pub enum EnvStage {
    /// The countdown is still running: smooth towards the target with the
    /// attack coefficient.
    Attack,
    /// The countdown has expired: smooth towards silence with the falloff
    /// coefficient.
    Release,
}

/// What the envelope must do for one sample, derived from the countdown.
#[derive(Clone, Copy, Debug, PartialEq, Eq, Structural)]
pub struct SampleStep {
    /// True exactly on the sample where the countdown reaches zero: the
    /// envelope target drops to silence.
    pub note_off: bool,
    /// Coefficient selection for this sample.
    pub stage: EnvStage,
}

/// A sustained voice: rises towards its target while the countdown runs,
/// releases when it expires, and is finished once it has also gone quiet.
#[derive(Clone, Copy, Debug, PartialEq, Eq, Structural)]
pub struct SimpleVoice {
    /// Samples left until note-off; keeps counting below zero during release.
    pub samples_remaining: i64,
}

impl SimpleVoice {
    /// A fresh sustained voice with the full budget of
    /// [`sustained_budget`] samples.
    pub fn new(freq: u64, rate: u32, duration: u64, falloff_us: u64) -> (v: Self)
        requires
            1 <= freq <= crate::MAX_FREQ,
            duration <= crate::MAX_DURATION,
            falloff_us <= MAX_FALLOFF_US,
        ensures
            v.samples_remaining == sustained_budget(duration, falloff_us, freq, rate),
    {
        let t: u64 = 3 * falloff_us;
        proof {
            assert(t * (rate as u64) <= 1800000000 * 4294967295) by (nonlinear_arith)
                requires
                    t <= 1800000000,
                    rate as u64 <= 4294967295,
            ;
        }
        let margin: u64 = t * (rate as u64);
        let denom: u64 = 1000 * freq;
        let q: u64 = margin / denom;
        proof {
            vstd::arithmetic::div_mod::lemma_div_nonincreasing(margin as int, denom as int);
        }
        SimpleVoice { samples_remaining: (duration + q) as i64 }
    }

    /// Advance the countdown by one sample and report what the envelope must
    /// do for it: release exactly when the countdown reaches zero, and attack
    /// for as long as it is still positive.
    pub fn sample(&mut self) -> (step: SampleStep)
        requires
            old(self).samples_remaining > i64::MIN,
        ensures
            final(self).samples_remaining == old(self).samples_remaining - 1,
            step.note_off == (old(self).samples_remaining == 0),
            step.stage == (if old(self).samples_remaining > 0 {
                EnvStage::Attack
            } else {
                EnvStage::Release
            }),
    {
        let note_off = self.samples_remaining == 0;
        let stage = if self.samples_remaining > 0 { EnvStage::Attack } else { EnvStage::Release };
        self.samples_remaining = self.samples_remaining - 1;
        SampleStep { note_off, stage }
    }

    /// A sustained voice is finished once its countdown has expired *and* its
    /// envelope has decayed below audibility; `quiet` reports the latter,
    /// which only the owner of the real-valued envelope can observe.
    pub open spec fn stopped_spec(self, quiet: bool) -> bool {
        self.samples_remaining <= 0 && quiet
    }

    /// Whether the voice is finished and may be retired.
    pub fn stopped(&self, quiet: bool) -> (r: bool)
        ensures
            r == self.stopped_spec(quiet),
    {
        self.samples_remaining <= 0 && quiet
    }
}

/// A percussive voice: decays from its onset and is finished when its fixed
/// budget of samples has elapsed, with no audibility check.
#[derive(Clone, Copy, Debug, PartialEq, Eq, Structural)]
pub struct DrumVoice {
    /// Samples left of the fixed decay budget.
    pub samples_remaining: i64,
}

impl DrumVoice {
    /// A fresh percussive voice with the full budget of
    /// [`percussive_budget`] samples.
    pub fn new(freq: u64, rate: u32, falloff_us: u64) -> (v: Self)
        requires
            1 <= freq <= crate::MAX_FREQ,
            falloff_us <= MAX_FALLOFF_US,
        ensures
            v.samples_remaining == percussive_budget(falloff_us, freq, rate),
    {
        let t: u64 = 5 * falloff_us;
        proof {
            assert(t * (rate as u64) <= 3000000000 * 4294967295) by (nonlinear_arith)
                requires
                    t <= 3000000000,
                    rate as u64 <= 4294967295,
            ;
        }
        let margin: u64 = t * (rate as u64);
        let denom: u64 = 1000 * freq;
        let q: u64 = margin / denom;
        proof {
            vstd::arithmetic::div_mod::lemma_div_is_ordered_by_denominator(
                margin as int,
                1000,
                denom as int,
            );
            vstd::arithmetic::div_mod::lemma_div_is_ordered(
                margin as int,
                3000000000int * 4294967295int,
                1000,
            );
        }
        DrumVoice { samples_remaining: q as i64 }
    }

    /// Advance the decay by one sample.
    pub fn sample(&mut self)
        requires
            old(self).samples_remaining > i64::MIN,
        ensures
            final(self).samples_remaining == old(self).samples_remaining - 1,
    {
        self.samples_remaining = self.samples_remaining - 1;
    }

    /// A percussive voice is finished once its budget has elapsed.
    pub open spec fn stopped_spec(self) -> bool {
        self.samples_remaining <= 0
    }

    /// Whether the voice is finished and may be retired.
    pub fn stopped(&self) -> (r: bool)
        ensures
            r == self.stopped_spec(),
    {
        self.samples_remaining <= 0
    }
}

/// Once a sustained voice is finished it stays finished: the countdown only
/// ever decreases, so provided the envelope stays quiet — and it does, since
/// from note-off on it is a convex combination driven towards zero — no later
/// sample can bring the voice back.
pub proof fn lemma_simple_stopped_monotone(
    before: SimpleVoice,
    after: SimpleVoice,
    quiet_before: bool,
    quiet_after: bool,
)
    requires
        before.stopped_spec(quiet_before),
        after.samples_remaining <= before.samples_remaining,
        quiet_after,
    ensures
        after.stopped_spec(quiet_after),
{
}

/// Once a percussive voice is finished it stays finished: the countdown only
/// ever decreases.
pub proof fn lemma_drum_stopped_monotone(before: DrumVoice, after: DrumVoice)
    requires
        before.stopped_spec(),
        after.samples_remaining <= before.samples_remaining,
    ensures
        after.stopped_spec(),
{
}

} // verus!
