use synth::synth::{Step, Synth};
use synth::voice::{DrumVoice, EnvStage, Profile, SimpleVoice, Voice};
use synth::Note;

#[test]
fn test_sustained_budget_formula() {
    // duration + (3 * falloff / freq) / sample_duration, in integer units:
    // 48000 + (3 * 1_000_000 us * 48000 Hz) / (1000 * 440_000 mHz) = 48327.
    let v = SimpleVoice::new(440_000, 48000, 48000, 1_000_000);
    assert_eq!(v.samples_remaining, 48327);
}

#[test]
fn test_percussive_budget_formula() {
    // (5 * falloff / freq) / sample_duration, ignoring the note duration:
    // (5 * 1_000_000 us * 48000 Hz) / (1000 * 440_000 mHz) = 545.
    let v = DrumVoice::new(440_000, 48000, 1_000_000);
    assert_eq!(v.samples_remaining, 545);
}

#[test]
fn test_profile_instantiates_matching_variant() {
    let sus = Profile::Sustained { attack_us: 2_000_000, falloff_us: 1_000_000 };
    let per = Profile::Percussive { falloff_us: 1_000_000 };
    assert_eq!(
        sus.voice(440_000, 48000, 48000),
        Voice::Simple(SimpleVoice { samples_remaining: 48327 })
    );
    assert_eq!(
        per.voice(440_000, 48000, 48000),
        Voice::Drum(DrumVoice { samples_remaining: 545 })
    );
}

#[test]
fn test_sustained_voice_lifecycle() {
    let mut v = SimpleVoice { samples_remaining: 2 };
    // While the countdown runs, the envelope attacks and no note-off happens.
    let s1 = v.sample();
    assert!(!s1.note_off);
    assert_eq!(s1.stage, EnvStage::Attack);
    let s2 = v.sample();
    assert!(!s2.note_off);
    assert_eq!(s2.stage, EnvStage::Attack);
    // The countdown hits zero: note-off on exactly this sample, and the
    // envelope switches to release for good.
    let s3 = v.sample();
    assert!(s3.note_off);
    assert_eq!(s3.stage, EnvStage::Release);
    let s4 = v.sample();
    assert!(!s4.note_off);
    assert_eq!(s4.stage, EnvStage::Release);
    // Finished only once the envelope has also gone quiet, and then for good.
    assert!(!v.stopped(false));
    assert!(v.stopped(true));
    v.sample();
    assert!(v.stopped(true));
}

#[test]
fn test_drum_voice_lifecycle() {
    let mut v = DrumVoice::new(440_000, 1000, 88_000);
    // Budget: (5 * 88_000 * 1000) / (1000 * 440_000) = 1 sample.
    assert_eq!(v.samples_remaining, 1);
    assert!(!v.stopped());
    v.sample();
    assert!(v.stopped());
    // The predicate never goes back.
    v.sample();
    assert!(v.stopped());
}

#[test]
fn test_track_selects_profile_modulo() {
    let profiles = vec![
        Profile::Sustained { attack_us: 1_000_000, falloff_us: 1_000_000 },
        Profile::Percussive { falloff_us: 1_000_000 },
    ];
    let (mut s, _h) = Synth::new(48000, 2, profiles);
    // Track 5 wraps to profile index 1, the percussive one.
    s.queue(vec![Note { time: 0, freq: 440_000, duration: 48000, track: 5 }]);
    let plan = s.process(10);
    let spawned: Vec<Voice> = plan
        .steps
        .iter()
        .filter_map(|st| match st {
            Step::Spawn { voice, .. } => Some(*voice),
            _ => None,
        })
        .collect();
    assert_eq!(spawned, vec![Voice::Drum(DrumVoice { samples_remaining: 545 })]);
}
