use synth::keys::key_to_freq;
use synth::synth::{Plan, Step, Synth};
use synth::voice::Profile;
use synth::Note;

fn sustained() -> Profile {
    Profile::Sustained { attack_us: 1_000_000, falloff_us: 1_000_000 }
}

fn note(time: u64, freq: u64, duration: u64, track: usize) -> Note {
    Note { time, freq, duration, track }
}

fn spawned_times(plan: &Plan) -> Vec<u64> {
    plan.steps
        .iter()
        .filter_map(|s| match s {
            Step::Spawn { note, .. } => Some(note.time),
            _ => None,
        })
        .collect()
}

fn spawns(plan: &Plan) -> Vec<Step> {
    plan.steps
        .iter()
        .copied()
        .filter(|s| matches!(s, Step::Spawn { .. }))
        .collect()
}

fn mixed_frames(plan: &Plan) -> u64 {
    plan.steps
        .iter()
        .map(|s| match s {
            Step::Mix { frames } => *frames,
            _ => 0,
        })
        .sum()
}

#[test]
fn test_key_freq() {
    // A4 at concert pitch and the lowest A, in millihertz.
    assert_eq!(key_to_freq(9 + 5 * 12), 440_000);
    assert_eq!(key_to_freq(9), 13_750);
}

#[test]
fn test_octave_doubles_exactly() {
    // Each pitch class is rounded once, at the bottom octave, so adding
    // twelve keys doubles the frequency exactly — for every key.
    let mut key: u8 = 0;
    while key <= 115 {
        assert_eq!(key_to_freq(key + 12), 2 * key_to_freq(key));
        key += 1;
    }
    // One concrete pair: B flat below middle C, and an octave above it.
    assert_eq!(key_to_freq(58), 233_056);
    assert_eq!(key_to_freq(70), 466_112);
}

#[test]
fn test_load_starts_clock_at_earliest_onset() {
    // Notes arrive out of order; the first load anchors the clock at the
    // earliest onset and fill serves them in ascending onset order.
    let (mut s, _h) = Synth::new(1000, 1, vec![sustained()]);
    s.queue(vec![note(1000, 440_000, 100, 0), note(0, 220_000, 100, 0)]);
    assert_eq!(s.clock(), 0);
    let plan = s.process(2000);
    assert_eq!(spawned_times(&plan), vec![0, 1000]);
    assert_eq!(s.clock(), 2000);
}

#[test]
fn test_equal_onsets_keep_arrival_order() {
    let (mut s, _h) = Synth::new(1000, 1, vec![sustained()]);
    let a = note(50, 440_000, 10, 0);
    let b = note(50, 220_000, 10, 0);
    s.queue(vec![a, b]);
    let plan = s.process(100);
    let got: Vec<u64> = plan
        .steps
        .iter()
        .filter_map(|s| match s {
            Step::Spawn { note, .. } => Some(note.freq),
            _ => None,
        })
        .collect();
    assert_eq!(got, vec![440_000, 220_000]);
}

#[test]
fn test_second_load_keeps_clock() {
    let (mut s, _h) = Synth::new(1000, 1, vec![sustained()]);
    s.queue(vec![note(100, 440_000, 10, 0)]);
    assert_eq!(s.clock(), 100);
    let _ = s.process(50);
    assert_eq!(s.clock(), 150);
    // A later load must not rewind or fast-forward the clock.
    s.queue(vec![note(0, 220_000, 10, 0)]);
    assert_eq!(s.clock(), 150);
    // The late note still plays, clamped to the start of the next window.
    let plan = s.process(10);
    assert_eq!(spawned_times(&plan), vec![0]);
}

#[test]
fn test_onset_at_window_end_is_deferred() {
    // The window is half-open: an onset exactly at its end waits.
    let (mut s, _h) = Synth::new(1000, 1, vec![sustained()]);
    s.queue(vec![note(0, 440_000, 10, 0), note(128, 220_000, 10, 0)]);
    let plan = s.process(128);
    assert_eq!(spawned_times(&plan), vec![0]);
    assert_eq!(s.pending_len(), 1);
    let plan2 = s.process(1);
    assert_eq!(spawned_times(&plan2), vec![128]);
    assert_eq!(s.pending_len(), 0);
}

#[test]
fn test_slicing_preserves_notes_and_frames() {
    // One window of 128 frames against two of 64: the same voices are
    // spawned, in the same order, and the mixed frames add up the same.
    let notes = vec![
        note(10, 440_000, 50, 0),
        note(70, 220_000, 50, 0),
        note(70, 330_000, 50, 0),
        note(100, 550_000, 50, 0),
    ];
    let (mut one, _h1) = Synth::new(1000, 2, vec![sustained()]);
    let (mut two, _h2) = Synth::new(1000, 2, vec![sustained()]);
    one.queue(notes.clone());
    two.queue(notes);
    let whole = one.process(128);
    let first = two.process(64);
    let second = two.process(64);

    let mut split_spawns = spawns(&first);
    split_spawns.extend(spawns(&second));
    assert_eq!(spawns(&whole), split_spawns);

    assert_eq!(mixed_frames(&whole), 128);
    assert_eq!(mixed_frames(&first) + mixed_frames(&second), 128);
    assert_eq!(one.clock(), two.clock());
}

#[test]
fn test_completion_fires_exactly_once() {
    let (mut s, h) = Synth::new(1000, 1, vec![sustained()]);
    s.queue(vec![note(0, 440_000, 5, 0), note(50, 220_000, 5, 0)]);
    let p1 = s.process(10);
    assert!(!p1.completed);
    assert_eq!(s.pending_len(), 1);
    let p2 = s.process(100);
    assert!(p2.completed);
    assert_eq!(s.pending_len(), 0);
    // The drain already happened: later windows must not re-fire.
    let p3 = s.process(100);
    assert!(!p3.completed);
    let p4 = s.process(0);
    assert!(!p4.completed);
    // The waiter sees exactly the one message.
    h.wait();
}

#[test]
fn test_empty_window_pops_late_notes_only() {
    let (mut s, _h) = Synth::new(1000, 1, vec![sustained()]);
    s.queue(vec![note(5, 440_000, 10, 0), note(40, 220_000, 10, 0)]);
    assert_eq!(s.clock(), 5);
    // A zero-length window advances nothing and takes nothing: even the
    // note at the clock itself lies at the window's (empty) end.
    let plan = s.process(0);
    assert_eq!(spawned_times(&plan), Vec::<u64>::new());
    assert_eq!(mixed_frames(&plan), 0);
    assert_eq!(s.clock(), 5);
    assert_eq!(s.pending_len(), 2);
}
