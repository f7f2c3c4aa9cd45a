//! The scheduler/mixer: a time-ordered queue of pending notes, a sample
//! clock, and a render-plan generator.
//!
//! [`Synth::queue`] accepts notes in any order and keeps them stably sorted
//! by onset; the first load also fast-forwards the clock to the earliest
//! onset, skipping leading silence.  [`Synth::process`] answers one request
//! of the audio callback: it consumes every pending note whose onset falls
//! inside the requested span of frames — a half-open window, so an onset
//! exactly at the end is deferred — and returns the exact interleaving of
//! voice starts and mix segments as a [`Plan`].  When the queue drains, the
//! completion signal fires, exactly once.

use vstd::prelude::*;

use crate::Note;
use crate::signal::{Msg, SynthHandle, make_channel, send_done};
use crate::voice::{Profile, Voice};
use std::collections::VecDeque;

verus! {

broadcast use vstd::seq_lib::group_to_multiset_ensures;

/// One step of a render plan, in execution order.
#[derive(Clone, Copy, Debug, PartialEq, Eq, Structural)]
pub enum Step {
    /// Add a fresh voice for `note` to the active set.  It takes part in
    /// every following `Mix` of the same plan.
    Spawn { note: Note, voice: Voice },
    /// Render this many frames: silence, plus one sample per frame from
    /// every active voice, summed into every channel; then retire the
    /// voices that report themselves finished.
    Mix { frames: u64 },
}

/// What one call to [`Synth::process`] asks of the renderer.
#[derive(Debug)]
pub struct Plan {
    /// Voice starts and mix segments, in order; the mixed frames add up to
    /// the requested span.
    pub steps: Vec<Step>,
    /// True exactly when this call drained the pending queue and the
    /// completion signal was fired (it fires at most once per `Synth`).
    pub completed: bool,
}

/// Stable insertion of one note into a sequence sorted by onset: the note
/// lands after every note with an onset less than or equal to its own.
pub open spec fn insert_stable(s: Seq<Note>, n: Note) -> Seq<Note>
    decreases s.len(),
{
    if s.len() == 0 {
        seq![n]
    } else if s.last().time <= n.time {
        s.push(n)
    } else {
        insert_stable(s.drop_last(), n).push(s.last())
    }
}

/// Stable sort by onset: each note in turn is stably inserted into the
/// sorted prefix, so notes with equal onsets keep their arrival order.
pub open spec fn sort_stable(s: Seq<Note>) -> Seq<Note>
    decreases s.len(),
{
    if s.len() == 0 {
        Seq::empty()
    } else {
        insert_stable(sort_stable(s.drop_last()), s.last())
    }
}

/// Ascending onsets.
pub open spec fn sorted_by_time(s: Seq<Note>) -> bool {
    forall|i: int, j: int| 0 <= i < j < s.len() ==> s[i].time <= s[j].time
}

/// Every note within machine bounds.
pub open spec fn all_valid(s: Seq<Note>) -> bool {
    forall|i: int| 0 <= i < s.len() ==> (#[trigger] s[i]).valid()
}

/// Every profile within machine bounds.
pub open spec fn all_valid_profiles(s: Seq<Profile>) -> bool {
    forall|i: int| 0 <= i < s.len() ==> (#[trigger] s[i]).valid()
}

/// How many notes a window ending at `end` consumes from the front of the
/// queue: the pop loop stops at the first note whose onset does not fall
/// before `end`.
pub open spec fn pops(pending: Seq<Note>, end: int) -> int
    decreases pending.len(),
{
    if pending.len() > 0 && pending[0].time < end {
        1 + pops(pending.skip(1), end)
    } else {
        0
    }
}

/// How many frames the plan mixes right after a note's spawn: the distance
/// from the clock up to the note's onset, clamped into what remains of the
/// window.  Zero for a late note (onset already at or behind the clock), so
/// the buffer is never split past its end.
pub open spec fn spawn_off(time: int, clock: int, end: int) -> int {
    if time <= clock {
        0
    } else if time <= end {
        time - clock
    } else {
        end - clock
    }
}

/// The exact render plan for a window: while the front note's onset falls
/// before `end`, pop it, spawn its voice (the voice joins the mix from the
/// current clock on), mix up to its onset, and advance the clock; finally
/// mix whatever remains of the window.
pub open spec fn plan_spec(
    pending: Seq<Note>,
    clock: int,
    end: int,
    profiles: Seq<Profile>,
    rate: u32,
) -> Seq<Step>
    decreases pending.len(),
{
    if pending.len() > 0 && pending[0].time < end {
        let note = pending[0];
        let voice = profiles[(note.track as int) % (profiles.len() as int)].voice_spec(
            note.freq,
            rate,
            note.duration,
        );
        let off = spawn_off(note.time as int, clock, end);
        if off > 0 {
            seq![Step::Spawn { note, voice }, Step::Mix { frames: off as u64 }] + plan_spec(
                pending.skip(1),
                clock + off,
                end,
                profiles,
                rate,
            )
        } else {
            seq![Step::Spawn { note, voice }] + plan_spec(pending.skip(1), clock, end, profiles, rate)
        }
    } else if clock < end {
        seq![Step::Mix { frames: (end - clock) as u64 }]
    } else {
        Seq::empty()
    }
}

/// The `Spawn` steps of a plan, in order.
pub open spec fn plan_spawns(steps: Seq<Step>) -> Seq<Step>
    decreases steps.len(),
{
    if steps.len() == 0 {
        Seq::empty()
    } else if steps[0] is Spawn {
        seq![steps[0]] + plan_spawns(steps.skip(1))
    } else {
        plan_spawns(steps.skip(1))
    }
}

/// The total number of frames a plan mixes.
pub open spec fn mix_total(steps: Seq<Step>) -> int
    decreases steps.len(),
{
    if steps.len() == 0 {
        0
    } else {
        (match steps[0] {
            Step::Mix { frames } => frames as int,
            _ => 0,
        }) + mix_total(steps.skip(1))
    }
}

/// The scheduler: owns the pending queue, the sample clock, the timbre
/// registry and the sending half of the completion signal.
pub struct Synth {
    channels: u16,
    sample_rate: u32,
    queue: VecDeque<Note>,
    time: u64,
    started: bool,
    done_sent: bool,
    tx: std::sync::mpsc::Sender<Msg>,
    profiles: Vec<Profile>,
}

impl Synth {
    /// The notes not yet turned into voices, in pop order.
    pub closed spec fn pending(self) -> Seq<Note> {
        self.queue@
    }

    /// The global clock, in frames.
    pub closed spec fn clock_spec(self) -> u64 {
        self.time
    }

    /// Whether a first (non-empty) load has anchored the clock.
    pub closed spec fn started_spec(self) -> bool {
        self.started
    }

    /// Whether the completion signal has already been fired.
    pub closed spec fn done_flag(self) -> bool {
        self.done_sent
    }

    pub closed spec fn channels_spec(self) -> u16 {
        self.channels
    }

    pub closed spec fn rate_spec(self) -> u32 {
        self.sample_rate
    }

    pub closed spec fn profiles_spec(self) -> Seq<Profile> {
        self.profiles@
    }

    /// Structural soundness: at least one profile, every profile and every
    /// pending note within machine bounds, and no pending notes before the
    /// first load.
    pub closed spec fn wf(self) -> bool {
        &&& self.profiles@.len() >= 1
        &&& all_valid_profiles(self.profiles@)
        &&& all_valid(self.queue@)
        &&& (!self.started ==> self.queue@.len() == 0)
    }

    /// Whether a window of `frames` frames would drain the queue and fire
    /// the completion signal.
    pub open spec fn fires(self, frames: int) -> bool {
        pops(self.pending(), self.clock_spec() + frames) == self.pending().len()
            && !self.done_flag()
    }

    /// A fresh scheduler for a device of the given sample rate and channel
    /// count, with the given timbre registry, plus the waiter's handle for
    /// its completion signal.  The clock starts at zero, anchored by the
    /// first load.
    pub fn new(sample_rate: u32, channels: u16, profiles: Vec<Profile>) -> (r: (Synth, SynthHandle))
        requires
            1 <= sample_rate,
            1 <= channels,
            profiles@.len() >= 1,
            all_valid_profiles(profiles@),
        ensures
            r.0.wf(),
            r.0.pending() == Seq::<Note>::empty(),
            r.0.clock_spec() == 0,
            !r.0.started_spec(),
            !r.0.done_flag(),
            r.0.channels_spec() == channels,
            r.0.rate_spec() == sample_rate,
            r.0.profiles_spec() == profiles@,
    {
        let (tx, rx) = make_channel();
        let synth = Synth {
            channels,
            sample_rate,
            queue: VecDeque::new(),
            time: 0,
            started: false,
            done_sent: false,
            tx,
            profiles,
        };
        proof {
            assert(synth.pending() =~= Seq::<Note>::empty());
        }
        (synth, SynthHandle::from_receiver(rx))
    }

    /// Current clock, in frames since the start of the score.
    pub fn clock(&self) -> (t: u64)
        ensures
            t == self.clock_spec(),
    {
        self.time
    }

    /// How many notes are still pending.
    pub fn pending_len(&self) -> (n: usize)
        ensures
            n == self.pending().len(),
    {
        self.queue.len()
    }

    /// Append a batch of notes, stably sorted by onset, to the pending
    /// queue.  The first non-empty load anchors the clock at the earliest
    /// onset of the batch, deliberately skipping any leading silence; later
    /// loads leave the clock alone.
    pub fn queue(&mut self, notes: Vec<Note>)
        requires
            old(self).wf(),
            all_valid(notes@),
        ensures
            final(self).wf(),
            final(self).pending() == old(self).pending() + sort_stable(notes@),
            final(self).started_spec() == (old(self).started_spec() || notes@.len() > 0),
            final(self).clock_spec() == (if !old(self).started_spec() && notes@.len() > 0 {
                sort_stable(notes@)[0].time as int
            } else {
                old(self).clock_spec() as int
            }),
            final(self).done_flag() == old(self).done_flag(),
            final(self).channels_spec() == old(self).channels_spec(),
            final(self).rate_spec() == old(self).rate_spec(),
            final(self).profiles_spec() == old(self).profiles_spec(),
    {
        let ghost orig = *self;
        let sorted = sort_notes(notes);
        proof {
            lemma_sort_stable_all_valid(notes@);
            lemma_sort_stable_len(notes@);
        }
        let mut k: usize = 0;
        while k < sorted.len()
            invariant
                k <= sorted@.len(),
                sorted@ == sort_stable(notes@),
                all_valid(sorted@),
                self.queue@ == orig.queue@ + sorted@.subrange(0, k as int),
                self.channels == orig.channels,
                self.sample_rate == orig.sample_rate,
                self.time == orig.time,
                self.started == orig.started,
                self.done_sent == orig.done_sent,
                self.profiles == orig.profiles,
                orig.wf(),
            decreases sorted@.len() - k,
        {
            let n = sorted[k];
            self.queue.push_back(n);
            k = k + 1;
            proof {
                assert(self.queue@ =~= orig.queue@ + sorted@.subrange(0, k as int));
            }
        }
        proof {
            assert(sorted@.subrange(0, sorted@.len() as int) =~= sorted@);
        }
        if !self.started {
            if self.queue.len() > 0 {
                self.time = self.queue[0].time;
                self.started = true;
                proof {
                    assert(orig.queue@.len() == 0);
                    assert(self.queue@ =~= sorted@);
                }
            }
        }
    }

    /// Serve one request of the audio callback: a window of `frames` frames
    /// starting at the clock.  Every pending note whose onset falls before
    /// the window's end is consumed, in queue order, and the returned plan
    /// interleaves its voice start with the mix segments exactly as
    /// [`plan_spec`] lays them out.  The clock ends up at the window's end.
    /// If this call leaves the queue empty and the completion signal has
    /// never fired, it fires now.
    pub fn process(&mut self, frames: u64) -> (plan: Plan)
        requires
            old(self).wf(),
            old(self).clock_spec() + frames <= u64::MAX,
        ensures
            final(self).wf(),
            final(self).clock_spec() == old(self).clock_spec() + frames,
            final(self).pending() == old(self).pending().skip(
                pops(old(self).pending(), old(self).clock_spec() + frames),
            ),
            plan.steps@ == plan_spec(
                old(self).pending(),
                old(self).clock_spec() as int,
                old(self).clock_spec() + frames,
                old(self).profiles_spec(),
                old(self).rate_spec(),
            ),
            plan.completed == old(self).fires(frames as int),
            final(self).done_flag() == (old(self).done_flag() || final(self).pending().len()
                == 0),
            final(self).started_spec() == old(self).started_spec(),
            final(self).channels_spec() == old(self).channels_spec(),
            final(self).rate_spec() == old(self).rate_spec(),
            final(self).profiles_spec() == old(self).profiles_spec(),
    {
        let ghost orig = *self;
        let end: u64 = self.time + frames;
        let ghost endi = end as int;
        let mut steps: Vec<Step> = Vec::new();
        let ghost mut popped: int = 0;
        proof {
            lemma_pops_bounded(self.queue@, endi);
            assert(self.queue@ =~= orig.queue@.skip(0));
        }
        while self.queue.len() > 0 && self.queue[0].time < end
            invariant
                orig.wf(),
                endi == end as int,
                0 <= popped <= orig.queue@.len(),
                self.queue@ == orig.queue@.skip(popped),
                all_valid(self.queue@),
                orig.time <= self.time <= endi <= u64::MAX,
                self.channels == orig.channels,
                self.sample_rate == orig.sample_rate,
                self.started == orig.started,
                self.done_sent == orig.done_sent,
                self.profiles == orig.profiles,
                self.profiles@.len() >= 1,
                all_valid_profiles(self.profiles@),
                plan_spec(orig.queue@, orig.time as int, endi, orig.profiles@, orig.sample_rate)
                    == steps@ + plan_spec(
                    self.queue@,
                    self.time as int,
                    endi,
                    orig.profiles@,
                    orig.sample_rate,
                ),
                pops(orig.queue@, endi) == popped + pops(self.queue@, endi),
            decreases self.queue@.len(),
        {
            let ghost pend0 = self.queue@;
            let ghost time0 = self.time;
            let ghost steps0 = steps@;
            let note = self.queue.pop_front().unwrap();
            let pidx = note.track % self.profiles.len();
            let v = self.profiles[pidx].voice(note.freq, self.sample_rate, note.duration);
            steps.push(Step::Spawn { note, voice: v });
            let off: u64 = if note.time > self.time {
                note.time - self.time
            } else {
                0
            };
            if off > 0 {
                steps.push(Step::Mix { frames: off });
                self.time = self.time + off;
            }
            proof {
                popped = popped + 1;
                assert(self.queue@ =~= pend0.skip(1));
                assert(self.queue@ =~= orig.queue@.skip(popped));
                assert(all_valid(self.queue@)) by {
                    assert forall|i: int| 0 <= i < self.queue@.len() implies (#[trigger] self
                        .queue@[i]).valid() by {
                        assert(self.queue@[i] == pend0[i + 1]);
                    }
                }
                assert(pops(pend0, endi) == 1 + pops(self.queue@, endi));
                assert(off as int == spawn_off(note.time as int, time0 as int, endi));
                let tailplan = plan_spec(
                    self.queue@,
                    self.time as int,
                    endi,
                    orig.profiles@,
                    orig.sample_rate,
                );
                if off > 0 {
                    assert(plan_spec(pend0, time0 as int, endi, orig.profiles@, orig.sample_rate)
                        == seq![
                        Step::Spawn { note, voice: v },
                        Step::Mix { frames: off },
                    ] + tailplan);
                    assert(steps@ =~= steps0 + seq![
                        Step::Spawn { note, voice: v },
                        Step::Mix { frames: off },
                    ]);
                    assert(steps0 + (seq![
                        Step::Spawn { note, voice: v },
                        Step::Mix { frames: off },
                    ] + tailplan) =~= (steps0 + seq![
                        Step::Spawn { note, voice: v },
                        Step::Mix { frames: off },
                    ]) + tailplan);
                } else {
                    assert(plan_spec(pend0, time0 as int, endi, orig.profiles@, orig.sample_rate)
                        == seq![Step::Spawn { note, voice: v }] + tailplan);
                    assert(steps@ =~= steps0 + seq![Step::Spawn { note, voice: v }]);
                    assert(steps0 + (seq![Step::Spawn { note, voice: v }] + tailplan) =~= (steps0
                        + seq![Step::Spawn { note, voice: v }]) + tailplan);
                }
            }
        }
        let ghost pend_final = self.queue@;
        let ghost time_before_tail = self.time;
        if self.time < end {
            let tail: u64 = end - self.time;
            steps.push(Step::Mix { frames: tail });
        }
        self.time = end;
        proof {
            if pend_final.len() > 0 {
                assert(pend_final[0].time >= endi);
            }
            if time_before_tail < endi {
                assert(plan_spec(pend_final, time_before_tail as int, endi, orig.profiles@,
                    orig.sample_rate) =~= seq![
                    Step::Mix { frames: (endi - time_before_tail) as u64 },
                ]);
            } else {
                assert(plan_spec(pend_final, time_before_tail as int, endi, orig.profiles@,
                    orig.sample_rate) =~= Seq::<Step>::empty());
            }
            assert(steps@ =~= plan_spec(orig.queue@, orig.time as int, endi, orig.profiles@,
                orig.sample_rate));
            assert(pops(pend_final, endi) == 0);
            assert(self.queue@ =~= orig.queue@.skip(pops(orig.queue@, endi)));
        }
        let completed = self.queue.len() == 0 && !self.done_sent;
        if self.queue.len() == 0 {
            if !self.done_sent {
                send_done(&self.tx);
            }
            self.done_sent = true;
        }
        Plan { steps, completed }
    }
}

/// Splitting off a plan's first steps splits its spawn list.
pub proof fn lemma_spawns_add(a: Seq<Step>, b: Seq<Step>)
    ensures
        plan_spawns(a + b) == plan_spawns(a) + plan_spawns(b),
    decreases a.len(),
{
    if a.len() == 0 {
        assert(a + b =~= b);
        assert(plan_spawns(a) + plan_spawns(b) =~= plan_spawns(b));
    } else {
        assert((a + b).skip(1) =~= a.skip(1) + b);
        assert((a + b)[0] == a[0]);
        lemma_spawns_add(a.skip(1), b);
        if a[0] is Spawn {
            assert(seq![a[0]] + (plan_spawns(a.skip(1)) + plan_spawns(b)) =~= (seq![a[0]]
                + plan_spawns(a.skip(1))) + plan_spawns(b));
        }
    }
}

/// Splitting off a plan's first steps splits its frame total.
pub proof fn lemma_mix_total_add(a: Seq<Step>, b: Seq<Step>)
    ensures
        mix_total(a + b) == mix_total(a) + mix_total(b),
    decreases a.len(),
{
    if a.len() == 0 {
        assert(a + b =~= b);
    } else {
        assert((a + b).skip(1) =~= a.skip(1) + b);
        assert((a + b)[0] == a[0]);
        lemma_mix_total_add(a.skip(1), b);
    }
}

/// No output frame is lost or invented: the mix segments of a window's plan
/// add up to exactly the window's length, however many notes it consumes.
pub proof fn lemma_plan_mix_total(
    pending: Seq<Note>,
    clock: int,
    end: int,
    profiles: Seq<Profile>,
    rate: u32,
)
    requires
        0 <= clock <= end <= u64::MAX,
    ensures
        mix_total(plan_spec(pending, clock, end, profiles, rate)) == end - clock,
    decreases pending.len(),
{
    if pending.len() > 0 && pending[0].time < end {
        let note = pending[0];
        let voice = profiles[(note.track as int) % (profiles.len() as int)].voice_spec(
            note.freq,
            rate,
            note.duration,
        );
        let off = spawn_off(note.time as int, clock, end);
        lemma_plan_mix_total(pending.skip(1), clock + off, end, profiles, rate);
        let rest = plan_spec(pending.skip(1), clock + off, end, profiles, rate);
        reveal_with_fuel(mix_total, 5);
        if off > 0 {
            let pre = seq![Step::Spawn { note, voice }, Step::Mix { frames: off as u64 }];
            lemma_mix_total_add(pre, rest);
            assert(pre.skip(1) =~= seq![Step::Mix { frames: off as u64 }]);
            assert(seq![Step::Mix { frames: off as u64 }].skip(1) =~= Seq::<Step>::empty());
            assert(mix_total(pre) == off);
            assert(plan_spec(pending, clock, end, profiles, rate) == pre + rest);
        } else {
            let pre = seq![Step::Spawn { note, voice }];
            lemma_mix_total_add(pre, rest);
            assert(pre.skip(1) =~= Seq::<Step>::empty());
            assert(mix_total(pre) == 0);
            assert(plan_spec(pending, clock, end, profiles, rate) == pre + rest);
        }
    } else if clock < end {
        reveal_with_fuel(mix_total, 3);
        assert(seq![Step::Mix { frames: (end - clock) as u64 }].skip(1) =~= Seq::<
            Step,
        >::empty());
        assert(mix_total(seq![Step::Mix { frames: (end - clock) as u64 }]) == end - clock);
    }
}

/// Which voices a window spawns does not depend on where its clock started:
/// the clock shifts the mix segments, never the spawned notes.
pub proof fn lemma_plan_spawns_clock_indep(
    pending: Seq<Note>,
    c1: int,
    c2: int,
    end: int,
    profiles: Seq<Profile>,
    rate: u32,
)
    ensures
        plan_spawns(plan_spec(pending, c1, end, profiles, rate)) == plan_spawns(
            plan_spec(pending, c2, end, profiles, rate),
        ),
    decreases pending.len(),
{
    if pending.len() > 0 && pending[0].time < end {
        let note = pending[0];
        let voice = profiles[(note.track as int) % (profiles.len() as int)].voice_spec(
            note.freq,
            rate,
            note.duration,
        );
        let spawn = Step::Spawn { note, voice };
        lemma_plan_spawns_clock_indep(
            pending.skip(1),
            c1 + spawn_off(note.time as int, c1, end),
            c2 + spawn_off(note.time as int, c2, end),
            end,
            profiles,
            rate,
        );
        lemma_plan_prefix_spawns(pending, c1, end, profiles, rate);
        lemma_plan_prefix_spawns(pending, c2, end, profiles, rate);
    } else {
        lemma_plan_no_spawns(pending, c1, end, profiles, rate);
        lemma_plan_no_spawns(pending, c2, end, profiles, rate);
    }
}

/// When the front note falls inside the window, the plan's spawn list is
/// that note's spawn followed by the rest's spawns.
proof fn lemma_plan_prefix_spawns(
    pending: Seq<Note>,
    clock: int,
    end: int,
    profiles: Seq<Profile>,
    rate: u32,
)
    requires
        pending.len() > 0,
        pending[0].time < end,
    ensures
        plan_spawns(plan_spec(pending, clock, end, profiles, rate)) == seq![
            Step::Spawn {
                note: pending[0],
                voice: profiles[(pending[0].track as int) % (profiles.len() as int)].voice_spec(
                    pending[0].freq,
                    rate,
                    pending[0].duration,
                ),
            },
        ] + plan_spawns(
            plan_spec(
                pending.skip(1),
                clock + spawn_off(pending[0].time as int, clock, end),
                end,
                profiles,
                rate,
            ),
        ),
{
    let note = pending[0];
    let voice = profiles[(note.track as int) % (profiles.len() as int)].voice_spec(
        note.freq,
        rate,
        note.duration,
    );
    let off = spawn_off(note.time as int, clock, end);
    let rest = plan_spec(pending.skip(1), clock + off, end, profiles, rate);
    reveal_with_fuel(plan_spawns, 5);
    if off > 0 {
        let pre = seq![Step::Spawn { note, voice }, Step::Mix { frames: off as u64 }];
        lemma_spawns_add(pre, rest);
        assert(pre.skip(1) =~= seq![Step::Mix { frames: off as u64 }]);
        assert(seq![Step::Mix { frames: off as u64 }].skip(1) =~= Seq::<Step>::empty());
        assert(plan_spawns(pre) =~= seq![Step::Spawn { note, voice }]);
        assert(plan_spec(pending, clock, end, profiles, rate) == pre + rest);
    } else {
        let pre = seq![Step::Spawn { note, voice }];
        lemma_spawns_add(pre, rest);
        assert(pre.skip(1) =~= Seq::<Step>::empty());
        assert(plan_spawns(pre) =~= seq![Step::Spawn { note, voice }]);
        assert(plan_spec(pending, clock, end, profiles, rate) == pre + rest);
    }
}

/// A window whose front note (if any) lies at or past its end spawns
/// nothing.
proof fn lemma_plan_no_spawns(
    pending: Seq<Note>,
    clock: int,
    end: int,
    profiles: Seq<Profile>,
    rate: u32,
)
    requires
        pending.len() == 0 || pending[0].time >= end,
    ensures
        plan_spawns(plan_spec(pending, clock, end, profiles, rate)) == Seq::<Step>::empty(),
{
    reveal_with_fuel(plan_spawns, 3);
    if clock < end {
        assert(seq![Step::Mix { frames: (end - clock) as u64 }].skip(1) =~= Seq::<
            Step,
        >::empty());
        assert(plan_spec(pending, clock, end, profiles, rate) == seq![
            Step::Mix { frames: (end - clock) as u64 },
        ]);
        assert(plan_spawns(plan_spec(pending, clock, end, profiles, rate)) =~= Seq::<
            Step,
        >::empty());
    } else {
        assert(plan_spec(pending, clock, end, profiles, rate) == Seq::<Step>::empty());
        assert(plan_spawns(plan_spec(pending, clock, end, profiles, rate)) =~= Seq::<
            Step,
        >::empty());
    }
}

/// Buffer slicing neither loses nor duplicates a note: serving a window in
/// two back-to-back calls — first up to `mid`, then, on what is left of the
/// queue, up to `end` — spawns exactly the voices, in exactly the order, of
/// serving it in one call.
pub proof fn lemma_fill_split(
    pending: Seq<Note>,
    clock: int,
    mid: int,
    end: int,
    profiles: Seq<Profile>,
    rate: u32,
)
    requires
        clock <= mid <= end,
    ensures
        plan_spawns(plan_spec(pending, clock, end, profiles, rate)) == plan_spawns(
            plan_spec(pending, clock, mid, profiles, rate),
        ) + plan_spawns(
            plan_spec(pending.skip(pops(pending, mid)), mid, end, profiles, rate),
        ),
    decreases pending.len(),
{
    if pending.len() > 0 && pending[0].time < mid {
        let note = pending[0];
        let voice = profiles[(note.track as int) % (profiles.len() as int)].voice_spec(
            note.freq,
            rate,
            note.duration,
        );
        let spawn = Step::Spawn { note, voice };
        let off = spawn_off(note.time as int, clock, mid);
        assert(off == spawn_off(note.time as int, clock, end));
        lemma_fill_split(pending.skip(1), clock + off, mid, end, profiles, rate);
        lemma_plan_prefix_spawns(pending, clock, mid, profiles, rate);
        lemma_plan_prefix_spawns(pending, clock, end, profiles, rate);
        lemma_pops_bounded(pending.skip(1), mid);
        assert(pops(pending, mid) == 1 + pops(pending.skip(1), mid));
        assert(pending.skip(pops(pending, mid)) =~= pending.skip(1).skip(
            pops(pending.skip(1), mid),
        ));
        let tail2 = plan_spawns(
            plan_spec(pending.skip(pops(pending, mid)), mid, end, profiles, rate),
        );
        assert(seq![spawn] + (plan_spawns(
            plan_spec(pending.skip(1), clock + off, mid, profiles, rate),
        ) + tail2) =~= (seq![spawn] + plan_spawns(
            plan_spec(pending.skip(1), clock + off, mid, profiles, rate),
        )) + tail2);
    } else if pending.len() > 0 && pending[0].time < end {
        lemma_plan_no_spawns(pending, clock, mid, profiles, rate);
        assert(pops(pending, mid) == 0);
        assert(pending.skip(0) =~= pending);
        lemma_plan_spawns_clock_indep(pending, clock, mid, end, profiles, rate);
        assert(Seq::<Step>::empty() + plan_spawns(
            plan_spec(pending, mid, end, profiles, rate),
        ) =~= plan_spawns(plan_spec(pending, mid, end, profiles, rate)));
    } else {
        lemma_plan_no_spawns(pending, clock, mid, profiles, rate);
        lemma_plan_no_spawns(pending, clock, end, profiles, rate);
        assert(pops(pending, mid) == 0);
        assert(pending.skip(0) =~= pending);
        lemma_plan_no_spawns(pending, mid, end, profiles, rate);
        assert(Seq::<Step>::empty() + Seq::<Step>::empty() =~= Seq::<Step>::empty());
    }
}

/// The completion signal is one-shot: once it has fired — and
/// [`Synth::process`] reports it fired exactly when it drains the queue with
/// the flag still clear — no later window can fire it again.
pub proof fn lemma_completion_one_shot(s: Synth, frames: int)
    requires
        s.done_flag(),
    ensures
        !s.fires(frames),
{
}

/// `pops` never claims more notes than the queue holds.
pub proof fn lemma_pops_bounded(pending: Seq<Note>, end: int)
    ensures
        0 <= pops(pending, end) <= pending.len(),
    decreases pending.len(),
{
    if pending.len() > 0 && pending[0].time < end {
        lemma_pops_bounded(pending.skip(1), end);
    }
}

/// Stable insertion adds exactly one note.
pub proof fn lemma_insert_stable_len(s: Seq<Note>, n: Note)
    ensures
        insert_stable(s, n).len() == s.len() + 1,
    decreases s.len(),
{
    if s.len() == 0 {
    } else if s.last().time <= n.time {
    } else {
        lemma_insert_stable_len(s.drop_last(), n);
    }
}

/// The stable sort keeps the length.
pub proof fn lemma_sort_stable_len(s: Seq<Note>)
    ensures
        sort_stable(s).len() == s.len(),
    decreases s.len(),
{
    if s.len() > 0 {
        lemma_sort_stable_len(s.drop_last());
        lemma_insert_stable_len(sort_stable(s.drop_last()), s.last());
    }
}

/// Stable insertion keeps every note of the sequence, plus the new one.
pub proof fn lemma_insert_stable_multiset(s: Seq<Note>, n: Note)
    ensures
        insert_stable(s, n).to_multiset() == s.to_multiset().insert(n),
    decreases s.len(),
{
    if s.len() == 0 {
        assert(insert_stable(s, n) =~= Seq::empty().push(n));
        assert(Seq::<Note>::empty().push(n).to_multiset() =~= s.to_multiset().insert(n));
    } else if s.last().time <= n.time {
        assert(s.push(n).to_multiset() =~= s.to_multiset().insert(n));
    } else {
        lemma_insert_stable_multiset(s.drop_last(), n);
        assert(s =~= s.drop_last().push(s.last()));
        assert(s.to_multiset() =~= s.drop_last().push(s.last()).to_multiset());
        assert(insert_stable(s.drop_last(), n).push(s.last()).to_multiset()
            =~= insert_stable(s.drop_last(), n).to_multiset().insert(s.last()));
        assert(insert_stable(s, n).to_multiset() =~= s.to_multiset().insert(n)) by {
            assert(s.drop_last().push(s.last()).to_multiset() =~= s.drop_last().to_multiset()
                .insert(s.last()));
            assert(s.drop_last().to_multiset().insert(n).insert(s.last()) =~= s.drop_last()
                .to_multiset().insert(s.last()).insert(n));
        }
    }
}

/// The stable sort is a permutation: no note is lost or duplicated.
pub proof fn lemma_sort_stable_multiset(s: Seq<Note>)
    ensures
        sort_stable(s).to_multiset() == s.to_multiset(),
    decreases s.len(),
{
    if s.len() > 0 {
        lemma_sort_stable_multiset(s.drop_last());
        lemma_insert_stable_multiset(sort_stable(s.drop_last()), s.last());
        assert(s =~= s.drop_last().push(s.last()));
        assert(s.drop_last().push(s.last()).to_multiset() =~= s.drop_last().to_multiset().insert(
            s.last(),
        ));
    }
}

/// Stable insertion into a sequence of valid notes, of a valid note, yields
/// valid notes only.
pub proof fn lemma_insert_stable_all_valid(s: Seq<Note>, n: Note)
    requires
        all_valid(s),
        n.valid(),
    ensures
        all_valid(insert_stable(s, n)),
    decreases s.len(),
{
    if s.len() == 0 {
        assert(insert_stable(s, n) =~= seq![n]);
    } else if s.last().time <= n.time {
    } else {
        assert(all_valid(s.drop_last()));
        lemma_insert_stable_all_valid(s.drop_last(), n);
        let r = insert_stable(s.drop_last(), n).push(s.last());
        assert forall|i: int| 0 <= i < r.len() implies (#[trigger] r[i]).valid() by {
            if i < r.len() - 1 {
                assert(r[i] == insert_stable(s.drop_last(), n)[i]);
            } else {
                assert(r[i] == s.last());
            }
        }
    }
}

/// Sorting valid notes yields valid notes.
pub proof fn lemma_sort_stable_all_valid(s: Seq<Note>)
    requires
        all_valid(s),
    ensures
        all_valid(sort_stable(s)),
    decreases s.len(),
{
    if s.len() > 0 {
        assert(all_valid(s.drop_last()));
        lemma_sort_stable_all_valid(s.drop_last());
        lemma_insert_stable_all_valid(sort_stable(s.drop_last()), s.last());
    }
}

/// Stable insertion preserves ascending order.
pub proof fn lemma_insert_stable_sorted(s: Seq<Note>, n: Note)
    requires
        sorted_by_time(s),
    ensures
        sorted_by_time(insert_stable(s, n)),
    decreases s.len(),
{
    if s.len() == 0 {
    } else if s.last().time <= n.time {
    } else {
        lemma_insert_stable_sorted(s.drop_last(), n);
        lemma_insert_stable_multiset(s.drop_last(), n);
        let r = insert_stable(s.drop_last(), n).push(s.last());
        assert forall|i: int, j: int| 0 <= i < j < r.len() implies r[i].time <= r[j].time by {
            if j < r.len() - 1 {
            } else {
                let prev = insert_stable(s.drop_last(), n);
                assert(prev.to_multiset().count(prev[i]) > 0);
                assert(prev.to_multiset() == s.drop_last().to_multiset().insert(n));
                if prev[i] == n {
                    assert(r[j].time >= prev[i].time);
                } else {
                    assert(s.drop_last().to_multiset().count(prev[i]) > 0);
                    assert(s.drop_last().contains(prev[i]));
                    assert(r[j] == s.last());
                }
            }
        }
    }
}

/// The stable sort sorts: onsets come out ascending.
pub proof fn lemma_sort_stable_sorted(s: Seq<Note>)
    ensures
        sorted_by_time(sort_stable(s)),
    decreases s.len(),
{
    if s.len() > 0 {
        lemma_sort_stable_sorted(s.drop_last());
        lemma_insert_stable_sorted(sort_stable(s.drop_last()), s.last());
    }
}

/// Stability made visible: a batch that is already in ascending onset order
/// comes out of the sort unchanged — in particular, notes with equal onsets
/// are never reordered.
pub proof fn lemma_sort_stable_of_sorted(s: Seq<Note>)
    requires
        sorted_by_time(s),
    ensures
        sort_stable(s) == s,
    decreases s.len(),
{
    if s.len() > 0 {
        assert(sorted_by_time(s.drop_last()));
        lemma_sort_stable_of_sorted(s.drop_last());
        if s.len() == 1 {
            assert(insert_stable(s.drop_last(), s.last()) =~= s);
        } else {
            assert(s.drop_last().last().time <= s.last().time);
            assert(insert_stable(s.drop_last(), s.last()) =~= s);
        }
    }
}

/// Stably insert one note into a vector sorted by onset.
fn insert_note(v: &mut Vec<Note>, n: Note)
    ensures
        final(v)@ == insert_stable(old(v)@, n),
{
    let ghost orig = v@;
    let mut j: usize = v.len();
    while j > 0 && v[j - 1].time > n.time
        invariant
            j <= v@.len(),
            v@ == orig,
            forall|k: int| j <= k < v@.len() ==> v@[k].time > n.time,
        decreases j,
    {
        j = j - 1;
    }
    proof {
        lemma_insert_stable_at(v@, n, j as int);
    }
    v.insert(j, n);
    proof {
        assert(v@ =~= orig.subrange(0, j as int) + seq![n] + orig.subrange(
            j as int,
            orig.len() as int,
        ));
    }
}

/// Where stable insertion lands: just after the last note whose onset is not
/// greater than the new one's.
proof fn lemma_insert_stable_at(s: Seq<Note>, n: Note, j: int)
    requires
        0 <= j <= s.len(),
        forall|k: int| j <= k < s.len() ==> s[k].time > n.time,
        j > 0 ==> s[j - 1].time <= n.time,
    ensures
        insert_stable(s, n) == s.subrange(0, j) + seq![n] + s.subrange(j, s.len() as int),
    decreases s.len(),
{
    if s.len() == 0 {
        assert(insert_stable(s, n) =~= s.subrange(0, j) + seq![n] + s.subrange(
            j,
            s.len() as int,
        ));
    } else if j == s.len() {
        assert(s.last().time <= n.time);
        assert(s.push(n) =~= s.subrange(0, j) + seq![n] + s.subrange(j, s.len() as int));
    } else {
        assert(s.last().time > n.time);
        lemma_insert_stable_at(s.drop_last(), n, j);
        assert(insert_stable(s.drop_last(), n).push(s.last()) =~= s.subrange(0, j) + seq![n]
            + s.subrange(j, s.len() as int)) by {
            assert(s.drop_last().subrange(0, j) =~= s.subrange(0, j));
            assert(s.drop_last().subrange(j, s.drop_last().len() as int) =~= s.subrange(
                j,
                s.len() - 1,
            ));
            assert((s.drop_last().subrange(0, j) + seq![n] + s.drop_last().subrange(
                j,
                s.drop_last().len() as int,
            )).push(s.last()) =~= s.subrange(0, j) + seq![n] + s.subrange(j, s.len() as int));
        }
    }
}

/// Stable insertion sort by onset.
fn sort_notes(notes: Vec<Note>) -> (r: Vec<Note>)
    ensures
        r@ == sort_stable(notes@),
{
    let mut out: Vec<Note> = Vec::new();
    let mut i: usize = 0;
    proof {
        assert(notes@.subrange(0, 0) =~= Seq::<Note>::empty());
    }
    while i < notes.len()
        invariant
            i <= notes@.len(),
            out@ == sort_stable(notes@.subrange(0, i as int)),
        decreases notes@.len() - i,
    {
        insert_note(&mut out, notes[i]);
        i = i + 1;
        proof {
            let pre = notes@.subrange(0, i - 1);
            let cur = notes@.subrange(0, i as int);
            assert(cur.drop_last() =~= pre);
            assert(cur.last() == notes@[i - 1]);
            assert(sort_stable(cur) == insert_stable(sort_stable(pre), notes@[i - 1]));
        }
    }
    proof {
        assert(notes@.subrange(0, notes@.len() as int) =~= notes@);
    }
    out
}

} // verus!
