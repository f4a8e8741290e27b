//! The playback scheduler: which frame is shown, how long to wait for
//! input, and when playback ends.
//!
//! The scheduler does no I/O. Its owner draws the current frame, waits for
//! an input event for at most [`Scheduler::time_left`], and reports what
//! came and what time it is to [`Scheduler::step`]. Times are microseconds
//! read from any clock that does not run backwards.

use vstd::prelude::*;
use crate::store::FrameStore;

verus! {

/// The key that ends playback.
pub const QUIT_KEY: char = 'q';

/// The time each frame is shown, in microseconds: 96 ms, a little over ten
/// frames a second.
pub const FRAME_INTERVAL_MICROS: u64 = 96_000;

/// What the wait for input brought.
#[derive(Clone, Copy, Debug, PartialEq, Eq, Structural)]
pub enum InputEvent {
    /// The wait ran out with no event.
    Idle,
    /// A key with a character code.
    Key(char),
    /// Any other event.
    Other,
}

/// The two states of playback.
#[derive(Clone, Copy, Debug, PartialEq, Eq, Structural)]
pub enum Phase {
    Running,
    Terminated,
}

/// An event together with the time at which the scheduler learns of it.
pub struct Tick {
    pub event: InputEvent,
    pub now: nat,
}

/// The scheduler as a mathematical state machine.
pub struct PlaybackModel {
    pub frame_count: nat,
    pub interval: nat,
    pub frame_index: nat,
    pub last_advance: nat,
    pub phase: Phase,
}

impl PlaybackModel {
    /// The current frame exists.
    pub open spec fn wf(self) -> bool {
        self.frame_index < self.frame_count
    }

    /// The state in which playback begins at time `now`.
    pub open spec fn start(frame_count: nat, interval: nat, now: nat) -> PlaybackModel {
        PlaybackModel {
            frame_count,
            interval,
            frame_index: 0,
            last_advance: now,
            phase: Phase::Running,
        }
    }

    /// Time since the current frame came up; zero for a time before that.
    pub open spec fn elapsed(self, now: nat) -> nat {
        if now >= self.last_advance {
            (now - self.last_advance) as nat
        } else {
            0
        }
    }

    /// Whether the current frame has been up for the whole interval.
    pub open spec fn due(self, now: nat) -> bool {
        self.elapsed(now) >= self.interval
    }

    /// How long the wait for input may last: what is left of the interval.
    pub open spec fn time_left(self, now: nat) -> nat {
        if self.due(now) {
            0
        } else {
            (self.interval - self.elapsed(now)) as nat
        }
    }

    /// The state after one round: the quit key ends playback; otherwise the
    /// next frame comes up, wrapping round, once the interval is over,
    /// whether or not an event came.
    pub open spec fn step(self, event: InputEvent, now: nat) -> PlaybackModel {
        if self.phase == Phase::Terminated {
            self
        } else if event == InputEvent::Key(QUIT_KEY) {
            PlaybackModel { phase: Phase::Terminated, ..self }
        } else if self.due(now) {
            PlaybackModel {
                frame_index: (self.frame_index + 1) % self.frame_count,
                last_advance: now,
                ..self
            }
        } else {
            self
        }
    }

    /// The state after a sequence of rounds.
    pub open spec fn run(self, ticks: Seq<Tick>) -> PlaybackModel
        decreases ticks.len(),
    {
        if ticks.len() == 0 {
            self
        } else {
            self.run(ticks.drop_last()).step(ticks.last().event, ticks.last().now)
        }
    }
}

/// Whether each of `ticks` comes without the quit key and a full interval
/// or more after the one before it, the first one after `last_advance`.
pub open spec fn steady(last_advance: nat, interval: nat, ticks: Seq<Tick>) -> bool {
    &&& forall|i: int|
        0 <= i < ticks.len() ==> (#[trigger] ticks[i]).event != InputEvent::Key(QUIT_KEY)
    &&& ticks.len() > 0 ==> ticks[0].now >= last_advance + interval
    &&& forall|i: int, j: int|
        0 <= i && j == i + 1 && j < ticks.len() ==> (#[trigger] ticks[j]).now >= (
        #[trigger] ticks[i]).now + interval
}

/// A round keeps the frame index inside the store.
pub proof fn lemma_step_keeps_wf(s: PlaybackModel, event: InputEvent, now: nat)
    requires
        s.wf(),
    ensures
        s.step(event, now).wf(),
        s.step(event, now).frame_count == s.frame_count,
        s.step(event, now).interval == s.interval,
{
    if s.frame_count > 0 {
        assert((s.frame_index + 1) % s.frame_count < s.frame_count) by (nonlinear_arith)
            requires
                s.frame_count > 0,
        ;
    }
}

/// Once the interval is over and the quit key has not come, the next frame
/// comes up and the interval starts again.
pub proof fn lemma_advances_when_due(s: PlaybackModel, event: InputEvent, now: nat)
    requires
        s.wf(),
        s.phase == Phase::Running,
        event != InputEvent::Key(QUIT_KEY),
        s.due(now),
    ensures
        s.step(event, now).phase == Phase::Running,
        s.step(event, now).last_advance == now,
        s.step(event, now).frame_index == (if s.frame_index + 1 == s.frame_count {
            0
        } else {
            s.frame_index + 1
        }),
{
    if s.frame_index + 1 == s.frame_count {
        assert((s.frame_index + 1) % s.frame_count == 0) by (nonlinear_arith)
            requires
                s.frame_index + 1 == s.frame_count,
                s.frame_count > 0,
        ;
    } else {
        assert((s.frame_index + 1) % s.frame_count == s.frame_index + 1) by (nonlinear_arith)
            requires
                s.frame_index + 1 < s.frame_count,
        ;
    }
}

/// The wait for input never outlasts the interval, and on a clock that has
/// not run backwards the frame is due when the whole wait has passed: no
/// stream of events can put off the next frame.
pub proof fn lemma_wait_ends_when_due(s: PlaybackModel, now: nat)
    requires
        now >= s.last_advance,
    ensures
        s.time_left(now) <= s.interval,
        s.time_left(now) == 0 <==> s.due(now),
        s.due(now + s.time_left(now)),
{
}

/// Before the interval is over, a round without the quit key changes
/// nothing.
pub proof fn lemma_holds_until_due(s: PlaybackModel, event: InputEvent, now: nat)
    requires
        event != InputEvent::Key(QUIT_KEY),
        !s.due(now),
    ensures
        s.step(event, now) == s,
{
}

/// The quit key ends playback at once, however much of the interval has
/// passed, and the frame index stays where it was.
pub proof fn lemma_quit_terminates(s: PlaybackModel, now: nat)
    ensures
        s.step(InputEvent::Key(QUIT_KEY), now).phase == Phase::Terminated,
        s.step(InputEvent::Key(QUIT_KEY), now).frame_index == s.frame_index,
        s.step(InputEvent::Key(QUIT_KEY), now).last_advance == s.last_advance,
{
}

/// Playback ends by the quit key and by nothing else.
pub proof fn lemma_terminates_only_by_quit(s: PlaybackModel, event: InputEvent, now: nat)
    requires
        s.phase == Phase::Running,
    ensures
        s.step(event, now).phase == Phase::Terminated <==> event == InputEvent::Key(QUIT_KEY),
{
}

/// Nothing follows the end of playback: every further round leaves the
/// state as it is.
pub proof fn lemma_terminated_is_final(s: PlaybackModel, ticks: Seq<Tick>)
    requires
        s.phase == Phase::Terminated,
    ensures
        s.run(ticks) == s,
    decreases ticks.len(),
{
    if ticks.len() > 0 {
        lemma_terminated_is_final(s, ticks.drop_last());
    }
}

/// Steady playback shows the frames in turn: after `n` rounds, each a full
/// interval after the one before, the index has moved on by `n`, wrapping
/// round at the end of the store.
pub proof fn lemma_steady_playback(s: PlaybackModel, ticks: Seq<Tick>)
    requires
        s.wf(),
        s.phase == Phase::Running,
        steady(s.last_advance, s.interval, ticks),
    ensures
        s.run(ticks).phase == Phase::Running,
        s.run(ticks).frame_count == s.frame_count,
        s.run(ticks).interval == s.interval,
        s.run(ticks).frame_index == (s.frame_index + ticks.len()) % s.frame_count,
        s.run(ticks).last_advance == (if ticks.len() == 0 {
            s.last_advance
        } else {
            ticks.last().now
        }),
    decreases ticks.len(),
{
    let n = s.frame_count as int;
    if ticks.len() == 0 {
        assert(s.frame_index as int % n == s.frame_index) by (nonlinear_arith)
            requires
                0 <= s.frame_index < n,
        ;
    } else {
        let before = ticks.drop_last();
        let last = ticks.last();
        assert(steady(s.last_advance, s.interval, before)) by {
            assert forall|i: int| 0 <= i < before.len() implies before[i] == ticks[i] by {}
        }
        lemma_steady_playback(s, before);
        let mid = s.run(before);
        assert(mid.due(last.now)) by {
            if before.len() > 0 {
                assert(before.last() == ticks[ticks.len() - 2]);
                assert(last == ticks[ticks.len() - 1]);
            }
        }
        assert(last.event != InputEvent::Key(QUIT_KEY));
        let a = s.frame_index as int + before.len() as int;
        lemma_mod_successor(a, n);
    }
}

/// Adding one before or after reducing modulo `n` comes to the same.
proof fn lemma_mod_successor(a: int, n: int)
    by (nonlinear_arith)
    requires
        a >= 0,
        n > 0,
    ensures
        ((a % n) + 1) % n == (a + 1) % n,
{
}

/// As many steady rounds as the store has frames bring back the frame that
/// was up before them: from frame 0 the index runs through the store and
/// wraps round to frame 0.
pub proof fn lemma_cycle_wraps(s: PlaybackModel, ticks: Seq<Tick>)
    requires
        s.wf(),
        s.phase == Phase::Running,
        steady(s.last_advance, s.interval, ticks),
        ticks.len() == s.frame_count,
    ensures
        s.run(ticks).frame_index == s.frame_index,
        s.run(ticks).phase == Phase::Running,
{
    lemma_steady_playback(s, ticks);
    let n = s.frame_count as int;
    let i = s.frame_index as int;
    assert((i + n) % n == i) by (nonlinear_arith)
        requires
            0 <= i < n,
    ;
}

/// The scheduler: frame count and interval, fixed when playback starts, and
/// the playback state that [`Scheduler::step`] moves on.
pub struct Scheduler {
    frame_count: usize,
    interval: u64,
    frame_index: usize,
    last_advance: u64,
    phase: Phase,
}

impl View for Scheduler {
    type V = PlaybackModel;

    closed spec fn view(&self) -> PlaybackModel {
        PlaybackModel {
            frame_count: self.frame_count as nat,
            interval: self.interval as nat,
            frame_index: self.frame_index as nat,
            last_advance: self.last_advance as nat,
            phase: self.phase,
        }
    }
}

impl Scheduler {
    #[verifier::type_invariant]
    spec fn inv(self) -> bool {
        self.frame_index < self.frame_count
    }

    /// Starts playback of `frame_count` frames at time `now`, each shown for
    /// `interval`. There is nothing to play in an empty store: `None`.
    pub fn new(frame_count: usize, interval: u64, now: u64) -> (out: Option<Scheduler>)
        ensures
            out.is_some() <==> frame_count > 0,
            out matches Some(s) ==> s@ == PlaybackModel::start(
                frame_count as nat,
                interval as nat,
                now as nat,
            ),
    {
        if frame_count == 0 {
            None
        } else {
            Some(
                Scheduler {
                    frame_count,
                    interval,
                    frame_index: 0,
                    last_advance: now,
                    phase: Phase::Running,
                },
            )
        }
    }

    /// Starts playback of the frames of `store` at time `now`, each shown
    /// for `interval`.
    pub fn for_store(store: &FrameStore, interval: u64, now: u64) -> (out: Scheduler)
        ensures
            out@ == PlaybackModel::start(store@.len(), interval as nat, now as nat),
            out@.wf(),
    {
        Scheduler {
            frame_count: store.len(),
            interval,
            frame_index: 0,
            last_advance: now,
            phase: Phase::Running,
        }
    }

    /// The index of the frame to show; always a frame of the store.
    pub fn frame_index(&self) -> (index: usize)
        ensures
            index == self@.frame_index,
            self@.wf(),
    {
        proof {
            use_type_invariant(self);
        }
        self.frame_index
    }

    /// Number of frames that are played.
    pub fn frame_count(&self) -> (count: usize)
        ensures
            count == self@.frame_count,
    {
        self.frame_count
    }

    /// Whether playback goes on or has ended.
    pub fn phase(&self) -> (phase: Phase)
        ensures
            phase == self@.phase,
    {
        self.phase
    }

    /// How long the wait for input may last at time `now`: the rest of the
    /// interval, zero once it is over.
    pub fn time_left(&self, now: u64) -> (left: u64)
        ensures
            left == self@.time_left(now as nat),
            left <= self@.interval,
    {
        let elapsed: u64 = now.saturating_sub(self.last_advance);
        self.interval.saturating_sub(elapsed)
    }

    /// One round: takes what the wait for input brought and the time after
    /// the wait, and moves the state on. Returns the phase after the round.
    pub fn step(&mut self, event: InputEvent, now: u64) -> (phase: Phase)
        ensures
            final(self)@ == old(self)@.step(event, now as nat),
            phase == final(self)@.phase,
    {
        proof {
            use_type_invariant(&*self);
        }
        let quit: bool = match event {
            InputEvent::Key(key) => key == QUIT_KEY,
            _ => false,
        };
        match self.phase {
            Phase::Terminated => {},
            Phase::Running => {
                if quit {
                    self.phase = Phase::Terminated;
                } else if now.saturating_sub(self.last_advance) >= self.interval {
                    let next: usize = (self.frame_index + 1) % self.frame_count;
                    self.frame_index = next;
                    self.last_advance = now;
                }
            },
        }
        self.phase
    }
}

} // verus!
