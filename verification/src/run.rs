//! The timing decisions of an application's main loop: numbering frames and measuring them, and running
//! simulation update steps of a fixed target duration to catch up on the time that the frames took.
//!
//! The loop itself, which talks to the window, the graphics device and the application, stands outside this
//! library; it asks these types what to do and tells them what happened.
use vstd::prelude::*;

use crate::time::{elapsed_between, fits_i128, Offset, Stopwatch};

verus! {

/// Frame information.
#[derive(Copy, Clone, Debug)]
pub struct Frame {
    /// Frame number.
    pub frame: u64,
    /// Time elapsed since the previous frame: from the previous frame start to the current frame start. It is zero
    /// for the first frame.
    pub duration: Offset,
}

/// Simulation update step information.
#[derive(Copy, Clone, Debug)]
pub struct Step {
    /// Update number.
    pub update: u64,
    /// How much time an update step simulates: a fixed amount of time, for determinism of update steps.
    pub target_duration: Offset,
}

/// What a frame took.
#[derive(Copy, Clone, Debug)]
pub struct FrameEnd {
    /// Duration of the frame: from the frame start to the frame end.
    pub duration: Offset,
}

impl Default for FrameEnd {
    /// A frame end of zero duration, to start the first frame with.
    fn default() -> (r: Self)
        ensures
            r.duration@ == 0,
    {
        FrameEnd { duration: Offset::zero() }
    }
}

/// What a simulation update step took.
#[derive(Copy, Clone, Debug)]
pub struct StepEnd {
    /// Duration of the step: from the step start to the step end.
    pub duration: Offset,
}

/// Numbers the frames and measures each of them.
#[derive(Debug)]
pub struct Frames {
    stopwatch: Stopwatch,
    frame: u64,
}

impl Frames {
    /// The number of the current frame: how many frames ended before it.
    pub closed spec fn frame_number(&self) -> nat {
        self.frame as nat
    }

    /// The reading of the monotonic clock at which the current frame started.
    pub closed spec fn frame_start(&self) -> std::time::Instant {
        self.stopwatch.start()
    }
}

impl Default for Frames {
    /// Frames counted from zero, the first one starting now.
    fn default() -> (r: Self)
        ensures
            r.frame_number() == 0,
    {
        Frames { stopwatch: Stopwatch::default(), frame: 0 }
    }
}

impl Frames {
    /// Starts the current frame now, and returns its number together with the duration of the previous frame.
    pub fn start(&mut self, previous_frame_end: FrameEnd) -> (r: Frame)
        ensures
            r.frame == old(self).frame_number(),
            r.duration == previous_frame_end.duration,
            final(self).frame_number() == old(self).frame_number(),
    {
        let duration = previous_frame_end.duration;
        self.stopwatch.reset();
        Frame { frame: self.frame, duration }
    }

    /// Ends the current frame: returns the time elapsed since it started, and moves on to the next frame.
    pub fn end(&mut self) -> (r: FrameEnd)
        requires
            old(self).frame_number() < u64::MAX,
        ensures
            exists|now: std::time::Instant| r.duration@ == elapsed_between(now, old(self).frame_start()),
            r.duration@ >= 0,
            final(self).frame_number() == old(self).frame_number() + 1,
            final(self).frame_start() == old(self).frame_start(),
    {
        let duration = self.stopwatch.elapsed();
        proof {
            let now = choose|now: std::time::Instant| duration@ == elapsed_between(now, self.stopwatch.start());
            assert(duration@ == elapsed_between(now, self.frame_start()));
        }
        self.frame = self.frame + 1;
        FrameEnd { duration }
    }
}

/// Fixed-duration simulation update steps: the time that frames took accumulates as lag, and each step catches up
/// on the target duration of lag.
#[derive(Debug)]
pub struct Updates {
    stopwatch: Stopwatch,
    target_duration: Offset,
    accumulated_lag: Offset,
    update: u64,
}

/// How many steps of `target` catch up on a lag of `lag`: steps are taken while the lag is at least `target`.
pub open spec fn steps_to_catch_up(lag: int, target: int) -> nat
    decreases lag,
{
    if target <= 0 || lag < target {
        0
    } else {
        1 + steps_to_catch_up(lag - target, target)
    }
}

/// Stepping catches up: with a positive target duration, taking a step while the lag is at least the target, and
/// stopping once it is not, takes [`steps_to_catch_up`] steps, before each of which the lag was at least the
/// target, and leaves a lag below the target, which is not negative when the lag was not.
pub proof fn lemma_steps_catch_up(lag: int, target: int)
    requires
        target > 0,
    ensures
        ({
            let n = steps_to_catch_up(lag, target);
            &&& forall|i: int| 0 <= i < n ==> #[trigger] (lag - i * target) >= target
            &&& lag - n * target < target
            &&& lag >= 0 ==> lag - n * target >= 0
        }),
    decreases lag,
{
    if lag >= target {
        lemma_steps_catch_up(lag - target, target);
        let m = steps_to_catch_up(lag - target, target);
        assert forall|i: int| 0 <= i < m + 1 implies #[trigger] (lag - i * target) >= target by {
            if i > 0 {
                assert((lag - target) - (i - 1) * target == lag - i * target) by (nonlinear_arith);
                assert((lag - target) - (i - 1) * target >= target);
            } else {
                assert(lag - 0 * target == lag) by (nonlinear_arith);
            }
        }
        assert((lag - target) - m * target == lag - (m + 1) * target) by (nonlinear_arith);
    } else {
        assert(lag - 0 * target == lag) by (nonlinear_arith);
    }
}

impl Updates {
    /// The accumulated lag, in nanoseconds.
    pub closed spec fn lag(&self) -> int {
        self.accumulated_lag@
    }

    /// The target duration of a step, in nanoseconds.
    pub closed spec fn target(&self) -> int {
        self.target_duration@
    }

    /// The number of the next step: how many steps ended so far.
    pub closed spec fn update_number(&self) -> nat {
        self.update as nat
    }

    /// The reading of the monotonic clock at which the current step started.
    pub closed spec fn step_start(&self) -> std::time::Instant {
        self.stopwatch.start()
    }

    /// Steps of `target_duration`, without lag, numbered from zero.
    pub fn new(target_duration: Offset) -> (r: Self)
        ensures
            r.target() == target_duration@,
            r.lag() == 0,
            r.update_number() == 0,
    {
        Updates { stopwatch: Stopwatch::default(), target_duration, accumulated_lag: Offset::default(), update: 0 }
    }

    /// The target duration: how much time a single update step simulates. It is fixed, for determinism of the
    /// steps.
    pub fn target_duration(&self) -> (r: Offset)
        ensures
            r@ == self.target(),
    {
        self.target_duration
    }

    /// The accumulated lag: how much time the simulation lags behind the current frame. After as many steps as
    /// [`Updates::should_step`] asks for, it is below the target duration.
    pub fn accumulated_lag(&self) -> (r: Offset)
        ensures
            r@ == self.lag(),
    {
        self.accumulated_lag
    }

    /// Whether a step should be taken: when the accumulated lag equals or exceeds the target duration.
    pub fn should_step(&self) -> (r: bool)
        ensures
            r == (self.lag() >= self.target()),
    {
        self.accumulated_lag.into_nanoseconds() >= self.target_duration.into_nanoseconds()
    }

    /// Accumulates a lag of `duration`, and returns the accumulated lag.
    pub fn accumulate_lag(&mut self, duration: Offset) -> (r: Offset)
        requires
            fits_i128(old(self).lag() + duration@),
        ensures
            final(self).lag() == old(self).lag() + duration@,
            r@ == final(self).lag(),
            final(self).target() == old(self).target(),
            final(self).update_number() == old(self).update_number(),
            final(self).step_start() == old(self).step_start(),
    {
        self.accumulated_lag.add_assign(duration);
        self.accumulated_lag
    }

    /// Starts a step now, and returns its number and target duration.
    pub fn start_step(&mut self) -> (r: Step)
        ensures
            r.update == old(self).update_number(),
            r.target_duration@ == old(self).target(),
            final(self).lag() == old(self).lag(),
            final(self).target() == old(self).target(),
            final(self).update_number() == old(self).update_number(),
    {
        self.stopwatch.reset();
        Step { update: self.update, target_duration: self.target_duration }
    }

    /// Ends the step: catches up on a target duration of lag, returns the time elapsed since the step started, and
    /// moves on to the next step.
    pub fn end_step(&mut self) -> (r: StepEnd)
        requires
            fits_i128(old(self).lag() - old(self).target()),
            old(self).update_number() < u64::MAX,
        ensures
            final(self).lag() == old(self).lag() - old(self).target(),
            final(self).target() == old(self).target(),
            final(self).update_number() == old(self).update_number() + 1,
            final(self).step_start() == old(self).step_start(),
            exists|now: std::time::Instant| r.duration@ == elapsed_between(now, old(self).step_start()),
            r.duration@ >= 0,
    {
        self.accumulated_lag.sub_assign(self.target_duration);
        let duration = self.stopwatch.elapsed();
        proof {
            let now = choose|now: std::time::Instant| duration@ == elapsed_between(now, self.stopwatch.start());
            assert(self.step_start() == old(self).step_start());
            assert(duration@ == elapsed_between(now, old(self).step_start()));
        }
        self.update = self.update + 1;
        StepEnd { duration }
    }
}

/// Stepping catches up in closed form: with a positive target duration and a lag that is not negative, the steps
/// taken are the lag divided by the target, and the lag left is the lag modulo the target.
pub proof fn lemma_steps_closed_form(lag: int, target: int)
    requires
        target > 0,
        lag >= 0,
    ensures
        steps_to_catch_up(lag, target) == lag / target,
        lag - steps_to_catch_up(lag, target) * target == lag % target,
{
    lemma_steps_catch_up(lag, target);
    let n = steps_to_catch_up(lag, target) as int;
    let r = lag - n * target;
    assert(lag == n * target + r);
    vstd::arithmetic::div_mod::lemma_fundamental_div_mod_converse(lag, target, n, r);
}

/// Stepping never catches up without a positive target duration: when the lag reaches a target duration that is
/// not positive, it still reaches it after a step, so [`Updates::should_step`] keeps asking for steps.
pub proof fn lemma_nonpositive_target_keeps_stepping(lag: int, target: int)
    requires
        target <= 0,
        lag >= target,
    ensures
        lag - target >= target,
{
}

/// The state `after` follows the state `before` by one step that was started and ended: the lag lost one target
/// duration, the target duration stayed, and the step number went up by one.
pub open spec fn one_step_taken(before: Updates, after: Updates) -> bool {
    &&& after.lag() == before.lag() - before.target()
    &&& after.target() == before.target()
    &&& after.update_number() == before.update_number() + 1
}

/// Steps add up: along states of which each follows the one before by one started and ended step, the `i`-th
/// state has lost `i` target durations of lag, has the step number `i` higher, and has the same target duration as
/// the first.
pub proof fn lemma_steps_add_up(states: Seq<Updates>)
    requires
        states.len() >= 1,
        forall|i: int| 0 <= i < states.len() - 1 ==> #[trigger] one_step_taken(states[i], states[i + 1]),
    ensures
        forall|i: int|
            0 <= i < states.len() ==> {
                &&& #[trigger] states[i].lag() == states[0].lag() - i * states[0].target()
                &&& states[i].update_number() == states[0].update_number() + i
                &&& states[i].target() == states[0].target()
            },
    decreases states.len(),
{
    if states.len() > 1 {
        let front = states.drop_last();
        assert forall|i: int| 0 <= i < front.len() - 1 implies #[trigger] one_step_taken(front[i], front[i + 1]) by {
            assert(one_step_taken(states[i], states[i + 1]));
        }
        lemma_steps_add_up(front);
        assert forall|i: int| 0 <= i < states.len() implies {
            &&& #[trigger] states[i].lag() == states[0].lag() - i * states[0].target()
            &&& states[i].update_number() == states[0].update_number() + i
            &&& states[i].target() == states[0].target()
        } by {
            if i < states.len() - 1 {
                assert(front[i] == states[i]);
            } else {
                let p = i - 1;
                assert(front[p] == states[p]);
                assert(one_step_taken(states[p], states[p + 1]));
                assert(states[0].lag() - p * states[0].target() - states[0].target() == states[0].lag() - i
                    * states[0].target()) by (nonlinear_arith)
                    requires
                        i == p + 1,
                ;
            }
        }
    }
}

/// The target duration is fixed: along states of which each keeps the target duration of the one before, as
/// every operation on the steps does, every state has the target duration of the first.
pub proof fn lemma_target_duration_fixed(states: Seq<Updates>)
    requires
        states.len() >= 1,
        forall|i: int| 0 <= i < states.len() - 1 ==> #[trigger] states[i + 1].target() == states[i].target(),
    ensures
        forall|i: int| 0 <= i < states.len() ==> #[trigger] states[i].target() == states[0].target(),
    decreases states.len(),
{
    if states.len() > 1 {
        let front = states.drop_last();
        assert forall|i: int| 0 <= i < front.len() - 1 implies #[trigger] front[i + 1].target() == front[i].target() by {
            assert(states[i + 1].target() == states[i].target());
        }
        lemma_target_duration_fixed(front);
        assert forall|i: int| 0 <= i < states.len() implies #[trigger] states[i].target() == states[0].target() by {
            if i < states.len() - 1 {
                assert(front[i] == states[i]);
            } else {
                assert(front[i - 1] == states[i - 1]);
                assert(states[i - 1 + 1].target() == states[i - 1].target());
            }
        }
    }
}

/// Whether the window was resized since the surface was last recreated, and whether it is minimized.
#[derive(Copy, Clone, Debug)]
pub struct ResizeState {
    /// The window's size changed, or the surface went out of date, since the surface was last recreated.
    pub resized: bool,
    /// The window's size is zero.
    pub minimized: bool,
}

impl ResizeState {
    /// A window that was neither resized nor minimized.
    pub fn new() -> (r: Self)
        ensures
            !r.resized,
            !r.minimized,
    {
        ResizeState { resized: false, minimized: false }
    }

    /// Notes that the window's size changed; a size of zero means that the window is minimized.
    pub fn size_changed(&mut self, size_is_zero: bool)
        ensures
            final(self).resized,
            final(self).minimized == size_is_zero,
    {
        self.minimized = size_is_zero;
        self.resized = true;
    }

    /// Notes that the surface went out of date or became suboptimal, so that it is recreated.
    pub fn surface_outdated(&mut self)
        ensures
            final(self).resized,
            final(self).minimized == old(self).minimized,
    {
        self.resized = true;
    }

    /// Whether to recreate the surface now: when the window was resized and is not minimized. The resize is
    /// handled either way.
    pub fn take_resize(&mut self) -> (r: bool)
        ensures
            r == (old(self).resized && !old(self).minimized),
            !final(self).resized,
            final(self).minimized == old(self).minimized,
    {
        let r = self.resized && !self.minimized;
        self.resized = false;
        r
    }
}

} // verus!
