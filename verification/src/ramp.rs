//! The ramp: a fixed number of frames, each one step nearer to the target.
//!
//! A ramp is planned once, from where the brightness stands, where it is to
//! go and how many frames there are to get there, and is not changed while it
//! runs. The step is the distance divided by the number of frames, fractions
//! dropped, so a ramp covers the whole distance only where the number of
//! frames divides it; otherwise it ends short of the target by the remainder
//! of that division.
use vstd::prelude::*;
use vstd::arithmetic::div_mod::{lemma_div_nonincreasing, lemma_fundamental_div_mod, lemma_mod_pos_bound};
use vstd::arithmetic::mul::{lemma_mul_inequality, lemma_mul_upper_bound};
use crate::brightness::Brightness;
use crate::decimal::decimal_text;
use crate::error::DimmerError;

verus! {

/// How long to wait after each frame, in milliseconds. The wait does not
/// depend on the frame rate, which only sets the number of frames.
pub const FRAME_PAUSE_MILLIS: u64 = 1000 / 60;

/// Which way a ramp goes.
#[derive(Debug, Clone, Copy, PartialEq, Eq, Structural)]
pub enum Direction {
    /// Toward a higher level.
    Increasing,
    /// Toward a lower level.
    Decreasing,
}

/// A ramp as it is laid out before its first frame.
#[derive(Debug, Clone, Copy, PartialEq, Eq, Structural)]
pub struct RampPlan {
    /// The level before the first frame.
    pub start: Brightness,
    /// The level that the ramp heads for.
    pub target: Brightness,
    /// By how much each frame changes the level.
    pub step_size: u64,
    /// Which way the level changes.
    pub direction: Direction,
    /// How many frames the ramp has.
    pub frame_count: u128,
}

/// The number of frames of a ramp of `duration_secs` seconds at `framerate`
/// frames a second.
pub open spec fn total_frames(duration_secs: u64, framerate: u64) -> nat {
    (duration_secs * framerate) as nat
}

/// How far apart two levels are.
pub open spec fn distance(from: Brightness, to: Brightness) -> nat {
    if from.0 <= to.0 {
        (to.0 - from.0) as nat
    } else {
        (from.0 - to.0) as nat
    }
}

/// The plan of the ramp from `stored` to `target`. There is none where the
/// two are the same, whatever the number of frames; between two different
/// levels a ramp needs at least one frame.
pub open spec fn planned(stored: Brightness, target: Brightness, duration_secs: u64, framerate: u64)
    -> Result<Option<RampPlan>, DimmerError> {
    let frames = total_frames(duration_secs, framerate);
    if stored == target {
        Ok(None)
    } else if frames == 0 {
        Err(DimmerError::InvalidConfiguration)
    } else {
        Ok(
            Some(
                RampPlan {
                    start: stored,
                    target,
                    step_size: (distance(stored, target) / frames) as u64,
                    direction: if stored.0 > target.0 {
                        Direction::Decreasing
                    } else {
                        Direction::Increasing
                    },
                    frame_count: frames as u128,
                },
            ),
        )
    }
}

impl RampPlan {
    /// Whether the plan is one that `RampPlan::new` lays out: it has a frame,
    /// it goes from one level toward another, and its step is the distance
    /// divided by the number of frames.
    pub open spec fn wf(&self) -> bool {
        &&& self.frame_count >= 1
        &&& self.start != self.target
        &&& self.direction == Direction::Decreasing <==> self.start.0 > self.target.0
        &&& self.step_size == distance(self.start, self.target) / (self.frame_count as nat)
    }

    /// The level that one frame makes of the level `current`.
    ///
    /// Going down, the step is taken off, and a level smaller than the step
    /// becomes zero. Going up, the step is added, and a level less than a
    /// step away from the target becomes the target.
    pub open spec fn next_level(&self, current: nat) -> nat {
        match self.direction {
            Direction::Decreasing => if current < self.step_size {
                0
            } else {
                (current - self.step_size) as nat
            },
            Direction::Increasing => if self.target@ - current < self.step_size {
                self.target@
            } else {
                (current + self.step_size) as nat
            },
        }
    }

    /// The level after the given number of frames.
    pub open spec fn level_after(&self, frames: nat) -> nat
        decreases frames,
    {
        if frames == 0 {
            self.start@
        } else {
            self.next_level(self.level_after((frames - 1) as nat))
        }
    }

    /// Lays out the ramp from `stored` to `target` over `duration_secs`
    /// seconds at `framerate` frames a second.
    pub fn new(stored: Brightness, target: Brightness, duration_secs: u64, framerate: u64) -> (plan:
        Result<Option<RampPlan>, DimmerError>)
        ensures
            plan == planned(stored, target, duration_secs, framerate),
            stored == target ==> plan == Ok::<Option<RampPlan>, DimmerError>(None),
            plan matches Ok(Some(laid_out)) ==> laid_out.wf(),
    {
        if stored.0 == target.0 {
            return Ok(None);
        }
        proof {
            lemma_mul_upper_bound(
                duration_secs as int,
                u64::MAX as int,
                framerate as int,
                u64::MAX as int,
            );
        }
        let frames: u128 = duration_secs as u128 * framerate as u128;
        if frames == 0 {
            return Err(DimmerError::InvalidConfiguration);
        }
        let decreasing: bool = stored.0 > target.0;
        let apart: u64 = if decreasing {
            stored.0 - target.0
        } else {
            target.0 - stored.0
        };
        proof {
            lemma_div_nonincreasing(apart as int, frames as int);
        }
        let step_size: u64 = (apart as u128 / frames) as u64;
        Ok(
            Some(
                RampPlan {
                    start: stored,
                    target,
                    step_size,
                    direction: if decreasing {
                        Direction::Decreasing
                    } else {
                        Direction::Increasing
                    },
                    frame_count: frames,
                },
            ),
        )
    }

    /// The ramp before its first frame.
    pub fn begin(self) -> (ramp: Ramp)
        requires
            self.wf(),
        ensures
            ramp.wf(),
            ramp == (Ramp { plan: self, current: self.start, frames_done: 0 }),
    {
        Ramp { plan: self, current: self.start, frames_done: 0 }
    }
}

/// A ramp on its way: the plan, the level last written and the number of
/// frames written so far.
#[derive(Debug, Clone, Copy, PartialEq, Eq, Structural)]
pub struct Ramp {
    /// The plan that is carried out.
    pub plan: RampPlan,
    /// The level after the frames written so far.
    pub current: Brightness,
    /// How many frames were written.
    pub frames_done: u128,
}

/// What is to be done next for a ramp.
#[derive(Debug, Clone, Copy, PartialEq, Eq, Structural)]
pub enum Step {
    /// Write `value` to the device, then wait for `pause_millis`
    /// milliseconds.
    Write { value: Brightness, pause_millis: u64 },
    /// Every frame was written.
    Finished,
}

impl Ramp {
    /// Whether the ramp is in a state that its plan leads to.
    pub open spec fn wf(&self) -> bool {
        &&& self.plan.wf()
        &&& self.frames_done <= self.plan.frame_count
        &&& self.current@ == self.plan.level_after(self.frames_done as nat)
    }

    /// What is to be done next: nothing once every frame is written, else
    /// the next level is to be written and the fixed pause to be kept.
    pub open spec fn next_step(&self) -> Step {
        if self.frames_done >= self.plan.frame_count {
            Step::Finished
        } else {
            Step::Write {
                value: Brightness(self.plan.next_level(self.current@) as u64),
                pause_millis: FRAME_PAUSE_MILLIS,
            }
        }
    }

    /// The ramp after what `next_step` asks for was done.
    pub open spec fn advanced(&self) -> Ramp {
        match self.next_step() {
            Step::Finished => *self,
            Step::Write { value, pause_millis } => Ramp {
                plan: self.plan,
                current: value,
                frames_done: (self.frames_done + 1) as u128,
            },
        }
    }

    /// Moves the ramp on by one frame and says what is to be done for it.
    pub fn next_frame(&mut self) -> (step: Step)
        requires
            old(self).wf(),
        ensures
            step == old(self).next_step(),
            *final(self) == old(self).advanced(),
            final(self).wf(),
    {
        if self.frames_done >= self.plan.frame_count {
            return Step::Finished;
        }
        proof {
            lemma_level_after_frames(self.plan, self.frames_done as nat);
            lemma_level_after_frames(self.plan, (self.frames_done + 1) as nat);
        }
        let step_size: u64 = self.plan.step_size;
        let value = match self.plan.direction {
            Direction::Decreasing => {
                if self.current.0 < step_size {
                    Brightness(0)
                } else {
                    Brightness(self.current.0 - step_size)
                }
            },
            Direction::Increasing => {
                if self.plan.target.0 - self.current.0 < step_size {
                    self.plan.target
                } else {
                    Brightness(self.current.0 + step_size)
                }
            },
        };
        self.current = value;
        self.frames_done = self.frames_done + 1;
        Step::Write { value, pause_millis: FRAME_PAUSE_MILLIS }
    }
}

/// Replaces what `sink` holds by the text that the device is to be written
/// with for `brightness`: its numeral, with no line end.
pub fn set_brightness(sink: &mut String, brightness: Brightness)
    ensures
        final(sink)@ == decimal_text(brightness@),
{
    *sink = brightness.to_text();
}

/// The steps of all frames together do not exceed the distance.
pub proof fn lemma_steps_within_distance(plan: RampPlan, frames: nat)
    requires
        plan.wf(),
        frames <= plan.frame_count,
    ensures
        frames * plan.step_size <= distance(plan.start, plan.target),
        plan.frame_count * plan.step_size + distance(plan.start, plan.target) % (
        plan.frame_count as nat) == distance(plan.start, plan.target),
{
    let apart = distance(plan.start, plan.target) as int;
    let count = plan.frame_count as int;
    let step = plan.step_size as int;
    lemma_fundamental_div_mod(apart, count);
    lemma_mod_pos_bound(apart, count);
    lemma_mul_inequality(frames as int, count, step);
}

/// Within its frames a ramp moves by whole steps and stays between its start
/// and its target: after `frames` frames the level is `frames` steps from the
/// start.
pub proof fn lemma_level_after_frames(plan: RampPlan, frames: nat)
    requires
        plan.wf(),
        frames <= plan.frame_count,
    ensures
        plan.direction == Direction::Decreasing ==> plan.level_after(frames) == plan.start@ - frames
            * plan.step_size && plan.target@ <= plan.level_after(frames) <= plan.start@,
        plan.direction == Direction::Increasing ==> plan.level_after(frames) == plan.start@ + frames
            * plan.step_size && plan.start@ <= plan.level_after(frames) <= plan.target@,
    decreases frames,
{
    lemma_steps_within_distance(plan, frames);
    let step = plan.step_size as int;
    if frames == 0 {
        assert(frames * step == 0) by (nonlinear_arith)
            requires
                frames == 0,
        ;
    } else {
        let before = (frames - 1) as nat;
        lemma_level_after_frames(plan, before);
        assert(frames * step == before * step + step) by (nonlinear_arith)
            requires
                frames == before + 1,
        ;
    }
}

/// Where a ramp ends: short of its target by what is left of the distance
/// when it is divided by the number of frames. So a ramp reaches its target
/// exactly where the number of frames divides the distance, and only there.
pub proof fn lemma_final_level(plan: RampPlan)
    requires
        plan.wf(),
    ensures
        plan.direction == Direction::Decreasing ==> plan.level_after(plan.frame_count as nat)
            == plan.target@ + distance(plan.start, plan.target) % (plan.frame_count as nat),
        plan.direction == Direction::Increasing ==> plan.level_after(plan.frame_count as nat)
            == plan.target@ - distance(plan.start, plan.target) % (plan.frame_count as nat),
        plan.level_after(plan.frame_count as nat) == plan.target@ <==> distance(
            plan.start,
            plan.target,
        ) % (plan.frame_count as nat) == 0,
{
    lemma_level_after_frames(plan, plan.frame_count as nat);
    lemma_steps_within_distance(plan, plan.frame_count as nat);
}

} // verus!
