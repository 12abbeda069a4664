//! Pause/resume bookkeeping for a frame-driven animation.
//!
//! Only the decisions live here: which simulated time an animation
//! resumes from, what the time origin becomes, and which frame-request
//! handle the host scheduler has to cancel.  The host performs the
//! actual clock reads and frame requests and hands the results (the
//! current tick `now` and freshly issued handles) back to these
//! transitions.  Times are plain ticks of the host clock; the caller
//! supplies them monotonically, as a clock does.

use vstd::prelude::*;

verus! {

use crate::VAL_LIMIT;

/// Whether the animation is paused (remembering how much simulated
/// time had elapsed) or running (remembering its time origin and the
/// pending frame-request handle).
#[derive(Clone, Copy, Debug, PartialEq, Eq, Structural)]
pub enum AnimationState {
    Pause { stopped_at: i64 },
    Running { t0: i64, handle: i32 },
}

/// The animation bookkeeping itself.
#[derive(Clone, Copy, Debug, PartialEq, Eq, Structural)]
pub struct Animation {
    pub state: AnimationState,
}

/// The pending frame request, if one is outstanding: the handle the
/// host scheduler must cancel whenever the animation leaves the
/// running state.
pub fn cancel_animation_frame(anim: &Animation) -> (handle: Option<i32>)
    ensures
        anim.state matches AnimationState::Running { t0: _, handle: h } ==> handle == Some(h),
        anim.state is Pause ==> handle is None,
{
    match anim.state {
        AnimationState::Running { t0: _, handle } => Some(handle),
        AnimationState::Pause { .. } => None,
    }
}

impl Animation {
    /// The remembered times stay inside the working range.
    pub open spec fn wf(self) -> bool {
        match self.state {
            AnimationState::Pause { stopped_at } => 0 <= stopped_at <= VAL_LIMIT,
            AnimationState::Running { t0, handle: _ } => 0 <= t0 <= VAL_LIMIT,
        }
    }

    /// A new animation: paused at simulated time zero.
    pub fn new() -> (a: Animation)
        ensures
            a.wf(),
            a.state == (AnimationState::Pause { stopped_at: 0 }),
    {
        Animation { state: AnimationState::Pause { stopped_at: 0 } }
    }

    /// Whether a resume would start the frame loop; the host requests a
    /// frame (obtaining a handle for `resume`) only when this holds.
    pub fn is_paused(&self) -> (b: bool)
        ensures
            b == (self.state is Pause),
    {
        match self.state {
            AnimationState::Pause { .. } => true,
            AnimationState::Running { .. } => false,
        }
    }

    /// Resumes a paused animation at host time `now`, adopting the
    /// frame-request handle the host just obtained; the new time origin
    /// puts the clock back where it stopped.  Running animations are
    /// left alone.
    pub fn resume(&mut self, now: i64, handle: i32)
        requires
            old(self).wf(),
            0 <= now <= VAL_LIMIT,
            old(self).state matches AnimationState::Pause { stopped_at } ==> stopped_at <= now,
        ensures
            final(self).wf(),
            old(self).state matches AnimationState::Pause { stopped_at } ==> final(self).state
                == (AnimationState::Running { t0: (now - stopped_at) as i64, handle }),
            old(self).state is Running ==> *final(self) == *old(self),
    {
        match self.state {
            AnimationState::Pause { stopped_at } => {
                self.state = AnimationState::Running { t0: now - stopped_at, handle };
            },
            AnimationState::Running { .. } => {},
        }
    }

    /// Pauses a running animation at host time `now`, remembering the
    /// elapsed simulated time and yielding the pending handle for the
    /// host to cancel.  Paused animations are left alone.
    pub fn pause(&mut self, now: i64) -> (cancel: Option<i32>)
        requires
            old(self).wf(),
            0 <= now <= VAL_LIMIT,
            old(self).state matches AnimationState::Running { t0, handle: _ } ==> t0 <= now,
        ensures
            final(self).wf(),
            old(self).state matches AnimationState::Running { t0, handle } ==> cancel == Some(
                handle,
            ) && final(self).state == (AnimationState::Pause { stopped_at: (now - t0) as i64 }),
            old(self).state is Pause ==> cancel is None && *final(self) == *old(self),
    {
        let cancel = cancel_animation_frame(self);
        match self.state {
            AnimationState::Running { t0, handle: _ } => {
                self.state = AnimationState::Pause { stopped_at: now - t0 };
            },
            AnimationState::Pause { .. } => {},
        }
        cancel
    }

    /// Returns the animation to its initial paused state, yielding the
    /// pending handle for the host to cancel if it was running.
    pub fn reset(&mut self) -> (cancel: Option<i32>)
        requires
            old(self).wf(),
        ensures
            final(self).wf(),
            final(self).state == (AnimationState::Pause { stopped_at: 0 }),
            old(self).state matches AnimationState::Running { t0: _, handle } ==> cancel == Some(
                handle,
            ),
            old(self).state is Pause ==> cancel is None,
    {
        let cancel = cancel_animation_frame(self);
        self.state = AnimationState::Pause { stopped_at: 0 };
        cancel
    }

    /// Per-tick turnover of a running animation: adopts the freshly
    /// requested handle and returns the stale one for the host to
    /// cancel, together with the time origin the tick is measured
    /// against.
    pub fn request(&mut self, handle: i32) -> (r: (i32, i64))
        requires
            old(self).wf(),
            old(self).state is Running,
        ensures
            final(self).wf(),
            old(self).state matches AnimationState::Running { t0, handle: stale } ==> r == (
                stale,
                t0,
            ) && final(self).state == (AnimationState::Running { t0, handle }),
    {
        match self.state {
            AnimationState::Running { t0, handle: stale } => {
                self.state = AnimationState::Running { t0, handle };
                (stale, t0)
            },
            AnimationState::Pause { .. } => (0, 0),
        }
    }
}

} // verus!
