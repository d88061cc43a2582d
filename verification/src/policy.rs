//! The inactivity policy: what one heartbeat does to the timers, decided
//! from the time since the last heartbeat and the time since the last input.

use crate::config::Activity;
use crate::time::{nanos_opt, Duration};
use vstd::prelude::*;

verus! {

/// The thresholds of the policy, in nanoseconds. An unset threshold never
/// triggers.
pub struct Policy {
    pub pause: Option<nat>,
    pub reset: Option<nat>,
}

/// What one heartbeat observes, in nanoseconds: the time since the previous
/// heartbeat and, where an activity source reports it, the time since the
/// last input.
pub struct Tick {
    pub delta: nat,
    pub inactivity: Option<nat>,
}

/// What a heartbeat does to the timers that no break of their own resets.
#[derive(Clone, Copy, Debug, PartialEq, Eq, Structural)]
pub enum Decision {
    /// Every timer goes back to zero.
    Reset,
    /// The timers keep their clocks.
    Pause,
    /// The timers run on by the time since the last heartbeat.
    Advance,
}

impl Policy {
    /// Every timer is reset: the user, or the machine itself, was away for
    /// at least the reset threshold.
    pub open spec fn resets(self, tick: Tick) -> bool {
        match self.reset {
            Some(r) => tick.delta >= r || match tick.inactivity {
                Some(i) => i >= r,
                None => false,
            },
            None => false,
        }
    }

    /// The timers stand still: the user has been away for longer than the
    /// pause threshold.
    pub open spec fn pauses(self, tick: Tick) -> bool {
        match (self.pause, tick.inactivity) {
            (Some(p), Some(i)) => i > p,
            _ => false,
        }
    }

    /// The decision for one heartbeat. A reset goes before a pause.
    pub open spec fn decide(self, tick: Tick) -> Decision {
        if self.resets(tick) {
            Decision::Reset
        } else if self.pauses(tick) {
            Decision::Pause
        } else {
            Decision::Advance
        }
    }
}

/// The policy that a configuration asks for.
pub open spec fn policy_of(activity: Option<Activity>) -> Policy {
    match activity {
        Some(a) => Policy { pause: nanos_opt(a.inactivity_pause), reset: nanos_opt(a.inactivity_reset) },
        None => Policy { pause: None, reset: None },
    }
}

/// The observation of one heartbeat.
pub open spec fn tick_of(delta: Duration, inactivity: Option<Duration>) -> Tick {
    Tick { delta: delta.as_nanos(), inactivity: nanos_opt(inactivity) }
}

/// Decides what this heartbeat does to the timers.
pub fn decide(activity: &Option<Activity>, delta: &Duration, inactivity: &Option<Duration>) -> (d: Decision)
    ensures
        d == policy_of(*activity).decide(tick_of(*delta, *inactivity)),
{
    match activity {
        None => Decision::Advance,
        Some(a) => {
            let resets = match &a.inactivity_reset {
                Some(threshold) => delta.ge(threshold) || match inactivity {
                    Some(i) => i.ge(threshold),
                    None => false,
                },
                None => false,
            };
            let pauses = match (&a.inactivity_pause, inactivity) {
                (Some(threshold), Some(i)) => i.gt(threshold),
                _ => false,
            };
            if resets {
                Decision::Reset
            } else if pauses {
                Decision::Pause
            } else {
                Decision::Advance
            }
        },
    }
}

} // verus!
