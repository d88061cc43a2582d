//! What the daemon is configured with: the timers and the activity policy.

use crate::time::{nanos_opt, seconds, Duration};
use vstd::prelude::*;

verus! {

/// One recurring timer, as configured.
#[derive(Debug, PartialEq, Eq)]
pub struct TimerConfig {
    /// What clients call the timer.
    pub name: String,
    /// How long the timer runs before it goes off.
    pub interval: Duration,
    /// After how long a break is suggested.
    pub suggested: Option<Duration>,
    /// How long a break lasts: inactivity beyond it counts as a break taken.
    pub duration: Option<Duration>,
    /// Whether a notification is shown when the timer goes off.
    pub notify: bool,
}

/// When inactivity pauses the timers and when it resets them.
#[derive(Clone, Copy, Debug, PartialEq, Eq, Structural)]
pub struct Activity {
    /// Inactivity beyond this pauses the timers.
    pub inactivity_pause: Option<Duration>,
    /// Inactivity, or time between two heartbeats, from this on resets the timers.
    pub inactivity_reset: Option<Duration>,
}

/// The whole configuration.
#[derive(Debug, PartialEq, Eq)]
pub struct Config {
    pub activity: Option<Activity>,
    pub timers: Vec<TimerConfig>,
}

/// Why a configuration is refused.
#[derive(Clone, Copy, Debug, PartialEq, Eq, Structural)]
pub enum ConfigError {
    /// Two timers have the same name.
    DuplicateName,
}

/// No two configured timers have the same name.
pub open spec fn config_names_distinct(timers: Seq<TimerConfig>) -> bool {
    forall|i: int, j: int|
        0 <= i < j < timers.len() ==> (#[trigger] timers[i]).name@ != (#[trigger] timers[j]).name@
}

/// Whether no two configured timers have the same name.
pub fn has_distinct_names(timers: &Vec<TimerConfig>) -> (r: bool)
    ensures
        r == config_names_distinct(timers@),
{
    let mut j: usize = 0;
    while j < timers.len()
        invariant
            j <= timers.len(),
            forall|a: int, b: int|
                0 <= a < b < j ==> (#[trigger] timers[a]).name@ != (#[trigger] timers[b]).name@,
        decreases timers.len() - j,
    {
        let mut i: usize = 0;
        while i < j
            invariant
                i <= j < timers.len(),
                forall|a: int| 0 <= a < i ==> (#[trigger] timers[a]).name@ != timers[j as int].name@,
            decreases j - i,
        {
            if timers[i].name == timers[j].name {
                return false;
            }
            i += 1;
        }
        j += 1;
    }
    true
}

impl Clone for TimerConfig {
    fn clone(&self) -> (r: TimerConfig)
        ensures
            r == *self,
    {
        TimerConfig {
            name: self.name.clone(),
            interval: self.interval,
            suggested: self.suggested,
            duration: self.duration,
            notify: self.notify,
        }
    }
}

impl Clone for Config {
    fn clone(&self) -> (r: Config)
        ensures
            r.activity == self.activity,
            r.timers@ == self.timers@,
    {
        let mut timers: Vec<TimerConfig> = Vec::new();
        let mut i: usize = 0;
        while i < self.timers.len()
            invariant
                i <= self.timers@.len(),
                timers@ == self.timers@.take(i as int),
            decreases self.timers@.len() - i,
        {
            timers.push(self.timers[i].clone());
            assert(self.timers@.take(i as int + 1) =~= self.timers@.take(i as int).push(self.timers@[i as int]));
            i += 1;
        }
        assert(self.timers@.take(i as int) =~= self.timers@);
        Config { activity: self.activity, timers }
    }
}

/// Whether the timer is configured like this, with the spans in nanoseconds.
pub open spec fn timer_is(
    timer: TimerConfig,
    name: Seq<char>,
    interval: nat,
    suggested: Option<nat>,
    duration: Option<nat>,
    notify: bool,
) -> bool {
    &&& timer.name@ == name
    &&& timer.interval.as_nanos() == interval
    &&& nanos_opt(timer.suggested) == suggested
    &&& nanos_opt(timer.duration) == duration
    &&& timer.notify == notify
}

impl Default for Config {
    /// The configuration that is used where the user has written none:
    /// timers pause after ten seconds without input and are reset after
    /// five minutes without; `move` goes off every ten seconds and takes a
    /// break of a minute, `break` goes off every two hours, suggests itself
    /// after 55 minutes and takes a break of ten minutes.
    fn default() -> (config: Config)
        ensures
            config.activity matches Some(activity) && nanos_opt(activity.inactivity_pause) == Some(seconds(10))
                && nanos_opt(activity.inactivity_reset) == Some(seconds(300)),
            config.timers@.len() == 2,
            timer_is(config.timers@[0], "move"@, seconds(10), None, Some(seconds(60)), true),
            timer_is(config.timers@[1], "break"@, seconds(7200), Some(seconds(3300)), Some(seconds(600)), true),
            config_names_distinct(config.timers@),
    {
        let mut timers: Vec<TimerConfig> = Vec::new();
        timers.push(
            TimerConfig {
                name: "move".to_owned(),
                interval: Duration::from_secs(10),
                suggested: None,
                duration: Some(Duration::from_secs(60)),
                notify: true,
            },
        );
        timers.push(
            TimerConfig {
                name: "break".to_owned(),
                interval: Duration::from_secs(2 * 60 * 60),
                suggested: Some(Duration::from_secs(55 * 60)),
                duration: Some(Duration::from_secs(10 * 60)),
                notify: true,
            },
        );
        proof {
            reveal_strlit("move");
            reveal_strlit("break");
            assert("move"@.len() != "break"@.len());
        }
        Config {
            activity: Some(
                Activity {
                    inactivity_pause: Some(Duration::from_secs(10)),
                    inactivity_reset: Some(Duration::from_secs(5 * 60)),
                },
            ),
            timers,
        }
    }
}

} // verus!
