//! The timers and their clocks.

use crate::config::{config_names_distinct, has_distinct_names, Activity, ConfigError, TimerConfig};
use crate::msg::{entries_view, TimerInfo};
use crate::policy::{decide, policy_of, tick_of, Decision, Policy, Tick};
use crate::text::str_eq;
use crate::time::{from_nanos, lemma_from_as_nanos, max_nanos, nanos_opt, Duration};
use vstd::prelude::*;

verus! {

/// A timer as the proofs see it: its configuration and its clock, with every
/// span in nanoseconds.
pub struct TimerModel {
    pub name: Seq<char>,
    pub interval: nat,
    pub break_duration: Option<nat>,
    pub notify: bool,
    pub clock: nat,
    pub went_off: bool,
}

impl TimerModel {
    /// The timer has gone off exactly when its clock is past its interval.
    pub open spec fn consistent(self) -> bool {
        self.went_off == (self.clock > self.interval)
    }

    /// The timer with its clock at zero, ready to go off again.
    pub open spec fn reset(self) -> TimerModel {
        TimerModel { clock: 0, went_off: false, ..self }
    }

    /// The user has been away for longer than this timer's break lasts.
    pub open spec fn break_taken(self, tick: Tick) -> bool {
        match (self.break_duration, tick.inactivity) {
            (Some(b), Some(i)) => i > b,
            _ => false,
        }
    }

    /// This heartbeat resets the timer.
    pub open spec fn is_reset_by(self, policy: Policy, tick: Tick) -> bool {
        policy.decide(tick) == Decision::Reset || self.break_taken(tick)
    }

    /// This heartbeat adds to the timer's clock.
    pub open spec fn advances(self, policy: Policy, tick: Tick) -> bool {
        !self.break_taken(tick) && policy.decide(tick) == Decision::Advance
    }

    /// The clock after the heartbeat.
    pub open spec fn clock_after(self, policy: Policy, tick: Tick) -> nat {
        if self.is_reset_by(policy, tick) {
            0
        } else if self.advances(policy, tick) {
            self.clock + tick.delta
        } else {
            self.clock
        }
    }

    /// The timer goes off at this heartbeat: its clock gets past the
    /// interval and it has not gone off since its last reset.
    pub open spec fn fires(self, policy: Policy, tick: Tick) -> bool {
        !self.is_reset_by(policy, tick) && !self.went_off && self.clock_after(policy, tick)
            > self.interval
    }

    /// The timer after the heartbeat.
    pub open spec fn step(self, policy: Policy, tick: Tick) -> TimerModel {
        if self.is_reset_by(policy, tick) {
            self.reset()
        } else {
            TimerModel {
                clock: self.clock_after(policy, tick),
                went_off: self.went_off || self.clock_after(policy, tick) > self.interval,
                ..self
            }
        }
    }
}

/// A timer that went off, and whether to tell the user.
#[derive(Debug, PartialEq, Eq)]
pub struct FiredTimer {
    pub name: String,
    pub notify: bool,
}

impl Clone for FiredTimer {
    fn clone(&self) -> (r: FiredTimer)
        ensures
            r == *self,
    {
        FiredTimer { name: self.name.clone(), notify: self.notify }
    }
}

/// A timer that went off, as the proofs see it.
pub struct FiredModel {
    pub name: Seq<char>,
    pub notify: bool,
}

impl View for FiredTimer {
    type V = FiredModel;

    open spec fn view(&self) -> FiredModel {
        FiredModel { name: self.name@, notify: self.notify }
    }
}

/// The event that a timer gives when it goes off.
pub open spec fn event_of(timer: TimerModel) -> FiredModel {
    FiredModel { name: timer.name, notify: timer.notify }
}

/// The timers after one heartbeat, each in its place.
pub open spec fn tick_all(timers: Seq<TimerModel>, policy: Policy, tick: Tick) -> Seq<TimerModel> {
    timers.map_values(|t: TimerModel| t.step(policy, tick))
}

/// The timers that go off at one heartbeat, in the order of the timers.
pub open spec fn fired_by(timers: Seq<TimerModel>, policy: Policy, tick: Tick) -> Seq<FiredModel>
    decreases timers.len(),
{
    if timers.len() == 0 {
        Seq::empty()
    } else {
        let before = fired_by(timers.drop_last(), policy, tick);
        let last = timers.last();
        if last.fires(policy, tick) {
            before.push(event_of(last))
        } else {
            before
        }
    }
}

/// No clock that the heartbeat adds to grows beyond what a `Duration` holds.
pub open spec fn tick_fits(timers: Seq<TimerModel>, policy: Policy, tick: Tick) -> bool {
    forall|i: int|
        0 <= i < timers.len() && (#[trigger] timers[i]).advances(policy, tick) ==> timers[i].clock
            + tick.delta <= max_nanos()
}

/// No two timers have the same name.
pub open spec fn names_distinct(timers: Seq<TimerModel>) -> bool {
    forall|i: int, j: int|
        0 <= i < j < timers.len() ==> (#[trigger] timers[i]).name != (#[trigger] timers[j]).name
}

/// The timers are what a registry may hold: their names differ, and each
/// has gone off exactly when its clock is past its interval.
pub open spec fn timers_wf(timers: Seq<TimerModel>) -> bool {
    &&& names_distinct(timers)
    &&& forall|i: int| 0 <= i < timers.len() ==> (#[trigger] timers[i]).consistent()
}

/// One timer with its clock.
#[derive(Debug, PartialEq, Eq)]
pub struct TimerState {
    pub config: TimerConfig,
    /// The time since the last reset that counted.
    pub clock: Duration,
    /// Whether the timer has gone off since its last reset.
    pub went_off: bool,
}

impl View for TimerState {
    type V = TimerModel;

    open spec fn view(&self) -> TimerModel {
        TimerModel {
            name: self.config.name@,
            interval: self.config.interval.as_nanos(),
            break_duration: nanos_opt(self.config.duration),
            notify: self.config.notify,
            clock: self.clock.as_nanos(),
            went_off: self.went_off,
        }
    }
}

impl Clone for TimerState {
    fn clone(&self) -> (r: TimerState)
        ensures
            r == *self,
    {
        TimerState { config: self.config.clone(), clock: self.clock, went_off: self.went_off }
    }
}

/// A timer that has just been configured: its clock is at zero.
pub open spec fn fresh_timer(config: TimerConfig) -> TimerModel {
    TimerModel {
        name: config.name@,
        interval: config.interval.as_nanos(),
        break_duration: nanos_opt(config.duration),
        notify: config.notify,
        clock: 0,
        went_off: false,
    }
}

/// Where the timer of this name stands, if there is one.
pub open spec fn position(timers: Seq<TimerModel>, name: Seq<char>) -> Option<int> {
    if exists|i: int| 0 <= i < timers.len() && (#[trigger] timers[i]).name == name {
        Some(choose|i: int| 0 <= i < timers.len() && (#[trigger] timers[i]).name == name)
    } else {
        None
    }
}

/// What a client is told of a timer.
pub open spec fn info_of(timer: TimerModel) -> TimerInfo {
    TimerInfo { elapsed: from_nanos(timer.clock), interval: from_nanos(timer.interval) }
}

/// What a client is told of the timer of this name.
pub open spec fn lookup(timers: Seq<TimerModel>, name: Seq<char>) -> Option<TimerInfo> {
    match position(timers, name) {
        Some(i) => Some(info_of(timers[i])),
        None => None,
    }
}

/// The timers after the one of this name, if any, is reset.
pub open spec fn reset_named(timers: Seq<TimerModel>, name: Seq<char>) -> Seq<TimerModel> {
    match position(timers, name) {
        Some(i) => timers.update(i, timers[i].reset()),
        None => timers,
    }
}

/// The timers after each of them is reset.
pub open spec fn reset_each(timers: Seq<TimerModel>) -> Seq<TimerModel> {
    timers.map_values(|t: TimerModel| t.reset())
}

/// What a client is told of all timers, in their order.
pub open spec fn listing(timers: Seq<TimerModel>) -> Seq<(Seq<char>, TimerInfo)> {
    timers.map_values(|t: TimerModel| (t.name, info_of(t)))
}

/// The timers as the proofs see them.
pub open spec fn models(states: Seq<TimerState>) -> Seq<TimerModel> {
    states.map_values(|t: TimerState| t@)
}

/// The timers of the daemon, in the order of the configuration. No two of
/// them have the same name, and each has gone off exactly when its clock is
/// past its interval.
#[derive(Debug, PartialEq, Eq)]
pub struct TimerRegistry {
    pub(crate) timers: Vec<TimerState>,
}

impl View for TimerRegistry {
    type V = Seq<TimerModel>;

    open spec fn view(&self) -> Seq<TimerModel> {
        models(self.states())
    }
}

impl Clone for TimerRegistry {
    fn clone(&self) -> (r: TimerRegistry)
        ensures
            r.states() == self.states(),
            r@ == self@,
    {
        proof {
            use_type_invariant(self);
        }
        let mut timers: Vec<TimerState> = Vec::new();
        let mut i: usize = 0;
        while i < self.timers.len()
            invariant
                i <= self.timers@.len(),
                timers@ == self.timers@.take(i as int),
            decreases self.timers@.len() - i,
        {
            timers.push(self.timers[i].clone());
            assert(self.timers@.take(i as int + 1) =~= self.timers@.take(i as int).push(self.timers@[i as int]));
            i += 1;
        }
        assert(self.timers@.take(i as int) =~= self.timers@);
        TimerRegistry { timers }
    }
}

impl TimerRegistry {
    /// The timers with their clocks.
    pub closed spec fn states(&self) -> Seq<TimerState> {
        self.timers@
    }

    /// The registry holds what it may hold.
    #[verifier::type_invariant]
    pub open spec fn wf(&self) -> bool {
        timers_wf(self@)
    }

    /// The two registries hold the same timers, configured alike; their
    /// clocks may differ.
    pub open spec fn same_configs(&self, other: TimerRegistry) -> bool {
        &&& self.states().len() == other.states().len()
        &&& forall|i: int|
            0 <= i < self.states().len() ==> (#[trigger] self.states()[i]).config == other.states()[i].config
    }

    /// The timers with their clocks, to look at.
    pub fn timers(&self) -> (states: &Vec<TimerState>)
        ensures
            states@ == self.states(),
            timers_wf(self@),
    {
        proof {
            use_type_invariant(self);
        }
        &self.timers
    }

    /// A registry of the configured timers, each with its clock at zero.
    /// Timers that share a name are refused.
    pub fn new(configs: &Vec<TimerConfig>) -> (r: Result<TimerRegistry, ConfigError>)
        ensures
            r is Ok <==> config_names_distinct(configs@),
            r matches Ok(registry) ==> {
                &&& registry.wf()
                &&& registry@ == configs@.map_values(|c: TimerConfig| fresh_timer(c))
                &&& registry.states().len() == configs@.len()
                &&& forall|i: int|
                    0 <= i < configs@.len() ==> (#[trigger] registry.states()[i]).config == configs@[i]
            },
            r matches Err(e) ==> e == ConfigError::DuplicateName,
    {
        if !has_distinct_names(configs) {
            return Err(ConfigError::DuplicateName);
        }
        let mut timers: Vec<TimerState> = Vec::new();
        let mut i: usize = 0;
        while i < configs.len()
            invariant
                i <= configs.len(),
                timers@.len() == i,
                forall|j: int|
                    0 <= j < i ==> {
                        &&& (#[trigger] timers@[j]).config == configs@[j]
                        &&& timers@[j]@ == fresh_timer(configs@[j])
                    },
            decreases configs.len() - i,
        {
            let state = TimerState { config: configs[i].clone(), clock: Duration::zero(), went_off: false };
            timers.push(state);
            i += 1;
        }
        assert(models(timers@) =~= configs@.map_values(|c: TimerConfig| fresh_timer(c)));
        Ok(TimerRegistry { timers })
    }

    /// One heartbeat: each timer, in its order, is reset, left alone or run
    /// on, and goes off where its clock gets past its interval. Returns the
    /// timers that went off.
    pub fn tick(
        &mut self,
        activity: &Option<Activity>,
        delta: Duration,
        inactivity: Option<Duration>,
    ) -> (fired: Vec<FiredTimer>)
        requires
            tick_fits(old(self)@, policy_of(*activity), tick_of(delta, inactivity)),
        ensures
            final(self)@ == tick_all(old(self)@, policy_of(*activity), tick_of(delta, inactivity)),
            fired@.map_values(|f: FiredTimer| f@) == fired_by(
                old(self)@,
                policy_of(*activity),
                tick_of(delta, inactivity),
            ),
            final(self).same_configs(*old(self)),
    {
        proof {
            use_type_invariant(&*self);
        }
        let ghost policy = policy_of(*activity);
        let ghost tick = tick_of(delta, inactivity);
        let decision = decide(activity, &delta, &inactivity);
        let mut fired: Vec<FiredTimer> = Vec::new();
        let mut timers: Vec<TimerState> = Vec::new();
        core::mem::swap(&mut self.timers, &mut timers);
        let ghost before = models(timers@);
        let ghost configured = timers@;
        let mut i: usize = 0;
        while i < timers.len()
            invariant
                i <= timers@.len(),
                timers@.len() == configured.len(),
                before == models(configured),
                policy == policy_of(*activity),
                tick == tick_of(delta, inactivity),
                decision == policy.decide(tick),
                tick_fits(before, policy, tick),
                forall|j: int| 0 <= j < timers@.len() ==> (#[trigger] timers@[j]).config == configured[j].config,
                forall|j: int| 0 <= j < i ==> (#[trigger] timers@[j])@ == before[j].step(policy, tick),
                forall|j: int| i <= j < timers@.len() ==> (#[trigger] timers@[j]) == configured[j],
                fired@.map_values(|f: FiredTimer| f@) == fired_by(before.take(i as int), policy, tick),
            decreases timers@.len() - i,
        {
            let ghost timer = before[i as int];
            assert(timers@[i as int]@ == timer);
            assert(before.take(i as int + 1).drop_last() =~= before.take(i as int));
            assert(before.take(i as int + 1).last() == timer);
            let break_taken = match (&timers[i].config.duration, &inactivity) {
                (Some(b), Some(away)) => away.gt(b),
                _ => false,
            };
            if decision == Decision::Reset || break_taken {
                timers[i].clock = Duration::zero();
                timers[i].went_off = false;
            } else {
                if decision == Decision::Advance {
                    assert(timer.advances(policy, tick));
                    let clock = timers[i].clock.checked_add(&delta);
                    timers[i].clock = clock.unwrap();
                }
                if !timers[i].went_off && timers[i].clock.gt(&timers[i].config.interval) {
                    timers[i].went_off = true;
                    let event = FiredTimer { name: timers[i].config.name.clone(), notify: timers[i].config.notify };
                    let ghost events = fired@.map_values(|f: FiredTimer| f@);
                    fired.push(event);
                    assert(fired@.map_values(|f: FiredTimer| f@) =~= events.push(event_of(timer)));
                }
            }
            i += 1;
        }
        assert(before.take(i as int) =~= before);
        assert(models(timers@) =~= tick_all(before, policy, tick));
        self.timers = timers;
        fired
    }

    /// Whether a heartbeat leaves every clock within what a `Duration` holds.
    pub fn fits(&self, activity: &Option<Activity>, delta: Duration, inactivity: Option<Duration>) -> (r: bool)
        ensures
            r == tick_fits(self@, policy_of(*activity), tick_of(delta, inactivity)),
    {
        let ghost policy = policy_of(*activity);
        let ghost tick = tick_of(delta, inactivity);
        if decide(activity, &delta, &inactivity) != Decision::Advance {
            return true;
        }
        let mut i: usize = 0;
        while i < self.timers.len()
            invariant
                i <= self.timers@.len(),
                self@ == models(self.timers@),
                policy == policy_of(*activity),
                tick == tick_of(delta, inactivity),
                policy.decide(tick) == Decision::Advance,
                forall|j: int|
                    0 <= j < i && (#[trigger] self@[j]).advances(policy, tick) ==> self@[j].clock + tick.delta
                        <= max_nanos(),
            decreases self.timers@.len() - i,
        {
            let break_taken = match (&self.timers[i].config.duration, &inactivity) {
                (Some(b), Some(away)) => away.gt(b),
                _ => false,
            };
            if !break_taken && self.timers[i].clock.checked_add(&delta).is_none() {
                assert(self@[i as int].advances(policy, tick));
                return false;
            }
            i += 1;
        }
        true
    }

    /// One heartbeat, where every clock stays within what a `Duration`
    /// holds; otherwise nothing happens and `None` is returned.
    pub fn checked_tick(
        &mut self,
        activity: &Option<Activity>,
        delta: Duration,
        inactivity: Option<Duration>,
    ) -> (r: Option<Vec<FiredTimer>>)
        ensures
            r is Some <==> tick_fits(old(self)@, policy_of(*activity), tick_of(delta, inactivity)),
            r is None ==> *final(self) == *old(self),
            r matches Some(fired) ==> {
                &&& final(self)@ == tick_all(old(self)@, policy_of(*activity), tick_of(delta, inactivity))
                &&& fired@.map_values(|f: FiredTimer| f@) == fired_by(
                    old(self)@,
                    policy_of(*activity),
                    tick_of(delta, inactivity),
                )
                &&& final(self).same_configs(*old(self))
            },
    {
        if self.fits(activity, delta, inactivity) {
            Some(self.tick(activity, delta, inactivity))
        } else {
            None
        }
    }

    /// Where the timer of this name stands, if there is one.
    fn find(&self, name: &str) -> (r: Option<usize>)
        ensures
            r is Some <==> position(self@, name@) is Some,
            r matches Some(i) ==> position(self@, name@) == Some(i as int) && i < self.timers@.len()
                && self.timers@[i as int].config.name@ == name@,
    {
        proof {
            use_type_invariant(self);
        }
        let mut i: usize = 0;
        while i < self.timers.len()
            invariant
                i <= self.timers@.len(),
                self.wf(),
                self@ == models(self.timers@),
                forall|j: int| 0 <= j < i ==> (#[trigger] self@[j]).name != name@,
            decreases self.timers@.len() - i,
        {
            if str_eq(self.timers[i].config.name.as_str(), name) {
                assert(self@[i as int].name == name@);
                return Some(i);
            }
            i += 1;
        }
        None
    }

    /// Sets the timer of this name back to zero. Returns whether there is
    /// such a timer.
    pub fn reset(&mut self, name: &str) -> (found: bool)
        ensures
            found == position(old(self)@, name@) is Some,
            final(self)@ == reset_named(old(self)@, name@),
            final(self).same_configs(*old(self)),
    {
        proof {
            use_type_invariant(&*self);
        }
        match self.find(name) {
            Some(i) => {
                let mut timers: Vec<TimerState> = Vec::new();
                core::mem::swap(&mut self.timers, &mut timers);
                let ghost before = models(timers@);
                timers[i].clock = Duration::zero();
                timers[i].went_off = false;
                assert(models(timers@) =~= reset_named(before, name@));
                self.timers = timers;
                true
            },
            None => false,
        }
    }

    /// Sets every timer back to zero.
    pub fn reset_all(&mut self)
        ensures
            final(self)@ == reset_each(old(self)@),
            final(self).same_configs(*old(self)),
    {
        proof {
            use_type_invariant(&*self);
        }
        let mut timers: Vec<TimerState> = Vec::new();
        core::mem::swap(&mut self.timers, &mut timers);
        let ghost configured = timers@;
        let mut i: usize = 0;
        while i < timers.len()
            invariant
                i <= timers@.len(),
                timers@.len() == configured.len(),
                forall|j: int| 0 <= j < timers@.len() ==> (#[trigger] timers@[j]).config == configured[j].config,
                forall|j: int| 0 <= j < i ==> (#[trigger] timers@[j])@ == configured[j]@.reset(),
                forall|j: int| i <= j < timers@.len() ==> (#[trigger] timers@[j]) == configured[j],
            decreases timers@.len() - i,
        {
            timers[i].clock = Duration::zero();
            timers[i].went_off = false;
            i += 1;
        }
        assert(models(timers@) =~= reset_each(models(configured)));
        self.timers = timers;
    }

    /// What a client is told of the timer at `i`.
    fn info_at(&self, i: usize) -> (info: TimerInfo)
        requires
            i < self.timers@.len(),
        ensures
            info == info_of(self@[i as int]),
            info == info_of(self.timers@[i as int]@),
    {
        let elapsed = self.timers[i].clock;
        let interval = self.timers[i].config.interval;
        proof {
            use_type_invariant(&elapsed);
            use_type_invariant(&interval);
            lemma_from_as_nanos(elapsed);
            lemma_from_as_nanos(interval);
        }
        TimerInfo { elapsed, interval }
    }

    /// The clock and the interval of the timer of this name.
    pub fn get(&self, name: &str) -> (r: Option<TimerInfo>)
        ensures
            r == lookup(self@, name@),
    {
        match self.find(name) {
            Some(i) => Some(self.info_at(i)),
            None => None,
        }
    }

    /// Every timer by name with its clock and interval, in the order of the
    /// configuration.
    pub fn list(&self) -> (entries: Vec<(String, TimerInfo)>)
        ensures
            entries_view(entries@) == listing(self@),
    {
        let mut entries: Vec<(String, TimerInfo)> = Vec::new();
        let mut i: usize = 0;
        while i < self.timers.len()
            invariant
                i <= self.timers@.len(),
                entries@.len() == i,
                self@ == models(self.timers@),
                forall|j: int|
                    0 <= j < i ==> (#[trigger] entries@[j]).0@ == self@[j].name && entries@[j].1 == info_of(
                        self@[j],
                    ),
            decreases self.timers@.len() - i,
        {
            let info = self.info_at(i);
            entries.push((self.timers[i].config.name.clone(), info));
            i += 1;
        }
        assert(entries_view(entries@) =~= listing(self@));
        entries
    }

    /// How many timers there are.
    pub fn len(&self) -> (n: usize)
        ensures
            n == self@.len(),
    {
        self.timers.len()
    }
}

} // verus!
