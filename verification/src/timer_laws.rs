//! What holds of the timers over one heartbeat and over many.

use crate::policy::{Decision, Policy, Tick};
use crate::timer::{
    event_of, fired_by, names_distinct, position, reset_each, reset_named, tick_all, timers_wf, FiredModel, TimerModel,
};
use vstd::prelude::*;

verus! {

/// One timer after a run of heartbeats.
pub open spec fn run_one(timer: TimerModel, policy: Policy, ticks: Seq<Tick>) -> TimerModel
    decreases ticks.len(),
{
    if ticks.len() == 0 {
        timer
    } else {
        run_one(timer, policy, ticks.drop_last()).step(policy, ticks.last())
    }
}

/// The timers after a run of heartbeats.
pub open spec fn run_all(timers: Seq<TimerModel>, policy: Policy, ticks: Seq<Tick>) -> Seq<TimerModel>
    decreases ticks.len(),
{
    if ticks.len() == 0 {
        timers
    } else {
        tick_all(run_all(timers, policy, ticks.drop_last()), policy, ticks.last())
    }
}

/// At how many heartbeats of a run the timer goes off.
pub open spec fn fire_count(timer: TimerModel, policy: Policy, ticks: Seq<Tick>) -> nat
    decreases ticks.len(),
{
    if ticks.len() == 0 {
        0
    } else {
        let before = fire_count(timer, policy, ticks.drop_last());
        if run_one(timer, policy, ticks.drop_last()).fires(policy, ticks.last()) {
            before + 1
        } else {
            before
        }
    }
}

/// The time that a run of heartbeats adds to a timer that none of them
/// resets: the deltas of the heartbeats at which the timers are not paused.
pub open spec fn accrued(policy: Policy, ticks: Seq<Tick>) -> nat
    decreases ticks.len(),
{
    if ticks.len() == 0 {
        0
    } else {
        let before = accrued(policy, ticks.drop_last());
        if policy.pauses(ticks.last()) {
            before
        } else {
            before + ticks.last().delta
        }
    }
}

/// A heartbeat changes a timer's clock and nothing of its configuration.
pub proof fn lemma_step_keeps_config(timer: TimerModel, policy: Policy, tick: Tick)
    ensures
        timer.step(policy, tick).name == timer.name,
        timer.step(policy, tick).interval == timer.interval,
        timer.step(policy, tick).break_duration == timer.break_duration,
        timer.step(policy, tick).notify == timer.notify,
{
}

/// A heartbeat keeps a timer consistent: afterwards it has gone off exactly
/// when its clock is past its interval.
pub proof fn lemma_step_consistent(timer: TimerModel, policy: Policy, tick: Tick)
    requires
        timer.consistent(),
    ensures
        timer.step(policy, tick).consistent(),
{
}

/// A heartbeat that does not reset a timer takes nothing off its clock, and
/// only a heartbeat that resets it lets a timer that has gone off go off
/// again.
pub proof fn lemma_step_without_reset(timer: TimerModel, policy: Policy, tick: Tick)
    requires
        !timer.is_reset_by(policy, tick),
    ensures
        timer.step(policy, tick).clock >= timer.clock,
        timer.went_off ==> timer.step(policy, tick).went_off,
        timer.went_off ==> !timer.fires(policy, tick),
{
}

/// A heartbeat keeps the timers well-formed and in their places.
pub proof fn lemma_tick_all_wf(timers: Seq<TimerModel>, policy: Policy, tick: Tick)
    requires
        timers_wf(timers),
    ensures
        timers_wf(tick_all(timers, policy, tick)),
        tick_all(timers, policy, tick).len() == timers.len(),
        forall|i: int|
            0 <= i < timers.len() ==> (#[trigger] tick_all(timers, policy, tick)[i]).name == timers[i].name,
{
}

/// A run of heartbeats treats each timer by itself.
pub proof fn lemma_run_all_pointwise(timers: Seq<TimerModel>, policy: Policy, ticks: Seq<Tick>)
    ensures
        run_all(timers, policy, ticks).len() == timers.len(),
        forall|i: int|
            0 <= i < timers.len() ==> (#[trigger] run_all(timers, policy, ticks)[i]) == run_one(
                timers[i],
                policy,
                ticks,
            ),
    decreases ticks.len(),
{
    if ticks.len() > 0 {
        lemma_run_all_pointwise(timers, policy, ticks.drop_last());
    }
}

/// A run of heartbeats changes a timer's clock and nothing of its
/// configuration, and keeps it consistent.
pub proof fn lemma_run_one_keeps(timer: TimerModel, policy: Policy, ticks: Seq<Tick>)
    ensures
        run_one(timer, policy, ticks).name == timer.name,
        run_one(timer, policy, ticks).interval == timer.interval,
        run_one(timer, policy, ticks).break_duration == timer.break_duration,
        run_one(timer, policy, ticks).notify == timer.notify,
        timer.consistent() ==> run_one(timer, policy, ticks).consistent(),
    decreases ticks.len(),
{
    if ticks.len() > 0 {
        lemma_run_one_keeps(timer, policy, ticks.drop_last());
    }
}

/// After a reset by name the timer of that name stands at zero and has not
/// gone off; the other timers are as they were.
pub proof fn lemma_reset_named_zeroes(timers: Seq<TimerModel>, name: Seq<char>)
    requires
        position(timers, name) is Some,
    ensures
        reset_named(timers, name).len() == timers.len(),
        forall|i: int|
            0 <= i < timers.len() ==> (#[trigger] reset_named(timers, name)[i]) == (if Some(i) == position(
                timers,
                name,
            ) {
                timers[i].reset()
            } else {
                timers[i]
            }),
        ({
            let at = position(timers, name)->0;
            reset_named(timers, name)[at].name == name && reset_named(timers, name)[at].clock == 0
                && !reset_named(timers, name)[at].went_off
        }),
{
}

/// After a reset of all timers each of them stands at zero and has not gone
/// off.
pub proof fn lemma_reset_each_zeroes(timers: Seq<TimerModel>)
    ensures
        reset_each(timers).len() == timers.len(),
        forall|i: int|
            0 <= i < timers.len() ==> (#[trigger] reset_each(timers)[i]).clock == 0 && !reset_each(
                timers,
            )[i].went_off,
{
}

/// After a heartbeat at which the policy decides a reset, each timer stands
/// at zero and has not gone off, and none goes off at that heartbeat.
pub proof fn lemma_policy_reset_zeroes(timers: Seq<TimerModel>, policy: Policy, tick: Tick)
    requires
        policy.decide(tick) == Decision::Reset,
    ensures
        tick_all(timers, policy, tick) == reset_each(timers),
        forall|i: int|
            0 <= i < timers.len() ==> (#[trigger] tick_all(timers, policy, tick)[i]).clock == 0 && !tick_all(
                timers,
                policy,
                tick,
            )[i].went_off,
        fired_by(timers, policy, tick) == Seq::<FiredModel>::empty(),
    decreases timers.len(),
{
    assert(tick_all(timers, policy, tick) =~= reset_each(timers));
    if timers.len() > 0 {
        lemma_policy_reset_zeroes(timers.drop_last(), policy, tick);
    }
}

/// A heartbeat that comes at least the reset threshold after the one before
/// resets every timer, whatever the inactivity reported with it.
pub proof fn lemma_long_delta_resets(timers: Seq<TimerModel>, policy: Policy, tick: Tick)
    requires
        policy.reset matches Some(threshold) && tick.delta >= threshold,
    ensures
        policy.decide(tick) == Decision::Reset,
        forall|i: int|
            0 <= i < timers.len() ==> (#[trigger] tick_all(timers, policy, tick)[i]).clock == 0 && !tick_all(
                timers,
                policy,
                tick,
            )[i].went_off,
{
    lemma_policy_reset_zeroes(timers, policy, tick);
}

/// A timer whose user has been away for longer than the timer's break is
/// reset, whatever the policy, also one without thresholds.
pub proof fn lemma_break_resets(timer: TimerModel, policy: Policy, tick: Tick)
    requires
        timer.break_duration matches Some(b) && tick.inactivity matches Some(away) && away > b,
    ensures
        timer.step(policy, tick).clock == 0,
        !timer.step(policy, tick).went_off,
        !timer.fires(policy, tick),
{
}

/// While every heartbeat reports inactivity beyond the pause threshold, no
/// timer's clock grows, and no timer goes off.
pub proof fn lemma_pause_holds_clock(timer: TimerModel, policy: Policy, ticks: Seq<Tick>)
    requires
        forall|k: int| 0 <= k < ticks.len() ==> policy.pauses(#[trigger] ticks[k]),
    ensures
        run_one(timer, policy, ticks).clock <= timer.clock,
        timer.consistent() ==> fire_count(timer, policy, ticks) == 0,
    decreases ticks.len(),
{
    if ticks.len() > 0 {
        let earlier = ticks.drop_last();
        assert forall|k: int| 0 <= k < earlier.len() implies policy.pauses(#[trigger] earlier[k]) by {
            assert(earlier[k] == ticks[k]);
        }
        lemma_pause_holds_clock(timer, policy, earlier);
        lemma_run_one_keeps(timer, policy, earlier);
        assert(policy.pauses(ticks.last()));
    }
}

/// While every heartbeat reports inactivity beyond the pause threshold, no
/// clock among the timers grows.
pub proof fn lemma_pause_holds_clocks(timers: Seq<TimerModel>, policy: Policy, ticks: Seq<Tick>)
    requires
        forall|k: int| 0 <= k < ticks.len() ==> policy.pauses(#[trigger] ticks[k]),
    ensures
        run_all(timers, policy, ticks).len() == timers.len(),
        forall|i: int|
            0 <= i < timers.len() ==> (#[trigger] run_all(timers, policy, ticks)[i]).clock <= timers[i].clock,
{
    lemma_run_all_pointwise(timers, policy, ticks);
    assert forall|i: int| 0 <= i < timers.len() implies (#[trigger] run_all(timers, policy, ticks)[i]).clock
        <= timers[i].clock by {
        lemma_pause_holds_clock(timers[i], policy, ticks);
    }
}

/// Over heartbeats that do not reset it, a timer's clock grows by the
/// deltas of the heartbeats at which it is not paused, and the timer goes
/// off once, at the heartbeat that takes the clock past the interval: not
/// at all while the clock stays within it, and not again afterwards.
pub proof fn lemma_fires_once(timer: TimerModel, policy: Policy, ticks: Seq<Tick>)
    requires
        timer.consistent(),
        forall|k: int| 0 <= k < ticks.len() ==> !timer.is_reset_by(policy, #[trigger] ticks[k]),
    ensures
        run_one(timer, policy, ticks).clock == timer.clock + accrued(policy, ticks),
        fire_count(timer, policy, ticks) == (if !timer.went_off && timer.clock + accrued(policy, ticks)
            > timer.interval {
            1nat
        } else {
            0nat
        }),
    decreases ticks.len(),
{
    if ticks.len() > 0 {
        let earlier = ticks.drop_last();
        assert forall|k: int| 0 <= k < earlier.len() implies !timer.is_reset_by(policy, #[trigger] earlier[k]) by {
            assert(earlier[k] == ticks[k]);
        }
        lemma_fires_once(timer, policy, earlier);
        lemma_run_one_keeps(timer, policy, earlier);
        let before = run_one(timer, policy, earlier);
        assert(!timer.is_reset_by(policy, ticks.last()));
        assert(before.break_taken(ticks.last()) == timer.break_taken(ticks.last()));
    }
}

/// A timer that starts out reset goes off exactly once over heartbeats that
/// do not reset it, if the time they add is more than its interval, and
/// never otherwise.
pub proof fn lemma_fires_once_from_reset(timer: TimerModel, policy: Policy, ticks: Seq<Tick>)
    requires
        timer.clock == 0,
        !timer.went_off,
        forall|k: int| 0 <= k < ticks.len() ==> !timer.is_reset_by(policy, #[trigger] ticks[k]),
    ensures
        accrued(policy, ticks) > timer.interval ==> fire_count(timer, policy, ticks) == 1,
        accrued(policy, ticks) <= timer.interval ==> fire_count(timer, policy, ticks) == 0,
{
    lemma_fires_once(timer, policy, ticks);
}

/// The events of a heartbeat are those of the timers that go off at it, in
/// the order of the timers.
pub proof fn lemma_fired_by_in_order(timers: Seq<TimerModel>, policy: Policy, tick: Tick)
    ensures
        fired_by(timers, policy, tick) == timers.filter(|t: TimerModel| t.fires(policy, tick)).map_values(
            |t: TimerModel| event_of(t),
        ),
    decreases timers.len(),
{
    reveal(Seq::filter);
    let fires = |t: TimerModel| t.fires(policy, tick);
    let event = |t: TimerModel| event_of(t);
    if timers.len() > 0 {
        lemma_fired_by_in_order(timers.drop_last(), policy, tick);
        let front = timers.drop_last().filter(fires);
        if timers.last().fires(policy, tick) {
            assert(front.push(timers.last()).map_values(event) =~= front.map_values(event).push(
                event_of(timers.last()),
            ));
        }
    }
    assert(fired_by(timers, policy, tick) =~= timers.filter(fires).map_values(event));
}

/// The event comes from one of the timers that go off at the heartbeat.
pub open spec fn stems_from(event: FiredModel, timers: Seq<TimerModel>, policy: Policy, tick: Tick) -> bool {
    exists|j: int| 0 <= j < timers.len() && (#[trigger] timers[j]).fires(policy, tick) && event == event_of(timers[j])
}

/// Each event of a heartbeat comes from a timer that goes off at it.
pub proof fn lemma_fired_by_sources(timers: Seq<TimerModel>, policy: Policy, tick: Tick)
    ensures
        fired_by(timers, policy, tick).len() <= timers.len(),
        forall|k: int|
            0 <= k < fired_by(timers, policy, tick).len() ==> stems_from(
                #[trigger] fired_by(timers, policy, tick)[k],
                timers,
                policy,
                tick,
            ),
    decreases timers.len(),
{
    if timers.len() > 0 {
        let front = timers.drop_last();
        lemma_fired_by_sources(front, policy, tick);
        let events = fired_by(timers, policy, tick);
        assert forall|k: int| 0 <= k < events.len() implies stems_from(#[trigger] events[k], timers, policy, tick) by {
            if k < fired_by(front, policy, tick).len() {
                assert(events[k] == fired_by(front, policy, tick)[k]);
                assert(stems_from(fired_by(front, policy, tick)[k], front, policy, tick));
                let j = choose|j: int|
                    0 <= j < front.len() && (#[trigger] front[j]).fires(policy, tick) && events[k] == event_of(
                        front[j],
                    );
                assert(timers[j] == front[j]);
            } else {
                assert(timers[timers.len() - 1].fires(policy, tick));
            }
        }
    }
}

/// A timer that goes off at a heartbeat has its event among the events of
/// that heartbeat.
pub proof fn lemma_fired_by_has(timers: Seq<TimerModel>, policy: Policy, tick: Tick, i: int)
    requires
        0 <= i < timers.len(),
        timers[i].fires(policy, tick),
    ensures
        fired_by(timers, policy, tick).contains(event_of(timers[i])),
    decreases timers.len(),
{
    let front = timers.drop_last();
    let events = fired_by(timers, policy, tick);
    if i == timers.len() - 1 {
        assert(events[events.len() - 1] == event_of(timers[i]));
    } else {
        assert(front[i] == timers[i]);
        lemma_fired_by_has(front, policy, tick, i);
        let k = choose|k: int|
            0 <= k < fired_by(front, policy, tick).len() && fired_by(front, policy, tick)[k] == event_of(timers[i]);
        assert(events[k] == fired_by(front, policy, tick)[k]);
    }
}

/// Where no two timers share a name, a heartbeat has an event of a timer's
/// name exactly if that timer goes off at it.
pub proof fn lemma_fired_by_names(timers: Seq<TimerModel>, policy: Policy, tick: Tick, i: int)
    requires
        names_distinct(timers),
        0 <= i < timers.len(),
    ensures
        timers[i].fires(policy, tick) <==> fired_by(timers, policy, tick).contains(event_of(timers[i])),
        forall|k: int|
            0 <= k < fired_by(timers, policy, tick).len() && (#[trigger] fired_by(timers, policy, tick)[k]).name
                == timers[i].name ==> timers[i].fires(policy, tick) && fired_by(timers, policy, tick)[k]
                == event_of(timers[i]),
{
    lemma_fired_by_sources(timers, policy, tick);
    let events = fired_by(timers, policy, tick);
    if timers[i].fires(policy, tick) {
        lemma_fired_by_has(timers, policy, tick, i);
    }
    assert forall|k: int|
        0 <= k < events.len() && (#[trigger] events[k]).name == timers[i].name implies timers[i].fires(policy, tick)
        && events[k] == event_of(timers[i]) by {
        assert(stems_from(events[k], timers, policy, tick));
        let j = choose|j: int|
            0 <= j < timers.len() && (#[trigger] timers[j]).fires(policy, tick) && events[k] == event_of(timers[j]);
        if j < i {
            assert(timers[j].name != timers[i].name);
        } else if i < j {
            assert(timers[i].name != timers[j].name);
        }
    }
    if events.contains(event_of(timers[i])) {
        let k = choose|k: int| 0 <= k < events.len() && events[k] == event_of(timers[i]);
        assert(events[k].name == timers[i].name);
    }
}

} // verus!
