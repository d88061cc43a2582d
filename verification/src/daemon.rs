//! The state of the daemon and what it does with a heartbeat and with a
//! request.

use crate::config::{config_names_distinct, Activity, Config, ConfigError, TimerConfig};
use crate::msg::{
    decode_message, ser_response, Encoding, Message, MessageModel, Response, ResponseError, ResponseModel,
};
use crate::policy::{policy_of, Policy, Tick};
use crate::time::{from_nanos, lemma_from_as_nanos, nanos_opt, Duration};
use crate::timer::{
    fired_by, fresh_timer, listing, lookup, position, reset_each, reset_named, tick_all, tick_fits, FiredTimer,
    TimerModel, TimerRegistry,
};
use crate::timer_laws::lemma_long_delta_resets;
use vstd::prelude::*;

verus! {

/// The daemon as the proofs see it, with every span and every reading of the
/// clock in nanoseconds.
pub struct DaemonModel {
    pub policy: Policy,
    pub timers: Seq<TimerModel>,
    /// The clock's reading when the daemon started.
    pub startup: nat,
    /// The clock's reading at the last heartbeat.
    pub last_tick: nat,
}

/// The time from `earlier` to `now` on a clock that does not run backwards:
/// nothing where `now` is the earlier reading.
pub open spec fn elapsed_since(earlier: nat, now: nat) -> nat {
    if now >= earlier {
        (now - earlier) as nat
    } else {
        0
    }
}

impl DaemonModel {
    /// What the heartbeat at the reading `now` observes.
    pub open spec fn observes(self, now: nat, inactivity: Option<nat>) -> Tick {
        Tick { delta: elapsed_since(self.last_tick, now), inactivity }
    }

    /// The daemon after the heartbeat at the reading `now`.
    pub open spec fn heartbeat(self, now: nat, inactivity: Option<nat>) -> DaemonModel {
        DaemonModel {
            timers: tick_all(self.timers, self.policy, self.observes(now, inactivity)),
            last_tick: now,
            ..self
        }
    }

    /// What the daemon answers to a request at the reading `now`.
    pub open spec fn answer(self, message: MessageModel, now: nat) -> ResponseModel {
        match message {
            MessageModel::List => ResponseModel::List(listing(self.timers)),
            MessageModel::Get(name) => match lookup(self.timers, name) {
                Some(info) => ResponseModel::Timer(info),
                None => ResponseModel::Error(ResponseError::NotFound),
            },
            MessageModel::Reset(name) => if position(self.timers, name) is Some {
                ResponseModel::Done
            } else {
                ResponseModel::Error(ResponseError::NotFound)
            },
            MessageModel::ResetAll => ResponseModel::Done,
            MessageModel::Running => ResponseModel::Duration(from_nanos(elapsed_since(self.startup, now))),
        }
    }

    /// The daemon after a request.
    pub open spec fn after(self, message: MessageModel) -> DaemonModel {
        match message {
            MessageModel::Reset(name) => DaemonModel { timers: reset_named(self.timers, name), ..self },
            MessageModel::ResetAll => DaemonModel { timers: reset_each(self.timers), ..self },
            _ => self,
        }
    }
}

/// The state of the daemon: the timers, the policy, and two readings of a
/// clock that does not run backwards.
#[derive(Debug, PartialEq, Eq)]
pub struct DaemonState {
    pub activity: Option<Activity>,
    pub registry: TimerRegistry,
    /// The clock's reading when the daemon started.
    pub startup: Duration,
    /// The clock's reading at the last heartbeat.
    pub last_tick: Duration,
}

impl View for DaemonState {
    type V = DaemonModel;

    open spec fn view(&self) -> DaemonModel {
        DaemonModel {
            policy: policy_of(self.activity),
            timers: self.registry@,
            startup: self.startup.as_nanos(),
            last_tick: self.last_tick.as_nanos(),
        }
    }
}

impl Clone for DaemonState {
    fn clone(&self) -> (r: DaemonState)
        ensures
            r@ == self@,
            r.same_daemon(*self),
            r.last_tick == self.last_tick,
    {
        DaemonState {
            activity: self.activity,
            registry: self.registry.clone(),
            startup: self.startup,
            last_tick: self.last_tick,
        }
    }
}

impl DaemonState {
    /// The two states are of one daemon: configured alike and started at
    /// the same time. Their clocks may differ.
    pub open spec fn same_daemon(&self, other: DaemonState) -> bool {
        &&& self.activity == other.activity
        &&& self.startup == other.startup
        &&& self.registry.same_configs(other.registry)
    }

    /// The daemon as it starts at the reading `now`: every timer of the
    /// configuration with its clock at zero. A configuration in which two
    /// timers share a name is refused.
    pub fn new(config: &Config, now: Duration) -> (r: Result<DaemonState, ConfigError>)
        ensures
            r is Ok <==> config_names_distinct(config.timers@),
            r matches Ok(state) ==> {
                &&& state.activity == config.activity
                &&& state.startup == now
                &&& state.last_tick == now
                &&& state@.timers == config.timers@.map_values(|c: TimerConfig| fresh_timer(c))
                &&& state.registry.states().len() == config.timers@.len()
                &&& forall|i: int|
                    0 <= i < config.timers@.len() ==> (#[trigger] state.registry.states()[i]).config
                        == config.timers@[i]
            },
            r matches Err(e) ==> e == ConfigError::DuplicateName,
    {
        match TimerRegistry::new(&config.timers) {
            Ok(registry) => Ok(DaemonState { activity: config.activity, registry, startup: now, last_tick: now }),
            Err(e) => Err(e),
        }
    }

    /// How long the daemon has been running at the reading `now`.
    pub fn uptime(&self, now: Duration) -> (d: Duration)
        ensures
            d.as_nanos() == elapsed_since(self@.startup, now.as_nanos()),
            d == from_nanos(elapsed_since(self@.startup, now.as_nanos())),
    {
        let d = now.saturating_sub(&self.startup);
        proof {
            use_type_invariant(&d);
            lemma_from_as_nanos(d);
        }
        d
    }

    /// The heartbeat at the reading `now`: the timers are updated by the time
    /// since the last heartbeat and by the inactivity that was observed.
    /// Returns the timers that went off.
    pub fn heartbeat(&mut self, now: Duration, inactivity: Option<Duration>) -> (fired: Vec<FiredTimer>)
        requires
            tick_fits(
                old(self)@.timers,
                old(self)@.policy,
                old(self)@.observes(now.as_nanos(), nanos_opt(inactivity)),
            ),
        ensures
            final(self).same_daemon(*old(self)),
            final(self).last_tick == now,
            final(self)@ == old(self)@.heartbeat(now.as_nanos(), nanos_opt(inactivity)),
            fired@.map_values(|f: FiredTimer| f@) == fired_by(
                old(self)@.timers,
                old(self)@.policy,
                old(self)@.observes(now.as_nanos(), nanos_opt(inactivity)),
            ),
    {
        let delta = now.saturating_sub(&self.last_tick);
        let fired = self.registry.tick(&self.activity, delta, inactivity);
        self.last_tick = now;
        fired
    }

    /// The heartbeat at the reading `now`, where every clock stays within
    /// what a `Duration` holds; otherwise nothing happens and `None` is
    /// returned.
    pub fn checked_heartbeat(&mut self, now: Duration, inactivity: Option<Duration>) -> (r: Option<Vec<FiredTimer>>)
        ensures
            r is Some <==> tick_fits(
                old(self)@.timers,
                old(self)@.policy,
                old(self)@.observes(now.as_nanos(), nanos_opt(inactivity)),
            ),
            r is None ==> *final(self) == *old(self),
            r matches Some(fired) ==> {
                &&& final(self).same_daemon(*old(self))
                &&& final(self).last_tick == now
                &&& final(self)@ == old(self)@.heartbeat(now.as_nanos(), nanos_opt(inactivity))
                &&& fired@.map_values(|f: FiredTimer| f@) == fired_by(
                    old(self)@.timers,
                    old(self)@.policy,
                    old(self)@.observes(now.as_nanos(), nanos_opt(inactivity)),
                )
            },
    {
        let delta = now.saturating_sub(&self.last_tick);
        if self.registry.fits(&self.activity, delta, inactivity) {
            Some(self.heartbeat(now, inactivity))
        } else {
            None
        }
    }

    /// Carries out a request at the reading `now` and gives the answer.
    pub fn dispatch(&mut self, message: &Message, now: Duration) -> (response: Response)
        ensures
            final(self).same_daemon(*old(self)),
            final(self).last_tick == old(self).last_tick,
            response@ == old(self)@.answer(message@, now.as_nanos()),
            final(self)@ == old(self)@.after(message@),
            !(message is Reset || message is ResetAll) ==> *final(self) == *old(self),
    {
        match message {
            Message::List => Response::List(self.registry.list()),
            Message::Get(name) => match self.registry.get(name.as_str()) {
                Some(info) => Response::Timer(info),
                None => Response::Error(ResponseError::NotFound),
            },
            Message::Reset(name) => if self.registry.reset(name.as_str()) {
                Response::Done
            } else {
                Response::Error(ResponseError::NotFound)
            },
            Message::ResetAll => {
                self.registry.reset_all();
                Response::Done
            },
            Message::Running => Response::Duration(self.uptime(now)),
        }
    }

    /// Reads a request from its bytes, carries it out at the reading `now`
    /// and gives the bytes of the answer. Bytes that are no request get no
    /// answer and change nothing.
    pub fn handle_request(&mut self, bytes: &[u8], now: Duration) -> (r: Option<Vec<u8>>)
        ensures
            final(self).same_daemon(*old(self)),
            final(self).last_tick == old(self).last_tick,
            r is Some <==> decode_message(bytes@) is Some,
            r is None ==> *final(self) == *old(self),
            r matches Some(out) ==> {
                let message = decode_message(bytes@).unwrap();
                &&& out@ == ser_response(old(self)@.answer(message, now.as_nanos()))
                &&& final(self)@ == old(self)@.after(message)
            },
    {
        match Message::decode(bytes) {
            Ok(message) => {
                let response = self.dispatch(&message, now);
                Some(response.encode())
            },
            Err(_) => None,
        }
    }
}

/// The daemon's running time does not go down as the clock goes on.
pub proof fn lemma_uptime_grows(state: DaemonModel, now: nat, later: nat)
    requires
        now <= later,
    ensures
        elapsed_since(state.startup, now) <= elapsed_since(state.startup, later),
{
}

/// A heartbeat that comes at least the reset threshold after the one
/// before, as after the machine has slept, sets every timer back to zero,
/// whatever inactivity is reported with it.
pub proof fn lemma_heartbeat_after_sleep(state: DaemonModel, now: nat, inactivity: Option<nat>)
    requires
        state.policy.reset matches Some(threshold) && elapsed_since(state.last_tick, now) >= threshold,
    ensures
        state.heartbeat(now, inactivity).timers.len() == state.timers.len(),
        forall|i: int|
            0 <= i < state.timers.len() ==> (#[trigger] state.heartbeat(now, inactivity).timers[i]).clock == 0
                && !state.heartbeat(now, inactivity).timers[i].went_off,
{
    lemma_long_delta_resets(state.timers, state.policy, state.observes(now, inactivity));
}

/// A request that only asks leaves the daemon as it is, so asking again
/// before the next heartbeat gets the same answer.
pub proof fn lemma_queries_change_nothing(state: DaemonModel, message: MessageModel, now: nat, later: nat)
    requires
        message is List || message is Get,
    ensures
        state.after(message) == state,
        state.after(message).answer(message, later) == state.answer(message, now),
{
}

/// After a reset by name the timer of that name stands at zero and has not
/// gone off, and the answer to the request says whether there is such a
/// timer.
pub proof fn lemma_reset_request(state: DaemonModel, name: Seq<char>, now: nat)
    ensures
        state.answer(MessageModel::Reset(name), now) is Done <==> position(state.timers, name) is Some,
        state.answer(MessageModel::Reset(name), now) is Error <==> position(state.timers, name) is None,
        state.answer(MessageModel::Get(name), now) is Error <==> position(state.timers, name) is None,
        position(state.timers, name) matches Some(i) ==> {
            let after = state.after(MessageModel::Reset(name));
            after.timers[i].clock == 0 && !after.timers[i].went_off
        },
        position(state.timers, name) is None ==> state.after(MessageModel::Reset(name)) == state,
{
}

} // verus!
