//! Spans of time with nanosecond resolution.

use vstd::prelude::*;

verus! {

/// Nanoseconds in one second.
pub const NANOS_PER_SEC: u32 = 1_000_000_000;

/// A span of time: whole seconds and the nanoseconds beyond them.
///
/// Every value is canonical: the nanosecond part is below one second, so two
/// spans are equal exactly when they last equally long.
#[derive(Clone, Copy, Debug, PartialEq, Eq, Structural)]
pub struct Duration {
    pub(crate) secs: u64,
    pub(crate) nanos: u32,
}

/// The longest span a `Duration` can hold, in nanoseconds.
pub open spec fn max_nanos() -> nat {
    (u64::MAX as nat) * (NANOS_PER_SEC as nat) + (NANOS_PER_SEC - 1) as nat
}

/// So many seconds, in nanoseconds.
pub open spec fn seconds(secs: nat) -> nat {
    secs * (NANOS_PER_SEC as nat)
}

/// The nanoseconds of an optional span.
pub open spec fn nanos_opt(d: Option<Duration>) -> Option<nat> {
    match d {
        Some(d) => Some(d.as_nanos()),
        None => None,
    }
}

impl Duration {
    /// The sub-second part stays below one second.
    #[verifier::type_invariant]
    pub open(crate) spec fn wf(self) -> bool {
        self.nanos < NANOS_PER_SEC
    }

    /// The span in nanoseconds.
    pub open(crate) spec fn as_nanos(self) -> nat {
        (self.secs as nat) * (NANOS_PER_SEC as nat) + (self.nanos as nat)
    }

    /// The span with these parts.
    pub open(crate) spec fn of_parts(secs: u64, nanos: u32) -> Duration {
        Duration { secs, nanos }
    }

    /// The whole seconds of the span.
    pub open(crate) spec fn secs_part(self) -> u64 {
        self.secs
    }

    /// The nanoseconds beyond the whole seconds.
    pub open(crate) spec fn nanos_part(self) -> u32 {
        self.nanos
    }

    /// The empty span.
    pub fn zero() -> (d: Duration)
        ensures
            d.wf(),
            d.as_nanos() == 0,
    {
        Duration { secs: 0, nanos: 0 }
    }

    /// The longest span.
    pub fn max() -> (d: Duration)
        ensures
            d.wf(),
            d.as_nanos() == max_nanos(),
    {
        Duration { secs: u64::MAX, nanos: NANOS_PER_SEC - 1 }
    }

    /// A span of whole seconds.
    pub fn from_secs(secs: u64) -> (d: Duration)
        ensures
            d.wf(),
            d.as_nanos() == secs * NANOS_PER_SEC,
            d.secs_part() == secs,
            d.nanos_part() == 0,
    {
        Duration { secs, nanos: 0 }
    }

    /// A span of `secs` seconds and `nanos` nanoseconds. Whole seconds in
    /// `nanos` carry over into the seconds.
    pub fn new(secs: u64, nanos: u32) -> (d: Duration)
        requires
            secs + nanos / NANOS_PER_SEC <= u64::MAX,
        ensures
            d.wf(),
            d.as_nanos() == secs * NANOS_PER_SEC + nanos,
    {
        let carry: u32 = nanos / NANOS_PER_SEC;
        let rest: u32 = nanos % NANOS_PER_SEC;
        Duration { secs: secs + carry as u64, nanos: rest }
    }

    /// The span with the given parts, if the nanoseconds are below one second.
    pub fn from_parts(secs: u64, nanos: u32) -> (r: Option<Duration>)
        ensures
            r is Some <==> nanos < NANOS_PER_SEC,
            r matches Some(d) ==> d.wf() && d == Duration::of_parts(secs, nanos),
    {
        if nanos < NANOS_PER_SEC {
            Some(Duration { secs, nanos })
        } else {
            None
        }
    }

    /// The whole seconds of the span.
    pub fn as_secs(&self) -> (s: u64)
        ensures
            s == self.secs_part(),
            s == self.as_nanos() / (NANOS_PER_SEC as nat),
    {
        proof {
            use_type_invariant(self);
        }
        self.secs
    }

    /// The nanoseconds beyond the whole seconds.
    pub fn subsec_nanos(&self) -> (n: u32)
        ensures
            n == self.nanos_part(),
            n == self.as_nanos() % (NANOS_PER_SEC as nat),
            n < NANOS_PER_SEC,
    {
        proof {
            use_type_invariant(self);
        }
        self.nanos
    }

    /// Whether the span is empty.
    pub fn is_zero(&self) -> (r: bool)
        ensures
            r == (self.as_nanos() == 0),
    {
        self.secs == 0 && self.nanos == 0
    }

    /// Whether `self` is strictly shorter than `other`.
    pub fn lt(&self, other: &Duration) -> (r: bool)
        ensures
            r == (self.as_nanos() < other.as_nanos()),
    {
        proof {
            use_type_invariant(self);
            use_type_invariant(other);
        }
        self.secs < other.secs || (self.secs == other.secs && self.nanos < other.nanos)
    }

    /// Whether `self` is at most as long as `other`.
    pub fn le(&self, other: &Duration) -> (r: bool)
        ensures
            r == (self.as_nanos() <= other.as_nanos()),
    {
        !other.lt(self)
    }

    /// Whether `self` is strictly longer than `other`.
    pub fn gt(&self, other: &Duration) -> (r: bool)
        ensures
            r == (self.as_nanos() > other.as_nanos()),
    {
        other.lt(self)
    }

    /// Whether `self` is at least as long as `other`.
    pub fn ge(&self, other: &Duration) -> (r: bool)
        ensures
            r == (self.as_nanos() >= other.as_nanos()),
    {
        !self.lt(other)
    }

    /// The two spans one after the other, unless that is longer than a
    /// `Duration` can hold.
    pub fn checked_add(&self, rhs: &Duration) -> (r: Option<Duration>)
        ensures
            r is Some <==> self.as_nanos() + rhs.as_nanos() <= max_nanos(),
            r matches Some(d) ==> d.wf() && d.as_nanos() == self.as_nanos() + rhs.as_nanos(),
    {
        proof {
            use_type_invariant(self);
            use_type_invariant(rhs);
        }
        let sum: u32 = self.nanos + rhs.nanos;
        let carry: u64 = if sum >= NANOS_PER_SEC { 1 } else { 0 };
        let nanos: u32 = if sum >= NANOS_PER_SEC { sum - NANOS_PER_SEC } else { sum };
        match self.secs.checked_add(rhs.secs) {
            None => None,
            Some(secs) => match secs.checked_add(carry) {
                None => None,
                Some(secs) => Some(Duration { secs, nanos }),
            },
        }
    }

    /// What is left of `self` after `rhs` is taken away; nothing where `rhs`
    /// is the longer one.
    pub fn saturating_sub(&self, rhs: &Duration) -> (d: Duration)
        ensures
            d.wf(),
            self.as_nanos() >= rhs.as_nanos() ==> d.as_nanos() == self.as_nanos() - rhs.as_nanos(),
            self.as_nanos() < rhs.as_nanos() ==> d.as_nanos() == 0,
    {
        proof {
            use_type_invariant(self);
            use_type_invariant(rhs);
        }
        if self.lt(rhs) {
            Duration { secs: 0, nanos: 0 }
        } else if self.nanos >= rhs.nanos {
            Duration { secs: self.secs - rhs.secs, nanos: self.nanos - rhs.nanos }
        } else {
            Duration { secs: self.secs - rhs.secs - 1, nanos: self.nanos + NANOS_PER_SEC - rhs.nanos }
        }
    }
}

/// The canonical span of `n` nanoseconds.
pub open(crate) spec fn from_nanos(n: nat) -> Duration {
    Duration { secs: (n / (NANOS_PER_SEC as nat)) as u64, nanos: (n % (NANOS_PER_SEC as nat)) as u32 }
}

/// `from_nanos` gives back the one canonical span of that length.
pub proof fn lemma_from_nanos(n: nat)
    requires
        n <= max_nanos(),
    ensures
        from_nanos(n).wf(),
        from_nanos(n).as_nanos() == n,
{
}

/// A canonical span is the one that `from_nanos` gives for its length.
pub proof fn lemma_from_as_nanos(d: Duration)
    requires
        d.wf(),
    ensures
        from_nanos(d.as_nanos()) == d,
        d.as_nanos() <= max_nanos(),
{
}

/// Two spans that last equally long are the same value.
pub proof fn lemma_nanos_determine(a: Duration, b: Duration)
    requires
        a.wf(),
        b.wf(),
        a.as_nanos() == b.as_nanos(),
    ensures
        a == b,
{
}

} // verus!
