//! Spans and instants of wall-clock time, as whole nanoseconds.
//!
//! Every budget decision here is arithmetic on these two: a stage's allowance
//! is a [`Duration`], the moment a run must stop by is an [`Instant`]. Reading
//! the clock itself is [`Instant::now`], and every decision that depends on
//! the time takes the instant it was read at as an argument.

use vstd::prelude::*;

verus! {

/// A span of time, in nanoseconds.
#[derive(Clone, Copy, Debug, PartialEq, Eq, Structural, Hash, PartialOrd, Ord, Default)]
pub struct Duration {
    nanos: u128,
}

/// A point in time, in nanoseconds since an epoch shared by every instant of
/// one process.
#[derive(Clone, Copy, Debug, PartialEq, Eq, Structural, Hash, PartialOrd, Ord)]
pub struct Instant {
    nanos: u128,
}

/// The nanoseconds of a millisecond.
pub open spec fn ms_nanos() -> int {
    1_000_000
}

impl Duration {
    /// How many nanoseconds this span holds.
    pub closed spec fn nanos(self) -> nat {
        self.nanos as nat
    }

    /// Two spans of the same length are one.
    pub proof fn lemma_nanos_determine(self, other: Duration)
        requires
            self.nanos() == other.nanos(),
        ensures
            self == other,
    {
    }

    /// The empty span.
    pub fn zero() -> (r: Self)
        ensures
            r.nanos() == 0,
    {
        Duration { nanos: 0 }
    }

    /// `ms` milliseconds.
    pub fn from_millis(ms: u64) -> (r: Self)
        ensures
            r.nanos() == ms * ms_nanos(),
    {
        Duration { nanos: (ms as u128) * 1_000_000 }
    }

    /// `s` seconds.
    pub fn from_secs(s: u64) -> (r: Self)
        ensures
            r.nanos() == s * 1000 * ms_nanos(),
    {
        Duration { nanos: (s as u128) * 1_000_000_000 }
    }

    /// `n` nanoseconds.
    pub fn from_nanos(n: u128) -> (r: Self)
        ensures
            r.nanos() == n,
    {
        Duration { nanos: n }
    }

    /// The whole milliseconds in this span, rounded down.
    pub fn as_millis(self) -> (r: u128)
        ensures
            r == self.nanos() / (ms_nanos() as nat),
    {
        self.nanos / 1_000_000
    }

    /// The nanoseconds in this span.
    pub fn as_nanos(self) -> (r: u128)
        ensures
            r == self.nanos(),
    {
        self.nanos
    }

    /// Whether the span is empty.
    pub fn is_zero(self) -> (r: bool)
        ensures
            r == (self.nanos() == 0),
    {
        self.nanos == 0
    }

    /// The shorter of two spans.
    pub fn shorter(self, other: Duration) -> (r: Duration)
        ensures
            r.nanos() == if self.nanos() <= other.nanos() {
                self.nanos()
            } else {
                other.nanos()
            },
    {
        if self.nanos <= other.nanos {
            self
        } else {
            other
        }
    }
}

impl Instant {
    /// Nanoseconds since the epoch.
    pub closed spec fn at(self) -> nat {
        self.nanos as nat
    }

    /// Two instants at the same nanosecond are one.
    pub proof fn lemma_at_determines(self, other: Instant)
        requires
            self.at() == other.at(),
        ensures
            self == other,
    {
    }

    /// An instant lies within what a `u128` of nanoseconds holds.
    pub proof fn lemma_at_bounded(self)
        ensures
            self.at() <= u128::MAX,
    {
    }

    /// The instant `n` nanoseconds after the epoch.
    pub fn from_nanos(n: u128) -> (r: Self)
        ensures
            r.at() == n,
    {
        Instant { nanos: n }
    }

    /// Nanoseconds since the epoch.
    pub fn as_nanos(self) -> (r: u128)
        ensures
            r == self.at(),
    {
        self.nanos
    }

    /// `d` after this instant, or `None` when that lies past what an instant
    /// can hold.
    pub fn checked_add(self, d: Duration) -> (r: Option<Instant>)
        ensures
            match r {
                Some(t) => t.at() == self.at() + d.nanos(),
                None => self.at() + d.nanos() > u128::MAX,
            },
    {
        match self.nanos.checked_add(d.nanos) {
            Some(n) => Some(Instant { nanos: n }),
            None => None,
        }
    }

    /// The span from `earlier` to this instant, or the empty span when
    /// `earlier` is later.
    pub fn saturating_duration_since(self, earlier: Instant) -> (r: Duration)
        ensures
            r.nanos() == if self.at() >= earlier.at() {
                self.at() - earlier.at()
            } else {
                0
            },
    {
        if self.nanos >= earlier.nanos {
            Duration { nanos: self.nanos - earlier.nanos }
        } else {
            Duration { nanos: 0 }
        }
    }

    /// The earlier of two instants.
    pub fn earlier(self, other: Instant) -> (r: Instant)
        ensures
            r.at() == if self.at() <= other.at() {
                self.at()
            } else {
                other.at()
            },
    {
        if self.nanos <= other.nanos {
            self
        } else {
            other
        }
    }

    /// Whether this instant is at or after `other`.
    pub fn not_before(self, other: Instant) -> (r: bool)
        ensures
            r == (self.at() >= other.at()),
    {
        self.nanos >= other.nanos
    }

    /// The instant the system clock reads now. Nothing is stated of it: what
    /// the clock reads depends on when the call is made.
    pub fn now() -> (r: Instant) {
        Instant { nanos: system_clock_nanos() }
    }
}

/// Nanoseconds since the Unix epoch that `std::time::SystemTime::now` reads.
/// What it returns depends on the moment and the machine, so nothing is
/// stated of it.
#[verifier::external_body]
fn system_clock_nanos() -> u128 {
    match std::time::SystemTime::now().duration_since(std::time::UNIX_EPOCH) {
        Ok(d) => d.as_nanos(),
        Err(_) => 0,
    }
}

} // verus!
