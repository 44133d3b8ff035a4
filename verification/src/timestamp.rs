//! Points in time.

use chrono::{DateTime, TimeZone, Utc};
use vstd::prelude::*;

verus! {

/// The first second that a timestamp can name.
pub const MIN_SECONDS: i64 = -8_334_601_228_800;

/// The last second that a timestamp can name.
pub const MAX_SECONDS: i64 = 8_210_266_876_799;

/// A point in time: whole seconds since the Unix epoch, and nanoseconds past
/// that second. A leap second shows as more than a second's nanoseconds.
pub struct Instant {
    pub seconds: int,
    pub nanos: int,
}

impl Instant {
    /// Whether a calendar date and a time of day exist for the instant.
    pub open spec fn valid(self) -> bool {
        &&& MIN_SECONDS <= self.seconds <= MAX_SECONDS
        &&& 0 <= self.nanos < 2_000_000_000
        &&& self.nanos >= 1_000_000_000 ==> self.seconds % 60 == 59
    }

    /// Milliseconds since the Unix epoch, rounded down.
    pub open spec fn millis(self) -> int {
        self.seconds * 1000 + self.nanos / 1_000_000
    }
}

/// The instant that lies `ms` milliseconds after the Unix epoch.
pub open spec fn instant_at(ms: int) -> Instant {
    Instant { seconds: ms / 1000, nanos: (ms % 1000) * 1_000_000 }
}

/// Going from milliseconds to an instant and back loses nothing.
pub proof fn law_millis_read_back(ms: int)
    ensures
        instant_at(ms).millis() == ms,
{
}

/// A point in time in UTC.
#[derive(Debug, Clone, Copy, PartialEq, Eq, PartialOrd, Ord, Hash, Structural)]
pub struct Timestamp {
    seconds: i64,
    nanos: u32,
}

impl View for Timestamp {
    type V = Instant;

    closed spec fn view(&self) -> Instant {
        Instant { seconds: self.seconds as int, nanos: self.nanos as int }
    }
}

/// Calls `Utc::now`. Claimed: the clock shows some valid instant. (A clock set
/// before the Unix epoch makes `Utc::now` panic.)
#[verifier::external_body]
fn utc_now() -> (r: (i64, u32))
    ensures
        (Instant { seconds: r.0 as int, nanos: r.1 as int }).valid(),
{
    let now = Utc::now();
    (now.timestamp(), now.timestamp_subsec_nanos())
}

/// Calls `DateTime::from_timestamp` and `DateTime::timestamp_millis` on its
/// result. Claimed: the first succeeds on the valid instants alone, and the
/// second counts milliseconds, rounded down.
#[verifier::external_body]
fn utc_millis(seconds: i64, nanos: u32) -> (r: Option<i64>)
    ensures
        r is Some <==> (Instant { seconds: seconds as int, nanos: nanos as int }).valid(),
        r matches Some(ms) ==> ms == (Instant {
            seconds: seconds as int,
            nanos: nanos as int,
        }).millis(),
{
    DateTime::<Utc>::from_timestamp(seconds, nanos).map(|t| t.timestamp_millis())
}

/// Calls `TimeZone::timestamp_millis_opt` for UTC. Claimed: it finds the
/// instant at that many milliseconds, if it is a valid one.
#[verifier::external_body]
fn utc_at(ms: i64) -> (r: Option<(i64, u32)>)
    ensures
        r is Some <==> instant_at(ms as int).valid(),
        r matches Some(p) ==> (Instant { seconds: p.0 as int, nanos: p.1 as int }) == instant_at(
            ms as int,
        ),
{
    Utc.timestamp_millis_opt(ms).single().map(|t| (t.timestamp(), t.timestamp_subsec_nanos()))
}

impl Timestamp {
    #[verifier::type_invariant]
    spec fn well_formed(self) -> bool {
        self@.valid()
    }

    /// The present.
    pub fn now() -> (r: Timestamp)
        ensures
            r@.valid(),
    {
        let (seconds, nanos) = utc_now();
        Timestamp { seconds, nanos }
    }

    /// The instant `nanos` past `seconds`, if there is one.
    pub fn new(seconds: i64, nanos: u32) -> (r: Option<Timestamp>)
        ensures
            r is Some <==> (Instant { seconds: seconds as int, nanos: nanos as int }).valid(),
            r matches Some(t) ==> t@ == (Instant { seconds: seconds as int, nanos: nanos as int }),
    {
        if utc_millis(seconds, nanos).is_some() {
            Some(Timestamp { seconds, nanos })
        } else {
            None
        }
    }

    /// The instant at `ms` milliseconds since the Unix epoch, if there is one.
    pub fn from_millis(ms: i64) -> (r: Option<Timestamp>)
        ensures
            r is Some <==> instant_at(ms as int).valid(),
            r matches Some(t) ==> t@ == instant_at(ms as int),
    {
        match utc_at(ms) {
            Some((seconds, nanos)) => Some(Timestamp { seconds, nanos }),
            None => None,
        }
    }

    /// Whole seconds since the Unix epoch.
    pub fn seconds(&self) -> (r: i64)
        ensures
            r == self@.seconds,
            self@.valid(),
    {
        proof {
            use_type_invariant(self);
        }
        self.seconds
    }

    /// Nanoseconds past the second.
    pub fn nanos(&self) -> (r: u32)
        ensures
            r == self@.nanos,
            self@.valid(),
    {
        proof {
            use_type_invariant(self);
        }
        self.nanos
    }

    /// Milliseconds since the Unix epoch, rounded down.
    pub fn millis(&self) -> (r: i64)
        ensures
            r == self@.millis(),
            self@.valid(),
    {
        proof {
            use_type_invariant(self);
        }
        match utc_millis(self.seconds, self.nanos) {
            Some(ms) => ms,
            None => 0,
        }
    }
}

/// Milliseconds are those that have passed: an instant lies at its millisecond or
/// within it, and the instant at a millisecond lies right at it.
pub proof fn law_millis_are_those_passed(at: Instant, ms: int)
    requires
        at.nanos >= 0,
    ensures
        at.millis() * 1_000_000 <= at.seconds * 1_000_000_000 + at.nanos < (at.millis() + 1)
            * 1_000_000,
        instant_at(ms).seconds * 1_000_000_000 + instant_at(ms).nanos == ms * 1_000_000,
        0 <= instant_at(ms).nanos < 1_000_000_000,
{
}

} // verus!
