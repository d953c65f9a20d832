use vstd::prelude::*;
use chrono::{DateTime, Datelike, TimeDelta};

verus! {

/// Earliest whole second (Unix time) that chrono's `DateTime<Utc>` can hold:
/// the start of 1 January of year -262143.
pub const MIN_UNIX_SECONDS: i64 = -8_334_601_228_800i64;

/// Latest whole second (Unix time) that chrono's `DateTime<Utc>` can hold:
/// the last second of 31 December of year 262142.
pub const MAX_UNIX_SECONDS: i64 = 8_210_266_876_799i64;

/// Number of seconds in a day.
pub const SECONDS_PER_DAY: i64 = 86_400i64;

/// The day number (counted from 1 January of year 1, which is day 1) of 1 January 1970.
pub const UNIX_EPOCH_DAY_FROM_CE: i64 = 719_163i64;

/// Whether a number of seconds since the Unix epoch names an instant that
/// chrono's `DateTime<Utc>` can represent.
pub open spec fn representable(secs: int) -> bool {
    MIN_UNIX_SECONDS <= secs <= MAX_UNIX_SECONDS
}

/// The calendar day (counted from the common era, 0001-01-01 being day 1) of
/// an instant given in seconds since the Unix epoch, in UTC.
pub open spec fn day_number(secs: int) -> int {
    secs / (SECONDS_PER_DAY as int) + UNIX_EPOCH_DAY_FROM_CE
}

/// A calendar day in UTC, as chrono numbers it: days from the common era,
/// 0001-01-01 being day 1.
#[derive(Clone, Copy, Debug, PartialEq, Eq, Structural, PartialOrd, Ord, Hash)]
pub struct Day {
    pub days_from_ce: i32,
}

/// Number of nanoseconds in a second.
pub const NANOS_PER_SECOND: i64 = 1_000_000_000i64;

/// An instant in UTC: `secs` whole seconds since the Unix epoch, plus `nanos`
/// nanoseconds (below one second).
#[derive(Clone, Copy, Debug, PartialEq, Eq, Structural, PartialOrd, Ord, Hash)]
pub struct Timestamp {
    pub secs: i64,
    pub nanos: u32,
}

/// An instant as nanoseconds since the Unix epoch.
pub open spec fn instant_nanos(t: Timestamp) -> int {
    t.secs * NANOS_PER_SECOND + t.nanos
}

/// The whole days from `earlier` to `later` (for `earlier` not after
/// `later`): the whole seconds between them, divided by the seconds of a day.
pub open spec fn whole_days(later: Timestamp, earlier: Timestamp) -> int {
    ((instant_nanos(later) - instant_nanos(earlier)) / (NANOS_PER_SECOND as int)) / (SECONDS_PER_DAY as int)
}

/// chrono's `DateTime::<Utc>::from_timestamp`, then `date_naive` and
/// `Datelike::num_days_from_ce`. Claims that a value comes back exactly for
/// the representable instants, and that it is their UTC day number.
#[verifier::external_body]
fn chrono_day_from_ce(secs: i64, nanos: u32) -> (r: Option<i32>)
    requires
        nanos < NANOS_PER_SECOND,
    ensures
        r is Some <==> representable(secs as int),
        r matches Some(d) ==> d == day_number(secs as int),
{
    let t = DateTime::from_timestamp(secs, nanos)?;
    Some(t.date_naive().num_days_from_ce())
}

/// chrono's `TimeDelta::try_days` and `DateTime::checked_add_signed`, read back
/// with `DateTime::timestamp` and `DateTime::timestamp_subsec_nanos`. Claims
/// that adding whole days succeeds exactly when the result is representable,
/// moves the instant by 86400 seconds a day and keeps its nanoseconds.
#[verifier::external_body]
fn chrono_add_days(secs: i64, nanos: u32, days: i64) -> (r: Option<(i64, u32)>)
    requires
        representable(secs as int),
        nanos < NANOS_PER_SECOND,
    ensures
        r is Some <==> representable(secs + SECONDS_PER_DAY * days),
        r matches Some(t) ==> t.0 == secs + SECONDS_PER_DAY * days && t.1 == nanos,
{
    let t = DateTime::from_timestamp(secs, nanos)?;
    let delta = TimeDelta::try_days(days)?;
    let moved = t.checked_add_signed(delta)?;
    Some((moved.timestamp(), moved.timestamp_subsec_nanos()))
}

/// chrono's `DateTime::signed_duration_since` and `TimeDelta::to_std`, read
/// with `std::time::Duration::as_secs`. Claims that the conversion to a
/// standard duration succeeds exactly when `later` is not before `earlier`,
/// and then gives the whole seconds of the difference.
#[verifier::external_body]
fn chrono_elapsed_seconds(later: i64, later_nanos: u32, earlier: i64, earlier_nanos: u32) -> (r: Option<u64>)
    requires
        representable(later as int),
        representable(earlier as int),
        later_nanos < NANOS_PER_SECOND,
        earlier_nanos < NANOS_PER_SECOND,
    ensures
        r is Some <==> earlier * NANOS_PER_SECOND + earlier_nanos <= later * NANOS_PER_SECOND + later_nanos,
        r matches Some(s) ==> s == ((later * NANOS_PER_SECOND + later_nanos) - (earlier * NANOS_PER_SECOND
            + earlier_nanos)) / (NANOS_PER_SECOND as int),
{
    let later = DateTime::from_timestamp(later, later_nanos)?;
    let earlier = DateTime::from_timestamp(earlier, earlier_nanos)?;
    let elapsed = later.signed_duration_since(earlier).to_std().ok()?;
    Some(elapsed.as_secs())
}

impl Timestamp {
    /// Whether chrono can represent this instant (leap seconds aside).
    pub open spec fn valid(self) -> bool {
        representable(self.secs as int) && self.nanos < NANOS_PER_SECOND
    }

    /// The instant `secs` whole seconds after the Unix epoch, where chrono can represent it.
    pub fn from_unix_seconds(secs: i64) -> (r: Option<Timestamp>)
        ensures
            r is Some <==> representable(secs as int),
            r matches Some(t) ==> t.secs == secs && t.nanos == 0,
    {
        Timestamp::from_unix(secs, 0)
    }

    /// The instant `secs` seconds and `nanos` nanoseconds after the Unix
    /// epoch, where chrono can represent it and `nanos` is below one second.
    pub fn from_unix(secs: i64, nanos: u32) -> (r: Option<Timestamp>)
        ensures
            r is Some <==> representable(secs as int) && nanos < NANOS_PER_SECOND,
            r matches Some(t) ==> t.secs == secs && t.nanos == nanos,
    {
        if MIN_UNIX_SECONDS <= secs && secs <= MAX_UNIX_SECONDS && nanos < 1_000_000_000 {
            Some(Timestamp { secs, nanos })
        } else {
            None
        }
    }

    /// Whether chrono can represent this instant.
    pub fn is_valid(&self) -> (r: bool)
        ensures
            r == self.valid(),
    {
        MIN_UNIX_SECONDS <= self.secs && self.secs <= MAX_UNIX_SECONDS && self.nanos < 1_000_000_000
    }

    /// Whether this instant comes after `other`.
    pub fn is_after(&self, other: &Timestamp) -> (r: bool)
        requires
            self.valid(),
            other.valid(),
        ensures
            r == (instant_nanos(*self) > instant_nanos(*other)),
    {
        proof {
            if self.secs > other.secs {
                assert(self.secs * NANOS_PER_SECOND >= other.secs * NANOS_PER_SECOND + NANOS_PER_SECOND) by (nonlinear_arith)
                    requires self.secs > other.secs;
            } else if self.secs < other.secs {
                assert(other.secs * NANOS_PER_SECOND >= self.secs * NANOS_PER_SECOND + NANOS_PER_SECOND) by (nonlinear_arith)
                    requires self.secs < other.secs;
            }
        }
        self.secs > other.secs || (self.secs == other.secs && self.nanos > other.nanos)
    }

    /// The UTC calendar day of this instant.
    pub fn date(&self) -> (d: Day)
        requires
            self.valid(),
        ensures
            d.days_from_ce == day_number(self.secs as int),
    {
        match chrono_day_from_ce(self.secs, self.nanos) {
            Some(d) => Day { days_from_ce: d },
            None => Day { days_from_ce: 0 },
        }
    }

    /// This instant moved by a whole number of days, where the result is representable.
    pub fn checked_add_days(&self, days: i64) -> (r: Option<Timestamp>)
        requires
            self.valid(),
        ensures
            r is Some <==> representable(self.secs + SECONDS_PER_DAY * days),
            r matches Some(t) ==> t.secs == self.secs + SECONDS_PER_DAY * days && t.nanos == self.nanos,
    {
        match chrono_add_days(self.secs, self.nanos, days) {
            Some(t) => Some(Timestamp { secs: t.0, nanos: t.1 }),
            None => None,
        }
    }

    /// The number of whole days from `earlier` to this instant, or `None`
    /// where `earlier` is later than this instant.
    pub fn whole_days_since(&self, earlier: &Timestamp) -> (r: Option<u64>)
        requires
            self.valid(),
            earlier.valid(),
        ensures
            r is Some <==> instant_nanos(*earlier) <= instant_nanos(*self),
            r matches Some(n) ==> n == whole_days(*self, *earlier),
    {
        match chrono_elapsed_seconds(self.secs, self.nanos, earlier.secs, earlier.nanos) {
            Some(s) => Some(s / 86_400),
            None => None,
        }
    }
}


/// Moving an instant by `k` whole days moves its calendar day by `k`.
pub proof fn lemma_day_number_shift(secs: int, k: int)
    ensures
        day_number(secs + SECONDS_PER_DAY * k) == day_number(secs) + k,
{
    vstd::arithmetic::div_mod::lemma_fundamental_div_mod(secs, SECONDS_PER_DAY as int);
    vstd::arithmetic::div_mod::lemma_mod_bound(secs, SECONDS_PER_DAY as int);
    assert(secs + SECONDS_PER_DAY * k == SECONDS_PER_DAY * (secs / (SECONDS_PER_DAY as int) + k) + secs % (SECONDS_PER_DAY as int)) by (nonlinear_arith)
        requires secs == SECONDS_PER_DAY * (secs / (SECONDS_PER_DAY as int)) + secs % (SECONDS_PER_DAY as int);
    vstd::arithmetic::div_mod::lemma_div_multiples_vanish_fancy(secs / (SECONDS_PER_DAY as int) + k, secs % (SECONDS_PER_DAY as int), SECONDS_PER_DAY as int);
}

} // verus!
