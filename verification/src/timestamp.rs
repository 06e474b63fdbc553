//! Instants in UTC with nanosecond resolution, their conversions from the
//! clock and from Unix timestamps, and the "time ago" wording of the timeline.
use vstd::prelude::*;
use crate::text::{concat2, decimal, decimal_string, owned};

verus! {

/// Earliest whole second (Unix time) that a UTC date-time can hold.
pub const MIN_SECS: i64 = -8334601228800;

/// Latest whole second (Unix time) that a UTC date-time can hold.
pub const MAX_SECS: i64 = 8210266876799;

/// Nanoseconds in one second.
pub const NANOS_PER_SEC: i64 = 1000000000;

/// An instant is a number of nanoseconds since the Unix epoch in the range
/// that UTC date-times cover.
pub open spec fn valid_instant(n: int) -> bool {
    MIN_SECS * NANOS_PER_SEC <= n < (MAX_SECS + 1) * NANOS_PER_SEC
}

/// A UTC instant. Its view is the number of nanoseconds since the Unix epoch.
#[derive(Clone, Copy, Debug)]
pub struct Timestamp {
    secs: i64,
    nanos: u32,
}

impl Timestamp {
    #[verifier::type_invariant]
    closed spec fn wf(self) -> bool {
        MIN_SECS <= self.secs <= MAX_SECS && self.nanos < NANOS_PER_SEC
    }
}

impl View for Timestamp {
    type V = int;

    closed spec fn view(&self) -> int {
        self.secs * NANOS_PER_SEC + self.nanos
    }
}

/// Whole seconds in a span of `d` nanoseconds, rounded toward zero.
pub open spec fn whole_seconds(d: int) -> int {
    if d >= 0 {
        d / NANOS_PER_SEC as int
    } else {
        -((-d) / NANOS_PER_SEC as int)
    }
}

/// "Time ago" wording for an age of `secs` whole seconds: "yesterday" for
/// one whole day, else the count of the largest unit that fits.
pub open spec fn age_text(secs: int) -> Seq<char> {
    let minutes = secs / 60;
    let hours = secs / 3600;
    let days = secs / 86400;
    if secs < 60 {
        decimal(secs) + "s ago"@
    } else if minutes < 60 {
        decimal(minutes) + "m ago"@
    } else if hours < 24 {
        decimal(hours) + "h ago"@
    } else if days == 1 {
        "yesterday"@
    } else if days < 7 {
        decimal(days) + "d ago"@
    } else if days < 30 {
        decimal(days / 7) + "w ago"@
    } else if days < 365 {
        decimal(days / 30) + "mo ago"@
    } else {
        decimal(days / 365) + "y ago"@
    }
}

/// Wording for the age of instant `then` seen at instant `now`.
pub open spec fn relative_time(then: int, now: int) -> Seq<char> {
    age_text(whole_seconds(now - then))
}

/// Whether chrono's `DateTime::<Utc>::from_timestamp(secs, 0)` yields a date.
pub open spec fn secs_in_range(secs: int) -> bool {
    MIN_SECS <= secs <= MAX_SECS
}

/// Whether chrono's `DateTime::<Utc>::from_timestamp_millis(ms)` yields a date.
pub open spec fn millis_in_range(ms: int) -> bool {
    MIN_SECS * 1000 <= ms <= MAX_SECS * 1000 + 999
}

/// The system clock's time type, carried through opaquely.
#[verifier::external_type_specification]
#[verifier::external_body]
pub struct ExSystemTime(std::time::SystemTime);

/// `std::time::SystemTime::now`: the system clock's reading. Nothing is
/// claimed of it: it depends on the clock.
#[verifier::external_body]
fn system_time_now() -> (r: std::time::SystemTime) {
    std::time::SystemTime::now()
}

/// `SystemTime::duration_since(UNIX_EPOCH)`, as the whole seconds and the
/// nanoseconds past them of the `Duration` it gives (`Duration::as_secs`,
/// `Duration::subsec_nanos`); `None` where it reports an error, which it does
/// for a time before the epoch. Claimed: the nanoseconds are below one second,
/// as `Duration::subsec_nanos` documents. Which reading comes back depends on
/// the clock and is not stated.
#[verifier::external_body]
fn duration_since_epoch(t: std::time::SystemTime) -> (r: Option<(u64, u32)>)
    ensures
        r matches Some(p) ==> p.1 < NANOS_PER_SEC,
{
    match t.duration_since(std::time::UNIX_EPOCH) {
        Ok(d) => Some((d.as_secs(), d.subsec_nanos())),
        Err(_) => None,
    }
}

/// `chrono::DateTime::<Utc>::from_timestamp(secs, nanos)` for nanoseconds
/// below one second, as whole seconds and nanoseconds. Claimed: it yields a
/// date exactly for the seconds from `MIN_SECS` to `MAX_SECS` (January 1 of
/// year -262143 to December 31 of year 262142), and that date has the given
/// seconds and nanoseconds.
#[verifier::external_body]
fn chrono_from_timestamp(secs: i64, nanos: u32) -> (r: Option<(i64, u32)>)
    requires
        nanos < NANOS_PER_SEC,
    ensures
        r is Some <==> secs_in_range(secs as int),
        r matches Some(p) ==> p.0 == secs && p.1 == nanos,
{
    match chrono::DateTime::<chrono::Utc>::from_timestamp(secs, nanos) {
        Some(d) => Some((d.timestamp(), d.timestamp_subsec_nanos())),
        None => None,
    }
}

/// `chrono::DateTime::<Utc>::from_timestamp_millis(ms)`, as whole seconds and
/// nanoseconds. Claimed: it yields a date exactly when `ms.div_euclid(1000)`
/// lies from `MIN_SECS` to `MAX_SECS`, with seconds `ms.div_euclid(1000)` and
/// nanoseconds `ms.rem_euclid(1000) * 1_000_000`.
#[verifier::external_body]
fn chrono_from_millis(ms: i64) -> (r: Option<(i64, u32)>)
    ensures
        r is Some <==> millis_in_range(ms as int),
        r matches Some(p) ==> p.0 == (ms as int) / 1000 && p.1 == ((ms as int) % 1000) * 1000000,
{
    match chrono::DateTime::<chrono::Utc>::from_timestamp_millis(ms) {
        Some(d) => Some((d.timestamp(), d.timestamp_subsec_nanos())),
        None => None,
    }
}

impl Timestamp {
    /// The current instant, read from the system clock as a span since the
    /// Unix epoch and made a date-time by chrono (`Utc::now()`); `None` when
    /// the clock reads before the epoch or beyond the date-times chrono can
    /// hold. Which instant it is depends on the clock and is not stated;
    /// `from_clock_reading` says what each reading gives.
    pub fn now() -> (r: Option<Timestamp>)
        ensures
            r matches Some(t) ==> valid_instant(t@) && t@ >= 0,
    {
        match duration_since_epoch(system_time_now()) {
            Some((secs, nanos)) => Timestamp::from_clock_reading(secs, nanos),
            None => None,
        }
    }

    /// The instant a clock reading of `secs` whole seconds and `nanos`
    /// nanoseconds after the Unix epoch stands for, when a UTC date-time can
    /// hold it (`DateTime::from_timestamp(secs, nanos)`).
    pub fn from_clock_reading(secs: u64, nanos: u32) -> (r: Option<Timestamp>)
        requires
            nanos < NANOS_PER_SEC,
        ensures
            r is Some <==> secs <= MAX_SECS,
            r matches Some(t) ==> t@ == secs * NANOS_PER_SEC + nanos && valid_instant(t@),
    {
        if secs > 9223372036854775807u64 {
            return None;
        }
        match chrono_from_timestamp(secs as i64, nanos) {
            Some(p) => Some(Timestamp { secs: p.0, nanos: p.1 }),
            None => None,
        }
    }

    /// The instant `secs` whole seconds after the Unix epoch, when a UTC
    /// date-time can hold it (`DateTime::from_timestamp(secs, 0)`).
    pub fn from_secs(secs: i64) -> (r: Option<Timestamp>)
        ensures
            r is Some <==> secs_in_range(secs as int),
            r matches Some(t) ==> t@ == secs * NANOS_PER_SEC && valid_instant(t@),
    {
        match chrono_from_timestamp(secs, 0) {
            Some(p) => Some(Timestamp { secs: p.0, nanos: p.1 }),
            None => None,
        }
    }

    /// The instant `ms` milliseconds after the Unix epoch, when a UTC
    /// date-time can hold it (`DateTime::from_timestamp_millis(ms)`).
    pub fn from_millis(ms: i64) -> (r: Option<Timestamp>)
        ensures
            r is Some <==> millis_in_range(ms as int),
            r matches Some(t) ==> t@ == ms * 1000000 && valid_instant(t@),
    {
        match chrono_from_millis(ms) {
            Some(p) => {
                assert(p.0 * NANOS_PER_SEC + p.1 == ms * 1000000) by (nonlinear_arith)
                    requires
                        p.0 == (ms as int) / 1000,
                        p.1 == ((ms as int) % 1000) * 1000000,
                ;
                Some(Timestamp { secs: p.0, nanos: p.1 })
            },
            None => None,
        }
    }

    /// Whole seconds since the Unix epoch (`DateTime::timestamp`).
    pub fn secs(&self) -> (r: i64)
        ensures
            r == self@ / NANOS_PER_SEC as int,
    {
        proof {
            use_type_invariant(self);
        }
        self.secs
    }

    /// Nanoseconds past the whole second (`DateTime::timestamp_subsec_nanos`).
    pub fn subsec_nanos(&self) -> (r: u32)
        ensures
            r == self@ % NANOS_PER_SEC as int,
    {
        proof {
            use_type_invariant(self);
        }
        self.nanos
    }

    /// Milliseconds since the Unix epoch, rounded down
    /// (`DateTime::timestamp_millis`).
    pub fn millis(&self) -> (r: i64)
        ensures
            r == self@ / 1000000,
    {
        proof {
            use_type_invariant(self);
        }
        let r = self.secs * 1000 + (self.nanos / 1000000) as i64;
        assert(r == (self.secs * NANOS_PER_SEC + self.nanos) / 1000000) by (nonlinear_arith)
            requires
                r == self.secs * 1000 + self.nanos / 1000000,
                0 <= self.nanos < 1000000000,
        ;
        r
    }

    /// Whether `self` is a later instant than `other`.
    pub fn is_after(&self, other: &Timestamp) -> (r: bool)
        ensures
            r == (self@ > other@),
    {
        proof {
            use_type_invariant(self);
            use_type_invariant(other);
        }
        self.secs > other.secs || (self.secs == other.secs && self.nanos > other.nanos)
    }

    /// Whether `self` and `other` are the same instant.
    pub fn same_instant(&self, other: &Timestamp) -> (r: bool)
        ensures
            r == (self@ == other@),
    {
        proof {
            use_type_invariant(self);
            use_type_invariant(other);
        }
        self.secs == other.secs && self.nanos == other.nanos
    }
}

/// Whole seconds from `then` to `now`, rounded toward zero
/// (`now.signed_duration_since(then).num_seconds()`).
pub fn seconds_between(then: &Timestamp, now: &Timestamp) -> (r: i64)
    ensures
        r == whole_seconds(now@ - then@),
{
    proof {
        use_type_invariant(then);
        use_type_invariant(now);
    }
    let d: i128 = (now.secs as i128 - then.secs as i128) * 1000000000 + (now.nanos as i128
        - then.nanos as i128);
    assert(d == now@ - then@);
    if d >= 0 {
        (d / 1000000000) as i64
    } else {
        let q = (0 - d) / 1000000000;
        (0 - q) as i64
    }
}

/// Wording for an age given in whole seconds.
pub fn format_age(secs: i64) -> (r: String)
    ensures
        r@ == age_text(secs as int),
{
    let minutes = secs / 60;
    let hours = secs / 3600;
    let days = secs / 86400;
    if secs < 60 {
        concat2(decimal_string(secs).as_str(), "s ago")
    } else if minutes < 60 {
        concat2(decimal_string(minutes).as_str(), "m ago")
    } else if hours < 24 {
        concat2(decimal_string(hours).as_str(), "h ago")
    } else if days == 1 {
        owned("yesterday")
    } else if days < 7 {
        concat2(decimal_string(days).as_str(), "d ago")
    } else if days < 30 {
        concat2(decimal_string(days / 7).as_str(), "w ago")
    } else if days < 365 {
        concat2(decimal_string(days / 30).as_str(), "mo ago")
    } else {
        concat2(decimal_string(days / 365).as_str(), "y ago")
    }
}

/// "Time ago" wording for `timestamp` seen at `now`: seconds under a
/// minute, then minutes, hours, "yesterday" for one whole day, days, weeks,
/// months of 30 days, years of 365 days.
pub fn format_relative_time(timestamp: &Timestamp, now: &Timestamp) -> (r: String)
    ensures
        r@ == relative_time(timestamp@, now@),
{
    let secs = seconds_between(timestamp, now);
    format_age(secs)
}

} // verus!
