//! Moments in time and the spans between them.

use vstd::prelude::*;

verus! {

/// Nanoseconds in one second.
pub const NANOS: u32 = 1_000_000_000;

/// The first second a calendar date can be given for.
pub const FIRST_SECOND: i64 = -8_334_601_228_800;

/// The last second a calendar date can be given for.
pub const LAST_SECOND: i64 = 8_210_266_876_799;

/// A moment in coordinated universal time.
#[derive(Debug, Clone, Copy, PartialEq, Eq, Structural)]
pub struct Moment {
    /// Whole seconds since the start of 1970.
    pub seconds: i64,
    /// Nanoseconds since that second.
    pub nanos: u32,
}

impl Moment {
    /// Whether a calendar date can be given for the moment.
    pub open spec fn valid(self) -> bool {
        FIRST_SECOND <= self.seconds <= LAST_SECOND && self.nanos < NANOS
    }

    /// Nanoseconds since the start of 1970.
    pub open spec fn at(self) -> int {
        self.seconds * NANOS + self.nanos
    }
}

/// A length of time.
#[derive(Debug, Clone, Copy, PartialEq, Eq, Structural)]
pub struct Span {
    /// Whole seconds.
    pub seconds: u64,
    /// Nanoseconds beyond them.
    pub nanos: u32,
}

impl Span {
    /// The length in nanoseconds.
    pub open spec fn length(self) -> int {
        self.seconds * NANOS + self.nanos
    }

    /// Whether this length is at most a number of seconds.
    pub fn within(&self, seconds: u64) -> (r: bool)
        requires
            self.nanos < NANOS,
        ensures
            r == (self.length() <= seconds * NANOS),
    {
        self.seconds < seconds || (self.seconds == seconds && self.nanos == 0)
    }
}

/// Now, as the system clock has it.
///
/// Calls `chrono::Utc::now` and reads the result's `timestamp` and `timestamp_subsec_nanos`.
/// Claimed of it is only that the moment has a calendar date.
#[verifier::external_body]
pub(crate) fn now() -> (r: Moment)
    ensures
        r.valid(),
{
    let now = chrono::Utc::now();
    Moment { seconds: now.timestamp(), nanos: now.timestamp_subsec_nanos() }
}

/// The moment a number of seconds after the start of 1970, where it has a calendar date.
///
/// Calls `chrono::DateTime::from_timestamp_secs`, which gives a date for exactly the seconds from
/// the start of the year -262143 to the end of the year 262142, and keeps the number it was given.
#[verifier::external_body]
pub(crate) fn from_timestamp_secs(seconds: i64) -> (r: Option<Moment>)
    ensures
        r is Some == (FIRST_SECOND <= seconds <= LAST_SECOND),
        r matches Some(m) ==> m == (Moment { seconds, nanos: 0 }),
{
    chrono::DateTime::from_timestamp_secs(seconds).map(
        |at| Moment { seconds: at.timestamp(), nanos: at.timestamp_subsec_nanos() },
    )
}

/// The moment a number of milliseconds after the start of 1970, where it has a calendar date.
///
/// Calls `chrono::DateTime::from_timestamp_millis`, which takes the whole seconds towards the past
/// and the rest as nanoseconds, and gives a date for the same seconds as
/// `chrono::DateTime::from_timestamp_secs` does.
#[verifier::external_body]
pub(crate) fn from_timestamp_millis(millis: i64) -> (r: Option<Moment>)
    ensures
        r is Some == (FIRST_SECOND <= millis as int / 1000 <= LAST_SECOND),
        r matches Some(m) ==> m.seconds == millis as int / 1000 && m.nanos == (millis as int % 1000)
            * 1_000_000,
{
    chrono::DateTime::from_timestamp_millis(millis).map(
        |at| Moment { seconds: at.timestamp(), nanos: at.timestamp_subsec_nanos() },
    )
}

/// How a moment is written in the form of RFC 3339, in coordinated universal time.
pub uninterp spec fn rfc3339_text(seconds: i64, nanos: u32) -> Seq<char>;

/// A moment in the form of RFC 3339.
///
/// Calls `to_rfc3339` on the result of `chrono::DateTime::from_timestamp`, which is there for
/// every moment that has a calendar date.
/// The text depends on the moment alone.
#[verifier::external_body]
pub(crate) fn rfc3339(at: Moment) -> (r: String)
    requires
        at.valid(),
    ensures
        r@ == rfc3339_text(at.seconds, at.nanos),
{
    chrono::DateTime::from_timestamp(at.seconds, at.nanos).unwrap().to_rfc3339()
}

/// How a moment is written after a pattern of date and time fields, in coordinated universal time.
pub uninterp spec fn patterned_text(seconds: i64, nanos: u32, pattern: Seq<char>) -> Seq<char>;

/// A moment written after the one pattern that ids start with.
///
/// Calls `format` on the result of `chrono::DateTime::from_timestamp`, which is there for every
/// moment that has a calendar date; the pattern is made of fields that `format` knows.
/// The text depends on the moment and the pattern alone.
/// What it looks like is left unsaid: a year of more than four digits is written with a sign.
#[verifier::external_body]
pub(crate) fn patterned(at: Moment, pattern: &str) -> (r: String)
    requires
        at.valid(),
        pattern@ == "%Y%m%dT%H%M%S"@,
    ensures
        r@ == patterned_text(at.seconds, at.nanos, pattern@),
{
    chrono::DateTime::from_timestamp(at.seconds, at.nanos).unwrap().format(pattern).to_string()
}

/// How long `later` is after `earlier`, or nothing where it is before it.
pub fn since(later: Moment, earlier: Moment) -> (r: Option<Span>)
    requires
        later.valid(),
        earlier.valid(),
    ensures
        r is Some == (earlier.at() <= later.at()),
        r matches Some(span) ==> span.length() == later.at() - earlier.at() && span.nanos < NANOS,
{
    let seconds: i64 = later.seconds - earlier.seconds;
    if later.nanos >= earlier.nanos {
        if seconds < 0 {
            None
        } else {
            Some(Span { seconds: seconds as u64, nanos: later.nanos - earlier.nanos })
        }
    } else if seconds <= 0 {
        None
    } else {
        Some(
            Span { seconds: (seconds - 1) as u64, nanos: later.nanos + NANOS - earlier.nanos },
        )
    }
}

} // verus!
