//! Instants in UTC, as whole seconds since the Unix epoch and a nanosecond
//! part, and the two renderings of them that the commands use.

use vstd::prelude::*;
use crate::text::all_digits;

verus! {

/// Whether `chrono` has a calendar date for the day that holds the instant
/// `secs` seconds after the Unix epoch (the range check of
/// `DateTime::<Utc>::from_timestamp` on the day part).
pub uninterp spec fn chrono_day_in_range(secs: i64) -> bool;

/// The RFC 3339 text that `chrono` writes for the instant
/// (`DateTime::<Utc>::to_rfc3339`).
pub uninterp spec fn rfc3339_text(secs: i64, nanos: u32) -> Seq<char>;

/// The `%Y%m%d` rendering of the instant's UTC date by `chrono`.
pub uninterp spec fn utc_date_text(secs: i64, nanos: u32) -> Seq<char>;

/// The time-of-day check of `chrono`: the nanosecond part is below two
/// seconds, and it exceeds one second only during a leap second, that is in
/// the last second of a minute.
pub open spec fn time_of_day_ok(secs: i64, nanos: u32) -> bool {
    &&& nanos < 2_000_000_000
    &&& (nanos < 1_000_000_000 || (secs as int % 86_400) % 60 == 59)
}

/// The instant lies in the years 0000 to 9999 (UTC), from
/// 0000-01-01T00:00:00Z to 9999-12-31T23:59:59Z, where `chrono` writes `%Y`
/// as four digits without a sign.
pub open spec fn in_four_digit_years(secs: i64) -> bool {
    -62_167_219_200 <= secs <= 253_402_300_799
}

/// The instants that `chrono` represents as a `DateTime<Utc>`.
pub open spec fn chrono_valid(secs: i64, nanos: u32) -> bool {
    chrono_day_in_range(secs) && time_of_day_ok(secs, nanos)
}

/// Wraps `chrono::DateTime::<Utc>::from_timestamp`: it succeeds exactly when
/// the day lies in chrono's calendar range and the time of day is valid
/// (`NaiveTime::from_num_seconds_from_midnight_opt`).
#[verifier::external_body]
fn chrono_accepts(secs: i64, nanos: u32) -> (ok: bool)
    ensures
        ok == (chrono_day_in_range(secs) && time_of_day_ok(secs, nanos)),
{
    chrono::DateTime::<chrono::Utc>::from_timestamp(secs, nanos).is_some()
}

/// Wraps `chrono::DateTime::<Utc>::to_rfc3339` on the instant; the text is
/// named, not spelled out.
#[verifier::external_body]
fn chrono_rfc3339(secs: i64, nanos: u32) -> (s: String)
    requires
        chrono_valid(secs, nanos),
    ensures
        s@ == rfc3339_text(secs, nanos),
{
    chrono::DateTime::<chrono::Utc>::from_timestamp(secs, nanos).unwrap().to_rfc3339()
}

/// Wraps `chrono`'s `format("%Y%m%d")` of the instant in UTC; the text is
/// named, not spelled out. In the years 0000 to 9999 it is eight digits:
/// `%Y` zero-padded to four, `%m` and `%d` to two.
#[verifier::external_body]
fn chrono_date_yyyymmdd(secs: i64, nanos: u32) -> (s: String)
    requires
        chrono_valid(secs, nanos),
    ensures
        s@ == utc_date_text(secs, nanos),
        in_four_digit_years(secs) ==> s@.len() == 8 && all_digits(s@),
{
    chrono::DateTime::<chrono::Utc>::from_timestamp(secs, nanos).unwrap().format("%Y%m%d").to_string()
}

/// An instant that `chrono` can represent, kept as the seconds since the
/// Unix epoch and the nanoseconds within that second (above one billion
/// during a leap second).
#[derive(Debug, Clone, Copy, PartialEq, Eq)]
pub struct Timestamp {
    secs: i64,
    nanos: u32,
}

impl Timestamp {
    #[verifier::type_invariant]
    spec fn inv(self) -> bool {
        chrono_valid(self.secs, self.nanos)
    }

    /// The seconds since the Unix epoch.
    pub closed spec fn spec_secs(self) -> i64 {
        self.secs
    }

    /// The nanoseconds within the second.
    pub closed spec fn spec_nanos(self) -> u32 {
        self.nanos
    }

    /// The position of the instant on the time line: later instants have
    /// larger keys, and `DateTime<Utc>` orders instants by it.
    pub open spec fn key(self) -> int {
        self.spec_secs() as int * 4_294_967_296 + self.spec_nanos() as int
    }

    /// The instant `secs` seconds and `nanos` nanoseconds after the epoch, or
    /// `None` where `chrono` has no such instant.
    pub fn new(secs: i64, nanos: u32) -> (r: Option<Timestamp>)
        ensures
            r is Some <==> chrono_valid(secs, nanos),
            r matches Some(t) ==> t.spec_secs() == secs && t.spec_nanos() == nanos,
    {
        if chrono_accepts(secs, nanos) {
            Some(Timestamp { secs, nanos })
        } else {
            None
        }
    }

    /// The seconds since the Unix epoch.
    pub fn secs(&self) -> (s: i64)
        ensures
            s == self.spec_secs(),
    {
        self.secs
    }

    /// The nanoseconds within the second.
    pub fn nanos(&self) -> (n: u32)
        ensures
            n == self.spec_nanos(),
    {
        self.nanos
    }

    /// Whether `self` lies strictly after `other` on the time line.
    pub fn is_after(&self, other: &Timestamp) -> (r: bool)
        ensures
            r == (self.key() > other.key()),
    {
        self.secs > other.secs || (self.secs == other.secs && self.nanos > other.nanos)
    }

    /// The RFC 3339 rendering of the instant, as `chrono` writes it.
    pub fn to_rfc3339(&self) -> (s: String)
        ensures
            s@ == rfc3339_text(self.spec_secs(), self.spec_nanos()),
    {
        proof {
            use_type_invariant(self);
        }
        chrono_rfc3339(self.secs, self.nanos)
    }

    /// The UTC date of the instant as `YYYYMMDD`, as `chrono` writes it;
    /// eight digits in the years 0000 to 9999.
    pub fn date_yyyymmdd(&self) -> (s: String)
        ensures
            s@ == utc_date_text(self.spec_secs(), self.spec_nanos()),
            in_four_digit_years(self.spec_secs()) ==> s@.len() == 8 && all_digits(s@),
    {
        proof {
            use_type_invariant(self);
        }
        chrono_date_yyyymmdd(self.secs, self.nanos)
    }
}

} // verus!
