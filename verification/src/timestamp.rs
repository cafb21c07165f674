//! Points in time as whole seconds and nanoseconds since the Unix epoch (UTC).
//!
//! Every `Timestamp` lies in the range that chrono's `DateTime<Utc>` can
//! represent; the conversions to text are chrono's own.

use vstd::prelude::*;

verus! {

/// Whether chrono's `DateTime::<Utc>::from_timestamp(secs, nanos)` gives a
/// date-time (rather than `None`).
pub uninterp spec fn chrono_accepts_timestamp(secs: i64, nanos: u32) -> bool;

/// The text that chrono's `DateTime::<Utc>::to_rfc3339` gives for the
/// date-time `from_timestamp(secs, nanos)`.
pub uninterp spec fn chrono_rfc3339(secs: i64, nanos: u32) -> Seq<char>;

/// The text that chrono's `format(pattern)` gives for the date-time
/// `from_timestamp(secs, 0)`.
pub uninterp spec fn chrono_utc_format(secs: i64, pattern: Seq<char>) -> Seq<char>;

/// Calls chrono's `DateTime::<Utc>::from_timestamp(secs, nanos)` and reports
/// whether it gave a date-time. Claimed: the answer is fixed by the
/// arguments, and for seconds between 0 and 1.9e12 with nanoseconds below
/// 1e9 it is `true`. That is before the year 62,000, inside chrono's date
/// range (up to the year 262,142); from_timestamp fails only outside that
/// range, or for nanoseconds of 1e9 and more outside a leap second.
#[verifier::external_body]
pub(crate) fn utc_timestamp_in_range(secs: i64, nanos: u32) -> (ok: bool)
    ensures
        ok == chrono_accepts_timestamp(secs, nanos),
        0 <= secs <= 1_900_000_000_000 && nanos < 1_000_000_000 ==> ok,
{
    chrono::DateTime::<chrono::Utc>::from_timestamp(secs, nanos).is_some()
}

/// Calls chrono's `Utc::now()` and splits the result into seconds and
/// nanoseconds since the epoch. Claimed: the pair is one that chrono accepts
/// back (it came from a chrono date-time). Nothing is claimed about which
/// instant it is.
#[verifier::external_body]
fn utc_now_parts() -> (r: (i64, u32))
    ensures
        chrono_accepts_timestamp(r.0, r.1),
{
    let now = chrono::Utc::now();
    (now.timestamp(), now.timestamp_subsec_nanos())
}

/// Calls chrono's `DateTime::<Utc>::to_rfc3339` on `from_timestamp(secs,
/// nanos)`. Claimed: the text is the named result for these arguments.
#[verifier::external_body]
fn rfc3339_text(secs: i64, nanos: u32) -> (s: String)
    requires
        chrono_accepts_timestamp(secs, nanos),
    ensures
        s@ == chrono_rfc3339(secs, nanos),
{
    chrono::DateTime::<chrono::Utc>::from_timestamp(secs, nanos).unwrap().to_rfc3339()
}

/// Calls chrono's `format(pattern).to_string()` on `from_timestamp(secs, 0)`.
/// The pattern is held to the one the library uses, which chrono accepts.
/// Claimed: the text is the named result for these arguments.
#[verifier::external_body]
pub(crate) fn utc_format_text(secs: i64, pattern: &str) -> (s: String)
    requires
        chrono_accepts_timestamp(secs, 0),
        pattern@ == ISO_DATE_TIME_PATTERN@,
    ensures
        s@ == chrono_utc_format(secs, pattern@),
{
    chrono::DateTime::<chrono::Utc>::from_timestamp(secs, 0).unwrap().format(pattern).to_string()
}

/// The strftime pattern used to render PLC DATE and DT values.
pub const ISO_DATE_TIME_PATTERN: &'static str = "%Y-%m-%dT%H:%M:%SZ";

/// A UTC instant: seconds and nanoseconds since 1970-01-01T00:00:00Z.
pub struct Timestamp {
    secs: i64,
    nanos: u32,
}

impl View for Timestamp {
    type V = (i64, u32);

    closed spec fn view(&self) -> (i64, u32) {
        (self.secs, self.nanos)
    }
}

impl Clone for Timestamp {
    fn clone(&self) -> (t: Self)
        ensures
            t@ == self@,
    {
        proof {
            use_type_invariant(self);
        }
        Timestamp { secs: self.secs, nanos: self.nanos }
    }
}

impl Timestamp {
    #[verifier::type_invariant]
    closed spec fn inv(&self) -> bool {
        chrono_accepts_timestamp(self.secs, self.nanos)
    }

    /// The timestamp `secs` seconds and `nanos` nanoseconds after the epoch,
    /// or `None` where chrono has no such date-time.
    pub fn from_unix(secs: i64, nanos: u32) -> (r: Option<Timestamp>)
        ensures
            r is Some <==> chrono_accepts_timestamp(secs, nanos),
            r matches Some(t) ==> t@ == (secs, nanos),
            0 <= secs <= 1_900_000_000_000 && nanos < 1_000_000_000 ==> r is Some,
    {
        if utc_timestamp_in_range(secs, nanos) {
            Some(Timestamp { secs, nanos })
        } else {
            None
        }
    }

    /// The current time.
    pub fn now() -> (t: Timestamp) {
        let (secs, nanos) = utc_now_parts();
        Timestamp { secs, nanos }
    }

    /// Whole seconds since the epoch.
    pub fn secs(&self) -> (s: i64)
        ensures
            s == self@.0,
    {
        self.secs
    }

    /// Nanoseconds past the whole second.
    pub fn nanos(&self) -> (n: u32)
        ensures
            n == self@.1,
    {
        self.nanos
    }

    /// RFC 3339 text of this instant, as chrono writes it.
    pub fn to_rfc3339(&self) -> (s: String)
        ensures
            s@ == chrono_rfc3339(self@.0, self@.1),
    {
        proof {
            use_type_invariant(self);
        }
        rfc3339_text(self.secs, self.nanos)
    }
}

} // verus!
