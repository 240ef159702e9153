//! Points in time and signed spans between them, with the clock and the
//! calendar text that chrono computes.
//!
//! A `Timestamp` holds what a `chrono::DateTime` holds: seconds and
//! nanoseconds since the Unix epoch in UTC, and the offset of the local time
//! from UTC. A `TimeDelta` holds a signed span in nanoseconds, within the
//! range of `chrono::TimeDelta` (plus or minus `i64::MAX` milliseconds).

use chrono::{DateTime, FixedOffset, Local, TimeZone, Utc};
use std::time::Instant;
use vstd::prelude::*;

use crate::text::pad2;

verus! {

/// Seconds since the epoch of the first instant chrono can represent
/// (January 1, 262144 BCE, 00:00:00 UTC).
pub const MIN_TIMESTAMP: i64 = -8_334_601_228_800;

/// Seconds since the epoch of the last whole second chrono can represent
/// (December 31, 262142 CE, 23:59:59 UTC).
pub const MAX_TIMESTAMP: i64 = 8_210_266_876_799;

/// Nanoseconds in a second.
pub const NANOS_PER_SEC: i128 = 1_000_000_000;

/// The largest span chrono's `TimeDelta` holds: `i64::MAX` milliseconds, in nanoseconds.
pub const MAX_DELTA_NANOS: i128 = 9_223_372_036_854_775_807_000_000;

/// A point in time together with the local offset it is shown in.
#[derive(Clone, Copy, Debug)]
pub struct Timestamp {
    /// Whole seconds since 1970-01-01 00:00:00 UTC.
    pub secs: i64,
    /// Nanoseconds past `secs`.
    pub nanos: u32,
    /// Local time minus UTC, in seconds.
    pub offset: i32,
}

/// A signed span of time.
#[derive(Clone, Copy, Debug)]
pub struct TimeDelta {
    /// The span in nanoseconds.
    pub nanos: i128,
}

/// The first nanosecond (since the epoch) that chrono can represent.
pub open spec fn min_instant() -> int {
    MIN_TIMESTAMP * NANOS_PER_SEC
}

/// The last nanosecond (since the epoch) that chrono can represent.
pub open spec fn max_instant() -> int {
    MAX_TIMESTAMP * NANOS_PER_SEC + (NANOS_PER_SEC - 1)
}

/// Whether a span fits in chrono's `TimeDelta`.
pub open spec fn delta_in_range(n: int) -> bool {
    -MAX_DELTA_NANOS <= n <= MAX_DELTA_NANOS
}

/// Whole seconds of a span of `n` nanoseconds, truncated toward zero.
pub open spec fn whole_secs(n: int) -> int {
    if n >= 0 {
        n / NANOS_PER_SEC as int
    } else {
        -((-n) / NANOS_PER_SEC as int)
    }
}

impl Timestamp {
    /// A timestamp that chrono can represent.
    pub open spec fn wf(self) -> bool {
        &&& MIN_TIMESTAMP <= self.secs <= MAX_TIMESTAMP
        &&& self.nanos < NANOS_PER_SEC
        &&& -86_400 < self.offset < 86_400
    }

    /// Nanoseconds since the epoch.
    pub open spec fn instant(self) -> int {
        self.secs * NANOS_PER_SEC + self.nanos
    }

    /// Seconds since the epoch of the local wall-clock reading.
    pub open spec fn local_secs(self) -> int {
        self.secs + self.offset
    }

    /// Whether chrono can represent the timestamp.
    pub fn is_valid(&self) -> (r: bool)
        ensures
            r == self.wf(),
    {
        MIN_TIMESTAMP <= self.secs && self.secs <= MAX_TIMESTAMP && (self.nanos as i128)
            < NANOS_PER_SEC && -86_400 < self.offset && self.offset < 86_400
    }

    /// The span from `earlier` to `self`; `DateTime - DateTime` in chrono,
    /// which is exact for timestamps that are not leap seconds.
    pub fn duration_since(&self, earlier: &Timestamp) -> (d: TimeDelta)
        requires
            self.wf(),
            earlier.wf(),
        ensures
            d.nanos == self.instant() - earlier.instant(),
            d.wf(),
    {
        let a: i128 = (self.secs as i128) * NANOS_PER_SEC + (self.nanos as i128);
        let b: i128 = (earlier.secs as i128) * NANOS_PER_SEC + (earlier.nanos as i128);
        TimeDelta { nanos: a - b }
    }

    /// The timestamp `d` after `self`, shown in the machine's time zone at that
    /// instant; `DateTime<Local> + TimeDelta` in chrono. Chrono panics where
    /// the sum leaves its range, which `requires` leaves out.
    pub fn plus_local(&self, d: TimeDelta) -> (t: Timestamp)
        requires
            self.wf(),
            d.wf(),
            min_instant() <= self.instant() + d.nanos <= max_instant(),
        ensures
            t.wf(),
            t.instant() == self.instant() + d.nanos,
    {
        let n: i128 = (self.secs as i128) * NANOS_PER_SEC + (self.nanos as i128) + d.nanos;
        let (secs, nanos) = split_instant(n);
        let offset = local_offset_at(secs, nanos);
        Timestamp { secs, nanos, offset }
    }
}

/// Splits nanoseconds since the epoch into whole seconds (rounded down) and
/// the nanoseconds past them.
fn split_instant(n: i128) -> (r: (i64, u32))
    requires
        min_instant() <= n <= max_instant(),
    ensures
        MIN_TIMESTAMP <= r.0 <= MAX_TIMESTAMP,
        r.1 < NANOS_PER_SEC,
        r.0 * NANOS_PER_SEC + r.1 == n,
{
    if n >= 0 {
        let q: i128 = n / NANOS_PER_SEC;
        let r: i128 = n % NANOS_PER_SEC;
        (q as i64, r as u32)
    } else {
        let m: i128 = -n;
        let q: i128 = m / NANOS_PER_SEC;
        let r: i128 = m % NANOS_PER_SEC;
        if r == 0 {
            (-q as i64, 0u32)
        } else {
            ((-q - 1) as i64, (NANOS_PER_SEC - r) as u32)
        }
    }
}

impl TimeDelta {
    /// A span that chrono's `TimeDelta` can hold.
    pub open spec fn wf(self) -> bool {
        delta_in_range(self.nanos as int)
    }

    /// The empty span.
    pub fn zero() -> (d: TimeDelta)
        ensures
            d.nanos == 0,
            d.wf(),
    {
        TimeDelta { nanos: 0 }
    }

    /// Whole seconds, truncated toward zero; `TimeDelta::num_seconds` in chrono.
    pub fn num_seconds(&self) -> (s: i64)
        requires
            self.wf(),
        ensures
            s == whole_secs(self.nanos as int),
    {
        if self.nanos >= 0 {
            (self.nanos / NANOS_PER_SEC) as i64
        } else {
            let m: i128 = -self.nanos;
            -((m / NANOS_PER_SEC) as i64)
        }
    }

    /// The sum, or `None` where it leaves chrono's range (where chrono's `+`
    /// panics).
    pub fn checked_add(&self, other: &TimeDelta) -> (r: Option<TimeDelta>)
        requires
            self.wf(),
            other.wf(),
        ensures
            r matches Some(d) ==> d.nanos == self.nanos + other.nanos && d.wf(),
            r is Some <==> delta_in_range(self.nanos + other.nanos),
    {
        let n: i128 = self.nanos + other.nanos;
        if -MAX_DELTA_NANOS <= n && n <= MAX_DELTA_NANOS {
            Some(TimeDelta { nanos: n })
        } else {
            None
        }
    }

    /// The difference, or `None` where it leaves chrono's range (where
    /// chrono's `-` panics).
    pub fn checked_sub(&self, other: &TimeDelta) -> (r: Option<TimeDelta>)
        requires
            self.wf(),
            other.wf(),
        ensures
            r matches Some(d) ==> d.nanos == self.nanos - other.nanos && d.wf(),
            r is Some <==> delta_in_range(self.nanos - other.nanos),
    {
        let n: i128 = self.nanos - other.nanos;
        if -MAX_DELTA_NANOS <= n && n <= MAX_DELTA_NANOS {
            Some(TimeDelta { nanos: n })
        } else {
            None
        }
    }
}

/// A reading of the monotonic clock; `std::time::Instant`.
#[verifier::external_type_specification]
#[verifier::external_body]
pub struct ExInstant(Instant);

/// The monotonic clock now; `Instant::now`. Nothing is stated of a reading.
#[verifier::external_body]
pub fn instant_now() -> Instant {
    Instant::now()
}

/// Nanoseconds from `earlier` to `later`; `Instant::duration_since` (which
/// gives zero when `later` is the earlier one) taken by `as_nanos`. Readings
/// of the clock are opaque here, so nothing is stated of the result.
#[verifier::external_body]
pub fn nanos_between(later: &Instant, earlier: &Instant) -> u128 {
    later.duration_since(*earlier).as_nanos()
}

/// The current time in the machine's time zone; `chrono::Local::now`.
/// Only what holds of every reading is stated: chrono can represent it.
#[verifier::external_body]
pub fn local_now() -> (t: Timestamp)
    ensures
        t.wf(),
{
    let now = Local::now();
    Timestamp {
        secs: now.timestamp(),
        nanos: now.timestamp_subsec_nanos(),
        offset: now.offset().local_minus_utc(),
    }
}

/// The current time in UTC; `chrono::Utc::now`. Only what holds of every
/// reading is stated: chrono can represent it, and the offset is zero.
#[verifier::external_body]
pub fn utc_now() -> (t: Timestamp)
    ensures
        t.wf(),
        t.offset == 0,
{
    let now = Utc::now();
    Timestamp { secs: now.timestamp(), nanos: now.timestamp_subsec_nanos(), offset: 0 }
}

/// The offset of the machine's time zone at a UTC instant;
/// `Local::offset_from_utc_datetime` in chrono. It depends on the machine's
/// zone data, so only the range of a `FixedOffset` is stated. Chrono panics
/// where that zone data names no local time type, which nothing here can see.
#[verifier::external_body]
pub fn local_offset_at(secs: i64, nanos: u32) -> (offset: i32)
    requires
        MIN_TIMESTAMP <= secs <= MAX_TIMESTAMP,
        nanos < NANOS_PER_SEC,
    ensures
        -86_400 < offset < 86_400,
{
    let utc = DateTime::from_timestamp(secs, nanos).unwrap().naive_utc();
    Local.offset_from_utc_datetime(&utc).local_minus_utc()
}

/// The local time of day `HH:MM:SS` of a wall-clock reading `local`
/// (seconds since the epoch), as chrono's `%H:%M:%S` prints it.
pub open spec fn hms_text(local: int) -> Seq<char> {
    let sod = local % 86_400;
    pad2((sod / 3600) as nat) + seq![':'] + pad2(((sod % 3600) / 60) as nat) + seq![':'] + pad2(
        (sod % 60) as nat,
    )
}

/// What chrono prints for the format `%Y-%m-%d %H:%M:%S %Z` of the instant
/// `secs` shown at `offset`.
pub uninterp spec fn datetime_zone_text(secs: i64, offset: i32) -> Seq<char>;

/// What chrono's `to_rfc3339` prints for the instant `secs`, `nanos` shown at `offset`.
pub uninterp spec fn rfc3339_text(secs: i64, nanos: u32, offset: i32) -> Seq<char>;

/// What chrono's `Display` prints for the `DateTime<Utc>` at `secs`, `nanos`.
pub uninterp spec fn utc_display_text(secs: i64, nanos: u32) -> Seq<char>;

/// The local time of day of `t`; chrono's `format("%H:%M:%S")`. Its result
/// is stated: two-digit hours, minutes and seconds of the local reading.
#[verifier::external_body]
pub fn format_hms(t: &Timestamp) -> (s: String)
    requires
        t.wf(),
    ensures
        s@ == hms_text(t.local_secs()),
{
    let offset = FixedOffset::east_opt(t.offset).unwrap();
    let dt = DateTime::from_timestamp(t.secs, t.nanos).unwrap().with_timezone(&offset);
    dt.format("%H:%M:%S").to_string()
}

/// Date, time and offset of `t`; chrono's `format("%Y-%m-%d %H:%M:%S %Z")`.
/// The calendar arithmetic is not stated; the result is named.
#[verifier::external_body]
pub fn format_datetime_zone(t: &Timestamp) -> (s: String)
    requires
        t.wf(),
    ensures
        s@ == datetime_zone_text(t.secs, t.offset),
{
    let offset = FixedOffset::east_opt(t.offset).unwrap();
    let dt = DateTime::from_timestamp(t.secs, t.nanos).unwrap().with_timezone(&offset);
    dt.format("%Y-%m-%d %H:%M:%S %Z").to_string()
}

/// `t` in RFC 3339; chrono's `to_rfc3339`. The calendar arithmetic is not
/// stated; the result is named.
#[verifier::external_body]
pub fn format_rfc3339(t: &Timestamp) -> (s: String)
    requires
        t.wf(),
    ensures
        s@ == rfc3339_text(t.secs, t.nanos, t.offset),
{
    let offset = FixedOffset::east_opt(t.offset).unwrap();
    let dt = DateTime::from_timestamp(t.secs, t.nanos).unwrap().with_timezone(&offset);
    dt.to_rfc3339()
}

/// The UTC instant of `t` as chrono's `Display` for `DateTime<Utc>` prints
/// it. The calendar arithmetic is not stated; the result is named.
#[verifier::external_body]
pub fn format_utc(t: &Timestamp) -> (s: String)
    requires
        t.wf(),
    ensures
        s@ == utc_display_text(t.secs, t.nanos),
{
    DateTime::<Utc>::from_timestamp(t.secs, t.nanos).unwrap().to_string()
}

} // verus!
