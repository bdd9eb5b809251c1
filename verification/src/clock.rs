//! Instants as Unix microseconds, and what chrono / chrono-tz compute on them.

use vstd::prelude::*;
use chrono::DateTime;
use chrono_tz::Tz;

verus! {

/// The earliest instant a `DateTime<Utc>` can hold, in Unix microseconds
/// (-262143-01-01T00:00:00Z).
pub const EARLIEST_MICROS: i64 = -8334601228800000000;

/// The latest instant a `DateTime<Utc>` can hold, in Unix microseconds
/// (+262142-12-31T23:59:59.999999Z).
pub const LATEST_MICROS: i64 = 8210266876799999999;

/// An instant that a `DateTime<Utc>` can hold.
pub open spec fn representable(t: int) -> bool {
    EARLIEST_MICROS <= t <= LATEST_MICROS
}

/// Microseconds in a second.
pub const MICROS_PER_SECOND: i128 = 1_000_000;

/// Whether `chrono_tz` knows the IANA zone `name` (exact, case-sensitive match).
pub uninterp spec fn known_time_zone(name: Seq<char>) -> bool;

/// The instant `micros` in the zone `zone`, formatted by chrono as `"%F %T %Z"`.
pub uninterp spec fn zoned_timestamp_text(micros: int, zone: Seq<char>) -> Seq<char>;

/// Calls `<chrono_tz::Tz as FromStr>::from_str` and reports whether it
/// succeeded. chrono-tz looks the name up in its table of zone names, which
/// holds `"UTC"`; the contract claims no more than that.
#[verifier::external_body]
pub(crate) fn time_zone_exists(name: &str) -> (b: bool)
    ensures
        b == known_time_zone(name@),
        name@ == "UTC"@ ==> b,
{
    name.parse::<Tz>().is_ok()
}

/// Converts `micros` with `chrono::DateTime::from_timestamp_micros`, moves it
/// to the zone named `zone` (parsed by chrono-tz) and formats it as
/// `"%F %T %Z"`. The contract only names the result; both conversions
/// succeed on the inputs that `requires` admits.
#[verifier::external_body]
pub(crate) fn local_timestamp(micros: i64, zone: &str) -> (s: String)
    requires
        representable(micros as int),
        known_time_zone(zone@),
    ensures
        s@ == zoned_timestamp_text(micros as int, zone@),
{
    match (DateTime::from_timestamp_micros(micros), zone.parse::<Tz>()) {
        (Some(dt), Ok(tz)) => dt.with_timezone(&tz).format("%F %T %Z").to_string(),
        _ => String::new(),
    }
}

/// An IANA time zone name that chrono-tz knows.
#[derive(Debug)]
pub struct Zone {
    name: String,
}

impl View for Zone {
    type V = Seq<char>;

    closed spec fn view(&self) -> Seq<char> {
        self.name@
    }
}

impl Zone {
    #[verifier::type_invariant]
    spec fn known(self) -> bool {
        known_time_zone(self.name@)
    }

    /// The zone called `name`, if chrono-tz knows it (exact, case-sensitive name).
    pub fn parse(name: &str) -> (z: Option<Zone>)
        ensures
            z is Some <==> known_time_zone(name@),
            z matches Some(z) ==> z@ == name@,
    {
        if time_zone_exists(name) {
            Some(Zone { name: String::from_str(name) })
        } else {
            None
        }
    }

    /// Coordinated Universal Time.
    pub fn utc() -> (z: Zone)
        ensures
            z@ == "UTC"@,
    {
        let known = time_zone_exists("UTC");
        assert(known);
        Zone { name: String::from_str("UTC") }
    }

    /// The zone's name.
    pub fn as_str(&self) -> (s: &str)
        ensures
            s@ == self@,
    {
        self.name.as_str()
    }
}

/// The instant `micros` in `zone`, as chrono formats it with `"%F %T %Z"`.
pub fn format_instant(micros: i64, zone: &Zone) -> (s: String)
    requires
        representable(micros as int),
    ensures
        s@ == zoned_timestamp_text(micros as int, zone@),
{
    proof {
        use_type_invariant(zone);
    }
    local_timestamp(micros, zone.name.as_str())
}

/// One reading of the system clock as it came: whole seconds since the
/// Unix epoch and the nanoseconds past them. Its fields are private and only
/// the clock makes one, so a result that carries a reading carries an
/// instant the clock gave; its view is that instant in Unix microseconds.
#[derive(Debug, Clone, Copy, PartialEq, Eq)]
pub struct ClockReading {
    secs: u64,
    nanos: u32,
}

impl View for ClockReading {
    type V = int;

    closed spec fn view(&self) -> int {
        self.secs * 1_000_000 + self.nanos / 1000
    }
}

/// Reads the system clock: `std::time::SystemTime::now()` measured from the
/// Unix epoch with `duration_since(UNIX_EPOCH)`, as whole seconds and the
/// nanoseconds past them (`Duration::as_secs`, `Duration::subsec_nanos`,
/// which std documents as below one billion); `None` when the clock reads
/// before 1970. What it reads depends on the clock alone and is not stated.
#[verifier::external_body]
fn system_clock() -> (r: Option<ClockReading>)
    ensures
        r matches Some(d) ==> d.nanos < 1_000_000_000,
{
    let since = std::time::SystemTime::now().duration_since(std::time::UNIX_EPOCH).ok()?;
    Some(ClockReading { secs: since.as_secs(), nanos: since.subsec_nanos() })
}

/// A reading of the system clock; `None` when it reads before 1970.
pub(crate) fn read_clock() -> Option<ClockReading> {
    system_clock()
}

impl ClockReading {
    /// The instant read, in Unix microseconds, when chrono holds it.
    pub fn micros(&self) -> (t: Option<i64>)
        ensures
            t matches Some(t) ==> t == self@ && 0 <= t <= LATEST_MICROS,
    {
        if self.nanos >= 1_000_000_000 || self.secs > i64::MAX as u64 {
            return None;
        }
        timestamp_micros_at(self.secs as i64, self.nanos)
    }
}

/// chrono's `DateTime::from_timestamp(secs, nanos)` and, when it gives an
/// instant, that instant's `timestamp_micros()`. chrono gives one exactly
/// when the day of `secs` lies within its range of dates (the nanoseconds,
/// below one billion, are always accepted), and its microseconds are
/// `secs * 1_000_000` plus the whole microseconds of `nanos`.
#[verifier::external_body]
fn timestamp_micros_at(secs: i64, nanos: u32) -> (r: Option<i64>)
    requires
        nanos < 1_000_000_000,
    ensures
        r is Some <==> representable(secs * 1_000_000),
        r matches Some(t) ==> t == secs * 1_000_000 + nanos / 1000,
{
    DateTime::from_timestamp(secs, nanos).map(|dt| dt.timestamp_micros())
}

/// The current instant in Unix microseconds, from the system clock; `None`
/// when the clock reads before 1970 or past what chrono holds.
pub(crate) fn now_micros() -> (t: Option<i64>)
    ensures
        t matches Some(t) ==> 0 <= t <= LATEST_MICROS,
{
    match read_clock() {
        Some(c) => c.micros(),
        None => None,
    }
}

/// `seconds` as a span of microseconds.
pub open spec fn span_micros(seconds: u64) -> int {
    seconds * 1_000_000
}

/// The instant `seconds` after `t` is one a `DateTime<Utc>` can hold.
pub open spec fn fits_after(t: i64, seconds: u64) -> bool {
    representable(t + span_micros(seconds))
}

/// Seconds that chrono turns into a `TimeDelta`.
pub open spec fn delta_seconds_ok(seconds: u64) -> bool {
    seconds <= i64::MAX / 1000
}

/// `t + seconds`, for an instant and a span whose sum stays representable.
pub fn add_seconds(t: i64, seconds: u64) -> (r: i64)
    requires
        delta_seconds_ok(seconds),
        representable(t + span_micros(seconds)),
    ensures
        r == t + span_micros(seconds),
{
    let sum: i128 = (t as i128) + (seconds as i128) * MICROS_PER_SECOND;
    sum as i64
}

/// `t - seconds`, for an instant and a span whose difference stays representable.
pub fn sub_seconds(t: i64, seconds: u64) -> (r: i64)
    requires
        delta_seconds_ok(seconds),
        representable(t - span_micros(seconds)),
    ensures
        r == t - span_micros(seconds),
{
    let diff: i128 = (t as i128) - (seconds as i128) * MICROS_PER_SECOND;
    diff as i64
}

} // verus!
