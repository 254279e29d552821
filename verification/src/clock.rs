//! Clock and calendar helpers over `chrono`: the current instant, checked
//! second offsets, the representable range, and local-time conversion.
use vstd::prelude::*;
use crate::model::{UtcNanos, nanos_of, timestamp_from_parts, timestamp_parts};

verus! {

/// Earliest instant `chrono` represents (`DateTime::<Utc>::MIN_UTC`), in
/// nanoseconds since the epoch.
pub const MIN_UTC_NANOS: i128 = -8334601315200000000000;

/// Latest instant `chrono` represents (`DateTime::<Utc>::MAX_UTC`), in
/// nanoseconds since the epoch.
pub const MAX_UTC_NANOS: i128 = 8210266876799999999999;

/// Largest number of seconds a `TimeDelta` holds (`i64::MAX / 1000`).
pub const MAX_DELTA_SECS: i64 = 9223372036854775;

/// `DateTime::from_timestamp(secs, nanos)` moved by `delta` seconds with
/// `checked_add_signed`, as seconds and nanoseconds.
pub uninterp spec fn spec_chrono_add(secs: int, nanos: int, delta: int) -> Option<(int, int)>;

/// Wraps `DateTime::from_timestamp` and `checked_add_signed(TimeDelta::seconds(delta))`.
/// When a result exists it is the input moved by exactly `delta` seconds.
#[verifier::external_body]
fn chrono_add_seconds(secs: i64, nanos: u32, delta: i64) -> (r: Option<(i64, u32)>)
    requires
        nanos < 1_000_000_000,
        -MAX_DELTA_SECS <= delta <= MAX_DELTA_SECS,
    ensures
        match r {
            Some(p) => spec_chrono_add(secs as int, nanos as int, delta as int) == Some((p.0 as int, p.1 as int))
                && nanos_of(p.0 as int, p.1 as int) == nanos_of(secs as int, nanos as int) + delta * 1_000_000_000,
            None => spec_chrono_add(secs as int, nanos as int, delta as int) is None,
        },
{
    chrono::DateTime::from_timestamp(secs, nanos)
        .and_then(|d| d.checked_add_signed(chrono::TimeDelta::seconds(delta)))
        .map(|d| (d.timestamp(), d.timestamp_subsec_nanos()))
}

/// `t` moved by `delta` seconds, when `chrono` can represent both.
pub open spec fn shifted(t: int, delta: int) -> Option<int> {
    let s = t / 1_000_000_000;
    let n = t % 1_000_000_000;
    if s < i64::MIN || s > i64::MAX {
        None
    } else {
        match spec_chrono_add(s, n, delta) {
            Some(p) => Some(nanos_of(p.0, p.1)),
            None => None,
        }
    }
}

/// `t` moved by `delta` seconds, or `None` where `chrono` cannot represent
/// the instant or the result.
pub fn shift_seconds(t: UtcNanos, delta: i64) -> (r: Option<UtcNanos>)
    requires
        -MAX_DELTA_SECS <= delta <= MAX_DELTA_SECS,
    ensures
        opt_i128(r) == shifted(t as int, delta as int),
        r matches Some(x) ==> x == t + delta * 1_000_000_000,
{
    let (s, n) = timestamp_parts(t);
    proof {
        vstd::arithmetic::div_mod::lemma_fundamental_div_mod_converse(t as int, 1_000_000_000, s as int, n as int);
    }
    if s < (i64::MIN as i128) || s > (i64::MAX as i128) {
        return None;
    }
    match chrono_add_seconds(s as i64, n, delta) {
        Some(p) => Some(timestamp_from_parts(p.0, p.1)),
        None => None,
    }
}

pub open spec fn opt_i128(o: Option<UtcNanos>) -> Option<int> {
    match o {
        Some(t) => Some(t as int),
        None => None,
    }
}

/// Wraps `chrono::Utc::now()`: the current instant as whole seconds since
/// the epoch and the nanoseconds past them.  Which instant depends on the
/// clock; what is stated is what every outcome has: `Utc::now` reads the
/// system time since the epoch (it panics on one before the epoch) and
/// builds the date-time with `from_timestamp(..).unwrap()` from the
/// `Duration`'s seconds and sub-second nanoseconds, so the seconds are not
/// negative, the nanoseconds are below a second, and the instant lies within
/// what `chrono` represents.
#[verifier::external_body]
fn utc_now_parts() -> (r: (i64, u32))
    ensures
        r.0 >= 0,
        r.1 < 1_000_000_000,
        nanos_of(r.0 as int, r.1 as int) <= MAX_UTC_NANOS,
{
    let n = chrono::Utc::now();
    (n.timestamp(), n.timestamp_subsec_nanos())
}

/// The current instant.  Which one depends on the clock; it is never
/// before the epoch and never past the latest instant `chrono` represents.
pub fn now_nanos() -> (r: UtcNanos)
    ensures
        0 <= r <= MAX_UTC_NANOS,
{
    let (s, n) = utc_now_parts();
    timestamp_from_parts(s, n)
}

/// Wraps the reading of a wall-clock date-time (given as seconds and
/// nanoseconds of a naive date-time) in the machine's local time zone:
/// `Local.from_local_datetime(..).single()`, as UTC seconds and nanoseconds;
/// `None` when the local time is ambiguous or skipped (or not
/// representable).  Whether there is a reading, and the zone's offset,
/// depend on the machine's zone; what is stated is what every reading has:
/// `from_local_datetime` subtracts a `FixedOffset` (whole seconds, less than
/// a day either way) from the wall-clock time and keeps its fraction, so the
/// nanoseconds are those given and the seconds differ from those given by
/// less than a day.
#[verifier::external_body]
fn local_single(secs: i64, nanos: u32) -> (r: Option<(i64, u32)>)
    ensures
        r matches Some(p) ==> p.1 == nanos && secs - 86_400 < p.0 < secs + 86_400,
{
    chrono::DateTime::from_timestamp(secs, nanos)
        .and_then(|d| chrono::TimeZone::from_local_datetime(&chrono::Local, &d.naive_utc()).single())
        .map(|d| (d.timestamp(), d.timestamp_subsec_nanos()))
}

/// The UTC instant of a wall-clock date-time `(secs, nanos)`, given how
/// the local zone reads it (`single`): that reading when there is exactly
/// one, else the date-time read as UTC.
pub fn utc_from_local(single: Option<(i64, u32)>, secs: i64, nanos: u32) -> (r: UtcNanos)
    ensures
        r == match single {
            Some(p) => nanos_of(p.0 as int, p.1 as int),
            None => nanos_of(secs as int, nanos as int),
        },
{
    match single {
        Some((s, n)) => timestamp_from_parts(s, n),
        None => timestamp_from_parts(secs, nanos),
    }
}

/// A wall-clock date-time in the machine's local time zone as a UTC
/// instant (see `utc_from_local`).  Which offset applies depends on the
/// machine's zone; the result is the wall-clock time moved by a whole number
/// of seconds, less than a day either way (none when the zone gives no
/// single reading).
pub fn local_to_utc(secs: i64, nanos: u32) -> (r: UtcNanos)
    ensures
        exists|d: int| -86_400 < d < 86_400 && r == #[trigger] nanos_of(secs + d, nanos as int),
{
    let single = local_single(secs, nanos);
    let r = utc_from_local(single, secs, nanos);
    proof {
        match single {
            Some(p) => {
                let d = p.0 - secs;
                assert(r == nanos_of(secs + d, nanos as int));
            },
            None => {
                assert(r == nanos_of(secs + 0, nanos as int));
            },
        }
    }
    r
}

} // verus!
