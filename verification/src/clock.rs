//! Readings of the system clock, and the numbers that the store records of them.
use vstd::prelude::*;

verus! {

/// A reading of the system clock against 1970-01-01 00:00:00 UTC: whether the clock
/// stands at or after that instant, and its distance from it in whole seconds and
/// nanoseconds below one second.
pub struct ClockReading {
    pub after_epoch: bool,
    pub secs: u64,
    pub subsec_nanos: u32,
}

/// The reading in whole seconds since 1970, rounded down: negative before 1970.
pub open spec fn unix_seconds(r: ClockReading) -> int {
    if r.after_epoch {
        r.secs as int
    } else if r.subsec_nanos == 0 {
        -(r.secs as int)
    } else {
        -(r.secs as int) - 1
    }
}

/// Whether `ts` seconds after 1970 fall within the dates that `time` represents,
/// years -9999 to 9999.
pub open spec fn representable_timestamp(ts: int) -> bool {
    -377705116800 <= ts <= 253402300799
}

/// `std::time::UNIX_EPOCH.elapsed()`: the distance of the system clock from 1970 as
/// `Duration::as_secs` and `Duration::subsec_nanos` give it, taken from the error's
/// `duration` when the clock stands before 1970. Of the reading only this is stated:
/// the nanoseconds stay below one second.
#[verifier::external_body]
fn read_clock() -> (reading: ClockReading)
    ensures
        reading.subsec_nanos < 1_000_000_000,
{
    match std::time::UNIX_EPOCH.elapsed() {
        Ok(d) => ClockReading { after_epoch: true, secs: d.as_secs(), subsec_nanos: d.subsec_nanos() },
        Err(e) => ClockReading {
            after_epoch: false,
            secs: e.duration().as_secs(),
            subsec_nanos: e.duration().subsec_nanos(),
        },
    }
}

/// `time::OffsetDateTime::from_unix_timestamp(ts).is_ok()`: whether the timestamp
/// falls within years -9999 to 9999, the range of `time` without large dates.
#[verifier::external_body]
pub(crate) fn timestamp_in_range(ts: i64) -> (ok: bool)
    ensures
        ok == representable_timestamp(ts as int),
{
    time::OffsetDateTime::from_unix_timestamp(ts).is_ok()
}

/// The Unix timestamp of a reading, in whole seconds rounded down, when `time` can
/// represent that instant; `None` otherwise.
pub fn unix_timestamp_of(r: &ClockReading) -> (ts: Option<i64>)
    ensures
        ts == (if representable_timestamp(unix_seconds(*r)) {
            Some(unix_seconds(*r) as i64)
        } else {
            None
        }),
{
    let candidate: i64 = if r.after_epoch {
        if r.secs > 253402300799 {
            return None;
        }
        r.secs as i64
    } else {
        if r.secs > 377705116800 {
            return None;
        }
        if r.subsec_nanos == 0 {
            -(r.secs as i64)
        } else {
            -(r.secs as i64) - 1
        }
    };
    if timestamp_in_range(candidate) {
        Some(candidate)
    } else {
        None
    }
}

/// The reading in nanoseconds since 1970; `None` before 1970.
pub fn nanos_since_epoch(r: &ClockReading) -> (nanos: Option<u128>)
    requires
        r.subsec_nanos < 1_000_000_000,
    ensures
        nanos == (if r.after_epoch {
            Some((r.secs * 1_000_000_000 + r.subsec_nanos) as u128)
        } else {
            None
        }),
{
    if r.after_epoch {
        assert(r.secs * 1_000_000_000 + r.subsec_nanos < 0x1_0000_0000_0000_0000_0000_0000_0000_0000)
            by (nonlinear_arith)
            requires
                r.secs < 0x1_0000_0000_0000_0000,
                r.subsec_nanos < 1_000_000_000,
        ;
        Some((r.secs as u128) * 1_000_000_000 + (r.subsec_nanos as u128))
    } else {
        None
    }
}

/// The current time in whole seconds since 1970; `None` when `time` cannot
/// represent it. Whatever the clock reads, a result is within `time`'s range.
pub(crate) fn now_unix_timestamp() -> (ts: Option<i64>)
    ensures
        ts matches Some(t) ==> representable_timestamp(t as int),
{
    let reading = read_clock();
    unix_timestamp_of(&reading)
}

/// Whether `r` could be a reading of the system clock at or after 1970.
pub open spec fn is_reading_after_epoch(r: ClockReading) -> bool {
    r.after_epoch && r.subsec_nanos < 1_000_000_000
}

/// The distance of a reading from 1970 in nanoseconds.
pub open spec fn reading_nanos(r: ClockReading) -> int {
    r.secs * 1_000_000_000 + r.subsec_nanos
}

/// The current time in nanoseconds since 1970; `None` when the clock stands before 1970.
/// A result is the distance in nanoseconds of the reading that the clock gave.
pub(crate) fn now_unix_nanos() -> (nanos: Option<u128>)
    ensures
        nanos matches Some(n) ==> exists|r: ClockReading|
            is_reading_after_epoch(r) && #[trigger] reading_nanos(r) == n,
{
    let reading = read_clock();
    let nanos = nanos_since_epoch(&reading);
    assert(nanos matches Some(n) ==> reading_nanos(reading) == n);
    nanos
}

} // verus!
