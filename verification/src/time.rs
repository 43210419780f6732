//! Conversions between system times and Windows `FILETIME` values: the
//! number of 100-nanosecond intervals since January 1, 1601 UTC.
//!
//! A system time is taken by its offset from the Unix epoch: whether it
//! comes after it, and the whole seconds and nanoseconds between them.

use std::time::{SystemTime, UNIX_EPOCH};
use vstd::prelude::*;

verus! {

/// The system clock's times.
#[verifier::external_type_specification]
#[verifier::external_body]
pub struct ExSystemTime(SystemTime);

/// A time as its offset from the Unix epoch: whether it comes after the
/// epoch (or is it), and the whole seconds and the nanoseconds between
/// them.
#[derive(Clone, Copy, Debug, Eq, PartialEq, Structural)]
pub struct UnixTime {
    /// Whether the time comes after the Unix epoch, or is it.
    pub after: bool,
    /// The whole seconds between the epoch and the time.
    pub secs: u64,
    /// The nanoseconds beyond the whole seconds.
    pub nanos: u32,
}

/// The number of seconds from January 1, 1601 to January 1, 1970 (UTC).
pub const FILETIME_EPOCH_OFFSET_SECS: u64 = 11644473600;

/// The `FILETIME` value of the Unix epoch.
pub const UNIX_EPOCH_FILETIME: u64 = 116444736000000000;

/// A time as its offset from the Unix epoch, in nanoseconds.
pub open spec fn offset_nanos(after: bool, secs: u64, nanos: u32) -> int {
    if after {
        secs * 1_000_000_000 + nanos
    } else {
        -(secs * 1_000_000_000 + nanos)
    }
}

/// The `FILETIME` of a time given by its offset from the Unix epoch: the
/// whole 100-nanosecond intervals since 1601, zero for a time before 1601,
/// and the largest value for a time past its range.
pub open spec fn spec_filetime(after: bool, secs: u64, nanos: u32) -> int {
    let since_1601 = offset_nanos(after, secs, nanos) + FILETIME_EPOCH_OFFSET_SECS * 1_000_000_000;
    if since_1601 < 0 {
        0
    } else if since_1601 / 100 > u64::MAX {
        u64::MAX as int
    } else {
        since_1601 / 100
    }
}

/// The offset from the Unix epoch of the time a `FILETIME` stands for.
pub open spec fn filetime_offset(filetime: u64) -> int {
    filetime * 100 - FILETIME_EPOCH_OFFSET_SECS * 1_000_000_000
}

/// The time a `FILETIME` stands for: its offset from the Unix epoch split
/// into whole seconds and nanoseconds.
pub open spec fn spec_time_of_filetime(filetime: u64) -> UnixTime {
    let ns = filetime_offset(filetime);
    let magnitude = if ns >= 0 {
        ns
    } else {
        -ns
    };
    UnixTime {
        after: ns >= 0,
        secs: (magnitude / 1_000_000_000) as u64,
        nanos: (magnitude % 1_000_000_000) as u32,
    }
}

/// Returns the offset of a system time from the Unix epoch: whether it
/// comes after it (or is it), and the seconds and nanoseconds between
/// them.  The result depends on the time alone; the contract states only
/// that the nanoseconds are below a second, as `Duration::subsec_nanos`
/// promises.
#[verifier::external_body]
pub(crate) fn unix_offset(time: SystemTime) -> (r: (bool, u64, u32))
    ensures
        r.2 < 1_000_000_000,
{
    match time.duration_since(UNIX_EPOCH) {
        Ok(d) => (true, d.as_secs(), d.subsec_nanos()),
        Err(e) => (false, e.duration().as_secs(), e.duration().subsec_nanos()),
    }
}

/// Computes the `FILETIME` of a time given by its offset from the Unix
/// epoch: zero for a time before 1601, and the largest value for a time
/// past the range of `FILETIME`.
pub fn filetime_from_unix_offset(after: bool, secs: u64, nanos: u32) -> (r: u64)
    ensures
        r == spec_filetime(after, secs, nanos),
{
    let total: i128 = if after {
        secs as i128 * 1_000_000_000 + nanos as i128
    } else {
        -(secs as i128 * 1_000_000_000 + nanos as i128)
    };
    let since_1601: i128 = total + 11644473600 * 1_000_000_000;
    if since_1601 < 0 {
        0
    } else if since_1601 / 100 > u64::MAX as i128 {
        u64::MAX
    } else {
        (since_1601 / 100) as u64
    }
}

/// Splits the offset from the Unix epoch of the time a `FILETIME` stands
/// for into whether it comes after the epoch (or is it), and the seconds
/// and nanoseconds between them.
pub fn filetime_to_unix_offset(filetime: u64) -> (r: (bool, u64, u32))
    ensures
        r.2 < 1_000_000_000,
        offset_nanos(r.0, r.1, r.2) == filetime_offset(filetime),
        spec_time_of_filetime(filetime) == (UnixTime { after: r.0, secs: r.1, nanos: r.2 }),
{
    let ns: i128 = filetime as i128 * 100 - 11644473600 * 1_000_000_000;
    let after = ns >= 0;
    let magnitude: i128 = if after {
        ns
    } else {
        -ns
    };
    let secs = magnitude / 1_000_000_000;
    let nanos = magnitude % 1_000_000_000;
    assert(secs * 1_000_000_000 + nanos == magnitude) by (nonlinear_arith)
        requires
            secs == magnitude / 1_000_000_000,
            nanos == magnitude % 1_000_000_000,
            magnitude >= 0,
    ;
    assert(secs <= u64::MAX) by (nonlinear_arith)
        requires
            secs == magnitude / 1_000_000_000,
            magnitude >= 0,
            magnitude <= 0x1_0000_0000_0000_0000 * 100,
    ;
    (after, secs as u64, nanos as u32)
}

/// Converts a time to a Windows `FILETIME`: zero for a time before 1601,
/// and the largest value for a time past the range of `FILETIME`.
pub fn filetime_from_system_time(time: UnixTime) -> (r: u64)
    ensures
        r == spec_filetime(time.after, time.secs, time.nanos),
{
    filetime_from_unix_offset(time.after, time.secs, time.nanos)
}

/// Converts a Windows `FILETIME` to the time it stands for.
pub fn system_time_from_filetime(timestamp: u64) -> (r: UnixTime)
    ensures
        r == spec_time_of_filetime(timestamp),
        r.nanos < 1_000_000_000,
        offset_nanos(r.after, r.secs, r.nanos) == filetime_offset(timestamp),
{
    let (after, secs, nanos) = filetime_to_unix_offset(timestamp);
    UnixTime { after, secs, nanos }
}

impl UnixTime {
    /// Takes a system time by its offset from the Unix epoch.  The offset
    /// depends on the time alone; the contract states only that the
    /// nanoseconds are below a second.
    pub fn from_system_time(time: SystemTime) -> (r: UnixTime)
        ensures
            r.nanos < 1_000_000_000,
    {
        let (after, secs, nanos) = unix_offset(time);
        UnixTime { after, secs, nanos }
    }
}

/// The `FILETIME` of the time that a `FILETIME` stands for is that
/// `FILETIME`.
pub proof fn lemma_filetime_round_trip(filetime: u64, after: bool, secs: u64, nanos: u32)
    requires
        offset_nanos(after, secs, nanos) == filetime_offset(filetime),
    ensures
        spec_filetime(after, secs, nanos) == filetime,
{
    assert((filetime * 100) / 100 == filetime) by (nonlinear_arith);
}

} // verus!
