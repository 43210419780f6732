//! Windows timestamps: the number of 100-nanosecond intervals since
//! January 1, 1601 UTC, with saturating conversions from system times.

use crate::bytes::{le64, le64_bytes, read_u64, write_u64};
use crate::error::{Error, ErrorKind};
use crate::time::UnixTime;
use vstd::prelude::*;

verus! {

/// The Windows timestamp value for the Unix epoch (Jan 1, 1970 UTC).
pub const UNIX_EPOCH_TIMESTAMP: u64 = 116444736000000000;

/// A Windows timestamp.  This is represented as the number of 100-nanosecond
/// intervals since January 1, 1601 UTC.
#[derive(Clone, Copy, Debug, Eq, PartialEq, Structural)]
pub struct Timestamp(pub u64);

/// A number, limited to the range of `u64`.
pub open spec fn saturate(n: int) -> int {
    if n < 0 {
        0
    } else if n > u64::MAX {
        u64::MAX as int
    } else {
        n
    }
}

/// The number of 100-nanosecond intervals in a duration, saturating at the
/// largest `u64`.
pub open spec fn spec_delta(secs: u64, nanos: u32) -> int {
    saturate(saturate(secs * 10_000_000) + nanos / 100)
}

/// The timestamp of a time given by its offset from the Unix epoch,
/// saturating at both ends of the range.
pub open spec fn spec_timestamp(after: bool, secs: u64, nanos: u32) -> int {
    if after {
        saturate(UNIX_EPOCH_TIMESTAMP + spec_delta(secs, nanos))
    } else {
        saturate(UNIX_EPOCH_TIMESTAMP - spec_delta(secs, nanos))
    }
}

/// The time a timestamp value stands for: its offset from the Unix epoch
/// split into whole seconds and nanoseconds.
pub open spec fn spec_time_of_timestamp(timestamp: u64) -> UnixTime {
    let after = timestamp >= UNIX_EPOCH_TIMESTAMP;
    let delta: int = if after {
        timestamp - UNIX_EPOCH_TIMESTAMP
    } else {
        UNIX_EPOCH_TIMESTAMP - timestamp
    };
    UnixTime { after, secs: (delta / 10_000_000) as u64, nanos: ((delta % 10_000_000) * 100) as u32 }
}

/// Converts a duration, given by its seconds and nanoseconds, to a number
/// of 100-nanosecond intervals, saturating at the largest `u64`.
pub fn duration_to_timestamp_delta(secs: u64, nanos: u32) -> (r: u64)
    ensures
        r == spec_delta(secs, nanos),
{
    let product: u128 = secs as u128 * 10_000_000;
    let scaled: u64 = if product > u64::MAX as u128 {
        u64::MAX
    } else {
        product as u64
    };
    scaled.saturating_add((nanos / 100) as u64)
}

/// Converts a number of 100-nanosecond intervals to the seconds and
/// nanoseconds of a duration.
pub fn timestamp_delta_to_duration(delta: u64) -> (r: (u64, u32))
    ensures
        r.0 == delta / 10_000_000,
        r.1 == (delta % 10_000_000) * 100,
        r.1 < 1_000_000_000,
{
    (delta / 10_000_000, (delta % 10_000_000) as u32 * 100)
}

/// Converts a time given by its offset from the Unix epoch to a timestamp
/// value, saturating at both ends of the range.
pub fn timestamp_from_unix_offset(after: bool, secs: u64, nanos: u32) -> (r: u64)
    ensures
        r == spec_timestamp(after, secs, nanos),
{
    let delta = duration_to_timestamp_delta(secs, nanos);
    if after {
        UNIX_EPOCH_TIMESTAMP.saturating_add(delta)
    } else {
        UNIX_EPOCH_TIMESTAMP.saturating_sub(delta)
    }
}

/// Splits a timestamp value into its offset from the Unix epoch: whether it
/// comes after it (or is it), and the seconds and nanoseconds between them.
pub fn timestamp_to_unix_offset(timestamp: u64) -> (r: (bool, u64, u32))
    ensures
        spec_time_of_timestamp(timestamp) == (UnixTime { after: r.0, secs: r.1, nanos: r.2 }),
        r.0 == (timestamp >= UNIX_EPOCH_TIMESTAMP),
        r.2 < 1_000_000_000,
        r.0 ==> r.1 == (timestamp - UNIX_EPOCH_TIMESTAMP) / 10_000_000 && r.1 * 1_000_000_000 + r.2 == (
        timestamp - UNIX_EPOCH_TIMESTAMP) * 100,
        !r.0 ==> r.1 == (UNIX_EPOCH_TIMESTAMP - timestamp) / 10_000_000 && r.1 * 1_000_000_000 + r.2 == (
        UNIX_EPOCH_TIMESTAMP - timestamp) * 100,
{
    let after = timestamp >= UNIX_EPOCH_TIMESTAMP;
    let delta = if after {
        timestamp - UNIX_EPOCH_TIMESTAMP
    } else {
        UNIX_EPOCH_TIMESTAMP - timestamp
    };
    let (secs, nanos) = timestamp_delta_to_duration(delta);
    assert(secs * 1_000_000_000 + nanos == delta * 100) by (nonlinear_arith)
        requires
            secs == delta / 10_000_000,
            nanos == (delta % 10_000_000) * 100,
    ;
    (after, secs, nanos)
}

/// Converts a time to a Windows timestamp value, saturating at both ends
/// of the range.
pub fn timestamp_from_system_time(system_time: UnixTime) -> (r: u64)
    ensures
        r == spec_timestamp(system_time.after, system_time.secs, system_time.nanos),
{
    timestamp_from_unix_offset(system_time.after, system_time.secs, system_time.nanos)
}

/// Converts a Windows timestamp value to the time it stands for.
pub fn system_time_from_timestamp(timestamp: u64) -> (r: UnixTime)
    ensures
        r == spec_time_of_timestamp(timestamp),
        r.nanos < 1_000_000_000,
{
    let (after, secs, nanos) = timestamp_to_unix_offset(timestamp);
    UnixTime { after, secs, nanos }
}

impl Timestamp {
    /// Returns a timestamp representing the given system time.
    pub fn from_system_time(system_time: UnixTime) -> (r: Timestamp)
        ensures
            r.0 == spec_timestamp(system_time.after, system_time.secs, system_time.nanos),
    {
        Timestamp(timestamp_from_system_time(system_time))
    }

    /// Returns the time that this timestamp represents.
    pub fn to_system_time(self) -> (r: UnixTime)
        ensures
            r == spec_time_of_timestamp(self.0),
            r.nanos < 1_000_000_000,
    {
        system_time_from_timestamp(self.0)
    }

    /// Reads a timestamp: eight bytes, least significant first.
    pub fn read_from(data: &[u8], pos: usize) -> (r: Result<(Timestamp, usize), Error>)
        ensures
            pos + 8 <= data@.len() <==> r is Ok,
            r matches Ok((t, next)) ==> t.0 == le64(data@, pos as int) && next == pos + 8,
            r matches Err(e) ==> e.kind == ErrorKind::UnexpectedEof,
    {
        match read_u64(data, pos) {
            Some(v) => Ok((Timestamp(v), pos + 8)),
            None => Err(Error::with_text(ErrorKind::UnexpectedEof, "failed to fill whole buffer")),
        }
    }

    /// Appends the timestamp: eight bytes, least significant first.
    pub fn write_to(self, out: &mut Vec<u8>)
        ensures
            final(out)@ == old(out)@ + le64_bytes(self.0 as int),
    {
        write_u64(out, self.0)
    }
}

/// Splitting a number of 100-nanosecond intervals into a duration and
/// converting it back gives the same number.
pub proof fn lemma_delta_round_trip(delta: u64)
    ensures
        spec_delta((delta / 10_000_000) as u64, ((delta % 10_000_000) * 100) as u32) == delta,
{
    let secs = delta / 10_000_000;
    let rem = delta % 10_000_000;
    assert(secs * 10_000_000 + rem == delta) by (nonlinear_arith)
        requires
            secs == delta / 10_000_000,
            rem == delta % 10_000_000,
    ;
    assert((rem * 100) / 100 == rem) by (nonlinear_arith);
}

/// A timestamp's offset from the Unix epoch converts back to the same
/// timestamp.
pub proof fn lemma_timestamp_round_trip(timestamp: u64)
    ensures
        ({
            let after = timestamp >= UNIX_EPOCH_TIMESTAMP;
            let delta = if after {
                timestamp - UNIX_EPOCH_TIMESTAMP
            } else {
                UNIX_EPOCH_TIMESTAMP - timestamp
            };
            spec_timestamp(after, (delta / 10_000_000) as u64, ((delta % 10_000_000) * 100) as u32)
                == timestamp
        }),
{
    let after = timestamp >= UNIX_EPOCH_TIMESTAMP;
    let delta: u64 = if after {
        (timestamp - UNIX_EPOCH_TIMESTAMP) as u64
    } else {
        (UNIX_EPOCH_TIMESTAMP - timestamp) as u64
    };
    lemma_delta_round_trip(delta);
}

} // verus!
