//! Wall-clock instants, durations and protobuf timestamps.
//!
//! An instant is a number of nanoseconds since the Unix epoch (`i128`,
//! negative before the epoch).  As for `SystemTime` on Unix, an instant is
//! representable when its whole seconds fit in an `i64`.  A duration is a
//! number of nanoseconds (`u128`) no larger than the largest `Duration`.
use vstd::prelude::*;

verus! {

/// Nanoseconds in one second.
pub const NANOS_PER_SEC: i128 = 1_000_000_000;

/// A protobuf `google.protobuf.Timestamp`.
#[derive(Clone, Copy, Debug, PartialEq, Eq, Structural)]
pub struct Timestamp {
    pub seconds: i64,
    pub nanos: i32,
}

/// The instant `ns` can be held by a `SystemTime`.
pub open spec fn representable(ns: int) -> bool {
    i64::MIN <= ns / 1_000_000_000 <= i64::MAX
}

/// The duration `ns` can be held by a `Duration`.
pub open spec fn is_duration(ns: int) -> bool {
    0 <= ns <= u64::MAX * 1_000_000_000 + 999_999_999
}

/// The instant that a timestamp names when it is read as
/// `UNIX_EPOCH + Duration::new(seconds, nanos)`: both fields must be
/// non-negative and the sum must stay representable.
pub open spec fn timestamp_instant(ts: Timestamp) -> Option<int> {
    if ts.seconds >= 0 && ts.nanos >= 0 && ts.seconds + ts.nanos / 1_000_000_000 <= i64::MAX {
        Some(ts.seconds * 1_000_000_000 + ts.nanos)
    } else {
        None
    }
}

/// The time left until a timestamp, when it lies strictly after `now`.
pub open spec fn spec_delay_until(ts: Option<Timestamp>, now: int) -> Option<int> {
    match ts {
        None => None,
        Some(t) => match timestamp_instant(t) {
            Some(u) if u > now => Some(u - now),
            _ => None,
        },
    }
}

/// The timestamp of the instant `start + d`, when it is representable and
/// not before the epoch.
pub open spec fn spec_make_delay(start: int, d: int) -> Option<Timestamp> {
    let total = start + d;
    if total >= 0 && total / 1_000_000_000 <= i64::MAX {
        Some(Timestamp {
            seconds: (total / 1_000_000_000) as i64,
            nanos: (total % 1_000_000_000) as i32,
        })
    } else {
        None
    }
}

/// Time left until the timestamp `ts`, seen from `now`; `None` when it is
/// unset, unreadable, or not in the future.
pub fn proto_ts_to_delay(ts: Option<Timestamp>, now: i128) -> (r: Option<u128>)
    requires
        representable(now as int),
    ensures
        r matches Some(d) ==> spec_delay_until(ts, now as int) == Some(d as int),
        r is None ==> spec_delay_until(ts, now as int) is None,
{
    match ts {
        None => None,
        Some(t) => {
            if t.seconds < 0 || t.nanos < 0 {
                return None;
            }
            let carry: i64 = (t.nanos / 1_000_000_000) as i64;
            if t.seconds > i64::MAX - carry {
                return None;
            }
            let until: i128 = (t.seconds as i128) * NANOS_PER_SEC + (t.nanos as i128);
            if until > now {
                Some((until - now) as u128)
            } else {
                None
            }
        },
    }
}

/// The timestamp of `start + d` (the instant a hold of length `d` ends).
pub fn make_delay(start: i128, d: u128) -> (r: Option<Timestamp>)
    requires
        representable(start as int),
        is_duration(d as int),
    ensures
        r == spec_make_delay(start as int, d as int),
{
    let total: i128 = start + (d as i128);
    if total < 0 {
        return None;
    }
    let secs: i128 = total / NANOS_PER_SEC;
    if secs > i64::MAX as i128 {
        return None;
    }
    Some(Timestamp { seconds: secs as i64, nanos: (total % NANOS_PER_SEC) as i32 })
}

/// Reading back a timestamp made for a positive delay gives that delay.
pub proof fn lemma_delay_roundtrip(start: int, d: int)
    requires
        representable(start),
        is_duration(d),
        d > 0,
        spec_make_delay(start, d) is Some,
    ensures
        spec_delay_until(spec_make_delay(start, d), start) == Some(d),
{
    let total = start + d;
    let ts = spec_make_delay(start, d).unwrap();
    assert(ts.seconds * 1_000_000_000 + ts.nanos == total);
}

} // verus!
