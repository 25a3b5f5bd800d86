//! A time zone, held as the bytes of its tz database file (TZif), and the
//! conversions between instants and local times in it.
use vstd::prelude::*;
use chrono::Datelike;
use crate::schedule::TimeOfDay;

verus! {

#[verifier::external_type_specification]
#[verifier::external_body]
pub struct ExTz(tzfile::Tz);

/// The big-endian 32-bit number at position `i` of `d`.
pub open spec fn be_u32(d: Seq<u8>, i: int) -> int {
    d[i] * 16777216 + d[i + 1] * 65536 + d[i + 2] * 256 + d[i + 3]
}

/// The six counts of the TZif header at position `o` are below 2^24.
pub open spec fn counts_small(d: Seq<u8>, o: int) -> bool {
    forall|j: int| 0 <= j < 6 ==> #[trigger] be_u32(d, o + 20 + 4 * j) < 0x100_0000
}

/// The length of the data block after the TZif header at position `o`,
/// with `tsize`-byte times.
pub open spec fn block_len(d: Seq<u8>, o: int, tsize: int) -> int {
    be_u32(d, o + 32) * (tsize + 1) + be_u32(d, o + 36) * 6 + be_u32(d, o + 40)
        + be_u32(d, o + 28) * (tsize + 4) + be_u32(d, o + 24) + be_u32(d, o + 20)
}

/// The time at `i` (big-endian, 8 bytes) lies within ±2^62: its first byte
/// repeats its sign bit.
pub open spec fn time_small(d: Seq<u8>, i: int) -> bool {
    d[i] < 0x40 || d[i] >= 0xc0
}

/// The bytes are safe to hand to `tzfile::Tz::parse`: its headers' counts
/// are small, and the transition times of its second (64-bit) block lie
/// within ±2^62, so that no length or local time it computes overflows.
/// Bytes too short for a header or a block are safe (they are refused).
pub open spec fn zone_bytes_safe(d: Seq<u8>) -> bool {
    d.len() < 44 || (counts_small(d, 0) && {
        let f = 44 + block_len(d, 0, 4);
        d.len() < f + 44 || (counts_small(d, f) && forall|k: int|
            0 <= k < be_u32(d, f + 32) && f + 44 + 8 * k < d.len() ==> #[trigger] time_small(d, f + 44 + 8 * k))
    })
}

fn be_u32_at(d: &[u8], i: usize) -> (r: u64)
    requires
        i + 4 <= d@.len(),
    ensures
        r == be_u32(d@, i as int),
{
    (d[i] as u64) * 16777216 + (d[i + 1] as u64) * 65536 + (d[i + 2] as u64) * 256 + (d[i + 3] as u64)
}

fn counts_small_at(d: &[u8], o: usize) -> (r: bool)
    requires
        o + 44 <= d@.len(),
    ensures
        r == counts_small(d@, o as int),
{
    let mut j: usize = 0;
    while j < 6
        invariant
            j <= 6,
            o + 44 <= d@.len(),
            o + 44 <= d.len(),
            forall|a: int| 0 <= a < j ==> #[trigger] be_u32(d@, o + 20 + 4 * a) < 0x100_0000,
        decreases 6 - j,
    {
        if be_u32_at(d, o + 20 + 4 * j) >= 0x100_0000 {
            return false;
        }
        j = j + 1;
    }
    true
}

/// Whether the bytes are safe to parse as a zone (see `zone_bytes_safe`).
pub fn zone_bytes_ok(d: &[u8]) -> (r: bool)
    ensures
        r == zone_bytes_safe(d@),
{
    let n = d.len();
    if n < 44 {
        return true;
    }
    if !counts_small_at(d, 0) {
        return false;
    }
    proof {
        assert(be_u32(d@, 0int + 20 + 4 * 0) < 0x100_0000);
        assert(be_u32(d@, 0int + 20 + 4 * 1) < 0x100_0000);
        assert(be_u32(d@, 0int + 20 + 4 * 2) < 0x100_0000);
        assert(be_u32(d@, 0int + 20 + 4 * 3) < 0x100_0000);
        assert(be_u32(d@, 0int + 20 + 4 * 4) < 0x100_0000);
        assert(be_u32(d@, 0int + 20 + 4 * 5) < 0x100_0000);
    }
    let f: u64 = 44 + be_u32_at(d, 32) * 5 + be_u32_at(d, 36) * 6 + be_u32_at(d, 40)
        + be_u32_at(d, 28) * 8 + be_u32_at(d, 24) + be_u32_at(d, 20);
    assert(f == 44 + block_len(d@, 0, 4));
    assert(f < 0x2000_0000);
    if (n as u64) < f + 44 {
        return true;
    }
    let f = f as usize;
    if !counts_small_at(d, f) {
        return false;
    }
    assert(be_u32(d@, f as int + 20 + 4 * 3) < 0x100_0000);
    let tc = be_u32_at(d, f + 32);
    let mut k: u64 = 0;
    while k < tc && (f as u64) + 44 + 8 * k < n as u64
        invariant
            n == d@.len(),
            n == d.len(),
            f + 44 <= n,
            f < 0x2000_0000,
            f == 44 + block_len(d@, 0, 4),
            counts_small(d@, 0),
            counts_small(d@, f as int),
            tc == be_u32(d@, f + 32),
            tc < 0x100_0000,
            k <= tc,
            forall|a: int| 0 <= a < k && f + 44 + 8 * a < n ==> #[trigger] time_small(d@, f + 44 + 8 * a),
        decreases tc - k,
    {
        let i = f + 44 + 8 * (k as usize);
        if !(d[i] < 0x40 || d[i] >= 0xc0) {
            assert(!time_small(d@, f + 44 + 8 * k));
            return false;
        }
        k = k + 1;
    }
    proof {
        assert forall|a: int| 0 <= a < be_u32(d@, f + 32) && f + 44 + 8 * a < d@.len()
            implies #[trigger] time_small(d@, f + 44 + 8 * a) by {
            if a >= k {
                assert(f + 44 + 8 * k <= f + 44 + 8 * a);
            }
        }
    }
    true
}

/// `tzfile::Tz::parse` succeeds on the bytes.
pub uninterp spec fn zone_parses(data: Seq<u8>) -> bool;

/// `chrono::DateTime::with_timezone`, in the zone that `tzfile::Tz::parse`
/// makes of `data`, of the instant `secs` seconds and `nanos` nanoseconds
/// after the epoch: the local date's weekday (Monday 0) and day number
/// (`Datelike::num_days_from_ce`).
pub uninterp spec fn zone_local_date(data: Seq<u8>, secs: i64, nanos: u32) -> Option<(u8, i32)>;

/// `chrono::NaiveDateTime::and_local_timezone`, in the zone that
/// `tzfile::Tz::parse` makes of `data`, of the local time `secs` seconds and
/// `frac` nanoseconds after midnight of day number `day`: the instant, in
/// seconds and nanoseconds after the epoch (the earlier of two where the
/// local time occurs twice; none where the zone skips it, or chrono has no
/// such date or time).
pub uninterp spec fn zone_local_instant(data: Seq<u8>, day: i32, secs: u32, frac: u32) -> Option<(i64, u32)>;

/// `tzfile::Tz::parse` (the name it takes is not used): the zone, when the
/// bytes are a TZif file of version 2 or 3 it reads.  Claims that it
/// succeeds exactly on the bytes named `zone_parses`; what the zone holds
/// is stated by the names of the conversions.
#[verifier::external_body]
fn parse_zone(data: &[u8]) -> (r: Option<tzfile::Tz>)
    requires
        zone_bytes_safe(data@),
    ensures
        r is Some == zone_parses(data@),
{
    tzfile::Tz::parse("", data).ok()
}

/// A time zone: the bytes of its tz database file, and the zone read from
/// them.
pub struct Zone {
    data: Vec<u8>,
    tz: tzfile::Tz,
}

impl View for Zone {
    type V = Seq<u8>;

    closed spec fn view(&self) -> Seq<u8> {
        self.data@
    }
}

impl Zone {
    /// The zone of a tz database file's bytes; `None` when they do not
    /// read as one.
    pub fn new(data: Vec<u8>) -> (r: Option<Zone>)
        requires
            zone_bytes_safe(data@),
        ensures
            r is Some == zone_parses(data@),
            r matches Some(z) ==> z@ == data@,
    {
        match parse_zone(data.as_slice()) {
            Some(tz) => Some(Zone { data, tz }),
            None => None,
        }
    }
}

/// `chrono::DateTime::with_timezone` into `zone` of the instant `secs`
/// seconds and `nanos` nanoseconds after the epoch, read back as the local
/// date's weekday (`Weekday::num_days_from_monday`) and day number
/// (`Datelike::num_days_from_ce`, 1 January of year 1 being day 1, a
/// Monday).  Claims that the result is the named one; that within chrono's
/// range (a bound that keeps the local time clear of its ends) the call
/// succeeds; that the day number is one of a date chrono has (below 10^8
/// in size); and that the weekday is the one the day number gives.
#[verifier::external_body]
pub(crate) fn local_date(zone: &Zone, secs: i64, nanos: u32) -> (r: Option<(u8, i32)>)
    requires
        -8_000_000_000_000 <= secs <= 8_000_000_000_000,
        nanos < 1_000_000_000,
    ensures
        r == zone_local_date(zone@, secs, nanos),
        r is Some,
        r matches Some((w, day)) ==> w < 7 && w as int == (day - 1) % 7 && -100_000_000 < day < 100_000_000,
{
    match chrono::DateTime::from_timestamp(secs, nanos) {
        Some(utc) => {
            let d = utc.with_timezone(&&zone.tz).date_naive();
            Some((Datelike::weekday(&d).num_days_from_monday() as u8, Datelike::num_days_from_ce(&d)))
        },
        None => None,
    }
}

/// `chrono::NaiveDateTime::and_local_timezone` in `zone` of the local time
/// `t` on day number `day`: claims that the result is the named one.
#[verifier::external_body]
pub(crate) fn local_instant(zone: &Zone, day: i32, t: TimeOfDay) -> (r: Option<(i64, u32)>)
    ensures
        r == zone_local_instant(zone@, day, t.secs, t.frac),
{
    let date = chrono::NaiveDate::from_num_days_from_ce_opt(day)?;
    let time = chrono::NaiveTime::from_num_seconds_from_midnight_opt(t.secs, t.frac)?;
    match date.and_time(time).and_local_timezone(&zone.tz) {
        chrono::LocalResult::Single(x) => Some((x.timestamp(), x.timestamp_subsec_nanos())),
        chrono::LocalResult::Ambiguous(x, _) => Some((x.timestamp(), x.timestamp_subsec_nanos())),
        chrono::LocalResult::None => None,
    }
}

} // verus!
