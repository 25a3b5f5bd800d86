//! Day and night from sunrise and sunset.
//!
//! The solar event times (instants, nanoseconds since the epoch) are
//! worked out by the caller for the current day and the next; `None`
//! stands for an event that could not be computed.
use vstd::prelude::*;

verus! {

/// Whether it is day now and how long until that changes: before today's
/// sunrise it is night until then; before today's sunset it is day until
/// then; after it, night until tomorrow's sunrise.
pub open spec fn spec_state_and_len(
    now: int,
    rise: Option<int>,
    set: Option<int>,
    rise_tomorrow: Option<int>,
) -> Option<(bool, int)> {
    match rise {
        None => None,
        Some(r) => if r >= now {
            Some((false, r - now))
        } else {
            match set {
                None => None,
                Some(s) => if s >= now {
                    Some((true, s - now))
                } else {
                    match rise_tomorrow {
                        Some(r2) if r2 >= now => Some((false, r2 - now)),
                        _ => None,
                    }
                },
            }
        },
    }
}

/// Instants the daylight logic works with: within `SystemTime`'s range.
pub open spec fn solar_ok(now: i128, rise: Option<i128>, set: Option<i128>, rise_tomorrow: Option<i128>) -> bool {
    &&& crate::time::representable(now as int)
    &&& rise matches Some(r) ==> crate::time::representable(r as int)
    &&& set matches Some(s) ==> crate::time::representable(s as int)
    &&& rise_tomorrow matches Some(r) ==> crate::time::representable(r as int)
}

/// The spec view of an optional instant.
pub open spec fn opt_int(o: Option<i128>) -> Option<int> {
    match o {
        Some(x) => Some(x as int),
        None => None,
    }
}

/// Whether it is day at `now`, and for how long (nanoseconds) that stays so.
pub fn state_and_len(now: i128, rise: Option<i128>, set: Option<i128>, rise_tomorrow: Option<i128>) -> (r: Option<(bool, u128)>)
    requires
        solar_ok(now, rise, set, rise_tomorrow),
    ensures
        r matches Some((day, d)) ==> spec_state_and_len(now as int, opt_int(rise), opt_int(set), opt_int(rise_tomorrow)) == Some((day, d as int)),
        r is None ==> spec_state_and_len(now as int, opt_int(rise), opt_int(set), opt_int(rise_tomorrow)) is None,
{
    let r = match rise {
        Some(r) => r,
        None => {
            return None;
        },
    };
    if r >= now {
        return Some((false, (r - now) as u128));
    }
    let s = match set {
        Some(s) => s,
        None => {
            return None;
        },
    };
    if s >= now {
        return Some((true, (s - now) as u128));
    }
    match rise_tomorrow {
        Some(r2) => if r2 >= now {
            Some((false, (r2 - now) as u128))
        } else {
            None
        },
        None => None,
    }
}

/// Whether it is night at `now` (`None` when that cannot be told).
pub fn is_night(now: i128, rise: Option<i128>, set: Option<i128>, rise_tomorrow: Option<i128>) -> (r: Option<bool>)
    requires
        solar_ok(now, rise, set, rise_tomorrow),
    ensures
        r == (match spec_state_and_len(now as int, opt_int(rise), opt_int(set), opt_int(rise_tomorrow)) {
            Some((day, _)) => Some(!day),
            None => None,
        }),
{
    match state_and_len(now, rise, set, rise_tomorrow) {
        Some((day, _)) => Some(!day),
        None => None,
    }
}

/// How long to wait before asking again when day or night cannot be told
/// (nanoseconds).
pub const RETRY_AFTER: u128 = 3_600_000_000_000;

/// The day/night stream: remembers what was last announced.
#[derive(Clone, Copy, Debug, PartialEq, Eq, Structural)]
pub struct DaylightStream {
    pub present: Option<bool>,
}

impl DaylightStream {
    /// Nothing announced yet.
    pub fn new() -> (r: DaylightStream)
        ensures
            r.present is None,
    {
        DaylightStream { present: None }
    }

    /// Given the current state and its length (from `state_and_len`),
    /// returns what to announce (only a change) and how long to sleep.
    pub fn step(&mut self, s: Option<(bool, u128)>) -> (r: (Option<bool>, u128))
        ensures
            s is None ==> r == (None::<bool>, RETRY_AFTER) && *final(self) == *old(self),
            s matches Some((new, d)) ==> r.1 == d && final(self).present == Some(new)
                && r.0 == (if old(self).present == Some(new) { None } else { Some(new) }),
    {
        match s {
            None => (None, RETRY_AFTER),
            Some((new, d)) => {
                if self.present != Some(new) {
                    self.present = Some(new);
                    (Some(new), d)
                } else {
                    (None, d)
                }
            },
        }
    }
}

} // verus!
