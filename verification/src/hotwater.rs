//! The hot-water relay: on while an override runs, otherwise as
//! scheduled; only changes of the wanted state are reported.
use vstd::prelude::*;
use crate::parse::Message;
use crate::time::{proto_ts_to_delay, representable, spec_delay_until, Timestamp};

verus! {

/// The topic that sets the hot-water relay.
pub open spec fn spec_hot_water_topic() -> Seq<char> {
    "zigbee/boiler/set/state_l1"@
}

/// The hot-water relay a boiler control message should set.
pub struct HotWater;

impl HotWater {
    /// The topic that sets the hot-water relay.
    pub fn topic() -> (r: &'static str)
        ensures
            r@ == spec_hot_water_topic(),
    {
        "zigbee/boiler/set/state_l1"
    }

    /// The hot-water relay state in a boiler report.
    pub fn get_live(msg: Message) -> (r: Option<bool>)
        ensures
            r == (match msg {
                Message::Boiler(x) => x.hot_water,
                _ => None,
            }),
    {
        match msg {
            Message::Boiler(x) => x.hot_water,
            _ => None,
        }
    }
}

/// The wanted hot-water state, as reported so far.
#[derive(Clone, Copy, Debug, PartialEq, Eq, Structural)]
pub struct HotWaterIntent {
    /// The state last reported.
    pub reported: bool,
    /// The state the schedule asks for, once known.
    pub programmed: Option<bool>,
    /// An override countdown runs.
    pub override_active: bool,
}

impl HotWaterIntent {
    /// Nothing reported yet (which counts as off).
    pub fn new() -> (r: HotWaterIntent)
        ensures
            r == (HotWaterIntent { reported: false, programmed: None, override_active: false }),
    {
        HotWaterIntent { reported: false, programmed: None, override_active: false }
    }

    /// A new state snapshot names the end of the hot-water override:
    /// returns the countdown to run (none when the end is not in the future).
    pub fn on_override_until(&mut self, until: Option<Timestamp>, now: i128) -> (r: Option<u128>)
        requires
            representable(now as int),
        ensures
            r matches Some(d) ==> spec_delay_until(until, now as int) == Some(d as int),
            r is None ==> spec_delay_until(until, now as int) is None,
            *final(self) == (HotWaterIntent { override_active: r is Some, ..*old(self) }),
    {
        let d = proto_ts_to_delay(until, now);
        self.override_active = d.is_some();
        d
    }

    /// Outcome of polling the running override countdown: when it has
    /// expired the override ends (`None`: go on to the schedule); while it
    /// runs, hot water is wanted, reported once (`Some(Some(true))`, then
    /// `Some(None)`: nothing new).
    pub fn on_countdown(&mut self, expired: bool) -> (r: Option<Option<bool>>)
        ensures
            expired ==> r is None && *final(self) == (HotWaterIntent { override_active: false, ..*old(self) }),
            !expired && !old(self).reported ==> r == Some(Some(true)) && *final(self) == (HotWaterIntent { reported: true, ..*old(self) }),
            !expired && old(self).reported ==> r == Some(None::<bool>) && *final(self) == *old(self),
    {
        if expired {
            self.override_active = false;
            None
        } else if !self.reported {
            self.reported = true;
            Some(Some(true))
        } else {
            Some(None)
        }
    }

    /// The schedule now asks for `hot_water` (unset counts as off).
    pub fn on_schedule(&mut self, hot_water: Option<bool>)
        ensures
            *final(self) == (HotWaterIntent {
                programmed: Some(match hot_water { Some(x) => x, None => false }),
                ..*old(self)
            }),
    {
        self.programmed = Some(match hot_water {
            Some(x) => x,
            None => false,
        });
    }

    /// The scheduled state, if it differs from the one last reported.
    pub fn next_intent(&mut self) -> (r: Option<bool>)
        ensures
            old(self).programmed is Some && old(self).programmed.unwrap() != old(self).reported ==> {
                &&& r == old(self).programmed
                &&& *final(self) == (HotWaterIntent { reported: old(self).programmed.unwrap(), ..*old(self) })
            },
            !(old(self).programmed is Some && old(self).programmed.unwrap() != old(self).reported) ==> r is None && *final(self) == *old(self),
    {
        if let Some(p) = self.programmed {
            if p != self.reported {
                self.reported = p;
                return Some(p);
            }
        }
        None
    }
}

/// What the hot-water intent is told.
#[derive(Clone, Copy, Debug, PartialEq, Eq, Structural)]
pub enum HotWaterInput {
    /// A new state snapshot, naming the end of the hot-water override.
    State(Option<Timestamp>),
    /// The override countdown expired.
    CountdownExpired,
    /// The schedule now asks for this (unset counts as off).
    Schedule(Option<bool>),
}

/// The intent after an input: the input is taken in, then the state to
/// report is found: while an override runs, on (reported once); otherwise
/// the schedule's state, if it differs from the one last reported.  Also
/// the countdown to start, for a state snapshot naming a future end.
pub open spec fn spec_hot_water_input(h: HotWaterIntent, e: HotWaterInput, now: int) -> (HotWaterIntent, Option<bool>, Option<u128>) {
    let (h1, countdown) = match e {
        HotWaterInput::State(until) => {
            let d = spec_delay_until(until, now);
            (HotWaterIntent { override_active: d is Some, ..h }, match d {
                Some(x) => Some(x as u128),
                None => None::<u128>,
            })
        },
        HotWaterInput::CountdownExpired => (HotWaterIntent { override_active: false, ..h }, None::<u128>),
        HotWaterInput::Schedule(hw) => (HotWaterIntent {
            programmed: Some(match hw { Some(x) => x, None => false }),
            ..h
        }, None::<u128>),
    };
    if h1.override_active {
        if !h1.reported {
            (HotWaterIntent { reported: true, ..h1 }, Some(true), countdown)
        } else {
            (h1, None::<bool>, countdown)
        }
    } else {
        match h1.programmed {
            Some(p) => if p != h1.reported {
                (HotWaterIntent { reported: p, ..h1 }, Some(p), countdown)
            } else {
                (h1, None::<bool>, countdown)
            },
            None => (h1, None::<bool>, countdown),
        }
    }
}

impl HotWaterIntent {
    /// Takes in an input at `now`, and returns the state to report, if any,
    /// and the override countdown to start, if any.
    pub fn input(&mut self, e: HotWaterInput, now: i128) -> (r: (Option<bool>, Option<u128>))
        requires
            representable(now as int),
        ensures
            (*final(self), r.0, r.1) == spec_hot_water_input(*old(self), e, now as int),
    {
        let countdown = match e {
            HotWaterInput::State(until) => self.on_override_until(until, now),
            HotWaterInput::CountdownExpired => {
                let _ = self.on_countdown(true);
                None
            },
            HotWaterInput::Schedule(hw) => {
                self.on_schedule(hw);
                None
            },
        };
        if self.override_active {
            match self.on_countdown(false) {
                Some(report) => (report, countdown),
                None => (None, countdown),
            }
        } else {
            (self.next_intent(), countdown)
        }
    }
}

/// While an override runs, hot water is reported on, and only once: no
/// input that leaves an override running reports off, and after it the
/// state last reported is on.  Once no override runs, what is reported is
/// the schedule's state, exactly when it differs from the state last
/// reported.
pub proof fn lemma_override_then_schedule(h: HotWaterIntent, e: HotWaterInput, now: int)
    ensures
        ({
            let (h2, r, _) = spec_hot_water_input(h, e, now);
            &&& h2.override_active ==> r != Some(false) && h2.reported
            &&& h2.override_active && r == Some(true) ==> !h.reported
            &&& !h2.override_active ==> r == (match h2.programmed {
                Some(p) => if p != h.reported { Some(p) } else { None::<bool> },
                None => None::<bool>,
            })
            &&& r matches Some(x) ==> h2.reported == x
        }),
{
}

} // verus!
