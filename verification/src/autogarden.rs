//! Garden lights: opening the garden door at night while the garden
//! lights are off turns them on for a while.
use vstd::prelude::*;

verus! {

/// How long the garden lights stay on after the door opens (milliseconds).
pub const DOOR_LIGHT_MS: u64 = 600_000;

/// The garden automation.
#[derive(Clone, Copy, Debug)]
pub struct AutoGarden {
    /// Reported state of the garden lights.
    pub live_lights: Option<bool>,
    /// Reported state of the door contact (`true` when closed).
    pub contact: Option<bool>,
}

/// A report seen by the garden automation.
#[derive(Clone, Copy, Debug)]
pub enum Update {
    StreamEnded,
    LightState(Option<bool>),
    Contact(Option<bool>),
}

/// What the automation asks the caller to do.
#[derive(Clone, Copy, Debug, PartialEq, Eq, Structural)]
pub enum GardenAction {
    /// Start over: a report stream ended.
    Stop,
    Idle,
    /// The door was opened while the lights were off: find out whether it
    /// is night and pass that to `lights_for_night`.
    DoorOpenedInDark,
}

/// The automation after a report, and what it asks for.
pub open spec fn spec_step(g: AutoGarden, u: Update) -> (AutoGarden, GardenAction) {
    match u {
        Update::StreamEnded => (g, GardenAction::Stop),
        Update::LightState(x) => (AutoGarden { live_lights: x, ..g }, GardenAction::Idle),
        Update::Contact(Some(false)) => (
            AutoGarden { contact: Some(false), ..g },
            if g.contact == Some(true) && g.live_lights == Some(false) {
                GardenAction::DoorOpenedInDark
            } else {
                GardenAction::Idle
            },
        ),
        Update::Contact(x) => (AutoGarden { contact: x, ..g }, GardenAction::Idle),
    }
}

impl AutoGarden {
    /// Nothing seen yet.
    pub fn new() -> (r: AutoGarden)
        ensures
            r.live_lights is None && r.contact is None,
    {
        AutoGarden { live_lights: None, contact: None }
    }

    /// Handles one report.
    pub fn step(&mut self, u: Update) -> (r: GardenAction)
        ensures
            (*final(self), r) == spec_step(*old(self), u),
    {
        match u {
            Update::StreamEnded => GardenAction::Stop,
            Update::LightState(x) => {
                self.live_lights = x;
                GardenAction::Idle
            },
            Update::Contact(Some(false)) => {
                let dark = self.contact == Some(true) && self.live_lights == Some(false);
                self.contact = Some(false);
                if dark {
                    GardenAction::DoorOpenedInDark
                } else {
                    GardenAction::Idle
                }
            },
            Update::Contact(x) => {
                self.contact = x;
                GardenAction::Idle
            },
        }
    }
}

/// For how long to turn the lights on, given whether it is night (`None`
/// when that is unknown): only at night.
pub fn lights_for_night(night: Option<bool>) -> (r: Option<u64>)
    ensures
        r == (if night == Some(true) { Some(DOOR_LIGHT_MS) } else { None::<u64> }),
{
    match night {
        Some(true) => Some(DOOR_LIGHT_MS),
        _ => None,
    }
}

/// The lights are only asked for when the door went from closed to open
/// while they were reported off.
pub proof fn lemma_lights_only_on_opening(g: AutoGarden, u: Update)
    ensures
        spec_step(g, u).1 is DoorOpenedInDark ==> {
            &&& u matches Update::Contact(Some(c)) && !c
            &&& g.contact == Some(true)
            &&& g.live_lights == Some(false)
        },
{
}

} // verus!
