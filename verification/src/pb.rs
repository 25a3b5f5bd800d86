//! The messages exchanged with the devices, the schedule and the control
//! API, and the persistent state.  Temperatures are IEEE-754 double bit
//! patterns (`f64::to_bits`), so that they can be stored and compared
//! exactly without floating-point arithmetic.
use vstd::prelude::*;
use crate::time::Timestamp;

verus! {

/// Boiler report: relay states for heating and hot water.
#[derive(Clone, Copy, Debug, PartialEq, Eq, Structural)]
pub struct Boiler {
    pub heating: Option<bool>,
    pub hot_water: Option<bool>,
}

/// Climate sensor report; the readings are temperature bit patterns.
#[derive(Clone, Debug)]
pub struct Climate {
    pub unit: Option<String>,
    pub battery: Option<u64>,
    pub temperature: Option<u64>,
    pub humidity: Option<u64>,
}

/// Report of a simple on/off switch.
#[derive(Clone, Copy, Debug, PartialEq, Eq, Structural)]
pub struct SimpleSwitch {
    pub state: Option<bool>,
}

/// A scheduled set point for one zone.
#[derive(Clone, Debug)]
pub struct SetPoint {
    pub zone: Option<String>,
    pub setpoint: Option<u64>,
    pub unique: Option<u64>,
}

/// The hysteresis hold of one heating zone: the last decided relay state,
/// until when it is held, and which schedule entry it was decided for.
#[derive(Clone, Copy, Debug, PartialEq, Eq, Structural)]
pub struct Hysteresis {
    pub state: Option<bool>,
    pub until: Option<Timestamp>,
    pub schedule_unique: Option<u64>,
}

impl Hysteresis {
    /// The hysteresis with no field set.
    pub open spec fn empty() -> Hysteresis {
        Hysteresis { state: None, until: None, schedule_unique: None }
    }

    /// The relay state, `false` when unset (the protobuf accessor).
    pub open spec fn state_or_default(self) -> bool {
        match self.state {
            Some(s) => s,
            None => false,
        }
    }
}

/// A heating override of one zone, with its hysteresis hold.
#[derive(Debug)]
pub struct SetPoint2 {
    pub zone: Option<String>,
    pub setpoint: Option<u64>,
    pub hysteresis: Option<Hysteresis>,
}

impl Clone for SetPoint2 {
    fn clone(&self) -> (r: Self)
        ensures
            r == *self,
    {
        SetPoint2 {
            zone: match &self.zone {
                Some(z) => Some(z.clone()),
                None => None,
            },
            setpoint: self.setpoint,
            hysteresis: self.hysteresis,
        }
    }
}

/// The state that survives restarts.
#[derive(Clone, Debug)]
pub struct PersistentState {
    pub garden_light_until: Option<Timestamp>,
    pub underfloor_heating_until: Option<Timestamp>,
    pub hot_water_override_until: Option<Timestamp>,
    pub heating_override_until: Option<Timestamp>,
    pub heating_override: Vec<SetPoint2>,
}

impl PersistentState {
    /// The empty state.
    pub fn new() -> (r: PersistentState)
        ensures
            r.garden_light_until is None,
            r.underfloor_heating_until is None,
            r.hot_water_override_until is None,
            r.heating_override_until is None,
            r.heating_override@.len() == 0,
    {
        PersistentState {
            garden_light_until: None,
            underfloor_heating_until: None,
            hot_water_override_until: None,
            heating_override_until: None,
            heating_override: Vec::new(),
        }
    }
}

/// What the schedule asks for now.
#[derive(Clone, Debug)]
pub struct HeatSchedule {
    pub hot_water: Option<bool>,
    pub heating: Vec<SetPoint>,
}

/// A snapshot of the state for API clients.
#[derive(Debug)]
pub struct MaisonState {
    pub now: Option<Timestamp>,
    pub garden_light_until: Option<Timestamp>,
    pub hot_water_override_until: Option<Timestamp>,
    pub heating_override_until: Option<Timestamp>,
    pub heating_override: Vec<SetPoint>,
}

/// One item of the monitoring stream.
#[derive(Debug)]
pub enum MonitorMessage {
    LiveTemperature(Climate),
    KitchenCeiling(SimpleSwitch),
    KitchenUnderCupboards(SimpleSwitch),
    KitchenUnderStairs(SimpleSwitch),
    Boiler(Boiler),
    GardenLights(SimpleSwitch),
    Maison(MaisonState),
}

/// A monitoring stream response.
#[derive(Debug)]
pub struct MonitorResponse {
    pub message: Option<MonitorMessage>,
}


/// Request for the monitoring stream: which reports to include.
#[derive(Clone, Copy, Debug)]
pub struct MonitorEverythingRequest {
    pub want_live_temperatures: Option<bool>,
    pub want_kitchen_ceiling: Option<bool>,
    pub want_kitchen_under_cupboards: Option<bool>,
    pub want_kitchen_under_stairs: Option<bool>,
    pub want_boiler: Option<bool>,
    pub want_garden_lights: Option<bool>,
    pub want_maison: Option<bool>,
}

/// Request to switch something on for a while (or off, or indefinitely).
#[derive(Clone, Copy, Debug)]
pub struct SetLightsRequest {
    pub duration_ms: Option<u64>,
}

/// Request to set several kitchen lights.
#[derive(Clone, Copy, Debug)]
pub struct SetManyRequest {
    pub kitchen_ceiling: Option<bool>,
    pub kitchen_under_cupboards: Option<bool>,
    pub kitchen_under_stairs: Option<bool>,
}

/// Request to raise or lower a zone's override set point.
#[derive(Debug)]
pub struct IncrementSetPointRequest {
    pub zone: Option<String>,
    pub increment: Option<u64>,
    pub starting_value_if_unset: Option<u64>,
    pub duration_ms_if_not_already_set: Option<u64>,
}

} // verus!
