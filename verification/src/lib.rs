//! Verified decision logic of a small home-automation controller: message
//! parsing, boiler and light control, heating schedules, thermostat decisions
//! and the persistent-state operations behind the control API.

pub mod text;
pub mod time;
pub mod pb;
pub mod temperature;
pub mod thermostat;
pub mod parse;
pub mod boiler;
pub mod autogarden;
pub mod autokitchen;
pub mod heat;
pub mod hotwater;
pub mod api;
pub mod lights;
pub mod daylight;
pub mod state;
pub mod mqtt;
pub mod schedule;
pub mod local_time;
pub mod week;
pub mod zone;
