use maison::api::{
    cancel_heating_override, convert, convert_temperature, increment_set_point,
    maybe_expire_heating_override, monitor_subscriptions, now_timestamp, set_heating, set_hot_water,
    set_many, ApiError, MonitorKind,
};
use maison::parse::Message;
use maison::pb::{
    Boiler, Climate, IncrementSetPointRequest, MaisonState, MonitorEverythingRequest, MonitorMessage,
    PersistentState, SetManyRequest, SetPoint, SetPoint2, SimpleSwitch,
};
use maison::time::{make_delay, Timestamp};

const NOW: i128 = 1_700_000_000_000_000_000;

fn with_override() -> PersistentState {
    let mut s = PersistentState::new();
    s.heating_override_until = Some(Timestamp { seconds: 1_700_000_100, nanos: 0 });
    s.heating_override.push(SetPoint2 { zone: Some("main".into()), setpoint: Some(21f64.to_bits()), hysteresis: None });
    s
}

#[test]
fn convert_temperature_only_climate() {
    let c = Climate { unit: Some("top".into()), battery: None, temperature: Some(1), humidity: None };
    assert!(matches!(convert_temperature(Message::Climate(c)), Some(r) if matches!(r.message, Some(MonitorMessage::LiveTemperature(_)))));
    assert!(convert_temperature(Message::Empty).is_none());
}

#[test]
fn convert_by_kind() {
    let sw = || Message::SimpleSwitch(SimpleSwitch { state: Some(true) });
    assert!(matches!(convert(MonitorKind::GardenLights, sw()).unwrap().message, Some(MonitorMessage::GardenLights(_))));
    assert!(matches!(convert(MonitorKind::KitchenUnderStairs, sw()).unwrap().message, Some(MonitorMessage::KitchenUnderStairs(_))));
    assert!(convert(MonitorKind::Boiler, sw()).is_none());
    let b = Message::Boiler(Boiler { heating: Some(true), hot_water: None });
    assert!(matches!(convert(MonitorKind::Boiler, b).unwrap().message, Some(MonitorMessage::Boiler(_))));
}

#[test]
fn monitor_subscriptions_follow_flags() {
    let req = MonitorEverythingRequest {
        want_live_temperatures: Some(true),
        want_kitchen_ceiling: None,
        want_kitchen_under_cupboards: Some(false),
        want_kitchen_under_stairs: Some(true),
        want_boiler: Some(true),
        want_garden_lights: None,
        want_maison: Some(true),
    };
    let (subs, snapshots) = monitor_subscriptions(&req);
    assert!(snapshots);
    let topics: Vec<&str> = subs.iter().map(|s| s.0).collect();
    assert_eq!(
        topics,
        vec![
            "zigbee/climate/bottom",
            "zigbee/climate/middle",
            "zigbee/climate/top",
            "zigbee/climate/main",
            "zigbee/climate/kitchen",
            "zigbee/kitchen_under_stairs",
            "zigbee/boiler",
        ]
    );
    assert_eq!(subs[6].1, MonitorKind::Boiler);
}

#[test]
fn monitor_without_state_snapshots() {
    let req = MonitorEverythingRequest {
        want_live_temperatures: None,
        want_kitchen_ceiling: Some(true),
        want_kitchen_under_cupboards: None,
        want_kitchen_under_stairs: None,
        want_boiler: None,
        want_garden_lights: Some(true),
        want_maison: Some(false),
    };
    let (subs, snapshots) = monitor_subscriptions(&req);
    assert!(!snapshots);
    let topics: Vec<&str> = subs.iter().map(|s| s.0).collect();
    assert_eq!(topics, vec!["zigbee/kitchen_ceiling", "zigbee/garden"]);
}

#[test]
fn set_heating_errors() {
    let mut s = with_override();
    assert_eq!(set_heating(&mut s, None, NOW), Err(ApiError::DurationNotPositive));
    assert_eq!(set_heating(&mut s, Some(0), NOW), Err(ApiError::DurationNotPositive));
    assert_eq!(set_heating(&mut s, Some(u64::MAX), i128::from(i64::MAX) * 1_000_000_000), Err(ApiError::SillyDuration));
    let mut empty = PersistentState::new();
    assert_eq!(set_heating(&mut empty, Some(1000), NOW), Err(ApiError::HeatingOverrideNotSet));
}

#[test]
fn set_heating_extends() {
    let mut s = with_override();
    assert_eq!(set_heating(&mut s, Some(3_600_000), NOW), Ok(()));
    assert_eq!(s.heating_override_until, make_delay(NOW, 3_600_000_000_000));
    assert_eq!(s.heating_override.len(), 1);
}

#[test]
fn set_heating_after_expiry_fails_and_clears() {
    let mut s = with_override();
    let later = NOW + 200_000_000_000;
    assert_eq!(set_heating(&mut s, Some(1000), later), Err(ApiError::HeatingOverrideNotSet));
    assert_eq!(s.heating_override_until, None);
    assert!(s.heating_override.is_empty());
}

#[test]
fn maybe_expire_keeps_running_override() {
    let mut s = with_override();
    maybe_expire_heating_override(&mut s, NOW);
    assert!(s.heating_override_until.is_some());
    maybe_expire_heating_override(&mut s, NOW + 100_000_000_000);
    assert!(s.heating_override_until.is_none());
    assert!(s.heating_override.is_empty());
}

#[test]
fn set_hot_water_and_cancel() {
    let mut s = PersistentState::new();
    assert_eq!(set_hot_water(&mut s, Some(60_000), NOW), Ok(()));
    assert_eq!(s.hot_water_override_until, Some(Timestamp { seconds: 1_700_000_060, nanos: 0 }));
    assert_eq!(set_hot_water(&mut s, None, NOW), Ok(()));
    assert_eq!(s.hot_water_override_until, None);
    assert_eq!(set_hot_water(&mut s, Some(1), -1_000_000_000_000), Err(ApiError::SillyDuration));
}

#[test]
fn cancel_heating_override_clears() {
    let mut s = with_override();
    cancel_heating_override(&mut s);
    assert!(s.heating_override_until.is_none());
    assert!(s.heating_override.is_empty());
    let mut t = PersistentState::new();
    t.heating_override.push(SetPoint2 { zone: None, setpoint: None, hysteresis: None });
    cancel_heating_override(&mut t);
    assert_eq!(t.heating_override.len(), 1);
}

fn req(zone: &str, start: Option<f64>, dur: Option<u64>) -> IncrementSetPointRequest {
    IncrementSetPointRequest {
        zone: Some(zone.into()),
        increment: Some(0.5f64.to_bits()),
        starting_value_if_unset: start.map(f64::to_bits),
        duration_ms_if_not_already_set: dur,
    }
}

#[test]
fn increment_set_point_cases() {
    let mut s = with_override();
    assert_eq!(increment_set_point(&mut s, &req("main", None, None), NOW), Ok(Some(0)));
    assert_eq!(increment_set_point(&mut s, &req("top", None, None), NOW), Err(ApiError::NoSetpointForZone));
    assert_eq!(increment_set_point(&mut s, &req("top", Some(18.0), None), NOW), Ok(Some(1)));
    assert_eq!(s.heating_override[1].setpoint, Some(18f64.to_bits()));
    let mut e = PersistentState::new();
    assert_eq!(increment_set_point(&mut e, &req("top", Some(18.0), None), NOW), Err(ApiError::NeedDuration));
    assert!(e.heating_override.is_empty());
    assert_eq!(increment_set_point(&mut e, &req("top", Some(18.0), Some(60_000)), NOW), Ok(Some(0)));
    assert_eq!(e.heating_override_until, make_delay(NOW, 60_000_000_000));
    let mut none = IncrementSetPointRequest { zone: None, increment: None, starting_value_if_unset: None, duration_ms_if_not_already_set: None };
    assert_eq!(increment_set_point(&mut e, &none, NOW), Ok(None));
    none.zone = Some("top".into());
    assert_eq!(increment_set_point(&mut e, &none, NOW), Ok(None));
    let mut bad = PersistentState::new();
    assert_eq!(increment_set_point(&mut bad, &req("x", Some(1.0), Some(u64::MAX)), i128::from(i64::MAX) * 1_000_000_000), Err(ApiError::SillyDuration));
}

#[test]
fn set_many_publishes_given_lights() {
    let (suppress, pubs) = set_many(&SetManyRequest { kitchen_ceiling: Some(true), kitchen_under_cupboards: None, kitchen_under_stairs: Some(false) });
    assert!(suppress);
    assert_eq!(pubs, vec![("zigbee/kitchen_ceiling/set/state", b"ON".to_vec()), ("zigbee/kitchen_under_stairs/set/state", b"OFF".to_vec())]);
    let (suppress, pubs) = set_many(&SetManyRequest { kitchen_ceiling: None, kitchen_under_cupboards: Some(true), kitchen_under_stairs: None });
    assert!(!suppress);
    assert_eq!(pubs.len(), 1);
}

#[test]
fn maison_state_snapshot() {
    let s = with_override();
    let m = MaisonState::from_state(&s, NOW);
    assert_eq!(m.now, Some(Timestamp { seconds: 1_700_000_000, nanos: 0 }));
    assert_eq!(m.heating_override_until, s.heating_override_until);
    assert_eq!(m.heating_override.len(), 1);
    assert_eq!(m.heating_override[0].zone.as_deref(), Some("main"));
    let sp = SetPoint::from_override(&s.heating_override[0]);
    assert_eq!(sp.setpoint, Some(21f64.to_bits()));
    assert_eq!(now_timestamp(-1), None);
}

#[test]
fn cancel_without_override_leaves_state_clean() {
    let mut idle = maison::state::StateCell::new(PersistentState::new());
    assert!(!idle.cancel_heating_override());
    assert!(!idle.needs_flush());
    let mut set = maison::state::StateCell::new(with_override());
    assert!(set.cancel_heating_override());
    assert!(set.needs_flush());
    assert!(set.state.heating_override_until.is_none());
    assert!(set.state.heating_override.is_empty());
    assert!(!set.cancel_heating_override());
    assert!(set.needs_flush());
}
