use maison::parse::Message;
use maison::pb::{Climate, HeatSchedule, Hysteresis, PersistentState, SetPoint, SetPoint2};
use maison::thermostat::{
    apply_decisions, hold, Calculation, Decision, Thermostat, ThermostatSet, ThermostatSetArgs,
};
use maison::time::{make_delay, Timestamp};

const NOW: i128 = 1_700_000_000_000_000_000;
const MIN: u128 = 60_000_000_000;

fn t(x: f64) -> u64 {
    x.to_bits()
}

fn args() -> ThermostatSetArgs {
    ThermostatSetArgs {
        hysteresis_on_hold_time: 45 * MIN,
        hysteresis_off_hold_time: 30 * MIN,
        live_temp_memory: 75 * MIN,
    }
}

fn sched(zone: &str, sp: f64, unique: Option<u64>) -> SetPoint {
    SetPoint { zone: Some(zone.to_string()), setpoint: Some(t(sp)), unique }
}

fn climate(temp: Option<f64>) -> Message {
    Message::Climate(Climate { unit: None, battery: None, temperature: temp.map(t), humidity: None })
}

#[test]
fn decide_heats_below_schedule_setpoint() {
    let s = sched("main", 20.0, Some(7));
    let th = Thermostat { state: None, schedule: Some(&s) };
    assert_eq!(th.decide(Some(t(19.0)), NOW, false), Decision::On(Some(7)));
    assert_eq!(th.decide(Some(t(20.0)), NOW, false), Decision::Off(Some(7)));
    assert_eq!(th.decide(None, NOW, false), Decision::Skip);
}

#[test]
fn decide_respects_hysteresis() {
    let s = sched("main", 20.0, Some(7));
    let until = make_delay(NOW, 10 * MIN).unwrap();
    let o = SetPoint2 {
        zone: Some("main".into()),
        setpoint: None,
        hysteresis: Some(Hysteresis { state: Some(false), until: Some(until), schedule_unique: Some(7) }),
    };
    let th = Thermostat { state: Some(&o), schedule: Some(&s) };
    // Held off and still warm enough: nothing to do.
    assert_eq!(th.decide(Some(t(21.0)), NOW, false), Decision::Skip);
    // Held off but now cold: wait for the hold to end.
    assert_eq!(th.decide(Some(t(18.0)), NOW, false), Decision::Wait(10 * MIN));
    // After the hold: heat.
    assert_eq!(th.decide(Some(t(18.0)), NOW + 11 * MIN as i128, false), Decision::On(Some(7)));
    // A hold for another schedule entry does not count.
    let s2 = sched("main", 20.0, Some(8));
    let th2 = Thermostat { state: Some(&o), schedule: Some(&s2) };
    assert_eq!(th2.decide(Some(t(18.0)), NOW, false), Decision::On(Some(8)));
    // Without a reading, a held zone is disabled.
    assert_eq!(th.decide(None, NOW, false), Decision::Disable);
}

#[test]
fn override_setpoint_applies_only_while_overridden() {
    let s = sched("main", 18.0, Some(1));
    let o = SetPoint2 { zone: Some("main".into()), setpoint: Some(t(22.0)), hysteresis: None };
    let th = Thermostat { state: Some(&o), schedule: Some(&s) };
    assert_eq!(th.decide(Some(t(20.0)), NOW, true), Decision::On(None));
    assert_eq!(th.decide(Some(t(20.0)), NOW, false), Decision::Off(Some(1)));
    assert_eq!(th.setpoint_from_state_or_schedule(), Some((t(22.0), None)));
    assert_eq!(th.setpoint_from_schedule(), Some((t(18.0), Some(1))));
}

#[test]
fn hold_sets_fields() {
    let mut h = Hysteresis { state: None, until: None, schedule_unique: None };
    let ts = Timestamp { seconds: 5, nanos: 6 };
    hold(&mut h, true, Some(ts), Some(3));
    assert_eq!(h, Hysteresis { state: Some(true), until: Some(ts), schedule_unique: Some(3) });
    hold(&mut h, false, None, None);
    assert_eq!(h, Hysteresis { state: Some(false), until: Some(ts), schedule_unique: Some(3) });
}

#[test]
fn calculate_subscribes_first_then_decides() {
    let mut ts = ThermostatSet::new(args());
    let state = PersistentState::new();
    let schedule = HeatSchedule { hot_water: Some(true), heating: vec![sched("main", 20.0, Some(1)), sched("top", 18.0, None)] };
    match ts.calculate(&state, &schedule, 1000, NOW) {
        Calculation::Deferred { added } => assert_eq!(added, vec!["main".to_string(), "top".to_string()]),
        c => panic!("unexpected {c:?}"),
    }
    assert_eq!(ts.monitors, vec!["main".to_string(), "top".to_string()]);
    ts.on_monitor_message(&"main".to_string(), &climate(Some(19.0)), 1000);
    ts.on_monitor_message(&"top".to_string(), &climate(Some(19.0)), 1000);
    match ts.calculate(&state, &schedule, 2000, NOW) {
        Calculation::Decided { decisions, heating_overridden, wake_after, write } => {
            assert_eq!(decisions, vec![("main".to_string(), Decision::On(Some(1))), ("top".to_string(), Decision::Off(None))]);
            assert!(!heating_overridden);
            assert_eq!(wake_after, None);
            assert!(write);
        }
        c => panic!("unexpected {c:?}"),
    }
}

#[test]
fn stale_readings_are_not_used() {
    let mut ts = ThermostatSet::new(args());
    ts.monitors.push("main".to_string());
    let state = PersistentState::new();
    let schedule = HeatSchedule { hot_water: None, heating: vec![sched("main", 20.0, None)] };
    ts.on_monitor_message(&"main".to_string(), &climate(Some(15.0)), 0);
    let later = 75 * MIN;
    match ts.calculate(&state, &schedule, later, NOW) {
        Calculation::Decided { decisions, .. } => assert_eq!(decisions, vec![("main".to_string(), Decision::Skip)]),
        c => panic!("unexpected {c:?}"),
    }
    ts.forget_stale(later);
    assert!(ts.live_temp.is_empty());
}

#[test]
fn readings_are_replaced_and_forgotten() {
    let mut ts = ThermostatSet::new(args());
    let z = "main".to_string();
    ts.on_monitor_message(&z, &climate(Some(15.0)), 1);
    ts.on_monitor_message(&z, &climate(Some(16.0)), 2);
    assert_eq!(ts.live_temp.len(), 1);
    assert_eq!(ts.live_temp[0].temperature, t(16.0));
    ts.on_monitor_message(&z, &Message::Empty, 3);
    assert_eq!(ts.live_temp.len(), 1);
    ts.on_monitor_message(&z, &climate(None), 4);
    assert!(ts.live_temp.is_empty());
}

#[test]
fn drop_monitor_removes_zone() {
    let mut ts = ThermostatSet::new(args());
    ts.monitors = vec!["a".to_string(), "b".to_string()];
    ts.drop_monitor(&"a".to_string());
    assert_eq!(ts.monitors, vec!["b".to_string()]);
}

#[test]
fn apply_decisions_records_holds() {
    let mut state = PersistentState::new();
    state.heating_override.push(SetPoint2 { zone: Some("main".into()), setpoint: Some(t(21.0)), hysteresis: None });
    state.heating_override.push(SetPoint2 { zone: Some("gone".into()), setpoint: None, hysteresis: None });
    state.heating_override_until = Some(Timestamp { seconds: 1, nanos: 0 });
    let decisions = vec![("main".to_string(), Decision::On(Some(4))), ("top".to_string(), Decision::Off(None))];
    apply_decisions(&mut state, &decisions, false, NOW, &args());
    assert_eq!(state.heating_override_until, None);
    assert_eq!(state.heating_override.len(), 2);
    let main = &state.heating_override[0];
    assert_eq!(main.zone.as_deref(), Some("main"));
    assert_eq!(main.setpoint, None);
    assert_eq!(main.hysteresis, Some(Hysteresis { state: Some(true), until: make_delay(NOW, 45 * MIN), schedule_unique: Some(4) }));
    let top = &state.heating_override[1];
    assert_eq!(top.zone.as_deref(), Some("top"));
    assert_eq!(top.hysteresis, Some(Hysteresis { state: Some(false), until: make_delay(NOW, 30 * MIN), schedule_unique: None }));
}

#[test]
fn apply_decisions_keeps_overrides_while_overridden() {
    let mut state = PersistentState::new();
    let until = Timestamp { seconds: 1_800_000_000, nanos: 0 };
    state.heating_override_until = Some(until);
    state.heating_override.push(SetPoint2 { zone: Some("main".into()), setpoint: Some(t(21.0)), hysteresis: None });
    state.heating_override.push(SetPoint2 {
        zone: Some("top".into()),
        setpoint: Some(t(19.0)),
        hysteresis: Some(Hysteresis { state: Some(true), until: None, schedule_unique: None }),
    });
    let decisions = vec![("main".to_string(), Decision::Skip), ("top".to_string(), Decision::Disable)];
    apply_decisions(&mut state, &decisions, true, NOW, &args());
    assert_eq!(state.heating_override_until, Some(until));
    assert_eq!(state.heating_override.len(), 2);
    assert_eq!(state.heating_override[0].setpoint, Some(t(21.0)));
    assert_eq!(state.heating_override[1].hysteresis, None);
    assert_eq!(state.heating_override[1].setpoint, Some(t(19.0)));
}

#[test]
fn apply_decisions_keeps_zones_distinct() {
    let mut state = PersistentState::new();
    state.heating_override_until = Some(Timestamp { seconds: 1_800_000_000, nanos: 0 });
    state.heating_override.push(SetPoint2 { zone: Some("main".into()), setpoint: Some(t(21.0)), hysteresis: None });
    state.heating_override.push(SetPoint2 { zone: Some("top".into()), setpoint: Some(t(19.0)), hysteresis: None });
    let decisions = vec![
        ("top".to_string(), Decision::Off(None)),
        ("main".to_string(), Decision::On(None)),
        ("kitchen".to_string(), Decision::On(Some(2))),
    ];
    apply_decisions(&mut state, &decisions, true, NOW, &args());
    let zones: Vec<&str> = state.heating_override.iter().map(|o| o.zone.as_deref().unwrap()).collect();
    assert_eq!(zones, vec!["main", "top", "kitchen"]);
}
