use maison::parse::{
    check_last_seen, on_off, route, switch_payload, BoilerJson, ClimateJson, Decoded, Message,
    Problem, Route, SimpleSwitchJson,
};

const NOW: i128 = 1_700_000_000_000_000_000;
const NOW_MS: u64 = 1_700_000_000_000;

fn nothing() -> Decoded {
    Decoded { boiler: None, climate: None, simple_switch: None }
}

#[test]
fn on_off_reads_switch_states() {
    assert_eq!(on_off("ON"), Ok(true));
    assert_eq!(on_off("OFF"), Ok(false));
    assert_eq!(on_off("on"), Err(()));
    assert_eq!(on_off(""), Err(()));
}

#[test]
fn switch_payload_reads_back() {
    for x in [true, false] {
        let p = switch_payload(x);
        assert_eq!(on_off(std::str::from_utf8(&p).unwrap()), Ok(x));
    }
    assert_eq!(switch_payload(true), b"ON".to_vec());
    assert_eq!(switch_payload(false), b"OFF".to_vec());
}

#[test]
fn check_last_seen_boundaries() {
    assert!(check_last_seen(NOW_MS, 300_000_000_000, NOW).is_ok());
    assert!(check_last_seen(NOW_MS - 300_000, 300_000_000_000, NOW).is_ok());
    assert!(check_last_seen(NOW_MS - 300_001, 300_000_000_000, NOW).is_err());
    assert!(check_last_seen(NOW_MS + 1, 300_000_000_000, NOW).is_err());
}

#[test]
fn routes_topics() {
    assert!(matches!(route("zigbee/boiler"), Route::Boiler));
    assert!(matches!(route("zigbee/garden"), Route::SimpleSwitch));
    assert!(matches!(route("zigbee/kitchen_under_stairs"), Route::SimpleSwitch));
    match route("zigbee/climate/top") {
        Route::Climate(u) => assert_eq!(u, "top"),
        _ => panic!("not a climate topic"),
    }
    assert!(matches!(route("zigbee/garden_door"), Route::Unrecognised));
    assert!(matches!(route("zigbee/climate"), Route::Unrecognised));
}

#[test]
fn boiler_report_is_decoded() {
    let d = Decoded {
        boiler: Some(BoilerJson { state_l1: "OFF".into(), state_l2: "ON".into(), last_seen: NOW_MS }),
        ..nothing()
    };
    match Message::from("zigbee/boiler", b"{}".to_vec(), d, NOW) {
        Message::Boiler(b) => {
            assert_eq!(b.heating, Some(true));
            assert_eq!(b.hot_water, Some(false));
        }
        m => panic!("unexpected {m:?}"),
    }
}

#[test]
fn boiler_report_with_bad_state_is_bad_json() {
    let d = Decoded {
        boiler: Some(BoilerJson { state_l1: "MAYBE".into(), state_l2: "ON".into(), last_seen: NOW_MS }),
        ..nothing()
    };
    assert!(matches!(
        Message::from("zigbee/boiler", b"{}".to_vec(), d, NOW),
        Message::Invalid(Problem::BadJson, _)
    ));
}

#[test]
fn stale_switch_report() {
    let d = Decoded {
        simple_switch: Some(SimpleSwitchJson { state: "ON".into(), last_seen: NOW_MS - 66_000_001 }),
        ..nothing()
    };
    assert!(matches!(
        Message::from("zigbee/kitchen_ceiling", b"{}".to_vec(), d, NOW),
        Message::Invalid(Problem::Stale, _)
    ));
}

#[test]
fn switch_report_is_decoded() {
    let d = Decoded {
        simple_switch: Some(SimpleSwitchJson { state: "OFF".into(), last_seen: NOW_MS - 1000 }),
        ..nothing()
    };
    match Message::from("zigbee/garden", b"{}".to_vec(), d, NOW) {
        Message::SimpleSwitch(s) => assert_eq!(s.state, Some(false)),
        m => panic!("unexpected {m:?}"),
    }
}

#[test]
fn climate_report_is_decoded() {
    let d = Decoded {
        climate: Some(ClimateJson {
            battery: 97.0f64.to_bits(),
            humidity: 55.5f64.to_bits(),
            temperature: 19.25f64.to_bits(),
            last_seen: NOW_MS - 4_000_000,
        }),
        ..nothing()
    };
    match Message::from("zigbee/climate/kitchen", b"{}".to_vec(), d, NOW) {
        Message::Climate(c) => {
            assert_eq!(c.unit.as_deref(), Some("kitchen"));
            assert_eq!(c.temperature.map(f64::from_bits), Some(19.25));
            assert_eq!(c.humidity.map(f64::from_bits), Some(55.5));
            assert_eq!(c.battery.map(f64::from_bits), Some(97.0));
        }
        m => panic!("unexpected {m:?}"),
    }
}

#[test]
fn undecodable_climate_report_is_bad_json() {
    match Message::from("zigbee/climate/top", b"not json".to_vec(), nothing(), NOW) {
        Message::Invalid(Problem::BadJson, payload) => assert_eq!(payload, b"not json".to_vec()),
        m => panic!("unexpected {m:?}"),
    }
}

#[test]
fn bad_utf8_is_reported_before_json() {
    let d = Decoded {
        simple_switch: Some(SimpleSwitchJson { state: "ON".into(), last_seen: NOW_MS }),
        ..nothing()
    };
    assert!(matches!(
        Message::from("zigbee/garden", vec![0xff, 0xfe], d, NOW),
        Message::Invalid(Problem::BadUtf8, _)
    ));
}

#[test]
fn unrecognised_topic_keeps_payload() {
    match Message::from("zigbee/fridge", vec![0xff], nothing(), NOW) {
        Message::Invalid(Problem::UnrecognisedTopic, p) => assert_eq!(p, vec![0xff]),
        m => panic!("unexpected {m:?}"),
    }
}
