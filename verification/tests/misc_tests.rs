use maison::daylight::{is_night, state_and_len, DaylightStream, RETRY_AFTER};
use maison::heat::Heat;
use maison::hotwater::{HotWater, HotWaterInput, HotWaterIntent};
use maison::lights::{Garden, OnOffTimer, OnOffTimerImpl, TimerWait, UnderfloorHeating};
use maison::mqtt::{event_healthy, forward_change, Health, MqttEvent, SubUnsub};
use maison::parse::Message;
use maison::pb::{Boiler, Hysteresis, PersistentState, SetPoint2};
use maison::state::{FlushOutcome, ReadGuard, StateCell, WriteGuard};
use maison::time::{make_delay, Timestamp};
use maison::api::ApiError;

const NOW: i128 = 1_700_000_000_000_000_000;
const H: i128 = 3_600_000_000_000;

#[test]
fn day_and_night() {
    let rise = NOW + H;
    let set = NOW + 10 * H;
    assert_eq!(state_and_len(NOW, Some(rise), Some(set), None), Some((false, H as u128)));
    assert_eq!(state_and_len(NOW + 2 * H, Some(rise), Some(set), None), Some((true, 8 * H as u128)));
    assert_eq!(state_and_len(NOW + 11 * H, Some(rise), Some(set), Some(rise + 24 * H)), Some((false, 14 * H as u128)));
    assert_eq!(state_and_len(NOW + 11 * H, Some(rise), Some(set), None), None);
    assert_eq!(state_and_len(NOW, None, Some(set), None), None);
    assert_eq!(is_night(NOW, Some(rise), Some(set), None), Some(true));
    assert_eq!(is_night(NOW + 2 * H, Some(rise), Some(set), None), Some(false));
}

#[test]
fn daylight_stream_reports_changes_only() {
    let mut s = DaylightStream::new();
    assert_eq!(s.step(Some((true, 5))), (Some(true), 5));
    assert_eq!(s.step(Some((true, 7))), (None, 7));
    assert_eq!(s.step(None), (None, RETRY_AFTER));
    assert_eq!(s.step(Some((false, 9))), (Some(false), 9));
}

#[test]
fn heat_intent_from_holds() {
    let mut s = PersistentState::new();
    assert!(!Heat::intent(&s));
    s.heating_override.push(SetPoint2 { zone: None, setpoint: None, hysteresis: Some(Hysteresis { state: Some(false), until: None, schedule_unique: None }) });
    assert!(!Heat::intent(&s));
    s.heating_override.push(SetPoint2 { zone: None, setpoint: None, hysteresis: Some(Hysteresis { state: Some(true), until: None, schedule_unique: None }) });
    assert!(Heat::intent(&s));
    let b = Message::Boiler(Boiler { heating: None, hot_water: Some(true) });
    assert_eq!(HotWater::get_live(b), Some(true));
}

#[test]
fn hot_water_intent_reports_changes() {
    let mut i = HotWaterIntent::new();
    let until = make_delay(NOW, 1_000_000_000);
    assert_eq!(i.on_override_until(until, NOW), Some(1_000_000_000));
    assert!(i.override_active);
    assert_eq!(i.on_countdown(false), Some(Some(true)));
    assert_eq!(i.on_countdown(false), Some(None));
    assert_eq!(i.on_countdown(true), None);
    assert!(!i.override_active);
    i.on_schedule(None);
    assert_eq!(i.next_intent(), Some(false));
    assert_eq!(i.next_intent(), None);
    i.on_schedule(Some(false));
    assert_eq!(i.next_intent(), None);
    assert_eq!(i.on_override_until(Some(Timestamp { seconds: 1, nanos: 0 }), NOW), None);
}

#[test]
fn timers_read_what_was_written() {
    let mut s = PersistentState::new();
    let ts = Timestamp { seconds: 1_700_000_600, nanos: 0 };
    Garden::set_timer(&mut s, ts);
    assert_eq!(Garden::get_timer(&s), Some(ts));
    assert_eq!(UnderfloorHeating::get_timer(&s), None);
    UnderfloorHeating::set_timer(&mut s, ts);
    Garden::clear_timer(&mut s);
    assert_eq!(Garden::get_timer(&s), None);
    assert_eq!(UnderfloorHeating::get_timer(&s), Some(ts));
    assert_eq!(Garden::set_topic(), "zigbee/garden/set/state");
    assert_eq!(UnderfloorHeating::set_topic(), "zigbee/underfloor_heating/set/state");
}

#[test]
fn duration_ms_plans() {
    let t = OnOffTimer { kind: Garden };
    let mut s = PersistentState::new();
    assert_eq!(t.duration_ms(None, &mut s, NOW), Ok(true));
    assert_eq!(t.duration_ms(Some(0), &mut s, NOW), Ok(false));
    assert!(s.garden_light_until.is_none());
    assert_eq!(t.duration_ms(Some(600_000), &mut s, NOW), Ok(true));
    assert_eq!(s.garden_light_until, Some(Timestamp { seconds: 1_700_000_600, nanos: 0 }));
    assert_eq!(t.duration_ms(Some(1), &mut s, -2_000_000_000), Err(ApiError::SillyDuration));
}

#[test]
fn timer_waits() {
    let t = OnOffTimer { kind: Garden };
    let mut s = PersistentState::new();
    assert_eq!(t.timer_wait(&s, NOW), TimerWait::UntilChange);
    t.duration_ms(Some(600_000), &mut s, NOW).unwrap();
    assert_eq!(t.timer_wait(&s, NOW), TimerWait::UntilChangeOr(600_000_000_000));
    assert_eq!(t.timer_wait(&s, NOW + 700 * 1_000_000_000), TimerWait::Expired);
    s.garden_light_until = Some(Timestamp { seconds: -1, nanos: 0 });
    assert_eq!(t.timer_wait(&s, NOW), TimerWait::UntilChange);
}

#[test]
fn dirty_flag_tracks_writes_and_flushes() {
    let mut cell = StateCell::new(PersistentState::new());
    assert!(!cell.needs_flush());
    {
        let r = ReadGuard(&cell);
        assert!(r.as_view().heating_override.is_empty());
    }
    {
        let mut w = WriteGuard(&mut cell);
        w.as_mut().hot_water_override_until = Some(Timestamp { seconds: 1, nanos: 2 });
    }
    assert!(cell.needs_flush());
    assert!(!cell.flushed(FlushOutcome::IoError));
    assert!(cell.needs_flush());
    assert!(cell.flushed(FlushOutcome::Written));
    assert!(!cell.needs_flush());
    assert_eq!(cell.state.hot_water_override_until, Some(Timestamp { seconds: 1, nanos: 2 }));
    let mut w = WriteGuard(&mut cell);
    let _ = w.as_mut();
    assert!(cell.needs_flush());
    assert!(!cell.flushed(FlushOutcome::SerialiseError));
    assert!(!cell.needs_flush());
}

#[test]
fn mqtt_health() {
    assert!(event_healthy(MqttEvent::Publish));
    assert!(!event_healthy(MqttEvent::ConnAck(false)));
    let mut h = Health::new();
    let a = h.step(MqttEvent::ConnAck(true));
    assert_eq!((a.signal, a.reset_backoff, a.back_off), (Some(true), true, false));
    let a = h.step(MqttEvent::Outgoing);
    assert_eq!((a.signal, a.reset_backoff, a.back_off), (None, false, false));
    let a = h.step(MqttEvent::Error);
    assert_eq!((a.signal, a.reset_backoff, a.back_off), (Some(false), false, true));
    let a = h.step(MqttEvent::Error);
    assert_eq!((a.signal, a.reset_backoff, a.back_off), (None, false, true));
}

#[test]
fn subscription_changes_forwarded() {
    assert!(forward_change(SubUnsub::Sub, true));
    assert!(!forward_change(SubUnsub::Sub, false));
    assert!(forward_change(SubUnsub::Unsub, false));
    assert!(!forward_change(SubUnsub::Unsub, true));
}

#[test]
fn hot_water_override_then_schedule() {
    let now: i128 = 1_700_000_000_000_000_000;
    let until = Timestamp { seconds: 1_700_000_060, nanos: 0 };
    let mut h = HotWaterIntent::new();
    assert_eq!(h.input(HotWaterInput::Schedule(Some(false)), now), (None, None));
    // An override starts: on, reported once, with a minute's countdown.
    assert_eq!(h.input(HotWaterInput::State(Some(until)), now), (Some(true), Some(60_000_000_000)));
    // The schedule changes meanwhile: nothing new while the override runs.
    assert_eq!(h.input(HotWaterInput::Schedule(Some(true)), now), (None, None));
    assert_eq!(h.input(HotWaterInput::Schedule(Some(false)), now), (None, None));
    // The override ends: the schedule's state is reported.
    assert_eq!(h.input(HotWaterInput::CountdownExpired, now), (Some(false), None));
    assert_eq!(h.input(HotWaterInput::State(None), now), (None, None));
}
