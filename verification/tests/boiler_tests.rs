use maison::boiler::{
    ActOutcome, Controller, ControllerAction, ControllerInput, ControlSignal, Hold, HoldTimer, TimedController, Update,
};
use maison::heat::Heat;
use maison::hotwater::HotWater;
use maison::parse::Message;
use maison::pb::Boiler;

#[test]
fn hold_new_is_idle() {
    let h = Hold::new();
    assert!(!h.after_act && !h.keep_intention);
    assert_eq!((h.intention_proposed, h.intention_allowed), (0, 0));
}

#[test]
fn hold_waits_for_stability_then_acts_once() {
    let mut h = Hold::new();
    assert_eq!(h.act(1, true), ActOutcome::Propose);
    assert!(h.keep_intention);
    assert_eq!(h.act(1, true), ActOutcome::Nothing);
    h.timer_fired(HoldTimer::KeepIntention);
    assert_eq!(h.intention_allowed, 1);
    assert_eq!(h.act(1, true), ActOutcome::Actuate);
    assert_eq!(h.act(1, true), ActOutcome::Nothing);
    h.timer_fired(HoldTimer::AfterAct);
    assert_eq!(h.act(1, true), ActOutcome::Actuate);
}

#[test]
fn controller_actuates_after_stable_intent() {
    let mut c = Controller::new();
    assert_eq!(c.step(Update::NewLive(false)), ControllerAction::Idle);
    assert_eq!(c.step(Update::NewIntent(true)), ControllerAction::Propose);
    assert_eq!(c.want, Some((true, 1)));
    c.hold.timer_fired(HoldTimer::KeepIntention);
    assert_eq!(c.step(Update::HoldRelease), ControllerAction::Actuate(true));
    // The relay is left alone during the hold.
    assert_eq!(c.step(Update::HoldRelease), ControllerAction::Idle);
    // Once it reports the new state, nothing more to do.
    assert_eq!(c.step(Update::NewLive(true)), ControllerAction::Idle);
    assert_eq!(c.step(Update::StreamEnded), ControllerAction::Stop);
}

#[test]
fn changing_intent_restarts_stability() {
    let mut c = Controller::new();
    c.step(Update::NewLive(false));
    c.step(Update::NewIntent(true));
    assert_eq!(c.step(Update::NewIntent(false)), ControllerAction::Idle);
    assert_eq!(c.want, Some((false, 2)));
    assert_eq!(c.step(Update::NewIntent(true)), ControllerAction::Propose);
    assert_eq!(c.want, Some((true, 3)));
    assert_eq!(c.hold.intention_proposed, 3);
}

#[test]
fn signals_read_their_relay() {
    let m = || Message::Boiler(Boiler { heating: Some(true), hot_water: Some(false) });
    assert_eq!(<Heat as ControlSignal>::get_live(m()), Some(true));
    assert_eq!(<HotWater as ControlSignal>::get_live(m()), Some(false));
    assert_eq!(<Heat as ControlSignal>::get_live(Message::Empty), None);
    assert_eq!(<Heat as ControlSignal>::topic(), "zigbee/boiler/set/state_l2");
    assert_eq!(<HotWater as ControlSignal>::topic(), "zigbee/boiler/set/state_l1");
}

#[test]
fn controller_inputs_actuate_after_timers() {
    let mut c = Controller::new();
    assert_eq!(c.input(ControllerInput::Event(Update::NewIntent(true))), ControllerAction::Idle);
    assert_eq!(c.input(ControllerInput::Event(Update::NewLive(false))), ControllerAction::Propose);
    assert_eq!(c.input(ControllerInput::Timer(HoldTimer::KeepIntention)), ControllerAction::Actuate(true));
    // Held: the relay has not followed yet, but nothing is sent again.
    assert_eq!(c.input(ControllerInput::Event(Update::NewLive(false))), ControllerAction::Idle);
    assert_eq!(c.input(ControllerInput::Timer(HoldTimer::AfterAct)), ControllerAction::Actuate(true));
    assert_eq!(c.input(ControllerInput::Event(Update::NewLive(true))), ControllerAction::Idle);
}

#[test]
fn timed_controller_keeps_the_durations() {
    const S: i128 = 1_000_000_000;
    let t0: i128 = 1_700_000_000 * S;
    let ev = |u| ControllerInput::Event(u);
    let mut c = TimedController::new();
    assert_eq!(c.input_at(ev(Update::NewLive(false)), t0), Some(ControllerAction::Idle));
    assert_eq!(c.input_at(ev(Update::NewIntent(true)), t0), Some(ControllerAction::Propose));
    assert_eq!(c.deadline(HoldTimer::KeepIntention), Some(t0 + 6 * S));
    // Not yet stable for six seconds: the expiry is not taken.
    assert_eq!(c.input_at(ControllerInput::Timer(HoldTimer::KeepIntention), t0 + 5 * S), None);
    assert_eq!(c.input_at(ControllerInput::Timer(HoldTimer::AfterAct), t0 + 5 * S), None);
    assert_eq!(
        c.input_at(ControllerInput::Timer(HoldTimer::KeepIntention), t0 + 6 * S),
        Some(ControllerAction::Actuate(true))
    );
    assert_eq!(c.deadline(HoldTimer::KeepIntention), None);
    assert_eq!(c.deadline(HoldTimer::AfterAct), Some(t0 + 26 * S));
    assert_eq!(c.input_at(ev(Update::NewLive(true)), t0 + 6 * S + S / 2), Some(ControllerAction::Idle));
    assert_eq!(c.input_at(ev(Update::NewIntent(false)), t0 + 7 * S), Some(ControllerAction::Propose));
    // Stable, but the after-act hold still runs.
    assert_eq!(
        c.input_at(ControllerInput::Timer(HoldTimer::KeepIntention), t0 + 13 * S),
        Some(ControllerAction::Idle)
    );
    assert_eq!(c.input_at(ControllerInput::Timer(HoldTimer::AfterAct), t0 + 25 * S), None);
    assert_eq!(
        c.input_at(ControllerInput::Timer(HoldTimer::AfterAct), t0 + 26 * S),
        Some(ControllerAction::Actuate(false))
    );
}
