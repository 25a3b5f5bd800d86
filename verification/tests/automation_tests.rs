use maison::autogarden::{self, lights_for_night, AutoGarden, GardenAction};
use maison::autokitchen::{self, AutoKitchen, KitchenAction};

const SEC: u128 = 1_000_000_000;

fn all_off() -> AutoKitchen {
    let mut k = AutoKitchen::new();
    k.step(autokitchen::Update::L0(Some(false)), 0);
    k.step(autokitchen::Update::L1(Some(false)), 0);
    k.step(autokitchen::Update::L2(Some(false)), 0);
    k
}

#[test]
fn strips_follow_ceiling() {
    let mut k = all_off();
    assert_eq!(k.step(autokitchen::Update::L0(Some(true)), 10 * SEC), KitchenAction::SetStrips(true));
    assert_eq!(k.l0, Some(true));
}

#[test]
fn strips_do_not_follow_when_lights_disagree() {
    let mut k = all_off();
    k.step(autokitchen::Update::L1(Some(true)), 0);
    assert_eq!(k.step(autokitchen::Update::L0(Some(true)), 10 * SEC), KitchenAction::Idle);
}

#[test]
fn recent_suppression_blocks_once() {
    let mut k = all_off();
    k.suppress(100 * SEC);
    assert_eq!(k.suppress, Some(100 * SEC));
    assert_eq!(k.step(autokitchen::Update::L0(Some(true)), 101 * SEC), KitchenAction::Idle);
    assert_eq!(k.suppress, None);
    k.step(autokitchen::Update::L0(Some(false)), 102 * SEC);
}

#[test]
fn old_suppression_does_not_block() {
    let mut k = all_off();
    k.suppress(100 * SEC);
    assert_eq!(k.step(autokitchen::Update::L0(Some(true)), 103 * SEC), KitchenAction::SetStrips(true));
}

#[test]
fn kitchen_stream_end_stops() {
    let mut k = AutoKitchen::new();
    assert_eq!(k.step(autokitchen::Update::StreamEnded, 0), KitchenAction::Stop);
    assert_eq!(k.step(autokitchen::Update::L0(None), 0), KitchenAction::Idle);
}

#[test]
fn garden_door_opened_in_dark() {
    let mut g = AutoGarden::new();
    g.step(autogarden::Update::LightState(Some(false)));
    g.step(autogarden::Update::Contact(Some(true)));
    assert_eq!(g.step(autogarden::Update::Contact(Some(false))), GardenAction::DoorOpenedInDark);
    assert_eq!(g.contact, Some(false));
    // Already open: nothing new.
    assert_eq!(g.step(autogarden::Update::Contact(Some(false))), GardenAction::Idle);
}

#[test]
fn garden_door_with_lights_on() {
    let mut g = AutoGarden::new();
    g.step(autogarden::Update::LightState(Some(true)));
    g.step(autogarden::Update::Contact(Some(true)));
    assert_eq!(g.step(autogarden::Update::Contact(Some(false))), GardenAction::Idle);
    assert_eq!(g.step(autogarden::Update::StreamEnded), GardenAction::Stop);
}

#[test]
fn lights_only_at_night() {
    assert_eq!(lights_for_night(Some(true)), Some(600_000));
    assert_eq!(lights_for_night(Some(false)), None);
    assert_eq!(lights_for_night(None), None);
}
