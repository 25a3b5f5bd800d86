//! The control API: what each request does to the persistent state and
//! which switches it sets.
use vstd::prelude::*;
use crate::parse::{Message, spec_switch_text, switch_payload};
use crate::pb::{
    IncrementSetPointRequest, MaisonState, MonitorEverythingRequest, MonitorMessage,
    MonitorResponse, PersistentState, SetManyRequest, SetPoint, SetPoint2,
};
use crate::time::{make_delay, representable, spec_make_delay, Timestamp};

verus! {

/// Why a request was refused.
#[derive(Clone, Copy, Debug, PartialEq, Eq, Structural)]
pub enum ApiError {
    /// The requested duration leads to an unrepresentable instant
    /// ("silly diration", out of range).
    SillyDuration,
    /// A heating override needs a positive duration (out of range).
    DurationNotPositive,
    /// Extending a heating override needs one in force (failed precondition).
    HeatingOverrideNotSet,
    /// There is no set point for the zone and no starting value (not found).
    NoSetpointForZone,
    /// Starting an override needs a duration (invalid argument).
    NeedDuration,
}


/// A live temperature report as a monitoring response.
pub fn convert_temperature(x: Message) -> (r: Option<MonitorResponse>)
    ensures
        match x {
            Message::Climate(c) => r == Some(MonitorResponse { message: Some(MonitorMessage::LiveTemperature(c)) }),
            _ => r is None,
        },
{
    match x {
        Message::Climate(x) => Some(MonitorResponse { message: Some(MonitorMessage::LiveTemperature(x)) }),
        _ => None,
    }
}

/// The kinds of report that the monitoring stream can carry.
#[derive(Clone, Copy, Debug, PartialEq, Eq, Structural)]
pub enum MonitorKind {
    LiveTemperature,
    KitchenCeiling,
    KitchenUnderCupboards,
    KitchenUnderStairs,
    Boiler,
    GardenLights,
}

/// A report of kind `kind` as a monitoring response (`None` when the
/// report is not of that kind).
pub open spec fn spec_convert(kind: MonitorKind, x: Message) -> Option<MonitorResponse> {
    match (kind, x) {
        (MonitorKind::LiveTemperature, Message::Climate(c)) => Some(MonitorResponse { message: Some(MonitorMessage::LiveTemperature(c)) }),
        (MonitorKind::KitchenCeiling, Message::SimpleSwitch(s)) => Some(MonitorResponse { message: Some(MonitorMessage::KitchenCeiling(s)) }),
        (MonitorKind::KitchenUnderCupboards, Message::SimpleSwitch(s)) => Some(MonitorResponse { message: Some(MonitorMessage::KitchenUnderCupboards(s)) }),
        (MonitorKind::KitchenUnderStairs, Message::SimpleSwitch(s)) => Some(MonitorResponse { message: Some(MonitorMessage::KitchenUnderStairs(s)) }),
        (MonitorKind::Boiler, Message::Boiler(b)) => Some(MonitorResponse { message: Some(MonitorMessage::Boiler(b)) }),
        (MonitorKind::GardenLights, Message::SimpleSwitch(s)) => Some(MonitorResponse { message: Some(MonitorMessage::GardenLights(s)) }),
        _ => None,
    }
}

/// The kind of subscription that a monitor message answers.
pub open spec fn answers(m: MonitorMessage) -> Option<MonitorKind> {
    match m {
        MonitorMessage::LiveTemperature(_) => Some(MonitorKind::LiveTemperature),
        MonitorMessage::KitchenCeiling(_) => Some(MonitorKind::KitchenCeiling),
        MonitorMessage::KitchenUnderCupboards(_) => Some(MonitorKind::KitchenUnderCupboards),
        MonitorMessage::KitchenUnderStairs(_) => Some(MonitorKind::KitchenUnderStairs),
        MonitorMessage::Boiler(_) => Some(MonitorKind::Boiler),
        MonitorMessage::GardenLights(_) => Some(MonitorKind::GardenLights),
        MonitorMessage::Maison(_) => None,
    }
}

/// The switch state that a monitor message carries, if it carries one.
pub open spec fn carried_switch(m: MonitorMessage) -> Option<crate::pb::SimpleSwitch> {
    match m {
        MonitorMessage::KitchenCeiling(s) => Some(s),
        MonitorMessage::KitchenUnderCupboards(s) => Some(s),
        MonitorMessage::KitchenUnderStairs(s) => Some(s),
        MonitorMessage::GardenLights(s) => Some(s),
        _ => None,
    }
}

/// A converted report is carried in the message that answers the
/// subscription's own kind (so distinct kinds give distinct messages), and
/// a switch report for any of the four switch kinds is converted, its state
/// carried unchanged.
pub proof fn lemma_convert_answers_kind(kind: MonitorKind, x: Message)
    ensures
        spec_convert(kind, x) matches Some(r) ==> (r.message matches Some(m) && answers(m) == Some(kind)),
        (x matches Message::SimpleSwitch(s) && (kind is KitchenCeiling || kind is KitchenUnderCupboards
            || kind is KitchenUnderStairs || kind is GardenLights)) ==> (spec_convert(kind, x) matches Some(r)
            && r.message matches Some(m) && carried_switch(m) == Some(x->SimpleSwitch_0)),
{
}

/// A report is converted exactly when it is of the subscription's kind: a
/// climate report for live temperatures, a boiler report for the boiler, a
/// switch report for a switch; climate and boiler reports are carried
/// unchanged.
pub proof fn lemma_convert_only_matching(kind: MonitorKind, x: Message)
    ensures
        spec_convert(kind, x) is Some <==> (
            (kind is LiveTemperature && x is Climate)
            || (kind is Boiler && x is Boiler)
            || ((kind is KitchenCeiling || kind is KitchenUnderCupboards || kind is KitchenUnderStairs || kind is GardenLights)
                && x is SimpleSwitch)),
        (kind is LiveTemperature && x is Climate) ==> spec_convert(kind, x) == Some(MonitorResponse {
            message: Some(MonitorMessage::LiveTemperature(x->Climate_0)) }),
        (kind is Boiler && x is Boiler) ==> spec_convert(kind, x) == Some(MonitorResponse {
            message: Some(MonitorMessage::Boiler(x->Boiler_0)) }),
{
}

/// Converts a report received for a subscription of kind `kind`.
pub fn convert(kind: MonitorKind, x: Message) -> (r: Option<MonitorResponse>)
    ensures
        r == spec_convert(kind, x),
{
    match kind {
        MonitorKind::LiveTemperature => convert_temperature(x),
        MonitorKind::KitchenCeiling => match x {
            Message::SimpleSwitch(s) => Some(MonitorResponse { message: Some(MonitorMessage::KitchenCeiling(s)) }),
            _ => None,
        },
        MonitorKind::KitchenUnderCupboards => match x {
            Message::SimpleSwitch(s) => Some(MonitorResponse { message: Some(MonitorMessage::KitchenUnderCupboards(s)) }),
            _ => None,
        },
        MonitorKind::KitchenUnderStairs => match x {
            Message::SimpleSwitch(s) => Some(MonitorResponse { message: Some(MonitorMessage::KitchenUnderStairs(s)) }),
            _ => None,
        },
        MonitorKind::Boiler => match x {
            Message::Boiler(b) => Some(MonitorResponse { message: Some(MonitorMessage::Boiler(b)) }),
            _ => None,
        },
        MonitorKind::GardenLights => match x {
            Message::SimpleSwitch(s) => Some(MonitorResponse { message: Some(MonitorMessage::GardenLights(s)) }),
            _ => None,
        },
    }
}

/// The flag is set and true.
pub open spec fn wants(flag: Option<bool>) -> bool {
    flag == Some(true)
}

/// The subscriptions that a monitoring request asks for, in order.
pub open spec fn spec_monitor_subscriptions(req: MonitorEverythingRequest) -> Seq<(Seq<char>, MonitorKind)> {
    let t = if wants(req.want_live_temperatures) {
        seq![
            ("zigbee/climate/bottom"@, MonitorKind::LiveTemperature),
            ("zigbee/climate/middle"@, MonitorKind::LiveTemperature),
            ("zigbee/climate/top"@, MonitorKind::LiveTemperature),
            ("zigbee/climate/main"@, MonitorKind::LiveTemperature),
            ("zigbee/climate/kitchen"@, MonitorKind::LiveTemperature),
        ]
    } else {
        Seq::empty()
    };
    let c = if wants(req.want_kitchen_ceiling) { seq![("zigbee/kitchen_ceiling"@, MonitorKind::KitchenCeiling)] } else { Seq::empty() };
    let u = if wants(req.want_kitchen_under_cupboards) {
        seq![("zigbee/kitchen_under_cupboards"@, MonitorKind::KitchenUnderCupboards)]
    } else {
        Seq::empty()
    };
    let s = if wants(req.want_kitchen_under_stairs) {
        seq![("zigbee/kitchen_under_stairs"@, MonitorKind::KitchenUnderStairs)]
    } else {
        Seq::empty()
    };
    let b = if wants(req.want_boiler) { seq![("zigbee/boiler"@, MonitorKind::Boiler)] } else { Seq::empty() };
    let g = if wants(req.want_garden_lights) { seq![("zigbee/garden"@, MonitorKind::GardenLights)] } else { Seq::empty() };
    t + c + u + s + b + g
}

/// The view of a list of subscriptions.
pub open spec fn subscriptions_view(v: Seq<(&str, MonitorKind)>) -> Seq<(Seq<char>, MonitorKind)> {
    v.map_values(|p: (&str, MonitorKind)| (p.0@, p.1))
}

/// The topics (and kinds) that a monitoring request subscribes to, and
/// whether its stream also carries snapshots of the state.
pub fn monitor_subscriptions(req: &MonitorEverythingRequest) -> (r: (Vec<(&'static str, MonitorKind)>, bool))
    ensures
        subscriptions_view(r.0@) == spec_monitor_subscriptions(*req),
        r.1 == wants(req.want_maison),
{
    let mut v: Vec<(&'static str, MonitorKind)> = Vec::new();
    if req.want_live_temperatures == Some(true) {
        v.push(("zigbee/climate/bottom", MonitorKind::LiveTemperature));
        v.push(("zigbee/climate/middle", MonitorKind::LiveTemperature));
        v.push(("zigbee/climate/top", MonitorKind::LiveTemperature));
        v.push(("zigbee/climate/main", MonitorKind::LiveTemperature));
        v.push(("zigbee/climate/kitchen", MonitorKind::LiveTemperature));
    }
    let ghost v1 = v@;
    if req.want_kitchen_ceiling == Some(true) {
        v.push(("zigbee/kitchen_ceiling", MonitorKind::KitchenCeiling));
    }
    let ghost v2 = v@;
    if req.want_kitchen_under_cupboards == Some(true) {
        v.push(("zigbee/kitchen_under_cupboards", MonitorKind::KitchenUnderCupboards));
    }
    let ghost v3 = v@;
    if req.want_kitchen_under_stairs == Some(true) {
        v.push(("zigbee/kitchen_under_stairs", MonitorKind::KitchenUnderStairs));
    }
    let ghost v4 = v@;
    if req.want_boiler == Some(true) {
        v.push(("zigbee/boiler", MonitorKind::Boiler));
    }
    let ghost v5 = v@;
    if req.want_garden_lights == Some(true) {
        v.push(("zigbee/garden", MonitorKind::GardenLights));
    }
    assert(subscriptions_view(v@) =~= spec_monitor_subscriptions(*req));
    (v, req.want_maison == Some(true))
}

/// The timestamp of instant `now`, when it is not before the epoch.
pub fn now_timestamp(now: i128) -> (r: Option<Timestamp>)
    requires
        representable(now as int),
    ensures
        r == spec_make_delay(now as int, 0),
{
    make_delay(now, 0)
}

impl SetPoint {
    /// An override entry as a set point (with no schedule tag).
    pub fn from_override(s: &SetPoint2) -> (r: SetPoint)
        ensures
            r == (SetPoint { zone: s.zone, setpoint: s.setpoint, unique: None }),
    {
        SetPoint {
            zone: match &s.zone {
                Some(z) => Some(z.clone()),
                None => None,
            },
            setpoint: s.setpoint,
            unique: None,
        }
    }
}

impl MaisonState {
    /// The snapshot of state `s` taken at `now`.
    pub fn from_state(s: &PersistentState, now: i128) -> (r: MaisonState)
        requires
            representable(now as int),
        ensures
            r.now == spec_make_delay(now as int, 0),
            r.garden_light_until == s.garden_light_until,
            r.hot_water_override_until == s.hot_water_override_until,
            r.heating_override_until == s.heating_override_until,
            r.heating_override@.len() == s.heating_override@.len(),
            forall|k: int| 0 <= k < r.heating_override@.len() ==> #[trigger] r.heating_override@[k] == (SetPoint {
                zone: s.heating_override@[k].zone,
                setpoint: s.heating_override@[k].setpoint,
                unique: None,
            }),
    {
        let mut v: Vec<SetPoint> = Vec::new();
        let mut k: usize = 0;
        while k < s.heating_override.len()
            invariant
                k <= s.heating_override@.len(),
                v@.len() == k,
                forall|j: int| 0 <= j < k ==> #[trigger] v@[j] == (SetPoint {
                    zone: s.heating_override@[j].zone,
                    setpoint: s.heating_override@[j].setpoint,
                    unique: None,
                }),
            decreases s.heating_override@.len() - k,
        {
            v.push(SetPoint::from_override(&s.heating_override[k]));
            k = k + 1;
        }
        MaisonState {
            now: now_timestamp(now),
            garden_light_until: s.garden_light_until,
            hot_water_override_until: s.hot_water_override_until,
            heating_override_until: s.heating_override_until,
            heating_override: v,
        }
    }
}

/// The heating override has run out at `now`: its end (read as the zero
/// timestamp when unset) is not after `now`, or unreadable.  Before the
/// epoch nothing runs out.
pub open spec fn override_expired(until: Option<Timestamp>, now: int) -> bool {
    let ro = match until {
        Some(t) => t,
        None => Timestamp { seconds: 0, nanos: 0 },
    };
    let secs = now / 1_000_000_000;
    let nanos = now % 1_000_000_000;
    now >= 0 && !(ro.seconds >= 0 && (secs < ro.seconds || (secs == ro.seconds && ro.nanos >= 0 && nanos < ro.nanos)))
}

/// `s` with the heating override and its end cleared.
pub open spec fn override_cleared(old_s: PersistentState, new_s: PersistentState) -> bool {
    &&& new_s.heating_override_until is None
    &&& new_s.heating_override@.len() == 0
    &&& new_s.garden_light_until == old_s.garden_light_until
    &&& new_s.underfloor_heating_until == old_s.underfloor_heating_until
    &&& new_s.hot_water_override_until == old_s.hot_water_override_until
}

/// Clears the heating override once it has run out.
pub fn maybe_expire_heating_override(state: &mut PersistentState, now: i128)
    requires
        representable(now as int),
    ensures
        override_expired(old(state).heating_override_until, now as int) ==> override_cleared(*old(state), *final(state)),
        !override_expired(old(state).heating_override_until, now as int) ==> *final(state) == *old(state),
{
    if now < 0 {
        return;
    }
    let secs: i128 = now / 1_000_000_000;
    let nanos: i128 = now % 1_000_000_000;
    let ro = match state.heating_override_until {
        Some(t) => t,
        None => Timestamp { seconds: 0, nanos: 0 },
    };
    if ro.seconds >= 0 {
        if secs < ro.seconds as i128 {
            return;
        }
        if secs == ro.seconds as i128 {
            if ro.nanos >= 0 {
                if nanos < ro.nanos as i128 {
                    return;
                }
            }
        }
    }
    state.heating_override_until = None;
    state.heating_override.clear();
}

/// The hot-water override runs for `duration_ms` from `now` (or is
/// cancelled when `None`).
pub fn set_hot_water(state: &mut PersistentState, duration_ms: Option<u64>, now: i128) -> (r: Result<(), ApiError>)
    requires
        representable(now as int),
    ensures
        duration_ms is None ==> r is Ok && *final(state) == (PersistentState { hot_water_override_until: None, ..*old(state) }),
        duration_ms matches Some(d) ==> match spec_make_delay(now as int, d * 1_000_000) {
            None => r == Err::<(), ApiError>(ApiError::SillyDuration) && *final(state) == *old(state),
            Some(end) => r is Ok && *final(state) == (PersistentState { hot_water_override_until: Some(end), ..*old(state) }),
        },
{
    match duration_ms {
        Some(duration_ms) => {
            match make_delay(now, (duration_ms as u128) * 1_000_000) {
                None => Err(ApiError::SillyDuration),
                Some(end) => {
                    state.hot_water_override_until = Some(end);
                    Ok(())
                },
            }
        },
        None => {
            state.hot_water_override_until = None;
            Ok(())
        },
    }
}

/// Extends the heating override in force to `duration_ms` from `now`.
pub fn set_heating(state: &mut PersistentState, duration_ms: Option<u64>, now: i128) -> (r: Result<(), ApiError>)
    requires
        representable(now as int),
    ensures
        (duration_ms is None || duration_ms == Some(0u64)) ==> r == Err::<(), ApiError>(ApiError::DurationNotPositive)
            && *final(state) == *old(state),
        duration_ms matches Some(d) ==> (d > 0 ==> match spec_make_delay(now as int, d * 1_000_000) {
            None => r == Err::<(), ApiError>(ApiError::SillyDuration) && *final(state) == *old(state),
            Some(end) => if override_expired(old(state).heating_override_until, now as int) {
                r == Err::<(), ApiError>(ApiError::HeatingOverrideNotSet) && override_cleared(*old(state), *final(state))
            } else if old(state).heating_override_until is None {
                r == Err::<(), ApiError>(ApiError::HeatingOverrideNotSet) && *final(state) == *old(state)
            } else {
                r is Ok && *final(state) == (PersistentState { heating_override_until: Some(end), ..*old(state) })
            },
        }),
{
    match duration_ms {
        None => Err(ApiError::DurationNotPositive),
        Some(0) => Err(ApiError::DurationNotPositive),
        Some(duration_ms) => {
            let end = match make_delay(now, (duration_ms as u128) * 1_000_000) {
                None => {
                    return Err(ApiError::SillyDuration);
                },
                Some(end) => end,
            };
            maybe_expire_heating_override(state, now);
            if state.heating_override_until.is_none() {
                return Err(ApiError::HeatingOverrideNotSet);
            }
            state.heating_override_until = Some(end);
            Ok(())
        },
    }
}

/// Ends the heating override, if one is set.
pub fn cancel_heating_override(state: &mut PersistentState)
    ensures
        old(state).heating_override_until is Some ==> override_cleared(*old(state), *final(state)),
        old(state).heating_override_until is None ==> *final(state) == *old(state),
{
    if state.heating_override_until.is_some() {
        state.heating_override_until = None;
        state.heating_override.clear();
    }
}

/// The override entry is for zone `z`.
pub open spec fn is_zone(e: SetPoint2, z: Seq<char>) -> bool {
    e.zone matches Some(zz) && zz@ == z
}

/// Position of the first override entry for zone `z`.
pub open spec fn first_override(ov: Seq<SetPoint2>, z: Seq<char>) -> Option<int> {
    if exists|k: int| 0 <= k < ov.len() && is_zone(#[trigger] ov[k], z) {
        Some(choose|k: int| 0 <= k < ov.len() && is_zone(#[trigger] ov[k], z)
            && forall|j: int| 0 <= j < k ==> !is_zone(ov[j], z))
    } else {
        None
    }
}

fn find_override(ov: &Vec<SetPoint2>, z: &String) -> (r: Option<usize>)
    ensures
        r matches Some(k) ==> first_override(ov@, z@) == Some(k as int),
        r is None ==> first_override(ov@, z@) is None,
{
    let mut k: usize = 0;
    while k < ov.len()
        invariant
            k <= ov@.len(),
            forall|j: int| 0 <= j < k ==> !is_zone(#[trigger] ov@[j], z@),
        decreases ov@.len() - k,
    {
        let hit = match &ov[k].zone {
            Some(zz) => *zz == *z,
            None => false,
        };
        if hit {
            proof {
                assert(is_zone(ov@[k as int], z@));
                let c = choose|c: int| 0 <= c < ov@.len() && is_zone(#[trigger] ov@[c], z@)
                    && forall|j: int| 0 <= j < c ==> !is_zone(ov@[j], z@);
                if c < k {
                } else if c > k {
                    assert(!is_zone(ov@[k as int], z@));
                }
            }
            return Some(k);
        }
        k = k + 1;
    }
    None
}

/// `s` with entry `e` appended to the override entries.
pub open spec fn with_pushed(s: PersistentState, new_s: PersistentState, e: SetPoint2) -> bool {
    &&& new_s.heating_override@ == s.heating_override@.push(e)
    &&& new_s.garden_light_until == s.garden_light_until
    &&& new_s.underfloor_heating_until == s.underfloor_heating_until
    &&& new_s.hot_water_override_until == s.hot_water_override_until
}

/// Finds (or starts) the override entry of the request's zone and returns
/// its position; the caller then adds the increment to its set point.
/// Starting an entry needs a starting value, and, when no heating override
/// is in force, a duration for one.  `Ok(None)` when the request names no
/// zone or no increment.
pub fn increment_set_point(state: &mut PersistentState, req: &IncrementSetPointRequest, now: i128) -> (r: Result<Option<usize>, ApiError>)
    requires
        representable(now as int),
    ensures
        (req.zone is None || req.increment is None) ==> r == Ok::<Option<usize>, ApiError>(None) && *final(state) == *old(state),
        req.zone matches Some(zone) ==> (req.increment is Some ==> {
            let ov = old(state).heating_override@;
            match first_override(ov, zone@) {
                Some(i) => r == Ok::<Option<usize>, ApiError>(Some(i as usize)) && *final(state) == *old(state),
                None => match req.starting_value_if_unset {
                    None => r == Err::<Option<usize>, ApiError>(ApiError::NoSetpointForZone) && *final(state) == *old(state),
                    Some(sv) => {
                        let e = SetPoint2 { zone: Some(zone), setpoint: Some(sv), hysteresis: None };
                        if old(state).heating_override_until is Some {
                            &&& r == Ok::<Option<usize>, ApiError>(Some(ov.len() as usize))
                            &&& with_pushed(*old(state), *final(state), e)
                            &&& final(state).heating_override_until == old(state).heating_override_until
                        } else {
                            match req.duration_ms_if_not_already_set {
                                None => r == Err::<Option<usize>, ApiError>(ApiError::NeedDuration) && *final(state) == *old(state),
                                Some(d) => match spec_make_delay(now as int, d * 1_000_000) {
                                    None => r == Err::<Option<usize>, ApiError>(ApiError::SillyDuration) && *final(state) == *old(state),
                                    Some(end) => {
                                        &&& r == Ok::<Option<usize>, ApiError>(Some(ov.len() as usize))
                                        &&& with_pushed(*old(state), *final(state), e)
                                        &&& final(state).heating_override_until == Some(end)
                                    },
                                },
                            }
                        }
                    },
                },
            }
        }),
{
    let zone = match &req.zone {
        Some(z) => z,
        None => {
            return Ok(None);
        },
    };
    if req.increment.is_none() {
        return Ok(None);
    }
    let existing = find_override(&state.heating_override, zone);
    let has_heating_override_until = state.heating_override_until.is_some();
    match existing {
        Some(i) => Ok(Some(i)),
        None => match req.starting_value_if_unset {
            None => Err(ApiError::NoSetpointForZone),
            Some(starting_value) => {
                if !has_heating_override_until {
                    match req.duration_ms_if_not_already_set {
                        Some(duration_ms) => {
                            match make_delay(now, (duration_ms as u128) * 1_000_000) {
                                None => {
                                    return Err(ApiError::SillyDuration);
                                },
                                Some(end) => {
                                    state.heating_override_until = Some(end);
                                },
                            }
                        },
                        None => {
                            return Err(ApiError::NeedDuration);
                        },
                    }
                }
                state.heating_override.push(SetPoint2 { zone: Some(zone.clone()), setpoint: Some(starting_value), hysteresis: None });
                Ok(Some(state.heating_override.len() - 1))
            },
        },
    }
}

/// The switch changes that a request to set several kitchen lights makes,
/// in order: `(topic, payload)`.
pub open spec fn spec_set_many(req: SetManyRequest) -> Seq<(Seq<char>, Seq<u8>)> {
    let a = match req.kitchen_ceiling {
        Some(l) => seq![("zigbee/kitchen_ceiling/set/state"@, vstd::utf8::encode_utf8(spec_switch_text(l)))],
        None => Seq::empty(),
    };
    let b = match req.kitchen_under_cupboards {
        Some(l) => seq![("zigbee/kitchen_under_cupboards/set/state"@, vstd::utf8::encode_utf8(spec_switch_text(l)))],
        None => Seq::empty(),
    };
    let c = match req.kitchen_under_stairs {
        Some(l) => seq![("zigbee/kitchen_under_stairs/set/state"@, vstd::utf8::encode_utf8(spec_switch_text(l)))],
        None => Seq::empty(),
    };
    a + b + c
}

/// The view of a list of switch changes.
pub open spec fn publishes_view(v: Seq<(&str, Vec<u8>)>) -> Seq<(Seq<char>, Seq<u8>)> {
    v.map_values(|p: (&str, Vec<u8>)| (p.0@, p.1@))
}

/// A request to set several kitchen lights: whether the kitchen automation
/// must be told (the ceiling light is set), and the switch changes.
pub fn set_many(req: &SetManyRequest) -> (r: (bool, Vec<(&'static str, Vec<u8>)>))
    ensures
        r.0 == req.kitchen_ceiling is Some,
        publishes_view(r.1@) == spec_set_many(*req),
{
    let mut v: Vec<(&'static str, Vec<u8>)> = Vec::new();
    if let Some(l) = req.kitchen_ceiling {
        v.push(("zigbee/kitchen_ceiling/set/state", switch_payload(l)));
    }
    if let Some(l) = req.kitchen_under_cupboards {
        v.push(("zigbee/kitchen_under_cupboards/set/state", switch_payload(l)));
    }
    if let Some(l) = req.kitchen_under_stairs {
        v.push(("zigbee/kitchen_under_stairs/set/state", switch_payload(l)));
    }
    assert(publishes_view(v@) =~= spec_set_many(*req));
    (req.kitchen_ceiling.is_some(), v)
}


/// An override set for a positive duration runs for exactly that duration
/// from the moment it was set (as the hot-water intent and the thermostat
/// read it).
pub proof fn lemma_override_runs_for_requested_duration(now: int, d: u64)
    requires
        representable(now),
        d > 0,
        spec_make_delay(now, d * 1_000_000) is Some,
    ensures
        crate::time::spec_delay_until(spec_make_delay(now, d * 1_000_000), now) == Some(d * 1_000_000),
{
    crate::time::lemma_delay_roundtrip(now, d * 1_000_000);
}

} // verus!
