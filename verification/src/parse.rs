//! Turning device reports (an MQTT topic and its payload) into messages.
//!
//! JSON payloads are decoded into `BoilerJson`, `ClimateJson` and
//! `SimpleSwitchJson` by the caller (with serde); everything else (which
//! topic carries what, UTF-8 checking, staleness, switch states) is here.
use vstd::prelude::*;
use vstd::utf8::valid_utf8;
use crate::pb::{Boiler, Climate, SimpleSwitch};
use crate::text::{str_eq, strip_prefix, spec_strip_prefix};

verus! {

/// Why a report could not be used.
#[derive(Clone, Copy, Debug, PartialEq, Eq, Structural)]
pub enum Problem {
    UnrecognisedTopic,
    BadUtf8,
    BadJson,
    Stale,
}

/// A decoded device report.
#[derive(Clone, Debug)]
pub enum Message {
    /// Nothing received yet.
    Empty,
    /// A report that could not be used, with its payload.
    Invalid(Problem, Vec<u8>),
    Boiler(Boiler),
    Climate(Climate),
    SimpleSwitch(SimpleSwitch),
}

/// The JSON fields of a boiler report.
#[derive(Debug)]
pub struct BoilerJson {
    pub state_l1: String,
    pub state_l2: String,
    pub last_seen: u64,
}

/// The JSON fields of a climate report (readings as double bit patterns).
#[derive(Debug)]
pub struct ClimateJson {
    pub battery: u64,
    pub humidity: u64,
    pub temperature: u64,
    pub last_seen: u64,
}

/// The JSON fields of a switch report.
#[derive(Debug)]
pub struct SimpleSwitchJson {
    pub state: String,
    pub last_seen: u64,
}

/// A payload decoded as each kind of report JSON (`None` where it does not
/// decode as that kind).
#[derive(Debug)]
pub struct Decoded {
    pub boiler: Option<BoilerJson>,
    pub climate: Option<ClimateJson>,
    pub simple_switch: Option<SimpleSwitchJson>,
}

/// How long a boiler report stays usable (nanoseconds).
pub const BOILER_STALENESS: u128 = 300_000_000_000;
/// How long a climate report stays usable (nanoseconds).
pub const CLIMATE_STALENESS: u128 = 4_500_000_000_000;
/// How long a switch report stays usable (nanoseconds).
pub const SWITCH_STALENESS: u128 = 66_000_000_000_000;

/// A report last seen at `ls_epoch` milliseconds after the epoch is, at
/// `now`, no older than `max_staleness` (and not from the future).
pub open spec fn fresh(ls_epoch: u64, max_staleness: u128, now: int) -> bool {
    let last_seen = ls_epoch * 1_000_000;
    last_seen <= now && now - last_seen <= max_staleness
}

/// Checks that a report is fresh.
pub fn check_last_seen(ls_epoch: u64, max_staleness: u128, now: i128) -> (r: Result<(), ()>)
    requires
        crate::time::representable(now as int),
    ensures
        r is Ok <==> fresh(ls_epoch, max_staleness, now as int),
{
    let last_seen: i128 = (ls_epoch as i128) * 1_000_000;
    if last_seen <= now && ((now - last_seen) as u128) <= max_staleness {
        Ok(())
    } else {
        Err(())
    }
}

/// The switch state that a payload names.
pub open spec fn spec_on_off(v: Seq<char>) -> Result<bool, ()> {
    if v == seq!['O', 'N'] {
        Ok(true)
    } else if v == seq!['O', 'F', 'F'] {
        Ok(false)
    } else {
        Err(())
    }
}

/// Reads a switch state: `ON` or `OFF`.
pub fn on_off(v: &str) -> (r: Result<bool, ()>)
    ensures
        r == spec_on_off(v@),
{
    proof {
        reveal_strlit("ON");
        reveal_strlit("OFF");
    }
    if str_eq(v, "ON") {
        assert("ON"@ =~= seq!['O', 'N']);
        Ok(true)
    } else if str_eq(v, "OFF") {
        assert("OFF"@ =~= seq!['O', 'F', 'F']);
        Ok(false)
    } else {
        assert("ON"@ =~= seq!['O', 'N']);
        assert("OFF"@ =~= seq!['O', 'F', 'F']);
        Err(())
    }
}

/// The text that sets a switch to `on`.
pub open spec fn spec_switch_text(on: bool) -> Seq<char> {
    if on { seq!['O', 'N'] } else { seq!['O', 'F', 'F'] }
}

/// The payload that sets a switch: `ON` or `OFF`, UTF-8 encoded.
pub fn switch_payload(on: bool) -> (r: Vec<u8>)
    ensures
        r@ == vstd::utf8::encode_utf8(spec_switch_text(on)),
{
    let mut v: Vec<u8> = Vec::new();
    v.push(0x4f);
    if on {
        v.push(0x4e);
    } else {
        v.push(0x46);
        v.push(0x46);
    }
    proof {
        let t = spec_switch_text(on);
        assert(vstd::utf8::is_ascii_chars(t));
        vstd::utf8::is_ascii_chars_encode_utf8(t);
        assert(v@ =~= vstd::utf8::encode_utf8(t));
    }
    v
}

/// A switch reads back the state that its set payload names.
pub proof fn lemma_switch_payload_roundtrip(on: bool)
    ensures
        spec_on_off(vstd::utf8::decode_utf8(vstd::utf8::encode_utf8(spec_switch_text(on)))) == Ok::<bool, ()>(on),
{
    vstd::utf8::encode_utf8_decode_utf8(spec_switch_text(on));
}

/// The boiler message of a boiler report, or why there is none.
pub open spec fn spec_parse_boiler(json: Option<BoilerJson>, now: int) -> Result<Message, Problem> {
    match json {
        None => Err(Problem::BadJson),
        Some(m) => if !fresh(m.last_seen, BOILER_STALENESS, now) {
            Err(Problem::Stale)
        } else {
            match (spec_on_off(m.state_l2@), spec_on_off(m.state_l1@)) {
                (Ok(heating), Ok(hot_water)) => Ok(Message::Boiler(Boiler { heating: Some(heating), hot_water: Some(hot_water) })),
                _ => Err(Problem::BadJson),
            }
        },
    }
}

/// Boiler report: relay 2 is heating, relay 1 hot water.
pub fn parse_boiler(json: Option<BoilerJson>, now: i128) -> (r: Result<Message, Problem>)
    requires
        crate::time::representable(now as int),
    ensures
        r == spec_parse_boiler(json, now as int),
{
    match json {
        None => Err(Problem::BadJson),
        Some(m) => {
            if check_last_seen(m.last_seen, BOILER_STALENESS, now).is_err() {
                return Err(Problem::Stale);
            }
            let heating = match on_off(m.state_l2.as_str()) {
                Ok(x) => x,
                Err(_) => {
                    return Err(Problem::BadJson);
                },
            };
            let hot_water = match on_off(m.state_l1.as_str()) {
                Ok(x) => x,
                Err(_) => {
                    return Err(Problem::BadJson);
                },
            };
            Ok(Message::Boiler(Boiler { heating: Some(heating), hot_water: Some(hot_water) }))
        },
    }
}

/// The climate message of a climate report from `unit`, or why there is none.
pub open spec fn spec_parse_climate_ok(m: ClimateJson, unit: Seq<char>, r: Message) -> bool {
    r matches Message::Climate(c) && c.unit matches Some(u) && u@ == unit
        && c.battery == Some(m.battery) && c.temperature == Some(m.temperature)
        && c.humidity == Some(m.humidity)
}

/// Climate report of sensor `unit`.
pub fn parse_climate(json: Option<ClimateJson>, unit: &str, now: i128) -> (r: Result<Message, Problem>)
    requires
        crate::time::representable(now as int),
    ensures
        json is None ==> r == Err::<Message, Problem>(Problem::BadJson),
        json matches Some(m) ==> {
            &&& !fresh(m.last_seen, CLIMATE_STALENESS, now as int) ==> r == Err::<Message, Problem>(Problem::Stale)
            &&& fresh(m.last_seen, CLIMATE_STALENESS, now as int) ==> (r matches Ok(msg) && spec_parse_climate_ok(m, unit@, msg))
        },
{
    match json {
        None => Err(Problem::BadJson),
        Some(m) => {
            if check_last_seen(m.last_seen, CLIMATE_STALENESS, now).is_err() {
                return Err(Problem::Stale);
            }
            Ok(Message::Climate(Climate {
                unit: Some(unit.to_owned()),
                battery: Some(m.battery),
                temperature: Some(m.temperature),
                humidity: Some(m.humidity),
            }))
        },
    }
}

/// The switch message of a switch report, or why there is none.
pub open spec fn spec_parse_simple_switch(json: Option<SimpleSwitchJson>, now: int) -> Result<Message, Problem> {
    match json {
        None => Err(Problem::BadJson),
        Some(m) => if !fresh(m.last_seen, SWITCH_STALENESS, now) {
            Err(Problem::Stale)
        } else {
            match spec_on_off(m.state@) {
                Ok(state) => Ok(Message::SimpleSwitch(SimpleSwitch { state: Some(state) })),
                Err(_) => Err(Problem::BadJson),
            }
        },
    }
}

/// Switch report.
pub fn parse_simple_switch(json: Option<SimpleSwitchJson>, now: i128) -> (r: Result<Message, Problem>)
    requires
        crate::time::representable(now as int),
    ensures
        r == spec_parse_simple_switch(json, now as int),
{
    match json {
        None => Err(Problem::BadJson),
        Some(m) => {
            if check_last_seen(m.last_seen, SWITCH_STALENESS, now).is_err() {
                return Err(Problem::Stale);
            }
            match on_off(m.state.as_str()) {
                Ok(state) => Ok(Message::SimpleSwitch(SimpleSwitch { state: Some(state) })),
                Err(_) => Err(Problem::BadJson),
            }
        },
    }
}

/// The kind of report that a topic carries.
#[derive(Debug)]
pub enum Route {
    Boiler,
    SimpleSwitch,
    /// A climate sensor, with its unit name.
    Climate(String),
    Unrecognised,
}

/// The topics of switch reports.
pub open spec fn is_switch_topic(t: Seq<char>) -> bool {
    t == "zigbee/garden"@ || t == "zigbee/kitchen_ceiling"@ || t == "zigbee/kitchen_under_stairs"@
        || t == "zigbee/kitchen_under_cupboards"@
}

/// Which kind of report a topic carries.
pub open spec fn spec_route_ok(t: Seq<char>, r: Route) -> bool {
    if t == "zigbee/boiler"@ {
        r is Boiler
    } else if is_switch_topic(t) {
        r is SimpleSwitch
    } else {
        match spec_strip_prefix(t, "zigbee/climate/"@) {
            Some(unit) => r matches Route::Climate(u) && u@ == unit,
            None => r is Unrecognised,
        }
    }
}

/// Works out which kind of report a topic carries.
pub fn route(topic: &str) -> (r: Route)
    ensures
        spec_route_ok(topic@, r),
{
    if str_eq(topic, "zigbee/boiler") {
        Route::Boiler
    } else if str_eq(topic, "zigbee/garden") || str_eq(topic, "zigbee/kitchen_ceiling")
        || str_eq(topic, "zigbee/kitchen_under_stairs") || str_eq(topic, "zigbee/kitchen_under_cupboards") {
        Route::SimpleSwitch
    } else {
        match strip_prefix(topic, "zigbee/climate/") {
            Some(unit) => Route::Climate(unit.to_owned()),
            None => Route::Unrecognised,
        }
    }
}

/// The topics of the four switches: the garden lights, the kitchen ceiling
/// light and the two kitchen LED strips.
pub open spec fn switch_topic_named(t: Seq<char>) -> bool {
    ||| t == "zigbee/garden"@
    ||| t == "zigbee/kitchen_ceiling"@
    ||| t == "zigbee/kitchen_under_stairs"@
    ||| t == "zigbee/kitchen_under_cupboards"@
}

proof fn lemma_switch_topic_not_boiler(t: Seq<char>)
    requires
        switch_topic_named(t),
    ensures
        t != "zigbee/boiler"@,
{
    reveal_strlit("zigbee/boiler");
    reveal_strlit("zigbee/garden");
    reveal_strlit("zigbee/kitchen_ceiling");
    reveal_strlit("zigbee/kitchen_under_stairs");
    reveal_strlit("zigbee/kitchen_under_cupboards");
    let b = "zigbee/boiler"@;
    if t == "zigbee/garden"@ {
        assert(t[7] != b[7]);
    } else {
        assert(b.len() == 13);
        assert(t.len() > 13);
    }
}

/// Each switch topic carries switch reports.
pub proof fn lemma_switch_topics_route(t: Seq<char>, r: Route)
    requires
        switch_topic_named(t),
        spec_route_ok(t, r),
    ensures
        r is SimpleSwitch,
{
    lemma_switch_topic_not_boiler(t);
    reveal_strlit("zigbee/boiler");
    reveal_strlit("zigbee/garden");
    reveal_strlit("zigbee/kitchen_ceiling");
    reveal_strlit("zigbee/kitchen_under_stairs");
    reveal_strlit("zigbee/kitchen_under_cupboards");
    reveal_strlit("zigbee/climate/");
}

/// The boiler's topic carries boiler reports, and each topic under
/// `zigbee/climate/` carries the reports of the climate sensor it names.
pub proof fn lemma_boiler_and_climate_routes(t: Seq<char>, unit: Seq<char>, r: Route)
    requires
        spec_route_ok(t, r),
    ensures
        t == "zigbee/boiler"@ ==> r is Boiler,
        t == "zigbee/climate/"@ + unit ==> (r matches Route::Climate(u) && u@ == unit),
{
    reveal_strlit("zigbee/boiler");
    reveal_strlit("zigbee/garden");
    reveal_strlit("zigbee/kitchen_ceiling");
    reveal_strlit("zigbee/kitchen_under_stairs");
    reveal_strlit("zigbee/kitchen_under_cupboards");
    reveal_strlit("zigbee/climate/");
    let c = "zigbee/climate/"@;
    if t == c + unit {
        assert(t[7] == 'c');
        assert("zigbee/boiler"@[7] == 'b');
        assert("zigbee/garden"@[7] == 'g');
        assert("zigbee/kitchen_ceiling"@[7] == 'k');
        assert("zigbee/kitchen_under_stairs"@[7] == 'k');
        assert("zigbee/kitchen_under_cupboards"@[7] == 'k');
        assert(t.subrange(0, c.len() as int) =~= c);
        assert(t.subrange(c.len() as int, t.len() as int) =~= unit);
    }
}

/// A fresh `ON` or `OFF` report on a switch topic, in valid UTF-8, is the
/// switch in that state.
pub proof fn lemma_switch_report_decodes(
    t: Seq<char>,
    payload: Vec<u8>,
    decoded: Decoded,
    now: int,
    r: Message,
)
    requires
        switch_topic_named(t),
        valid_utf8(payload@),
        decoded.simple_switch matches Some(m) && fresh(m.last_seen, SWITCH_STALENESS, now)
            && (m.state@ == seq!['O', 'N'] || m.state@ == seq!['O', 'F', 'F']),
        spec_message_ok(t, payload, decoded, now, r),
    ensures
        r == Message::SimpleSwitch(SimpleSwitch { state: Some(decoded.simple_switch.unwrap().state@ == seq!['O', 'N']) }),
{
    lemma_switch_topic_not_boiler(t);
    reveal_strlit("zigbee/boiler");
    reveal_strlit("zigbee/garden");
    reveal_strlit("zigbee/kitchen_ceiling");
    reveal_strlit("zigbee/kitchen_under_stairs");
    reveal_strlit("zigbee/kitchen_under_cupboards");
    reveal_strlit("zigbee/climate/");
}

/// `std::str::from_utf8`: whether the bytes are valid UTF-8.  Claims that
/// the call succeeds exactly on the byte sequences that vstd's
/// `valid_utf8` accepts (well-formed UTF-8 in the sense of the Unicode
/// standard).
#[verifier::external_body]
fn utf8_valid(p: &[u8]) -> (r: bool)
    ensures
        r == valid_utf8(p@),
{
    std::str::from_utf8(p).is_ok()
}

/// The message that a report yields: the decoded message, or the problem
/// with the payload.
pub open spec fn spec_message_ok(topic: Seq<char>, payload: Vec<u8>, decoded: Decoded, now: int, r: Message) -> bool {
    let route_boiler = topic == "zigbee/boiler"@;
    let route_switch = !route_boiler && is_switch_topic(topic);
    let unit = spec_strip_prefix(topic, "zigbee/climate/"@);
    if !route_boiler && !route_switch && unit is None {
        r == Message::Invalid(Problem::UnrecognisedTopic, payload)
    } else if !valid_utf8(payload@) {
        r == Message::Invalid(Problem::BadUtf8, payload)
    } else if route_boiler {
        match spec_parse_boiler(decoded.boiler, now) {
            Ok(m) => r == m,
            Err(p) => r == Message::Invalid(p, payload),
        }
    } else if route_switch {
        match spec_parse_simple_switch(decoded.simple_switch, now) {
            Ok(m) => r == m,
            Err(p) => r == Message::Invalid(p, payload),
        }
    } else {
        match decoded.climate {
            None => r == Message::Invalid(Problem::BadJson, payload),
            Some(m) => if !fresh(m.last_seen, CLIMATE_STALENESS, now) {
                r == Message::Invalid(Problem::Stale, payload)
            } else {
                spec_parse_climate_ok(m, unit.unwrap(), r)
            },
        }
    }
}

impl Message {
    /// The message of a report on `topic` with `payload`; `decoded` holds
    /// the payload decoded as each kind of report JSON.
    pub fn from(topic: &str, payload: Vec<u8>, decoded: Decoded, now: i128) -> (r: Message)
        requires
            crate::time::representable(now as int),
        ensures
            spec_message_ok(topic@, payload, decoded, now as int, r),
    {
        let ghost d = decoded;
        let m = match route(topic) {
            Route::Unrecognised => Err(Problem::UnrecognisedTopic),
            rt => {
                if !utf8_valid(payload.as_slice()) {
                    Err(Problem::BadUtf8)
                } else {
                    match rt {
                        Route::Boiler => parse_boiler(decoded.boiler, now),
                        Route::SimpleSwitch => parse_simple_switch(decoded.simple_switch, now),
                        Route::Climate(unit) => parse_climate(decoded.climate, unit.as_str(), now),
                        Route::Unrecognised => Err(Problem::UnrecognisedTopic),
                    }
                }
            },
        };
        match m {
            Ok(m) => m,
            Err(problem) => Message::Invalid(problem, payload),
        }
    }
}

} // verus!
