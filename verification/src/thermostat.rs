//! Thermostat decisions: for every heating zone, whether to call for heat,
//! with hysteresis holds so that the relay does not chatter.
use vstd::prelude::*;
use crate::pb::{Hysteresis, SetPoint, SetPoint2};
use crate::temperature::{spec_below, temp_below};
use crate::time::{make_delay, proto_ts_to_delay, representable, spec_delay_until, spec_make_delay, timestamp_instant, Timestamp};

verus! {

/// Tunables of the thermostat (durations in nanoseconds).
#[derive(Clone, Copy, Debug, PartialEq, Eq, Structural)]
pub struct ThermostatSetArgs {
    /// How long a decision to heat is held.
    pub hysteresis_on_hold_time: u128,
    /// How long a decision not to heat is held.
    pub hysteresis_off_hold_time: u128,
    /// How long a live temperature reading stays usable.
    pub live_temp_memory: u128,
}

impl ThermostatSetArgs {
    /// All three durations fit in a `Duration`.
    pub open spec fn wf(self) -> bool {
        &&& crate::time::is_duration(self.hysteresis_on_hold_time as int)
        &&& crate::time::is_duration(self.hysteresis_off_hold_time as int)
        &&& crate::time::is_duration(self.live_temp_memory as int)
    }
}

/// What one zone is asked to do: its override entry (from the persistent
/// state) and its schedule entry.
pub struct Thermostat<'a> {
    pub state: Option<&'a SetPoint2>,
    pub schedule: Option<&'a SetPoint>,
}

/// The outcome for one zone.
#[derive(Clone, Copy, Debug, PartialEq, Eq, Structural)]
pub enum Decision {
    /// Nothing to do.
    Skip,
    /// The current hold lasts this many more nanoseconds.
    Wait(u128),
    /// The zone has a hold but no longer anything to decide with.
    Disable,
    /// No heat, for the schedule entry with this tag.
    Off(Option<u64>),
    /// Heat, for the schedule entry with this tag.
    On(Option<u64>),
}

/// The set point of the schedule entry, with its tag.
pub open spec fn spec_setpoint_from_schedule(schedule: Option<SetPoint>) -> Option<(u64, Option<u64>)> {
    match schedule {
        Some(s) => match s.setpoint {
            Some(p) => Some((p, s.unique)),
            None => None,
        },
        None => None,
    }
}

/// The override's set point (untagged) if it has one, else the schedule's.
pub open spec fn spec_setpoint_from_state_or_schedule(
    state: Option<SetPoint2>,
    schedule: Option<SetPoint>,
) -> Option<(u64, Option<u64>)> {
    match state {
        Some(s) => match s.setpoint {
            Some(p) => Some((p, None)),
            None => spec_setpoint_from_schedule(schedule),
        },
        None => spec_setpoint_from_schedule(schedule),
    }
}

/// The hysteresis hold of the override, if any.
pub open spec fn spec_hysteresis(state: Option<SetPoint2>) -> Option<Hysteresis> {
    match state {
        Some(s) => s.hysteresis,
        None => None,
    }
}

/// The decision for a zone with override `state` and schedule entry
/// `schedule`, given the live temperature and whether a heating override
/// is in force.
pub open spec fn spec_decide(
    state: Option<SetPoint2>,
    schedule: Option<SetPoint>,
    live: Option<u64>,
    now: int,
    is_heating_overridden: bool,
) -> Decision {
    let hyst = spec_hysteresis(state);
    let default_decision = if hyst is Some { Decision::Disable } else { Decision::Skip };
    let sp = if is_heating_overridden {
        spec_setpoint_from_state_or_schedule(state, schedule)
    } else {
        spec_setpoint_from_schedule(schedule)
    };
    match (live, sp) {
        (Some(t), Some((setpoint, unique))) => {
            let want_heat = spec_below(t, setpoint);
            match hyst {
                Some(h) if h.schedule_unique == unique && h.state_or_default() == want_heat =>
                    Decision::Skip,
                Some(h) if h.schedule_unique == unique && spec_delay_until(h.until, now) is Some =>
                    Decision::Wait(spec_delay_until(h.until, now).unwrap() as u128),
                _ => if want_heat { Decision::On(unique) } else { Decision::Off(unique) },
            }
        },
        _ => default_decision,
    }
}

/// The spec view of a zone's inputs.
pub open spec fn opt_copy<T>(o: Option<&T>) -> Option<T> {
    match o {
        Some(x) => Some(*x),
        None => None,
    }
}

impl<'a> Thermostat<'a> {
    pub fn setpoint_from_schedule(&self) -> (r: Option<(u64, Option<u64>)>)
        ensures
            r == spec_setpoint_from_schedule(opt_copy(self.schedule)),
    {
        match self.schedule {
            Some(s) => match s.setpoint {
                Some(p) => Some((p, s.unique)),
                None => None,
            },
            None => None,
        }
    }

    pub fn setpoint_from_state_or_schedule(&self) -> (r: Option<(u64, Option<u64>)>)
        ensures
            r == spec_setpoint_from_state_or_schedule(opt_copy(self.state), opt_copy(self.schedule)),
    {
        match self.state {
            Some(s) => match s.setpoint {
                Some(p) => Some((p, None)),
                None => self.setpoint_from_schedule(),
            },
            None => self.setpoint_from_schedule(),
        }
    }

    /// Decides for this zone; `live` is the fresh temperature reading, if
    /// any, and `now` the current instant.
    pub fn decide(&self, live: Option<u64>, now: i128, is_heating_overridden: bool) -> (r: Decision)
        requires
            representable(now as int),
        ensures
            r == spec_decide(opt_copy(self.state), opt_copy(self.schedule), live, now as int, is_heating_overridden),
    {
        let maybe_hysteresis: Option<Hysteresis> = match self.state {
            Some(s) => s.hysteresis,
            None => None,
        };
        let default_decision = match maybe_hysteresis {
            Some(_) => Decision::Disable,
            None => Decision::Skip,
        };
        let live_temp = match live {
            Some(t) => t,
            None => {
                return default_decision;
            },
        };
        let sp = if is_heating_overridden {
            self.setpoint_from_state_or_schedule()
        } else {
            self.setpoint_from_schedule()
        };
        let (setpoint, unique) = match sp {
            Some(x) => x,
            None => {
                return default_decision;
            },
        };
        let want_heat = temp_below(live_temp, setpoint);
        if let Some(hysteresis) = maybe_hysteresis {
            if hysteresis.schedule_unique == unique {
                let held = match hysteresis.state {
                    Some(s) => s,
                    None => false,
                };
                if held == want_heat {
                    return Decision::Skip;
                }
                if let Some(delay) = proto_ts_to_delay(hysteresis.until, now) {
                    return Decision::Wait(delay);
                }
            }
        }
        if want_heat {
            Decision::On(unique)
        } else {
            Decision::Off(unique)
        }
    }
}

/// Starts a hysteresis hold: relay state `s`, held until `d` (when known),
/// for the schedule entry tagged `unique` (when known).
pub fn hold(h: &mut Hysteresis, s: bool, d: Option<Timestamp>, unique: Option<u64>)
    ensures
        final(h).state == Some(s),
        final(h).until == (if d is Some { d } else { old(h).until }),
        final(h).schedule_unique == (if unique is Some { unique } else { old(h).schedule_unique }),
{
    if let Some(until) = d {
        h.until = Some(until);
    }
    h.state = Some(s);
    if let Some(u) = unique {
        h.schedule_unique = Some(u);
    }
}

/// A decision to heat is never taken when the zone is already warm enough,
/// nor one not to heat when it is below its set point.
pub proof fn lemma_decision_follows_temperature(
    state: Option<SetPoint2>,
    schedule: Option<SetPoint>,
    live: u64,
    now: int,
    is_heating_overridden: bool,
)
    ensures
        ({
            let sp = if is_heating_overridden {
                spec_setpoint_from_state_or_schedule(state, schedule)
            } else {
                spec_setpoint_from_schedule(schedule)
            };
            &&& spec_decide(state, schedule, Some(live), now, is_heating_overridden) is On
                ==> sp is Some && spec_below(live, sp.unwrap().0)
            &&& spec_decide(state, schedule, Some(live), now, is_heating_overridden) is Off
                ==> sp is Some && !spec_below(live, sp.unwrap().0)
        }),
{
}

/// The zone's decision is taken against set point `p`, tagged `u`: the
/// schedule entry's, unless a heating override is in force and the
/// override entry has a set point of its own (then untagged).
pub open spec fn decided_against(
    st: SetPoint2,
    schedule: Option<SetPoint>,
    is_heating_overridden: bool,
    p: u64,
    u: Option<u64>,
) -> bool {
    ||| is_heating_overridden && st.setpoint == Some(p) && u is None
    ||| (!is_heating_overridden || st.setpoint is None)
        && (schedule matches Some(s) && s.setpoint == Some(p) && s.unique == u)
}

/// A hysteresis hold on a zone, for the same schedule entry, is honoured:
/// while the held relay state (on or off) is what the temperature asks for
/// there is nothing to do; while it differs and the hold has not ended,
/// the decision is to wait for the time left until its end; once it has
/// ended, the zone is switched as the temperature asks.
pub proof fn lemma_hold_honoured(
    st: SetPoint2,
    h: Hysteresis,
    schedule: Option<SetPoint>,
    live: u64,
    now: int,
    is_heating_overridden: bool,
    p: u64,
    u: Option<u64>,
)
    requires
        st.hysteresis == Some(h),
        h.schedule_unique == u,
        decided_against(st, schedule, is_heating_overridden, p, u),
    ensures
        ({
            let d = spec_decide(Some(st), schedule, Some(live), now, is_heating_overridden);
            let want = spec_below(live, p);
            let held = h.state == Some(true);
            &&& held == want ==> d == Decision::Skip
            &&& held != want && (h.until matches Some(ts) && timestamp_instant(ts) matches Some(end) && end > now)
                ==> d == Decision::Wait((timestamp_instant(h.until.unwrap()).unwrap() - now) as u128)
            &&& held != want && !(h.until matches Some(ts) && timestamp_instant(ts) matches Some(end) && end > now)
                ==> d == (if want { Decision::On(u) } else { Decision::Off(u) })
        }),
{
}

/// A zone with no hold, or a hold for another schedule entry, is switched
/// as the temperature asks.
pub proof fn lemma_unheld_zone_follows_temperature(
    st: SetPoint2,
    schedule: Option<SetPoint>,
    live: u64,
    now: int,
    is_heating_overridden: bool,
    p: u64,
    u: Option<u64>,
)
    requires
        st.hysteresis matches Some(h) ==> h.schedule_unique != u,
        decided_against(st, schedule, is_heating_overridden, p, u),
    ensures
        spec_decide(Some(st), schedule, Some(live), now, is_heating_overridden)
            == (if spec_below(live, p) { Decision::On(u) } else { Decision::Off(u) }),
{
}

/// A zone without an override entry is switched as its schedule entry's
/// set point asks, for that entry.
pub proof fn lemma_scheduled_zone_follows_temperature(
    s: SetPoint,
    live: u64,
    now: int,
    is_heating_overridden: bool,
    p: u64,
)
    requires
        s.setpoint == Some(p),
    ensures
        spec_decide(None, Some(s), Some(live), now, is_heating_overridden)
            == (if spec_below(live, p) { Decision::On(s.unique) } else { Decision::Off(s.unique) }),
{
}

/// Without a live reading there is no call for heat either way.
pub proof fn lemma_no_reading_no_call(
    state: Option<SetPoint2>,
    schedule: Option<SetPoint>,
    now: int,
    is_heating_overridden: bool,
)
    ensures
        spec_decide(state, schedule, None, now, is_heating_overridden) == (
            if spec_hysteresis(state) is Some { Decision::Disable } else { Decision::Skip }),
{
}


/// One zone to be decided: its name and the positions of its override entry
/// (in the persistent state) and of its schedule entry.
#[derive(Debug)]
pub struct Want {
    pub zone: String,
    pub state: Option<usize>,
    pub schedule: Option<usize>,
}

/// Some entry of `w` is for zone `z`.
pub open spec fn want_has(w: Seq<Want>, z: Seq<char>) -> bool {
    exists|k: int| 0 <= k < w.len() && #[trigger] w[k].zone@ == z
}

/// The position of the entry of `w` for zone `z`.
pub open spec fn want_pos(w: Seq<Want>, z: Seq<char>) -> int {
    choose|k: int| 0 <= k < w.len() && #[trigger] w[k].zone@ == z
}

/// No two entries of `w` are for the same zone.
pub open spec fn want_unique(w: Seq<Want>) -> bool {
    forall|a: int, b: int| 0 <= a < w.len() && 0 <= b < w.len() && #[trigger] w[a].zone@ == #[trigger] w[b].zone@ ==> a == b
}

/// `w` with the override at position `i` recorded for zone `z`.
pub open spec fn with_state(w: Seq<Want>, z: String, i: usize) -> Seq<Want> {
    if want_has(w, z@) {
        let k = want_pos(w, z@);
        w.update(k, Want { zone: w[k].zone, state: Some(i), schedule: w[k].schedule })
    } else {
        w.push(Want { zone: z, state: Some(i), schedule: None })
    }
}

/// `w` with the schedule entry at position `j` recorded for zone `z`.
pub open spec fn with_schedule(w: Seq<Want>, z: String, j: usize) -> Seq<Want> {
    if want_has(w, z@) {
        let k = want_pos(w, z@);
        w.update(k, Want { zone: w[k].zone, state: w[k].state, schedule: Some(j) })
    } else {
        w.push(Want { zone: z, state: None, schedule: Some(j) })
    }
}

/// The zones named by the first `n` override entries, each with its last
/// override entry, in order of first appearance.
pub open spec fn want_from_overrides(ov: Seq<SetPoint2>, n: int) -> Seq<Want>
    decreases n,
{
    if n <= 0 {
        Seq::empty()
    } else {
        let w = want_from_overrides(ov, n - 1);
        match ov[n - 1].zone {
            Some(z) => with_state(w, z, (n - 1) as usize),
            None => w,
        }
    }
}

/// The zones of all override entries and of the first `m` schedule entries.
pub open spec fn want_from_all(ov: Seq<SetPoint2>, hs: Seq<SetPoint>, m: int) -> Seq<Want>
    decreases m,
{
    if m <= 0 {
        want_from_overrides(ov, ov.len() as int)
    } else {
        let w = want_from_all(ov, hs, m - 1);
        match hs[m - 1].zone {
            Some(z) => with_schedule(w, z, (m - 1) as usize),
            None => w,
        }
    }
}

/// Every zone that has an override entry or a schedule entry, in order of
/// first appearance, with its last override entry and last schedule entry.
pub open spec fn spec_want(ov: Seq<SetPoint2>, hs: Seq<SetPoint>) -> Seq<Want> {
    want_from_all(ov, hs, hs.len() as int)
}

/// The zone's override entry, as the decision sees it.
pub open spec fn want_state(w: Want, ov: Seq<SetPoint2>) -> Option<SetPoint2> {
    match w.state {
        Some(i) => Some(ov[i as int]),
        None => None,
    }
}

/// The zone's schedule entry, as the decision sees it.
pub open spec fn want_schedule(w: Want, hs: Seq<SetPoint>) -> Option<SetPoint> {
    match w.schedule {
        Some(j) => Some(hs[j as int]),
        None => None,
    }
}

/// The zone has a set point in its override or its schedule entry.
pub open spec fn want_has_setpoint(w: Want, ov: Seq<SetPoint2>, hs: Seq<SetPoint>) -> bool {
    (want_state(w, ov) matches Some(s) && s.setpoint is Some)
    || (want_schedule(w, hs) matches Some(s) && s.setpoint is Some)
}

/// The positions recorded in `w` are positions of `ov` and `hs`.
pub open spec fn want_in_bounds(w: Seq<Want>, ov: Seq<SetPoint2>, hs: Seq<SetPoint>) -> bool {
    forall|k: int| 0 <= k < w.len() ==> {
        &&& (#[trigger] w[k]).state matches Some(i) ==> i < ov.len()
        &&& w[k].schedule matches Some(j) ==> j < hs.len()
    }
}

/// The names in `v`.
pub open spec fn names(v: Seq<String>) -> Seq<Seq<char>> {
    v.map_values(|s: String| s@)
}

/// `v` names zone `z`.
pub open spec fn names_has(v: Seq<String>, z: Seq<char>) -> bool {
    exists|k: int| 0 <= k < v.len() && #[trigger] v[k]@ == z
}

/// No name occurs twice in `v`.
pub open spec fn names_unique(v: Seq<String>) -> bool {
    forall|a: int, b: int| 0 <= a < v.len() && 0 <= b < v.len() && #[trigger] v[a]@ == #[trigger] v[b]@ ==> a == b
}

/// A climate subscription is (re)made for the zone: it has none that is
/// kept, either because it had none or because the zone has no set point.
pub open spec fn needs_monitor(w: Want, ov: Seq<SetPoint2>, hs: Seq<SetPoint>, monitors: Seq<String>) -> bool {
    !(names_has(monitors, w.zone@) && want_has_setpoint(w, ov, hs))
}

/// The zones among the first `n` of `w` whose subscription is (re)made.
pub open spec fn fresh_monitors(
    w: Seq<Want>,
    n: int,
    ov: Seq<SetPoint2>,
    hs: Seq<SetPoint>,
    monitors: Seq<String>,
) -> Seq<String>
    decreases n,
{
    if n <= 0 {
        Seq::empty()
    } else {
        let prev = fresh_monitors(w, n - 1, ov, hs, monitors);
        if needs_monitor(w[n - 1], ov, hs, monitors) {
            prev.push(w[n - 1].zone)
        } else {
            prev
        }
    }
}

/// The first `n` subscriptions of `m` that are kept: those of zones that
/// are still to be decided and have a set point.
pub open spec fn kept_monitors(
    m: Seq<String>,
    n: int,
    w: Seq<Want>,
    ov: Seq<SetPoint2>,
    hs: Seq<SetPoint>,
) -> Seq<String>
    decreases n,
{
    if n <= 0 {
        Seq::empty()
    } else {
        let prev = kept_monitors(m, n - 1, w, ov, hs);
        if want_has(w, m[n - 1]@) && want_has_setpoint(w[want_pos(w, m[n - 1]@)], ov, hs) {
            prev.push(m[n - 1])
        } else {
            prev
        }
    }
}

/// Position of the entry of `w` for zone `z`, if any.
fn find_want(w: &Vec<Want>, z: &String) -> (r: Option<usize>)
    ensures
        r matches Some(k) ==> k < w@.len() && w@[k as int].zone@ == z@,
        r is None ==> !want_has(w@, z@),
{
    let mut k: usize = 0;
    while k < w.len()
        invariant
            k <= w@.len(),
            forall|a: int| 0 <= a < k ==> (#[trigger] w@[a]).zone@ != z@,
        decreases w@.len() - k,
    {
        if w[k].zone == *z {
            return Some(k);
        }
        k = k + 1;
    }
    None
}

/// Position of zone `z` in `v`, if any.
pub fn find_name(v: &Vec<String>, z: &str) -> (r: Option<usize>)
    ensures
        r matches Some(k) ==> k < v@.len() && v@[k as int]@ == z@,
        r is None ==> !names_has(v@, z@),
{
    let mut k: usize = 0;
    while k < v.len()
        invariant
            k <= v@.len(),
            forall|a: int| 0 <= a < k ==> (#[trigger] v@[a])@ != z@,
        decreases v@.len() - k,
    {
        if crate::text::str_eq(v[k].as_str(), z) {
            return Some(k);
        }
        k = k + 1;
    }
    None
}

/// Builds the per-zone inputs of the decisions.
fn build_want(ov: &Vec<SetPoint2>, hs: &Vec<SetPoint>) -> (w: Vec<Want>)
    ensures
        w@ == spec_want(ov@, hs@),
        want_unique(w@),
        want_in_bounds(w@, ov@, hs@),
{
    let mut w: Vec<Want> = Vec::new();
    let mut i: usize = 0;
    while i < ov.len()
        invariant
            i <= ov@.len(),
            w@ == want_from_overrides(ov@, i as int),
            want_unique(w@),
            want_in_bounds(w@, ov@, hs@),
        decreases ov@.len() - i,
    {
        if let Some(z) = &ov[i].zone {
            match find_want(&w, z) {
                Some(k) => {
                    let ghost old_w = w@;
                    proof {
                        assert(want_pos(old_w, z@) == k as int);
                    }
                    let zone = w[k].zone.clone();
                    let sched = w[k].schedule;
                    w.set(k, Want { zone, state: Some(i), schedule: sched });
                    assert(w@ =~= with_state(old_w, *z, i));
                },
                None => {
                    let ghost old_w = w@;
                    w.push(Want { zone: z.clone(), state: Some(i), schedule: None });
                    assert(w@ =~= with_state(old_w, *z, i));
                },
            }
        }
        i = i + 1;
    }
    assert(w@ == want_from_all(ov@, hs@, 0));
    let mut j: usize = 0;
    while j < hs.len()
        invariant
            j <= hs@.len(),
            w@ == want_from_all(ov@, hs@, j as int),
            want_unique(w@),
            want_in_bounds(w@, ov@, hs@),
        decreases hs@.len() - j,
    {
        if let Some(z) = &hs[j].zone {
            match find_want(&w, z) {
                Some(k) => {
                    let ghost old_w = w@;
                    proof {
                        assert(want_pos(old_w, z@) == k as int);
                    }
                    let zone = w[k].zone.clone();
                    let st = w[k].state;
                    w.set(k, Want { zone, state: st, schedule: Some(j) });
                    assert(w@ =~= with_schedule(old_w, *z, j));
                },
                None => {
                    let ghost old_w = w@;
                    w.push(Want { zone: z.clone(), state: None, schedule: Some(j) });
                    assert(w@ =~= with_schedule(old_w, *z, j));
                },
            }
        }
        j = j + 1;
    }
    w
}


/// A live temperature reading of a zone, with the monotonic instant
/// (nanoseconds) at which it arrived.
#[derive(Debug)]
pub struct LiveTemp {
    pub zone: String,
    pub temperature: u64,
    pub when: u128,
}

/// The thermostat's own state between calculations: the zones with a
/// climate subscription and the latest reading of each zone.
#[derive(Debug)]
pub struct ThermostatSet {
    pub config: ThermostatSetArgs,
    pub monitors: Vec<String>,
    pub live_temp: Vec<LiveTemp>,
}

/// Some reading in `l` is for zone `z`.
pub open spec fn live_has(l: Seq<LiveTemp>, z: Seq<char>) -> bool {
    exists|k: int| 0 <= k < l.len() && #[trigger] l[k].zone@ == z
}

/// The position of the reading of zone `z`.
pub open spec fn live_pos(l: Seq<LiveTemp>, z: Seq<char>) -> int {
    choose|k: int| 0 <= k < l.len() && #[trigger] l[k].zone@ == z
}

/// No zone has two readings.
pub open spec fn live_unique(l: Seq<LiveTemp>) -> bool {
    forall|a: int, b: int| 0 <= a < l.len() && 0 <= b < l.len() && #[trigger] l[a].zone@ == #[trigger] l[b].zone@ ==> a == b
}

/// Time elapsed from `when` to `now` on the monotonic clock (zero when
/// `when` is later, as `Instant::duration_since` does).
pub open spec fn elapsed(now: u128, when: u128) -> int {
    if now >= when { now - when } else { 0 }
}

/// The zone's reading if it is younger than `memory`.
pub open spec fn spec_live(l: Seq<LiveTemp>, z: Seq<char>, now_i: u128, memory: u128) -> Option<u64> {
    if live_has(l, z) && elapsed(now_i, l[live_pos(l, z)].when) < memory {
        Some(l[live_pos(l, z)].temperature)
    } else {
        None
    }
}

/// The decision for every zone of `w`, in order.
pub open spec fn spec_decisions(
    w: Seq<Want>,
    ov: Seq<SetPoint2>,
    hs: Seq<SetPoint>,
    l: Seq<LiveTemp>,
    now_i: u128,
    memory: u128,
    now: int,
    overridden: bool,
) -> Seq<(String, Decision)> {
    Seq::new(
        w.len(),
        |k: int|
            (
                w[k].zone,
                spec_decide(
                    want_state(w[k], ov),
                    want_schedule(w[k], hs),
                    spec_live(l, w[k].zone@, now_i, memory),
                    now,
                    overridden,
                ),
            ),
    )
}

/// The non-zero wait of a decision.
pub open spec fn wait_of(d: Decision) -> Option<u128> {
    match d {
        Decision::Wait(x) if x > 0 => Some(x),
        _ => None,
    }
}

/// The decision changes what is recorded in the state.
pub open spec fn is_change(d: Decision) -> bool {
    d is Disable || d is On || d is Off
}

/// The outcome of a calculation.
#[derive(Debug)]
pub enum Calculation {
    /// Climate subscriptions were (re)made for these zones; the decisions
    /// wait for the next calculation.
    Deferred { added: Vec<String> },
    /// Decisions were taken.
    Decided {
        /// The decision of every zone.
        decisions: Vec<(String, Decision)>,
        /// A heating override is in force.
        heating_overridden: bool,
        /// Delay until the next hold or override ends, if any.
        wake_after: Option<u128>,
        /// Some decision changes the persistent state.
        write: bool,
    },
}

impl ThermostatSet {
    /// Subscriptions name distinct zones and readings are of distinct zones.
    pub open spec fn wf(&self) -> bool {
        &&& names_unique(self.monitors@)
        &&& live_unique(self.live_temp@)
        &&& self.config.wf()
    }

    /// A thermostat with no subscription and no reading.
    pub fn new(config: ThermostatSetArgs) -> (r: ThermostatSet)
        requires
            config.wf(),
        ensures
            r.wf(),
            r.config == config,
            r.monitors@.len() == 0,
            r.live_temp@.len() == 0,
    {
        ThermostatSet { config, monitors: Vec::new(), live_temp: Vec::new() }
    }

    /// The zone's reading if it is younger than the configured memory.
    fn live_for(&self, z: &String, now_i: u128) -> (r: Option<u64>)
        requires
            live_unique(self.live_temp@),
        ensures
            r == spec_live(self.live_temp@, z@, now_i, self.config.live_temp_memory),
    {
        let mut k: usize = 0;
        while k < self.live_temp.len()
            invariant
                k <= self.live_temp@.len(),
                live_unique(self.live_temp@),
                forall|a: int| 0 <= a < k ==> (#[trigger] self.live_temp@[a]).zone@ != z@,
            decreases self.live_temp@.len() - k,
        {
            if self.live_temp[k].zone == *z {
                proof {
                    assert(live_has(self.live_temp@, z@));
                    let p = live_pos(self.live_temp@, z@);
                    assert(self.live_temp@[p].zone@ == z@);
                    assert(p == k as int);
                }
                let when = self.live_temp[k].when;
                let age: u128 = if now_i >= when { now_i - when } else { 0 };
                if age < self.config.live_temp_memory {
                    return Some(self.live_temp[k].temperature);
                } else {
                    return None;
                }
            }
            k = k + 1;
        }
        None
    }
}

proof fn lemma_kept_elements(m: Seq<String>, n: int, w: Seq<Want>, ov: Seq<SetPoint2>, hs: Seq<SetPoint>, z: Seq<char>)
    requires
        0 <= n <= m.len(),
    ensures
        names_has(kept_monitors(m, n, w, ov, hs), z) <==> (exists|k: int| 0 <= k < n && #[trigger] m[k]@ == z)
            && want_has(w, z) && want_has_setpoint(w[want_pos(w, z)], ov, hs),
    decreases n,
{
    if n > 0 {
        lemma_kept_elements(m, n - 1, w, ov, hs, z);
        let prev = kept_monitors(m, n - 1, w, ov, hs);
        let cur = kept_monitors(m, n, w, ov, hs);
        if names_has(cur, z) {
            let k = choose|k: int| 0 <= k < cur.len() && #[trigger] cur[k]@ == z;
            if k < prev.len() {
                assert(names_has(prev, z));
            }
        }
        if (exists|k: int| 0 <= k < n && #[trigger] m[k]@ == z) && want_has(w, z) && want_has_setpoint(w[want_pos(w, z)], ov, hs) {
            let k = choose|k: int| 0 <= k < n && #[trigger] m[k]@ == z;
            if k < n - 1 {
                assert(names_has(prev, z));
                let j = choose|j: int| 0 <= j < prev.len() && #[trigger] prev[j]@ == z;
                assert(cur[j] == prev[j]);
            } else {
                assert(cur[cur.len() - 1]@ == z);
            }
        }
    }
}

proof fn lemma_fresh_elements(w: Seq<Want>, n: int, ov: Seq<SetPoint2>, hs: Seq<SetPoint>, m: Seq<String>, z: Seq<char>)
    requires
        0 <= n <= w.len(),
    ensures
        names_has(fresh_monitors(w, n, ov, hs, m), z) <==> exists|k: int| 0 <= k < n && #[trigger] w[k].zone@ == z
            && needs_monitor(w[k], ov, hs, m),
    decreases n,
{
    if n > 0 {
        lemma_fresh_elements(w, n - 1, ov, hs, m, z);
        let prev = fresh_monitors(w, n - 1, ov, hs, m);
        let cur = fresh_monitors(w, n, ov, hs, m);
        if names_has(cur, z) {
            let k = choose|k: int| 0 <= k < cur.len() && #[trigger] cur[k]@ == z;
            if k < prev.len() {
                assert(names_has(prev, z));
            } else {
                assert(w[n - 1].zone@ == z);
            }
        }
        if exists|k: int| 0 <= k < n && #[trigger] w[k].zone@ == z && needs_monitor(w[k], ov, hs, m) {
            let k = choose|k: int| 0 <= k < n && #[trigger] w[k].zone@ == z && needs_monitor(w[k], ov, hs, m);
            if k < n - 1 {
                assert(names_has(prev, z));
                let j = choose|j: int| 0 <= j < prev.len() && #[trigger] prev[j]@ == z;
                assert(cur[j] == prev[j]);
            } else {
                assert(cur[cur.len() - 1]@ == z);
            }
        }
    }
}


/// The zone has a set point in its override or its schedule entry.
fn has_setpoint(w: &Want, ov: &Vec<SetPoint2>, hs: &Vec<SetPoint>) -> (r: bool)
    requires
        w.state matches Some(i) ==> i < ov@.len(),
        w.schedule matches Some(j) ==> j < hs@.len(),
    ensures
        r == want_has_setpoint(*w, ov@, hs@),
{
    let a = match w.state {
        Some(i) => ov[i].setpoint.is_some(),
        None => false,
    };
    let b = match w.schedule {
        Some(j) => hs[j].setpoint.is_some(),
        None => false,
    };
    a || b
}

/// The decisions of a calculation are exactly those of `spec_decisions`,
/// and the other fields summarise them.
pub open spec fn decided_ok(
    decisions: Seq<(String, Decision)>,
    heating_overridden: bool,
    wake_after: Option<u128>,
    write: bool,
    w: Seq<Want>,
    ov: Seq<SetPoint2>,
    hs: Seq<SetPoint>,
    l: Seq<LiveTemp>,
    now_i: u128,
    memory: u128,
    now: int,
    remaining: Option<int>,
) -> bool {
    &&& heating_overridden == remaining is Some
    &&& decisions == spec_decisions(w, ov, hs, l, now_i, memory, now, remaining is Some)
    &&& write == exists|k: int| 0 <= k < decisions.len() && is_change(#[trigger] decisions[k].1)
    &&& wake_after matches Some(x) ==> {
        &&& (exists|k: int| 0 <= k < decisions.len() && wait_of(#[trigger] decisions[k].1) == Some(x))
            || remaining == Some(x as int)
        &&& forall|k: int| 0 <= k < decisions.len() ==> (wait_of(#[trigger] decisions[k].1) matches Some(y) ==> x <= y)
        &&& remaining matches Some(y) ==> x <= y
    }
    &&& wake_after is None ==> {
        &&& forall|k: int| 0 <= k < decisions.len() ==> wait_of(#[trigger] decisions[k].1) is None
        &&& remaining is None
    }
}

impl ThermostatSet {
    /// One round of the thermostat: works out which zones need a decision
    /// (every zone with an override or a schedule entry), keeps or (re)makes
    /// their climate subscriptions, and, when no subscription had to be
    /// made, decides every zone.
    pub fn calculate(
        &mut self,
        current: &crate::pb::PersistentState,
        schedule: &crate::pb::HeatSchedule,
        now_i: u128,
        now: i128,
    ) -> (r: Calculation)
        requires
            old(self).wf(),
            representable(now as int),
        ensures
            final(self).wf(),
            final(self).config == old(self).config,
            final(self).live_temp == old(self).live_temp,
            ({
                let ov = current.heating_override@;
                let hs = schedule.heating@;
                let w = spec_want(ov, hs);
                let kept = kept_monitors(old(self).monitors@, old(self).monitors@.len() as int, w, ov, hs);
                let fresh = fresh_monitors(w, w.len() as int, ov, hs, old(self).monitors@);
                &&& final(self).monitors@ == kept + fresh
                &&& forall|z: Seq<char>| #![trigger names_has(final(self).monitors@, z)] #![trigger want_has(w, z)]
                    names_has(final(self).monitors@, z) <==> want_has(w, z)
                &&& (r is Deferred <==> fresh.len() > 0)
                &&& r matches Calculation::Deferred { added } ==> added@ == fresh
                &&& r matches Calculation::Decided { decisions, heating_overridden, wake_after, write } ==>
                    decided_ok(decisions@, heating_overridden, wake_after, write, w, ov, hs,
                        old(self).live_temp@, now_i, old(self).config.live_temp_memory, now as int,
                        spec_delay_until(current.heating_override_until, now as int))
                &&& r matches Calculation::Decided { decisions, .. } ==> decisions_unique(decisions@)
            }),
    {
        let ov = &current.heating_override;
        let hs = &schedule.heating;
        let want = build_want(ov, hs);
        let ghost w = want@;
        let ghost old_m = self.monitors@;
        let mut all: Vec<String> = Vec::new();
        let mut i: usize = 0;
        while i < self.monitors.len()
            invariant
                i <= old_m.len(),
                self.monitors@ == old_m,
                names_unique(old_m),
                want@ == w,
                want_unique(w),
                want_in_bounds(w, ov@, hs@),
                all@ == kept_monitors(old_m, i as int, w, ov@, hs@),
                names_unique(all@),
            decreases old_m.len() - i,
        {
            if let Some(k) = find_want(&want, &self.monitors[i as usize]) {
                proof {
                    let p = want_pos(w, old_m[i as int]@);
                    assert(w[p].zone@ == old_m[i as int]@);
                    assert(p == k as int);
                }
                if has_setpoint(&want[k], ov, hs) {
                    proof {
                        lemma_kept_elements(old_m, i as int, w, ov@, hs@, old_m[i as int]@);
                        if names_has(all@, old_m[i as int]@) {
                            let j = choose|j: int| 0 <= j < i && #[trigger] old_m[j]@ == old_m[i as int]@;
                        }
                    }
                    let ghost before = all@;
                    all.push(self.monitors[i].clone());
                    proof {
                        assert forall|a: int, b: int| 0 <= a < all@.len() && 0 <= b < all@.len()
                            && #[trigger] all@[a]@ == #[trigger] all@[b]@ implies a == b by {
                            if a < before.len() && b == before.len() {
                                assert(names_has(before, all@[b]@));
                            }
                            if b < before.len() && a == before.len() {
                                assert(names_has(before, all@[a]@));
                            }
                        }
                    }
                }
            }
            i = i + 1;
        }
        let ghost kept = all@;
        let kept_len = all.len();
        proof {
            assert(old_m.len() as int == self.monitors@.len());
        }
        let mut added: Vec<String> = Vec::new();
        let mut k: usize = 0;
        while k < want.len()
            invariant
                k <= w.len(),
                want@ == w,
                want_unique(w),
                want_in_bounds(w, ov@, hs@),
                names_unique(old_m),
                kept == kept_monitors(old_m, old_m.len() as int, w, ov@, hs@),
                kept_len == kept.len(),
                names_unique(kept),
                added@ == fresh_monitors(w, k as int, ov@, hs@, old_m),
                all@ == kept + added@,
                names_unique(all@),
            decreases w.len() - k,
        {
            let ghost z = w[k as int].zone@;
            proof {
                lemma_kept_elements(old_m, old_m.len() as int, w, ov@, hs@, z);
                assert(want_has(w, z));
                let p = want_pos(w, z);
                assert(w[p].zone@ == z);
                assert(p == k as int);
            }
            let present = find_name(&all, want[k].zone.as_str());
            let in_kept = match present {
                Some(j) => j < kept_len,
                None => false,
            };
            proof {
                if let Some(j) = present {
                    if j < kept.len() {
                        assert(names_has(kept, z));
                    } else {
                        // a zone already added is an earlier want entry, which is unique
                        lemma_fresh_elements(w, k as int, ov@, hs@, old_m, z);
                        assert(names_has(added@, z)) by {
                            assert(added@[j - kept.len()]@ == z);
                        }
                        let q = choose|q: int| 0 <= q < k && #[trigger] w[q].zone@ == z && needs_monitor(w[q], ov@, hs@, old_m);
                    }
                } else {
                    if names_has(kept, z) {
                        let j = choose|j: int| 0 <= j < kept.len() && #[trigger] kept[j]@ == z;
                        assert(all@[j]@ == z);
                    }
                }
            }
            if !in_kept {
                proof {
                    lemma_fresh_elements(w, k as int, ov@, hs@, old_m, z);
                    if names_has(all@, z) {
                        let j = choose|j: int| 0 <= j < all@.len() && #[trigger] all@[j]@ == z;
                        if j >= kept.len() {
                            assert(added@[j - kept.len()]@ == z);
                            assert(names_has(added@, z));
                            let q = choose|q: int| 0 <= q < k && #[trigger] w[q].zone@ == z && needs_monitor(w[q], ov@, hs@, old_m);
                        }
                    }
                }
                let ghost before = all@;
                let zone = want[k].zone.clone();
                added.push(want[k].zone.clone());
                all.push(zone);
                proof {
                    assert forall|a: int, b: int| 0 <= a < all@.len() && 0 <= b < all@.len()
                        && #[trigger] all@[a]@ == #[trigger] all@[b]@ implies a == b by {
                        if a < before.len() && b == before.len() {
                            assert(names_has(before, all@[b]@));
                        }
                        if b < before.len() && a == before.len() {
                            assert(names_has(before, all@[a]@));
                        }
                    }
                    assert(all@ =~= kept + added@);
                }
            }
            k = k + 1;
        }
        proof {
            assert forall|z: Seq<char>| #![trigger names_has(all@, z)] #![trigger want_has(w, z)]
                names_has(all@, z) <==> want_has(w, z) by {
                lemma_kept_elements(old_m, old_m.len() as int, w, ov@, hs@, z);
                lemma_fresh_elements(w, w.len() as int, ov@, hs@, old_m, z);
                if names_has(all@, z) {
                    let j = choose|j: int| 0 <= j < all@.len() && #[trigger] all@[j]@ == z;
                    if j < kept.len() {
                        assert(names_has(kept, z));
                    } else {
                        assert(added@[j - kept.len()]@ == z);
                        assert(names_has(added@, z));
                    }
                }
                if want_has(w, z) {
                    let p = want_pos(w, z);
                    assert(w[p].zone@ == z);
                    if needs_monitor(w[p], ov@, hs@, old_m) {
                        assert(names_has(added@, z));
                        let j = choose|j: int| 0 <= j < added@.len() && #[trigger] added@[j]@ == z;
                        assert(all@[kept.len() + j]@ == z);
                    } else {
                        let m = choose|m: int| 0 <= m < old_m.len() && #[trigger] old_m[m]@ == z;
                        assert(names_has(kept, z));
                        let j = choose|j: int| 0 <= j < kept.len() && #[trigger] kept[j]@ == z;
                        assert(all@[j]@ == z);
                    }
                }
            }
        }
        self.monitors = all;
        if added.len() > 0 {
            return Calculation::Deferred { added };
        }
        let remaining = proto_ts_to_delay(current.heating_override_until, now);
        let overridden = remaining.is_some();
        let mut wake_after: Option<u128> = remaining;
        let mut write = false;
        let mut decisions: Vec<(String, Decision)> = Vec::new();
        let ghost l = self.live_temp@;
        let ghost mem = self.config.live_temp_memory;
        let ghost spec_d = spec_decisions(w, ov@, hs@, l, now_i, mem, now as int, overridden);
        let mut k: usize = 0;
        while k < want.len()
            invariant
                k <= w.len(),
                want@ == w,
                want_in_bounds(w, ov@, hs@),
                representable(now as int),
                self.live_temp@ == l,
                live_unique(l),
                self.config.live_temp_memory == mem,
                spec_d == spec_decisions(w, ov@, hs@, l, now_i, mem, now as int, overridden),
                overridden == remaining is Some,
                remaining matches Some(x) ==> x > 0,
                decisions@ == spec_d.take(k as int),
                write == exists|j: int| 0 <= j < k && is_change(#[trigger] decisions@[j].1),
                wake_after matches Some(x) ==> {
                    &&& (exists|j: int| 0 <= j < k && wait_of(#[trigger] decisions@[j].1) == Some(x))
                        || remaining == Some(x)
                    &&& forall|j: int| 0 <= j < k ==> (wait_of(#[trigger] decisions@[j].1) matches Some(y) ==> x <= y)
                    &&& remaining matches Some(y) ==> x <= y
                },
                wake_after is None ==> {
                    &&& forall|j: int| 0 <= j < k ==> wait_of(#[trigger] decisions@[j].1) is None
                    &&& remaining is None
                },
            decreases w.len() - k,
        {
            let th = Thermostat {
                state: match want[k].state {
                    Some(i) => Some(&ov[i]),
                    None => None,
                },
                schedule: match want[k].schedule {
                    Some(j) => Some(&hs[j]),
                    None => None,
                },
            };
            let live = self.live_for(&want[k].zone, now_i);
            let d = th.decide(live, now, overridden);
            assert(d == spec_d[k as int].1);
            let ghost before = decisions@;
            match d {
                Decision::Wait(x) => {
                    if x > 0 {
                        wake_after = match wake_after {
                            Some(y) => if x < y { Some(x) } else { Some(y) },
                            None => Some(x),
                        };
                    }
                },
                _ => {},
            }
            match d {
                Decision::Disable | Decision::On(_) | Decision::Off(_) => {
                    write = true;
                },
                _ => {},
            }
            decisions.push((want[k].zone.clone(), d));
            proof {
                assert(decisions@ =~= spec_d.take(k + 1));
                assert(forall|j: int| 0 <= j < k ==> decisions@[j] == before[j]);
                if is_change(d) {
                    assert(is_change(decisions@[k as int].1));
                }
                if wait_of(d) is Some {
                    assert(wait_of(decisions@[k as int].1) == wait_of(d));
                }
            }
            k = k + 1;
        }
        proof {
            assert(spec_d.take(w.len() as int) =~= spec_d);
        }
        Calculation::Decided { decisions, heating_overridden: overridden, wake_after, write }
    }
}


/// The hold recorded for a decision: relay state `s`, until `d`, for the
/// schedule entry tagged `u` (a fresh hold with `hold` applied).
pub open spec fn held(s: bool, d: Option<Timestamp>, u: Option<u64>) -> Hysteresis {
    Hysteresis { state: Some(s), until: d, schedule_unique: u }
}

/// The hold that a decision to heat (`On`) or not (`Off`) records.
pub open spec fn hold_for(d: Decision, now: int, cfg: ThermostatSetArgs) -> Option<Hysteresis> {
    match d {
        Decision::On(u) => Some(held(true, spec_make_delay(now, cfg.hysteresis_on_hold_time as int), u)),
        Decision::Off(u) => Some(held(false, spec_make_delay(now, cfg.hysteresis_off_hold_time as int), u)),
        _ => None,
    }
}

/// What becomes of an override entry given the decision of its zone (or
/// none, when the zone's decision was already used by an earlier entry).
pub open spec fn rewrite_entry(
    e: SetPoint2,
    d: Option<Decision>,
    overridden: bool,
    now: int,
    cfg: ThermostatSetArgs,
) -> Option<SetPoint2> {
    match d {
        Some(Decision::Disable) => if e.setpoint is Some && overridden {
            Some(SetPoint2 { zone: e.zone, setpoint: e.setpoint, hysteresis: None })
        } else {
            None
        },
        Some(Decision::On(u)) => Some(SetPoint2 {
            zone: e.zone,
            setpoint: if overridden { e.setpoint } else { None },
            hysteresis: hold_for(Decision::On(u), now, cfg),
        }),
        Some(Decision::Off(u)) => Some(SetPoint2 {
            zone: e.zone,
            setpoint: if overridden { e.setpoint } else { None },
            hysteresis: hold_for(Decision::Off(u), now, cfg),
        }),
        _ => if overridden {
            Some(e)
        } else if e.hysteresis is Some {
            Some(SetPoint2 { zone: e.zone, setpoint: None, hysteresis: e.hysteresis })
        } else {
            None
        },
    }
}

/// Outside a heating override, an override entry whose zone has no
/// decision to act on (none, `Skip` or `Wait`) keeps its running hold
/// unchanged, its set point cleared.
pub proof fn lemma_running_hold_kept(e: SetPoint2, d: Option<Decision>, now: int, cfg: ThermostatSetArgs)
    requires
        e.hysteresis is Some,
        d is None || d == Some(Decision::Skip) || d matches Some(Decision::Wait(_)),
    ensures
        rewrite_entry(e, d, false, now, cfg) == Some(SetPoint2 { zone: e.zone, setpoint: None, hysteresis: e.hysteresis }),
{
}

/// `s` with `o` appended when present.
pub open spec fn push_opt<T>(s: Seq<T>, o: Option<T>) -> Seq<T> {
    match o {
        Some(x) => s.push(x),
        None => s,
    }
}

/// The position of the not yet used decision for zone `z`.
pub open spec fn pick(decs: Seq<(String, Decision)>, used: Seq<bool>, z: Seq<char>) -> Option<int> {
    if exists|k: int| 0 <= k < decs.len() && #[trigger] decs[k].0@ == z && !used[k] {
        Some(choose|k: int| 0 <= k < decs.len() && #[trigger] decs[k].0@ == z && !used[k])
    } else {
        None
    }
}

/// The first `n` override entries rewritten, and which decisions they used.
pub open spec fn rewrite_prefix(
    ov: Seq<SetPoint2>,
    n: int,
    decs: Seq<(String, Decision)>,
    overridden: bool,
    now: int,
    cfg: ThermostatSetArgs,
) -> (Seq<SetPoint2>, Seq<bool>)
    decreases n,
{
    if n <= 0 {
        (Seq::empty(), Seq::new(decs.len(), |k: int| false))
    } else {
        let (out, used) = rewrite_prefix(ov, n - 1, decs, overridden, now, cfg);
        let e = ov[n - 1];
        match e.zone {
            None => (out, used),
            Some(z) => match pick(decs, used, z@) {
                Some(k) => (push_opt(out, rewrite_entry(e, Some(decs[k].1), overridden, now, cfg)), used.update(k, true)),
                None => (push_opt(out, rewrite_entry(e, None, overridden, now, cfg)), used),
            },
        }
    }
}

/// New override entries for the first `n` decisions to heat or not whose
/// zone had no override entry.
pub open spec fn new_entries(
    decs: Seq<(String, Decision)>,
    used: Seq<bool>,
    n: int,
    now: int,
    cfg: ThermostatSetArgs,
) -> Seq<SetPoint2>
    decreases n,
{
    if n <= 0 {
        Seq::empty()
    } else {
        let prev = new_entries(decs, used, n - 1, now, cfg);
        if !used[n - 1] && (decs[n - 1].1 is On || decs[n - 1].1 is Off) {
            prev.push(SetPoint2 { zone: Some(decs[n - 1].0), setpoint: None, hysteresis: hold_for(decs[n - 1].1, now, cfg) })
        } else {
            prev
        }
    }
}

/// The override entries after the decisions are recorded.
pub open spec fn spec_apply_overrides(
    ov: Seq<SetPoint2>,
    decs: Seq<(String, Decision)>,
    overridden: bool,
    now: int,
    cfg: ThermostatSetArgs,
) -> Seq<SetPoint2> {
    let (out, used) = rewrite_prefix(ov, ov.len() as int, decs, overridden, now, cfg);
    out + new_entries(decs, used, decs.len() as int, now, cfg)
}

/// A decision to heat or not records a fresh hold on the entry: that relay
/// state, until the matching hold time from now, for the decision's
/// schedule entry; the entry's own set point stays only under a heating
/// override.
pub proof fn lemma_decision_recorded_as_hold(e: SetPoint2, on: bool, u: Option<u64>, overridden: bool, now: int, cfg: ThermostatSetArgs)
    ensures
        rewrite_entry(e, Some(if on { Decision::On(u) } else { Decision::Off(u) }), overridden, now, cfg) == Some(SetPoint2 {
            zone: e.zone,
            setpoint: if overridden { e.setpoint } else { None },
            hysteresis: Some(Hysteresis {
                state: Some(on),
                until: spec_make_delay(now, if on { cfg.hysteresis_on_hold_time as int } else { cfg.hysteresis_off_hold_time as int }),
                schedule_unique: u,
            }),
        }),
{
}

/// Under a heating override, an entry whose zone has no decision to act on
/// is kept as it is; a zone disabled for want of a reading keeps only its
/// own set point (and loses its hold), and outside an override it is
/// dropped.
pub proof fn lemma_entry_without_decision(e: SetPoint2, d: Option<Decision>, now: int, cfg: ThermostatSetArgs)
    ensures
        (d is None || d == Some(Decision::Skip) || d matches Some(Decision::Wait(_)))
            ==> rewrite_entry(e, d, true, now, cfg) == Some(e),
        d == Some(Decision::Disable) ==> rewrite_entry(e, d, false, now, cfg) is None,
        d == Some(Decision::Disable) ==> rewrite_entry(e, d, true, now, cfg) == (
            if e.setpoint is Some { Some(SetPoint2 { zone: e.zone, setpoint: e.setpoint, hysteresis: None }) } else { None }),
        (d is None || d == Some(Decision::Skip) || d matches Some(Decision::Wait(_))) && e.hysteresis is None
            ==> rewrite_entry(e, d, false, now, cfg) is None,
{
}

/// The entry as kept when nothing is decided for its zone outside a
/// heating override.
pub open spec fn kept_hold(e: SetPoint2) -> SetPoint2 {
    SetPoint2 { zone: e.zone, setpoint: None, hysteresis: e.hysteresis }
}

/// No decision names zone `z` but `Skip` or `Wait`.
pub open spec fn nothing_decided(decs: Seq<(String, Decision)>, z: Seq<char>) -> bool {
    forall|k: int| 0 <= k < decs.len() && #[trigger] decs[k].0@ == z ==> decs[k].1 is Skip || decs[k].1 is Wait
}

proof fn lemma_prefix_keeps_hold(
    ov: Seq<SetPoint2>,
    i: int,
    n: int,
    decs: Seq<(String, Decision)>,
    now: int,
    cfg: ThermostatSetArgs,
)
    requires
        0 <= i < n <= ov.len(),
        ov[i].zone matches Some(z) && nothing_decided(decs, z@),
        ov[i].hysteresis is Some,
    ensures
        rewrite_prefix(ov, n, decs, false, now, cfg).0.contains(kept_hold(ov[i])),
        rewrite_prefix(ov, n, decs, false, now, cfg).1.len() == decs.len(),
    decreases n,
{
    let (out, used) = rewrite_prefix(ov, n - 1, decs, false, now, cfg);
    if n - 1 > i {
        lemma_prefix_keeps_hold(ov, i, n - 1, decs, now, cfg);
        let e = ov[n - 1];
        let r = rewrite_prefix(ov, n, decs, false, now, cfg).0;
        assert(out.contains(kept_hold(ov[i])));
        let j = choose|j: int| 0 <= j < out.len() && out[j] == kept_hold(ov[i]);
        assert(r[j] == kept_hold(ov[i]));
    } else {
        lemma_prefix_used_len(ov, n - 1, decs, now, cfg);
        let z = ov[i].zone.unwrap();
        match pick(decs, used, z@) {
            Some(k) => {
                let c = choose|c: int| 0 <= c < decs.len() && #[trigger] decs[c].0@ == z@ && !used[c];
                assert(decs[c].0@ == z@);
                lemma_running_hold_kept(ov[i], Some(decs[k].1), now, cfg);
            },
            None => {
                lemma_running_hold_kept(ov[i], None, now, cfg);
            },
        }
        let r = rewrite_prefix(ov, n, decs, false, now, cfg).0;
        assert(r[out.len() as int] == kept_hold(ov[i]));
    }
}

proof fn lemma_prefix_used_len(ov: Seq<SetPoint2>, n: int, decs: Seq<(String, Decision)>, now: int, cfg: ThermostatSetArgs)
    ensures
        rewrite_prefix(ov, n, decs, false, now, cfg).1.len() == decs.len(),
    decreases n,
{
    if n > 0 {
        lemma_prefix_used_len(ov, n - 1, decs, now, cfg);
    }
}

/// Outside a heating override, a zone with a running hold whose decision is
/// `Skip`, `Wait` or absent keeps that hold in the recorded overrides, its
/// set point cleared.
pub proof fn lemma_apply_keeps_running_holds(
    ov: Seq<SetPoint2>,
    i: int,
    decs: Seq<(String, Decision)>,
    now: int,
    cfg: ThermostatSetArgs,
)
    requires
        0 <= i < ov.len(),
        ov[i].zone matches Some(z) && nothing_decided(decs, z@),
        ov[i].hysteresis is Some,
    ensures
        spec_apply_overrides(ov, decs, false, now, cfg).contains(kept_hold(ov[i])),
{
    lemma_prefix_keeps_hold(ov, i, ov.len() as int, decs, now, cfg);
    let (out, used) = rewrite_prefix(ov, ov.len() as int, decs, false, now, cfg);
    let j = choose|j: int| 0 <= j < out.len() && out[j] == kept_hold(ov[i]);
    let all = spec_apply_overrides(ov, decs, false, now, cfg);
    assert(all[j] == kept_hold(ov[i]));
}

/// The decisions name distinct zones.
pub open spec fn decisions_unique(decs: Seq<(String, Decision)>) -> bool {
    forall|a: int, b: int| 0 <= a < decs.len() && 0 <= b < decs.len() && #[trigger] decs[a].0@ == #[trigger] decs[b].0@ ==> a == b
}

/// A fresh hold, as `hold` leaves an empty hysteresis.
fn new_hold(s: bool, d: Option<Timestamp>, unique: Option<u64>) -> (h: Hysteresis)
    ensures
        h == held(s, d, unique),
{
    let mut h = Hysteresis { state: None, until: None, schedule_unique: None };
    hold(&mut h, s, d, unique);
    h
}

fn rewrite_entry_exec(
    e: &SetPoint2,
    d: Option<Decision>,
    overridden: bool,
    now: i128,
    cfg: &ThermostatSetArgs,
) -> (r: Option<SetPoint2>)
    requires
        representable(now as int),
        cfg.wf(),
    ensures
        r == rewrite_entry(*e, d, overridden, now as int, *cfg),
{
    match d {
        Some(Decision::Disable) => {
            if e.setpoint.is_some() && overridden {
                let zone = match &e.zone {
                    Some(z) => Some(z.clone()),
                    None => None,
                };
                Some(SetPoint2 { zone, setpoint: e.setpoint, hysteresis: None })
            } else {
                None
            }
        },
        Some(Decision::On(u)) => {
            let mut o = e.clone();
            if !overridden {
                o.setpoint = None;
            }
            o.hysteresis = Some(new_hold(true, make_delay(now, cfg.hysteresis_on_hold_time), u));
            Some(o)
        },
        Some(Decision::Off(u)) => {
            let mut o = e.clone();
            if !overridden {
                o.setpoint = None;
            }
            o.hysteresis = Some(new_hold(false, make_delay(now, cfg.hysteresis_off_hold_time), u));
            Some(o)
        },
        _ => {
            let mut o = e.clone();
            if !overridden {
                o.setpoint = None;
                if o.hysteresis.is_some() {
                    Some(o)
                } else {
                    None
                }
            } else {
                Some(o)
            }
        },
    }
}

/// Position of the decision for zone `z`, if any.
fn find_decision(decs: &Vec<(String, Decision)>, z: &String) -> (r: Option<usize>)
    ensures
        r matches Some(k) ==> k < decs@.len() && decs@[k as int].0@ == z@,
        r is None ==> forall|k: int| 0 <= k < decs@.len() ==> (#[trigger] decs@[k]).0@ != z@,
{
    let mut k: usize = 0;
    while k < decs.len()
        invariant
            k <= decs@.len(),
            forall|a: int| 0 <= a < k ==> (#[trigger] decs@[a]).0@ != z@,
        decreases decs@.len() - k,
    {
        if decs[k].0 == *z {
            return Some(k);
        }
        k = k + 1;
    }
    None
}

/// Records the decisions in the persistent state: every override entry is
/// rewritten according to its zone's decision, an entry is added for every
/// decision to heat or not whose zone had none, and, when no heating
/// override is in force, the override's end is cleared.
pub fn apply_decisions(
    locked: &mut crate::pb::PersistentState,
    decisions: &Vec<(String, Decision)>,
    heating_overridden: bool,
    now: i128,
    config: &ThermostatSetArgs,
)
    requires
        decisions_unique(decisions@),
        representable(now as int),
        config.wf(),
    ensures
        final(locked).heating_override@ == spec_apply_overrides(
            old(locked).heating_override@, decisions@, heating_overridden, now as int, *config),
        zones_distinct(old(locked).heating_override@) ==> zones_distinct(final(locked).heating_override@),
        final(locked).heating_override_until == (
            if heating_overridden { old(locked).heating_override_until } else { None }),
        final(locked).garden_light_until == old(locked).garden_light_until,
        final(locked).underfloor_heating_until == old(locked).underfloor_heating_until,
        final(locked).hot_water_override_until == old(locked).hot_water_override_until,
{
    let ghost ov = locked.heating_override@;
    let ghost decs = decisions@;
    let n = decisions.len();
    let mut used: Vec<bool> = Vec::new();
    let mut j: usize = 0;
    while j < n
        invariant
            j <= n,
            n == decs.len(),
            used@ == Seq::new(j as nat, |k: int| false),
        decreases n - j,
    {
        used.push(false);
        proof {
            assert(used@ =~= Seq::new((j + 1) as nat, |k: int| false));
        }
        j = j + 1;
    }
    let mut out: Vec<SetPoint2> = Vec::new();
    let mut i: usize = 0;
    while i < locked.heating_override.len()
        invariant
            i <= ov.len(),
            locked.heating_override@ == ov,
            decisions@ == decs,
            decisions_unique(decs),
            n == decs.len(),
            representable(now as int),
            config.wf(),
            (out@, used@) == rewrite_prefix(ov, i as int, decs, heating_overridden, now as int, *config),
            used@.len() == n,
        decreases ov.len() - i,
    {
        let e = &locked.heating_override[i];
        let ghost prev_used = used@;
        match &e.zone {
            None => {},
            Some(z) => {
                let found = find_decision(decisions, z);
                let d: Option<Decision> = match found {
                    Some(k) => {
                        if !used[k] {
                            proof {
                                let c = choose|c: int| 0 <= c < decs.len() && #[trigger] decs[c].0@ == z@ && !prev_used[c];
                                assert(decs[c].0@ == decs[k as int].0@);
                                assert(pick(decs, prev_used, z@) == Some(k as int));
                            }
                            used.set(k, true);
                            Some(decisions[k].1)
                        } else {
                            proof {
                                if exists|c: int| 0 <= c < decs.len() && #[trigger] decs[c].0@ == z@ && !prev_used[c] {
                                    let c = choose|c: int| 0 <= c < decs.len() && #[trigger] decs[c].0@ == z@ && !prev_used[c];
                                    assert(decs[c].0@ == decs[k as int].0@);
                                }
                            }
                            None
                        }
                    },
                    None => None,
                };
                if let Some(x) = rewrite_entry_exec(e, d, heating_overridden, now, config) {
                    out.push(x);
                }
            },
        }
        i = i + 1;
    }
    let ghost used_all = used@;
    let ghost rewritten = out@;
    let mut k: usize = 0;
    while k < n
        invariant
            k <= n,
            n == decs.len(),
            decisions@ == decs,
            used@ == used_all,
            used_all.len() == n,
            representable(now as int),
            config.wf(),
            out@ == rewritten + new_entries(decs, used_all, k as int, now as int, *config),
        decreases n - k,
    {
        if !used[k] {
            match decisions[k].1 {
                Decision::On(u) => {
                    let h = new_hold(true, make_delay(now, config.hysteresis_on_hold_time), u);
                    out.push(SetPoint2 { zone: Some(decisions[k].0.clone()), setpoint: None, hysteresis: Some(h) });
                },
                Decision::Off(u) => {
                    let h = new_hold(false, make_delay(now, config.hysteresis_off_hold_time), u);
                    out.push(SetPoint2 { zone: Some(decisions[k].0.clone()), setpoint: None, hysteresis: Some(h) });
                },
                _ => {},
            }
        }
        proof {
            assert(out@ =~= rewritten + new_entries(decs, used_all, k + 1, now as int, *config));
        }
        k = k + 1;
    }
    proof {
        if zones_distinct(ov) {
            lemma_zones_stay_distinct(ov, decs, heating_overridden, now as int, *config);
        }
    }
    if !heating_overridden {
        locked.heating_override_until = None;
    }
    locked.heating_override = out;
}


/// Entry `e` is of the zone of decision `dec` and holds what it decided.
pub open spec fn records(e: SetPoint2, dec: (String, Decision), now: int, cfg: ThermostatSetArgs) -> bool {
    &&& e.zone matches Some(zz) && zz@ == dec.0@
    &&& e.hysteresis == hold_for(dec.1, now, cfg)
}

/// Decision `dec` (for its zone) is recorded by some entry of `out`.
pub open spec fn recorded(out: Seq<SetPoint2>, dec: (String, Decision), now: int, cfg: ThermostatSetArgs) -> bool {
    exists|j: int| 0 <= j < out.len() && #[trigger] records(out[j], dec, now, cfg)
}

proof fn lemma_rewrite_records(
    ov: Seq<SetPoint2>,
    n: int,
    decs: Seq<(String, Decision)>,
    overridden: bool,
    now: int,
    cfg: ThermostatSetArgs,
)
    requires
        0 <= n <= ov.len(),
    ensures
        rewrite_prefix(ov, n, decs, overridden, now, cfg).1.len() == decs.len(),
        forall|k: int| 0 <= k < decs.len() && (#[trigger] rewrite_prefix(ov, n, decs, overridden, now, cfg).1[k])
            && (decs[k].1 is On || decs[k].1 is Off)
            ==> recorded(rewrite_prefix(ov, n, decs, overridden, now, cfg).0, decs[k], now, cfg),
        !overridden ==> forall|j: int| 0 <= j < rewrite_prefix(ov, n, decs, overridden, now, cfg).0.len()
            ==> (#[trigger] rewrite_prefix(ov, n, decs, overridden, now, cfg).0[j]).setpoint is None,
    decreases n,
{
    if n > 0 {
        lemma_rewrite_records(ov, n - 1, decs, overridden, now, cfg);
        let (out, used) = rewrite_prefix(ov, n - 1, decs, overridden, now, cfg);
        let (out2, used2) = rewrite_prefix(ov, n, decs, overridden, now, cfg);
        assert forall|k: int| 0 <= k < decs.len() && #[trigger] used2[k] && (decs[k].1 is On || decs[k].1 is Off)
            implies recorded(out2, decs[k], now, cfg) by {
            if used[k] {
                let j = choose|j: int| 0 <= j < out.len() && #[trigger] records(out[j], decs[k], now, cfg);
                assert(out2[j] == out[j]);
                assert(records(out2[j], decs[k], now, cfg));
            } else {
                let e = ov[n - 1];
                let z = e.zone.unwrap();
                let p = pick(decs, used, z@).unwrap();
                assert(p == k);
                assert(records(out2[out2.len() - 1], decs[k], now, cfg));
            }
        }
    }
}

proof fn lemma_new_entries_record(
    decs: Seq<(String, Decision)>,
    used: Seq<bool>,
    n: int,
    now: int,
    cfg: ThermostatSetArgs,
)
    requires
        0 <= n <= decs.len(),
        used.len() == decs.len(),
    ensures
        forall|k: int| 0 <= k < n && !(#[trigger] used[k]) && (decs[k].1 is On || decs[k].1 is Off)
            ==> recorded(new_entries(decs, used, n, now, cfg), decs[k], now, cfg),
        forall|j: int| 0 <= j < new_entries(decs, used, n, now, cfg).len()
            ==> (#[trigger] new_entries(decs, used, n, now, cfg)[j]).setpoint is None,
    decreases n,
{
    if n > 0 {
        lemma_new_entries_record(decs, used, n - 1, now, cfg);
        let prev = new_entries(decs, used, n - 1, now, cfg);
        let cur = new_entries(decs, used, n, now, cfg);
        assert forall|k: int| 0 <= k < n && !(#[trigger] used[k]) && (decs[k].1 is On || decs[k].1 is Off)
            implies recorded(cur, decs[k], now, cfg) by {
            if k < n - 1 {
                let j = choose|j: int| 0 <= j < prev.len() && #[trigger] records(prev[j], decs[k], now, cfg);
                assert(cur[j] == prev[j]);
                assert(records(cur[j], decs[k], now, cfg));
            } else {
                assert(records(cur[cur.len() - 1], decs[k], now, cfg));
            }
        }
    }
}

/// Recording decisions keeps every decision to heat or not heat: each such
/// decision is held by an override entry of its zone.
pub proof fn lemma_every_call_recorded(
    ov: Seq<SetPoint2>,
    decs: Seq<(String, Decision)>,
    overridden: bool,
    now: int,
    cfg: ThermostatSetArgs,
    k: int,
)
    requires
        0 <= k < decs.len(),
        decs[k].1 is On || decs[k].1 is Off,
    ensures
        recorded(spec_apply_overrides(ov, decs, overridden, now, cfg), decs[k], now, cfg),
{
    lemma_rewrite_records(ov, ov.len() as int, decs, overridden, now, cfg);
    let (out, used) = rewrite_prefix(ov, ov.len() as int, decs, overridden, now, cfg);
    let res = spec_apply_overrides(ov, decs, overridden, now, cfg);
    if used[k] {
        let j = choose|j: int| 0 <= j < out.len() && #[trigger] records(out[j], decs[k], now, cfg);
        assert(res[j] == out[j]);
        assert(records(res[j], decs[k], now, cfg));
    } else {
        lemma_new_entries_record(decs, used, decs.len() as int, now, cfg);
        let ne = new_entries(decs, used, decs.len() as int, now, cfg);
        let j = choose|j: int| 0 <= j < ne.len() && #[trigger] records(ne[j], decs[k], now, cfg);
        assert(res[out.len() + j] == ne[j]);
        assert(records(res[out.len() + j], decs[k], now, cfg));
    }
}

/// Entry `e` is for zone `z`.
pub open spec fn zone_is(e: SetPoint2, z: Seq<char>) -> bool {
    match e.zone {
        Some(y) => y@ == z,
        None => false,
    }
}

/// No two entries of `s` are for the same zone.
pub open spec fn zones_distinct(s: Seq<SetPoint2>) -> bool {
    forall|a: int, b: int| 0 <= a < b < s.len() && (#[trigger] s[a]).zone is Some && (#[trigger] s[b]).zone is Some
        ==> s[a].zone.unwrap()@ != s[b].zone.unwrap()@
}

proof fn lemma_rewrite_zones(
    ov: Seq<SetPoint2>,
    n: int,
    decs: Seq<(String, Decision)>,
    overridden: bool,
    now: int,
    cfg: ThermostatSetArgs,
)
    requires
        0 <= n <= ov.len(),
        zones_distinct(ov),
        decisions_unique(decs),
    ensures
        ({
            let r = rewrite_prefix(ov, n, decs, overridden, now, cfg);
            &&& r.1.len() == decs.len()
            &&& forall|j: int| 0 <= j < r.0.len() ==> (#[trigger] r.0[j]).zone is Some
                && exists|i: int| 0 <= i < n && #[trigger] zone_is(ov[i], r.0[j].zone.unwrap()@)
            &&& zones_distinct(r.0)
            &&& forall|i: int, k: int| 0 <= i < n && 0 <= k < decs.len() && #[trigger] zone_is(ov[i], decs[k].0@)
                ==> #[trigger] r.1[k]
        }),
    decreases n,
{
    if n > 0 {
        lemma_rewrite_zones(ov, n - 1, decs, overridden, now, cfg);
        let (out, used) = rewrite_prefix(ov, n - 1, decs, overridden, now, cfg);
        let (out2, used2) = rewrite_prefix(ov, n, decs, overridden, now, cfg);
        let e = ov[n - 1];
        if let Some(z) = e.zone {
            let d = match pick(decs, used, z@) {
                Some(k) => Some(decs[k].1),
                None => None,
            };
            let o = rewrite_entry(e, d, overridden, now, cfg);
            assert(o matches Some(x) ==> x.zone == e.zone);
            assert(out2 == push_opt(out, o));
            assert forall|j: int| 0 <= j < out2.len() implies (#[trigger] out2[j]).zone is Some
                && exists|i: int| 0 <= i < n && #[trigger] zone_is(ov[i], out2[j].zone.unwrap()@) by {
                if j < out.len() {
                    assert(out2[j] == out[j]);
                } else {
                    assert(zone_is(ov[n - 1], out2[j].zone.unwrap()@));
                }
            }
            assert forall|a: int, b: int| 0 <= a < b < out2.len() && (#[trigger] out2[a]).zone is Some && (#[trigger] out2[b]).zone is Some
                implies out2[a].zone.unwrap()@ != out2[b].zone.unwrap()@ by {
                assert(out2[a] == out[a]);
                if b < out.len() {
                    assert(out2[b] == out[b]);
                } else {
                    let i = choose|i: int| 0 <= i < n - 1 && #[trigger] zone_is(ov[i], out[a].zone.unwrap()@);
                    assert(ov[i].zone is Some && ov[n - 1].zone is Some);
                }
            }
            assert forall|i: int, k: int| 0 <= i < n && 0 <= k < decs.len() && #[trigger] zone_is(ov[i], decs[k].0@)
                implies #[trigger] used2[k] by {
                if i < n - 1 {
                    assert(used[k]);
                } else {
                    match pick(decs, used, z@) {
                        Some(p) => {
                            assert(decs[p].0@ == decs[k].0@);
                        },
                        None => {},
                    }
                }
            }
        }
    }
}

proof fn lemma_new_entries_zones(decs: Seq<(String, Decision)>, used: Seq<bool>, n: int, now: int, cfg: ThermostatSetArgs)
    requires
        0 <= n <= decs.len(),
        used.len() == decs.len(),
        decisions_unique(decs),
    ensures
        ({
            let ne = new_entries(decs, used, n, now, cfg);
            &&& forall|j: int| 0 <= j < ne.len() ==> (#[trigger] ne[j]).zone is Some
                && exists|k: int| 0 <= k < n && !used[k] && #[trigger] decs[k].0@ == ne[j].zone.unwrap()@
            &&& zones_distinct(ne)
        }),
    decreases n,
{
    if n > 0 {
        lemma_new_entries_zones(decs, used, n - 1, now, cfg);
        let prev = new_entries(decs, used, n - 1, now, cfg);
        let ne = new_entries(decs, used, n, now, cfg);
        assert forall|j: int| 0 <= j < ne.len() implies (#[trigger] ne[j]).zone is Some
            && exists|k: int| 0 <= k < n && !used[k] && #[trigger] decs[k].0@ == ne[j].zone.unwrap()@ by {
            if j < prev.len() {
                assert(ne[j] == prev[j]);
            } else {
                assert(decs[n - 1].0@ == ne[j].zone.unwrap()@);
            }
        }
        assert forall|a: int, b: int| 0 <= a < b < ne.len() && (#[trigger] ne[a]).zone is Some && (#[trigger] ne[b]).zone is Some
            implies ne[a].zone.unwrap()@ != ne[b].zone.unwrap()@ by {
            assert(ne[a] == prev[a]);
            if b < prev.len() {
                assert(ne[b] == prev[b]);
            } else {
                let k = choose|k: int| 0 <= k < n - 1 && !used[k] && #[trigger] decs[k].0@ == prev[a].zone.unwrap()@;
                assert(ne[b].zone.unwrap()@ == decs[n - 1].0@);
            }
        }
    }
}

/// Recording decisions for distinct zones keeps the override entries'
/// zones distinct: an entry of a zone is rewritten in place, and an entry
/// is added only for a zone that had none.
pub proof fn lemma_zones_stay_distinct(
    ov: Seq<SetPoint2>,
    decs: Seq<(String, Decision)>,
    overridden: bool,
    now: int,
    cfg: ThermostatSetArgs,
)
    requires
        zones_distinct(ov),
        decisions_unique(decs),
    ensures
        zones_distinct(spec_apply_overrides(ov, decs, overridden, now, cfg)),
{
    lemma_rewrite_zones(ov, ov.len() as int, decs, overridden, now, cfg);
    let (out, used) = rewrite_prefix(ov, ov.len() as int, decs, overridden, now, cfg);
    lemma_new_entries_zones(decs, used, decs.len() as int, now, cfg);
    let ne = new_entries(decs, used, decs.len() as int, now, cfg);
    let res = spec_apply_overrides(ov, decs, overridden, now, cfg);
    assert(res == out + ne);
    assert forall|a: int, b: int| 0 <= a < b < res.len() && (#[trigger] res[a]).zone is Some && (#[trigger] res[b]).zone is Some
        implies res[a].zone.unwrap()@ != res[b].zone.unwrap()@ by {
        if b < out.len() {
            assert(res[a] == out[a] && res[b] == out[b]);
        } else if a >= out.len() {
            assert(res[a] == ne[a - out.len()] && res[b] == ne[b - out.len()]);
        } else {
            assert(res[a] == out[a] && res[b] == ne[b - out.len()]);
            let i = choose|i: int| 0 <= i < ov.len() && #[trigger] zone_is(ov[i], out[a].zone.unwrap()@);
            let k = choose|k: int| 0 <= k < decs.len() && !used[k] && #[trigger] decs[k].0@ == ne[b - out.len()].zone.unwrap()@;
            if res[a].zone.unwrap()@ == res[b].zone.unwrap()@ {
                assert(zone_is(ov[i], decs[k].0@));
                assert(used[k]);
            }
        }
    }
}

/// When no heating override is in force, recording decisions leaves no
/// override set point behind.
pub proof fn lemma_no_override_no_setpoints(
    ov: Seq<SetPoint2>,
    decs: Seq<(String, Decision)>,
    now: int,
    cfg: ThermostatSetArgs,
)
    ensures
        forall|j: int| 0 <= j < spec_apply_overrides(ov, decs, false, now, cfg).len()
            ==> (#[trigger] spec_apply_overrides(ov, decs, false, now, cfg)[j]).setpoint is None,
{
    lemma_rewrite_records(ov, ov.len() as int, decs, false, now, cfg);
    let (out, used) = rewrite_prefix(ov, ov.len() as int, decs, false, now, cfg);
    lemma_new_entries_record(decs, used, decs.len() as int, now, cfg);
    let res = spec_apply_overrides(ov, decs, false, now, cfg);
    assert forall|j: int| 0 <= j < res.len() implies (#[trigger] res[j]).setpoint is None by {
        if j < out.len() {
            assert(res[j] == out[j]);
        } else {
            assert(res[j] == new_entries(decs, used, decs.len() as int, now, cfg)[j - out.len()]);
        }
    }
}


/// The readings as a map from zone to temperature and arrival instant.
pub open spec fn live_map(l: Seq<LiveTemp>) -> Map<Seq<char>, (u64, u128)> {
    Map::new(|z: Seq<char>| live_has(l, z), |z: Seq<char>| (l[live_pos(l, z)].temperature, l[live_pos(l, z)].when))
}

proof fn lemma_live_pos(l: Seq<LiveTemp>, k: int)
    requires
        live_unique(l),
        0 <= k < l.len(),
    ensures
        live_has(l, l[k].zone@),
        live_pos(l, l[k].zone@) == k,
{
    let z = l[k].zone@;
    assert(live_has(l, z));
    let p = live_pos(l, z);
    assert(l[p].zone@ == z);
}

/// Position of the reading of zone `z`, if any.
fn find_live(l: &Vec<LiveTemp>, z: &String) -> (r: Option<usize>)
    ensures
        r matches Some(k) ==> k < l@.len() && l@[k as int].zone@ == z@,
        r is None ==> !live_has(l@, z@),
{
    let mut k: usize = 0;
    while k < l.len()
        invariant
            k <= l@.len(),
            forall|a: int| 0 <= a < k ==> (#[trigger] l@[a]).zone@ != z@,
        decreases l@.len() - k,
    {
        if l[k].zone == *z {
            return Some(k);
        }
        k = k + 1;
    }
    None
}

impl ThermostatSet {
    /// A report arrived on the climate subscription of `zone`: a climate
    /// reading replaces the zone's reading, a climate report without
    /// temperature forgets it, and any other report changes nothing.
    pub fn on_monitor_message(&mut self, zone: &String, msg: &crate::parse::Message, now_i: u128)
        requires
            old(self).wf(),
        ensures
            final(self).wf(),
            final(self).config == old(self).config,
            final(self).monitors == old(self).monitors,
            live_map(final(self).live_temp@) == (match msg {
                crate::parse::Message::Climate(c) => match c.temperature {
                    Some(t) => live_map(old(self).live_temp@).insert(zone@, (t, now_i)),
                    None => live_map(old(self).live_temp@).remove(zone@),
                },
                _ => live_map(old(self).live_temp@),
            }),
    {
        let ghost old_l = self.live_temp@;
        if let crate::parse::Message::Climate(c) = msg {
            let found = find_live(&self.live_temp, zone);
            match c.temperature {
                Some(t) => {
                    match found {
                        Some(k) => {
                            proof {
                                lemma_live_pos(old_l, k as int);
                            }
                            self.live_temp.set(k, LiveTemp { zone: zone.clone(), temperature: t, when: now_i });
                            proof {
                                let l = self.live_temp@;
                                assert forall|a: int, b: int| 0 <= a < l.len() && 0 <= b < l.len()
                                    && #[trigger] l[a].zone@ == #[trigger] l[b].zone@ implies a == b by {
                                    assert(l[a].zone@ == old_l[a].zone@);
                                    assert(l[b].zone@ == old_l[b].zone@);
                                }
                                assert forall|z: Seq<char>| live_has(l, z) <==> live_has(old_l, z) by {
                                    if live_has(l, z) {
                                        let j = choose|j: int| 0 <= j < l.len() && #[trigger] l[j].zone@ == z;
                                        assert(old_l[j].zone@ == z);
                                    }
                                    if live_has(old_l, z) {
                                        let j = choose|j: int| 0 <= j < old_l.len() && #[trigger] old_l[j].zone@ == z;
                                        assert(l[j].zone@ == z);
                                    }
                                }
                                assert forall|z: Seq<char>| live_has(l, z) implies live_pos(l, z) == live_pos(old_l, z) by {
                                    let p = live_pos(l, z);
                                    let q = live_pos(old_l, z);
                                    assert(l[p].zone@ == z);
                                    assert(old_l[q].zone@ == z);
                                    assert(l[q].zone@ == z);
                                }
                                assert(live_map(l) =~= live_map(old_l).insert(zone@, (t, now_i)));
                            }
                        },
                        None => {
                            self.live_temp.push(LiveTemp { zone: zone.clone(), temperature: t, when: now_i });
                            proof {
                                let l = self.live_temp@;
                                assert forall|a: int, b: int| 0 <= a < l.len() && 0 <= b < l.len()
                                    && #[trigger] l[a].zone@ == #[trigger] l[b].zone@ implies a == b by {
                                    if a < old_l.len() && b < old_l.len() {
                                        assert(l[a] == old_l[a]);
                                        assert(l[b] == old_l[b]);
                                    } else if a < old_l.len() {
                                        assert(l[a] == old_l[a]);
                                        assert(old_l[a].zone@ == zone@);
                                    } else if b < old_l.len() {
                                        assert(l[b] == old_l[b]);
                                        assert(old_l[b].zone@ == zone@);
                                    }
                                }
                                assert forall|z: Seq<char>| live_has(l, z) <==> (live_has(old_l, z) || z == zone@) by {
                                    if live_has(l, z) {
                                        let j = choose|j: int| 0 <= j < l.len() && #[trigger] l[j].zone@ == z;
                                        if j < old_l.len() {
                                            assert(old_l[j].zone@ == z);
                                        }
                                    }
                                    if live_has(old_l, z) {
                                        let j = choose|j: int| 0 <= j < old_l.len() && #[trigger] old_l[j].zone@ == z;
                                        assert(l[j].zone@ == z);
                                    }
                                    if z == zone@ {
                                        assert(l[old_l.len() as int].zone@ == z);
                                    }
                                }
                                assert forall|z: Seq<char>| live_has(old_l, z) implies live_pos(l, z) == live_pos(old_l, z) by {
                                    let p = live_pos(l, z);
                                    let q = live_pos(old_l, z);
                                    assert(old_l[q].zone@ == z);
                                    assert(l[q].zone@ == z);
                                    assert(l[p].zone@ == z);
                                }
                                lemma_live_pos(l, old_l.len() as int);
                                assert(live_map(l) =~= live_map(old_l).insert(zone@, (t, now_i)));
                            }
                        },
                    }
                },
                None => {
                    match found {
                        Some(k) => {
                            proof {
                                lemma_live_pos(old_l, k as int);
                            }
                            self.live_temp.remove(k);
                            proof {
                                let l = self.live_temp@;
                                assert(forall|j: int| 0 <= j < k ==> l[j] == old_l[j]);
                                assert(forall|j: int| k <= j < l.len() ==> l[j] == old_l[j + 1]);
                                assert forall|a: int, b: int| 0 <= a < l.len() && 0 <= b < l.len()
                                    && #[trigger] l[a].zone@ == #[trigger] l[b].zone@ implies a == b by {
                                    let a2 = if a < k { a } else { a + 1 };
                                    let b2 = if b < k { b } else { b + 1 };
                                    assert(l[a] == old_l[a2]);
                                    assert(l[b] == old_l[b2]);
                                    assert(old_l[a2].zone@ == old_l[b2].zone@);
                                }
                                assert forall|z: Seq<char>| live_has(l, z) <==> (live_has(old_l, z) && z != zone@) by {
                                    if live_has(l, z) {
                                        let j = choose|j: int| 0 <= j < l.len() && #[trigger] l[j].zone@ == z;
                                        let j2 = if j < k { j } else { j + 1 };
                                        assert(old_l[j2].zone@ == z);
                                        assert(old_l[k as int].zone@ == zone@);
                                    }
                                    if live_has(old_l, z) && z != zone@ {
                                        let j = choose|j: int| 0 <= j < old_l.len() && #[trigger] old_l[j].zone@ == z;
                                        if j < k {
                                            assert(l[j].zone@ == z);
                                        } else {
                                            assert(j != k);
                                            assert(l[j - 1].zone@ == z);
                                        }
                                    }
                                }
                                assert forall|z: Seq<char>| live_has(l, z) implies
                                    l[live_pos(l, z)] == old_l[live_pos(old_l, z)] by {
                                    let p = live_pos(l, z);
                                    assert(l[p].zone@ == z);
                                    let p2 = if p < k { p } else { p + 1 };
                                    assert(l[p] == old_l[p2]);
                                    let q = live_pos(old_l, z);
                                    assert(old_l[q].zone@ == z);
                                    assert(old_l[p2].zone@ == z);
                                }
                                assert(live_map(l) =~= live_map(old_l).remove(zone@));
                            }
                        },
                        None => {
                            proof {
                                assert(!live_has(old_l, zone@));
                                assert(live_map(old_l) =~= live_map(old_l).remove(zone@));
                            }
                        },
                    }
                },
            }
        }
    }

    /// Forgets the readings that are no longer younger than the configured
    /// memory.
    pub fn forget_stale(&mut self, now_i: u128)
        requires
            old(self).wf(),
        ensures
            final(self).wf(),
            final(self).config == old(self).config,
            final(self).monitors == old(self).monitors,
            live_map(final(self).live_temp@) == live_map(old(self).live_temp@).restrict(
                Set::new(|z: Seq<char>| live_has(old(self).live_temp@, z)
                    && elapsed(now_i, live_map(old(self).live_temp@)[z].1) < old(self).config.live_temp_memory)),
    {
        let ghost old_l = self.live_temp@;
        let mem = self.config.live_temp_memory;
        let mut kept: Vec<LiveTemp> = Vec::new();
        let mut i: usize = 0;
        while i < self.live_temp.len()
            invariant
                i <= old_l.len(),
                self.live_temp@ == old_l,
                live_unique(old_l),
                mem == self.config.live_temp_memory,
                live_unique(kept@),
                forall|z: Seq<char>| #[trigger] live_has(kept@, z) <==> exists|j: int| 0 <= j < i && #[trigger] old_l[j].zone@ == z
                    && elapsed(now_i, old_l[j].when) < mem,
                forall|a: int| 0 <= a < kept@.len() ==> exists|j: int| 0 <= j < i && #[trigger] old_l[j] == #[trigger] kept@[a],
            decreases old_l.len() - i,
        {
            let when = self.live_temp[i].when;
            let age: u128 = if now_i >= when { now_i - when } else { 0 };
            if age < mem {
                let ghost before = kept@;
                let e = LiveTemp { zone: self.live_temp[i].zone.clone(), temperature: self.live_temp[i].temperature, when };
                kept.push(e);
                proof {
                    let l = kept@;
                    assert(l[before.len() as int] == old_l[i as int]);
                    assert forall|a: int, b: int| 0 <= a < l.len() && 0 <= b < l.len()
                        && #[trigger] l[a].zone@ == #[trigger] l[b].zone@ implies a == b by {
                        if a < before.len() && b == before.len() {
                            assert(l[a] == before[a]);
                            let j = choose|j: int| 0 <= j < i && #[trigger] old_l[j] == #[trigger] before[a];
                        }
                        if b < before.len() && a == before.len() {
                            assert(l[b] == before[b]);
                            let j = choose|j: int| 0 <= j < i && #[trigger] old_l[j] == #[trigger] before[b];
                        }
                        if a < before.len() && b < before.len() {
                            assert(l[a] == before[a]);
                            assert(l[b] == before[b]);
                        }
                    }
                    assert forall|z: Seq<char>| #[trigger] live_has(l, z) <==> exists|j: int| 0 <= j < i + 1 && #[trigger] old_l[j].zone@ == z
                        && elapsed(now_i, old_l[j].when) < mem by {
                        if live_has(l, z) {
                            let a = choose|a: int| 0 <= a < l.len() && #[trigger] l[a].zone@ == z;
                            if a < before.len() {
                                assert(l[a] == before[a]);
                                assert(live_has(before, z));
                            }
                        }
                        if exists|j: int| 0 <= j < i + 1 && #[trigger] old_l[j].zone@ == z && elapsed(now_i, old_l[j].when) < mem {
                            let j = choose|j: int| 0 <= j < i + 1 && #[trigger] old_l[j].zone@ == z && elapsed(now_i, old_l[j].when) < mem;
                            if j < i {
                                assert(live_has(before, z));
                                let a = choose|a: int| 0 <= a < before.len() && #[trigger] before[a].zone@ == z;
                                assert(l[a] == before[a]);
                            } else {
                                assert(l[before.len() as int].zone@ == z);
                            }
                        }
                    }
                    assert forall|a: int| 0 <= a < l.len() implies exists|j: int| 0 <= j < i + 1 && #[trigger] old_l[j] == #[trigger] l[a] by {
                        if a < before.len() {
                            assert(l[a] == before[a]);
                            let j = choose|j: int| 0 <= j < i && #[trigger] old_l[j] == #[trigger] before[a];
                            assert(old_l[j] == l[a]);
                        } else {
                            assert(old_l[i as int] == l[a]);
                        }
                    }
                }
            } else {
                proof {
                    let l = kept@;
                    assert forall|z: Seq<char>| #[trigger] live_has(l, z) <==> exists|j: int| 0 <= j < i + 1 && #[trigger] old_l[j].zone@ == z
                        && elapsed(now_i, old_l[j].when) < mem by {
                        if exists|j: int| 0 <= j < i + 1 && #[trigger] old_l[j].zone@ == z && elapsed(now_i, old_l[j].when) < mem {
                            let j = choose|j: int| 0 <= j < i + 1 && #[trigger] old_l[j].zone@ == z && elapsed(now_i, old_l[j].when) < mem;
                            assert(j != i);
                        }
                    }
                }
            }
            i = i + 1;
        }
        proof {
            let l = kept@;
            let keep = Set::new(|z: Seq<char>| live_has(old_l, z) && elapsed(now_i, live_map(old_l)[z].1) < mem);
            assert forall|z: Seq<char>| #[trigger] live_has(l, z) <==> keep.contains(z) by {
                if live_has(l, z) {
                    let j = choose|j: int| 0 <= j < old_l.len() && #[trigger] old_l[j].zone@ == z && elapsed(now_i, old_l[j].when) < mem;
                    lemma_live_pos(old_l, j);
                }
                if keep.contains(z) {
                    let q = live_pos(old_l, z);
                    assert(old_l[q].zone@ == z);
                }
            }
            assert forall|z: Seq<char>| live_has(l, z) implies l[live_pos(l, z)] == old_l[live_pos(old_l, z)] by {
                let p = live_pos(l, z);
                assert(l[p].zone@ == z);
                let j = choose|j: int| 0 <= j < old_l.len() && #[trigger] old_l[j] == #[trigger] l[p];
                lemma_live_pos(old_l, j);
            }
            assert(live_map(l) =~= live_map(old_l).restrict(keep));
        }
        self.live_temp = kept;
    }

    /// The climate subscription of `zone` ended.
    pub fn drop_monitor(&mut self, zone: &String)
        requires
            old(self).wf(),
        ensures
            final(self).wf(),
            final(self).config == old(self).config,
            final(self).live_temp == old(self).live_temp,
            forall|z: Seq<char>| #[trigger] names_has(final(self).monitors@, z)
                <==> names_has(old(self).monitors@, z) && z != zone@,
    {
        if let Some(k) = find_name(&self.monitors, zone.as_str()) {
            let ghost old_m = self.monitors@;
            self.monitors.remove(k);
            proof {
                let m = self.monitors@;
                assert(forall|j: int| 0 <= j < k ==> m[j] == old_m[j]);
                assert(forall|j: int| k <= j < m.len() ==> m[j] == old_m[j + 1]);
                assert forall|a: int, b: int| 0 <= a < m.len() && 0 <= b < m.len()
                    && #[trigger] m[a]@ == #[trigger] m[b]@ implies a == b by {
                    let a2 = if a < k { a } else { a + 1 };
                    let b2 = if b < k { b } else { b + 1 };
                    assert(m[a] == old_m[a2]);
                    assert(m[b] == old_m[b2]);
                    assert(old_m[a2]@ == old_m[b2]@);
                }
                assert forall|z: Seq<char>| #[trigger] names_has(m, z) <==> names_has(old_m, z) && z != zone@ by {
                    if names_has(m, z) {
                        let j = choose|j: int| 0 <= j < m.len() && #[trigger] m[j]@ == z;
                        let j2 = if j < k { j } else { j + 1 };
                        assert(old_m[j2]@ == z);
                        assert(j2 != k);
                        assert(old_m[k as int]@ == zone@);
                    }
                    if names_has(old_m, z) && z != zone@ {
                        let j = choose|j: int| 0 <= j < old_m.len() && #[trigger] old_m[j]@ == z;
                        if j < k {
                            assert(m[j]@ == z);
                        } else {
                            assert(j != k);
                            assert(m[j - 1]@ == z);
                        }
                    }
                }
            }
        }
    }
}


/// A decision to heat any zone, once recorded, makes the heating relay
/// wanted on.
pub proof fn lemma_heat_call_reaches_boiler(
    ov: Seq<SetPoint2>,
    decs: Seq<(String, Decision)>,
    overridden: bool,
    now: int,
    cfg: ThermostatSetArgs,
    k: int,
)
    requires
        0 <= k < decs.len(),
        decs[k].1 is On,
    ensures
        exists|j: int| 0 <= j < spec_apply_overrides(ov, decs, overridden, now, cfg).len()
            && crate::heat::calls_for_heat(#[trigger] spec_apply_overrides(ov, decs, overridden, now, cfg)[j]),
{
    lemma_every_call_recorded(ov, decs, overridden, now, cfg, k);
    let res = spec_apply_overrides(ov, decs, overridden, now, cfg);
    let j = choose|j: int| 0 <= j < res.len() && #[trigger] records(res[j], decs[k], now, cfg);
    assert(crate::heat::calls_for_heat(res[j]));
}

} // verus!
