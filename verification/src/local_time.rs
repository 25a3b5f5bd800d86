//! The weekly schedule in local time: carrying out the events that are
//! already due in a time zone, and finding how long to wait for the next.
use vstd::prelude::*;
use crate::pb::HeatSchedule;
use crate::schedule::{
    days_to, dist_days, lemma_step_progress, shows, sort_by_time, spec_run, spec_step, steps_to, tracker_view, Candidate,
    PointView, ProgrammedEvent, ScheduleTracker, TimeOfDay, TrackerView,
};
use crate::time::representable;
use crate::zone::{local_date, local_instant, zone_local_date, zone_local_instant, Zone};

verus! {

/// Nanoseconds in a day: the wait when nothing is scheduled ahead.
pub const DAY_NS: u128 = 86_400_000_000_000;

/// The model after `k` steps through the schedule.
pub open spec fn spec_steps(v: TrackerView, k: nat) -> TrackerView
    decreases k,
{
    if k == 0 {
        v
    } else {
        spec_step(spec_steps(v, (k - 1) as nat))
    }
}

/// What the schedule asks for after each event carried out in the first
/// `k` steps from `v`.
pub open spec fn executed_points(v: TrackerView, k: nat) -> Seq<PointView>
    decreases k,
{
    if k == 0 {
        Seq::empty()
    } else {
        let before = spec_steps(v, (k - 1) as nat);
        let s = executed_points(v, (k - 1) as nat);
        if before.t < before.daily[before.wd].len() {
            s.push(spec_step(before).point)
        } else {
            s
        }
    }
}

/// The messages `m` show, in order, what the schedule asked for after each
/// event carried out in the first `k` steps from `v`.
pub open spec fn reports(m: Seq<HeatSchedule>, v: TrackerView, k: nat) -> bool {
    let p = executed_points(v, k);
    &&& m.len() == p.len()
    &&& forall|i: int| 0 <= i < m.len() ==> shows(#[trigger] m[i], p[i])
}

/// The time from `now` until the instant `at` (seconds and nanoseconds
/// after the epoch), when `at` is later.
pub open spec fn spec_wait_until(at: Option<(i64, u32)>, now: int) -> Option<int> {
    match at {
        Some((s, n)) => {
            let d = s * 1_000_000_000 + n - now;
            if d > 0 {
                Some(d)
            } else {
                None
            }
        },
        None => None,
    }
}

/// How long to wait from `now` for an event at instant `at`; `None` when
/// the event is due (no later than `now`, or with no instant at all).
pub fn wait_until(at: Option<(i64, u32)>, now: i128) -> (r: Option<u128>)
    requires
        representable(now as int),
    ensures
        r matches Some(d) ==> spec_wait_until(at, now as int) == Some(d as int),
        r is None ==> spec_wait_until(at, now as int) is None,
{
    match at {
        Some((s, n)) => {
            let d: i128 = (s as i128) * 1_000_000_000 + (n as i128) - now;
            if d > 0 {
                Some(d as u128)
            } else {
                None
            }
        },
        None => None,
    }
}

/// The whole seconds (rounded down) and the nanoseconds of instant `now`.
fn split_instant(now: i128) -> (r: (i64, u32))
    requires
        representable(now as int),
    ensures
        r.0 * 1_000_000_000 + r.1 == now,
        r.1 < 1_000_000_000,
{
    if now >= 0 {
        let q: i128 = now / 1_000_000_000;
        let rem: i128 = now % 1_000_000_000;
        proof {
            vstd::arithmetic::div_mod::lemma_fundamental_div_mod(now as int, 1_000_000_000);
        }
        (q as i64, rem as u32)
    } else {
        let m: i128 = -(now + 1);
        let q: i128 = m / 1_000_000_000;
        let rem: i128 = m % 1_000_000_000;
        proof {
            vstd::arithmetic::div_mod::lemma_fundamental_div_mod(m as int, 1_000_000_000);
            let w = -(q + 1);
            assert(now == w * 1_000_000_000 + (999_999_999 - rem));
            vstd::arithmetic::div_mod::lemma_fundamental_div_mod_converse(
                now as int, 1_000_000_000, w as int, (999_999_999 - rem) as int);
        }
        ((-(q + 1)) as i64, (999_999_999 - rem) as u32)
    }
}
/// The instant lies where chrono can place it in any time zone: its whole
/// seconds are within 8·10^12 of the epoch (chrono's dates span about
/// ±262 000 years; a zone moves the local time by less than a day).
pub open spec fn in_chrono_range(now: int) -> bool {
    -8_000_000_000_000_000_000_000 <= now <= 8_000_000_000_000_000_000_000
}

/// Where the schedule stands once it has caught up with local time.
#[derive(Clone, Copy, Debug, PartialEq, Eq, Structural)]
pub enum ScheduleWait {
    /// Look again after this many nanoseconds.
    Sleep(u128),
    /// The position is past today and the weekday after it has events, but
    /// tomorrow has none: there is no first event of tomorrow to wait for.
    NoEventTomorrow,
    /// A whole week of events was carried out without finding one ahead.
    Stalled,
}

/// What comes next at a position, today being weekday `now_wd`.
#[derive(Clone, Copy, Debug, PartialEq, Eq, Structural)]
pub enum Next {
    /// Nothing to look up: stop with this outcome.
    Done(ScheduleWait),
    /// The next event of today, at this local time.
    Today(TimeOfDay),
    /// The first event of tomorrow, at this local time.
    Tomorrow(TimeOfDay),
}

/// What comes next at position `v`, today being weekday `now_wd`: the next
/// event of today while the position is in today; else, when the weekday
/// after the position has events, tomorrow's first event (or, when
/// tomorrow has none, `NoEventTomorrow`); else a wait of a day.
pub open spec fn spec_next(v: TrackerView, now_wd: int) -> Next {
    if v.wd == now_wd && v.t < v.daily[now_wd].len() {
        Next::Today(v.daily[now_wd][v.t].0)
    } else if v.daily[(v.wd + 1) % 7].len() > 0 {
        if v.daily[(now_wd + 1) % 7].len() == 0 {
            Next::Done(ScheduleWait::NoEventTomorrow)
        } else {
            Next::Tomorrow(v.daily[(now_wd + 1) % 7][0].0)
        }
    } else {
        Next::Done(ScheduleWait::Sleep(DAY_NS))
    }
}

/// One step of catching up, given the instant `at` of the event looked up
/// (unused when nothing is looked up): stop with the outcome of `spec_next`,
/// or wait for the event when it lies after `now`, or else carry out the
/// next step (`None`).
pub open spec fn spec_catch_up_step(v: TrackerView, now_wd: int, at: Option<(i64, u32)>, now: int) -> (TrackerView, Option<ScheduleWait>) {
    match spec_next(v, now_wd) {
        Next::Done(w) => (v, Some(w)),
        _ => match spec_wait_until(at, now) {
            Some(d) => (v, Some(ScheduleWait::Sleep(d as u128))),
            None => (spec_step(v), None::<ScheduleWait>),
        },
    }
}

/// The instant, in the zone of `data`, of the event that `n` looks up:
/// today (day number `day`) or tomorrow, at its local time.
pub open spec fn spec_lookup(data: Seq<u8>, day: int, n: Next) -> Option<(i64, u32)> {
    match n {
        Next::Today(t) => zone_local_instant(data, day as i32, t.secs, t.frac),
        Next::Tomorrow(t) => zone_local_instant(data, (day + 1) as i32, t.secs, t.frac),
        Next::Done(_) => None,
    }
}

/// Catching up with at most `fuel` steps, today being weekday `now_wd` with
/// day number `day` in the zone of `data`: each event is looked up in the
/// zone.  The position reached, the outcome, and the number of steps
/// carried out (`Stalled` when the fuel runs out).
pub open spec fn spec_catch_up(v: TrackerView, now_wd: int, data: Seq<u8>, day: int, now: int, fuel: nat) -> (TrackerView, ScheduleWait, nat)
    decreases fuel,
{
    if fuel == 0 {
        (v, ScheduleWait::Stalled, 0)
    } else {
        let s = spec_catch_up_step(v, now_wd, spec_lookup(data, day, spec_next(v, now_wd)), now);
        match s.1 {
            Some(w) => (s.0, w, 0),
            None => {
                let c = spec_catch_up(s.0, now_wd, data, day, now, (fuel - 1) as nat);
                (c.0, c.1, c.2 + 1)
            },
        }
    }
}

/// Steps from `v` to the start of weekday `d` (none when already on it).
pub open spec fn steps_to_day(v: TrackerView, d: int) -> int {
    if v.wd == d { 0 } else { steps_to(v, d) }
}

/// The number of events of the first `i` weekdays.
pub open spec fn events_before(daily: Seq<Seq<ProgrammedEvent>>, i: int) -> int
    decreases i,
{
    if i <= 0 { 0 } else { events_before(daily, i - 1) + daily[i - 1].len() }
}

/// The steps that catching up may take: the events of a week, plus eight.
pub open spec fn week_fuel_of(daily: Seq<Seq<ProgrammedEvent>>) -> int {
    8 + events_before(daily, 7)
}

/// The weekday and day number of instant `now` in the zone of `data`.
pub open spec fn today_of(data: Seq<u8>, now: int) -> (u8, i32) {
    zone_local_date(data, (now / 1_000_000_000) as i64, (now % 1_000_000_000) as u32).unwrap()
}

/// Catching up from `v0` with instant `now` in the zone of `data`: the
/// steps to the start of today, then catching up within a week's worth of
/// steps.  The position reached, the outcome and the number of steps
/// carried out in all.
pub open spec fn spec_run_to_now(v0: TrackerView, data: Seq<u8>, now: int) -> (TrackerView, ScheduleWait, nat) {
    let (wd, day) = today_of(data, now);
    let m = steps_to_day(v0, wd as int);
    let c = spec_catch_up(spec_steps(v0, m as nat), wd as int, data, day as int, now, week_fuel_of(v0.daily) as nat);
    (c.0, c.1, (m + c.2) as nat)
}

proof fn lemma_reports_step(before: Seq<HeatSchedule>, after: Seq<HeatSchedule>, v0: TrackerView, k: nat)
    requires
        reports(before, v0, k),
        ({
            let v = spec_steps(v0, k);
            if v.t < v.daily[v.wd].len() {
                &&& after.len() == before.len() + 1
                &&& after.drop_last() == before
                &&& shows(after.last(), spec_step(v).point)
            } else {
                after == before
            }
        }),
    ensures
        reports(after, v0, k + 1),
{
    let p = executed_points(v0, k + 1);
    let v = spec_steps(v0, k);
    if v.t < v.daily[v.wd].len() {
        assert forall|i: int| 0 <= i < after.len() implies shows(#[trigger] after[i], p[i]) by {
            if i < before.len() {
                assert(after[i] == after.drop_last()[i]);
            }
        }
    }
}

/// The steps that catching up may take: the events of a week, plus eight.
fn week_fuel(daily: &Vec<Vec<ProgrammedEvent>>) -> (r: u128)
    requires
        daily@.len() == 7,
    ensures
        r == week_fuel_of(daily@.map_values(|v: Vec<ProgrammedEvent>| v@)),
{
    let ghost d = daily@.map_values(|v: Vec<ProgrammedEvent>| v@);
    let mut total: u128 = 8;
    let mut i: usize = 0;
    while i < 7
        invariant
            i <= 7,
            daily@.len() == 7,
            d == daily@.map_values(|v: Vec<ProgrammedEvent>| v@),
            total == 8 + events_before(d, i as int),
            events_before(d, i as int) <= i * 0x1_0000_0000_0000_0000,
        decreases 7 - i,
    {
        assert(d[i as int].len() == daily@[i as int]@.len());
        total = total + daily[i].len() as u128;
        i = i + 1;
    }
    total
}

impl ScheduleTracker {
    /// Carries out one step and, when it carries out an event, adds what the
    /// schedule then asks for to `sent`.
    fn step_reporting(&mut self, sent: &mut Vec<HeatSchedule>)
        requires
            old(self).wf(),
        ensures
            final(self).wf(),
            final(self).daily == old(self).daily,
            tracker_view(*final(self)) == spec_step(tracker_view(*old(self))),
            ({
                let v = tracker_view(*old(self));
                if v.t < v.daily[v.wd].len() {
                    &&& final(sent)@.len() == old(sent)@.len() + 1
                    &&& final(sent)@.drop_last() == old(sent)@
                    &&& shows(final(sent)@.last(), spec_step(v).point)
                } else {
                    final(sent)@ == old(sent)@
                }
            }),
    {
        let executed = self.execute_next_today();
        if executed {
            let m = HeatSchedule::from_point(&self.now);
            sent.push(m);
            proof {
                assert(sent@.drop_last() =~= old(sent)@);
            }
        }
    }

    /// What comes next, today being weekday `now_wd`.
    pub fn next_step(&self, now_wd: usize) -> (r: Next)
        requires
            self.wf(),
            now_wd < 7,
        ensures
            r == spec_next(tracker_view(*self), now_wd as int),
    {
        let today = self.now_weekday == now_wd && self.now_time < self.daily[now_wd].len();
        if !today && self.daily[(self.now_weekday + 1) % 7].len() > 0 && self.daily[(now_wd + 1) % 7].len() == 0 {
            return Next::Done(ScheduleWait::NoEventTomorrow);
        }
        match self.next_candidate(now_wd) {
            Candidate::TryLater => Next::Done(ScheduleWait::Sleep(DAY_NS)),
            Candidate::Today(t) => Next::Today(t),
            Candidate::Tomorrow(t) => Next::Tomorrow(t),
        }
    }

    /// One step of catching up with `now`, today being weekday `now_wd` and
    /// the event looked up lying at instant `at`: returns the outcome when
    /// catching up stops here, or carries out the next step (adding what the
    /// schedule then asks for to `sent` when it carries out an event) and
    /// returns `None`.
    pub fn catch_up_step(&mut self, now_wd: usize, at: Option<(i64, u32)>, now: i128, sent: &mut Vec<HeatSchedule>) -> (r: Option<ScheduleWait>)
        requires
            old(self).wf(),
            now_wd < 7,
            representable(now as int),
        ensures
            final(self).wf(),
            final(self).daily == old(self).daily,
            (tracker_view(*final(self)), r) == spec_catch_up_step(tracker_view(*old(self)), now_wd as int, at, now as int),
            ({
                let v = tracker_view(*old(self));
                if r is None && v.t < v.daily[v.wd].len() {
                    &&& final(sent)@.len() == old(sent)@.len() + 1
                    &&& final(sent)@.drop_last() == old(sent)@
                    &&& shows(final(sent)@.last(), spec_step(v).point)
                } else {
                    final(sent)@ == old(sent)@
                }
            }),
    {
        match self.next_step(now_wd) {
            Next::Done(w) => Some(w),
            _ => match wait_until(at, now) {
                Some(d) => Some(ScheduleWait::Sleep(d)),
                None => {
                    self.step_reporting(sent);
                    None
                },
            },
        }
    }

    /// Catches up with at most `fuel` steps, looking each event up in `zone`
    /// on day number `day` (today) or the day after.
    fn catch_up(
        &mut self,
        zone: &Zone,
        now_wd: usize,
        day: i32,
        now: i128,
        fuel: u128,
        sent: &mut Vec<HeatSchedule>,
        Ghost(v0): Ghost<TrackerView>,
        Ghost(j): Ghost<nat>,
    ) -> (r: ScheduleWait)
        requires
            old(self).wf(),
            now_wd < 7,
            representable(now as int),
            -100_000_000 < day < 100_000_000,
            tracker_view(*old(self)) == spec_steps(v0, j),
            reports(old(sent)@, v0, j),
        ensures
            final(self).wf(),
            final(self).daily == old(self).daily,
            ({
                let c = spec_catch_up(tracker_view(*old(self)), now_wd as int, zone@, day as int, now as int, fuel as nat);
                &&& c.0 == tracker_view(*final(self))
                &&& c.1 == r
                &&& c.0 == spec_steps(v0, j + c.2)
                &&& reports(final(sent)@, v0, j + c.2)
            }),
        decreases fuel,
    {
        let ghost v = tracker_view(*self);
        if fuel == 0 {
            return ScheduleWait::Stalled;
        }
        let next = self.next_step(now_wd);
        let at = match next {
            Next::Done(_) => None,
            Next::Today(t) => local_instant(zone, day, t),
            Next::Tomorrow(t) => local_instant(zone, day + 1, t),
        };
        assert(at == spec_lookup(zone@, day as int, spec_next(v, now_wd as int)));
        let ghost before = sent@;
        match self.catch_up_step(now_wd, at, now, sent) {
            Some(w) => w,
            None => {
                proof {
                    lemma_reports_step(before, sent@, v0, j);
                }
                self.catch_up(zone, now_wd, day, now, fuel - 1, sent, Ghost(v0), Ghost(j + 1))
            },
        }
    }

    /// Catches up with instant `now` in `zone`: carries out the events up to
    /// the start of today, then, event by event, each one whose local
    /// instant is not after `now`, and says how long to wait for the next
    /// one (a day when there is none to wait for).  Returns, with that, what
    /// the schedule asked for after each event it carried out, in order.
    pub fn run_to_now(&mut self, zone: &Zone, now: i128) -> (r: (ScheduleWait, Vec<HeatSchedule>))
        requires
            old(self).wf(),
            in_chrono_range(now as int),
        ensures
            final(self).wf(),
            final(self).daily == old(self).daily,
            ({
                let c = spec_run_to_now(tracker_view(*old(self)), zone@, now as int);
                &&& c.0 == tracker_view(*final(self))
                &&& c.1 == r.0
                &&& c.0 == spec_steps(tracker_view(*old(self)), c.2)
                &&& reports(r.1@, tracker_view(*old(self)), c.2)
            }),
    {
        let ghost v0 = tracker_view(*self);
        let ghost mut k: nat = 0;
        let mut sent: Vec<HeatSchedule> = Vec::new();
        assert(representable(now as int));
        let (secs, nanos) = split_instant(now);
        proof {
            vstd::arithmetic::div_mod::lemma_fundamental_div_mod_converse(
                now as int, 1_000_000_000, secs as int, nanos as int);
        }
        let (wd, day) = match local_date(zone, secs, nanos) {
            Some(x) => x,
            None => {
                proof {
                    assert(false);
                }
                return (ScheduleWait::Stalled, sent);
            },
        };
        assert((wd, day) == today_of(zone@, now as int));
        let now_wd = wd as usize;
        let ghost nd = now_wd as int;
        while self.now_weekday != now_wd
            invariant
                self.wf(),
                now_wd < 7,
                nd == now_wd as int,
                self.daily == old(self).daily,
                v0 == tracker_view(*old(self)),
                tracker_view(*self) == spec_steps(v0, k),
                reports(sent@, v0, k),
                v0.wd == nd ==> k == 0,
                self.now_weekday != now_wd ==> k + steps_to(tracker_view(*self), nd) == steps_to(v0, nd),
                self.now_weekday == now_wd ==> k == steps_to_day(v0, nd),
            decreases steps_to(tracker_view(*self), nd),
        {
            let ghost cur = tracker_view(*self);
            proof {
                lemma_step_progress(cur, nd);
            }
            let ghost before = sent@;
            self.step_reporting(&mut sent);
            proof {
                lemma_reports_step(before, sent@, v0, k);
                k = k + 1;
                if self.now_weekday == now_wd {
                    assert(days_to(nd, nd) == 0);
                    assert(dist_days(cur.daily, nd, 0) == 0);
                    assert(steps_to(tracker_view(*self), nd) == 0);
                    assert(v0.wd != nd);
                }
            }
        }
        let fuel = week_fuel(&self.daily);
        let w = self.catch_up(zone, now_wd, day, now, fuel, &mut sent, Ghost(v0), Ghost(k));
        proof {
            let v1 = spec_steps(v0, k);
            assert(v0.daily == v1.daily);
            assert(fuel as nat == week_fuel_of(v0.daily) as nat);
        }
        (w, sent)
    }

    /// Starts following a schedule just read, at instant `now` in `zone`:
    /// puts each day's events in time order, runs the schedule forward to
    /// the start of weekday 1 and on to the start of weekday 0, so that a
    /// whole week of events has been carried out, then catches up with
    /// `now`.  Returns the wait before the next event.
    pub fn start(&mut self, zone: &Zone, now: i128) -> (r: ScheduleWait)
        requires
            old(self).wf(),
            old(self).now_time == 0,
            in_chrono_range(now as int),
        ensures
            final(self).wf(),
            ({
                let v1 = sorted_view(tracker_view(*old(self)));
                let v2 = spec_run(v1, 1, steps_to(v1, 1) as nat);
                let v3 = spec_run(v2, 0, steps_to(v2, 0) as nat);
                let c = spec_run_to_now(v3, zone@, now as int);
                &&& tracker_view(*final(self)) == c.0
                &&& r == c.1
            }),
    {
        let ghost v0 = tracker_view(*self);
        self.sort_days();
        proof {
            assert(tracker_view(*self).daily =~= sorted_view(v0).daily);
            assert(tracker_view(*self) == sorted_view(v0));
        }
        self.run_forward(1);
        self.run_forward(0);
        let (w, _) = self.run_to_now(zone, now);
        w
    }
}

/// The model with each weekday's events in time order.
pub open spec fn sorted_view(v: TrackerView) -> TrackerView {
    TrackerView { daily: v.daily.map_values(|d: Seq<ProgrammedEvent>| sort_by_time(d)), ..v }
}

} // verus!
