//! Replaying the weekly schedule: a whole week of steps comes back to where
//! it started, and the state it leaves is one that a further week of steps
//! no longer changes.
use vstd::prelude::*;
use crate::local_time::spec_steps;
use crate::schedule::{
    apply_desc, dist_days, lemma_dist_days_nonneg, spec_step, view_wf, PointView, ProgrammedEvent,
    ProgrammedEventDesc, TrackerView,
};

verus! {

/// What the events of weekday `d` do, in order.
pub open spec fn day_descs(daily: Seq<Seq<ProgrammedEvent>>, d: int) -> Seq<ProgrammedEventDesc> {
    daily[d].map_values(|e: ProgrammedEvent| e.1)
}

/// What the events of `k` whole days from weekday `d` on do, in order.
pub open spec fn days_descs(daily: Seq<Seq<ProgrammedEvent>>, d: int, k: nat) -> Seq<ProgrammedEventDesc>
    decreases k,
{
    if k == 0 {
        Seq::empty()
    } else {
        day_descs(daily, d) + days_descs(daily, (d + 1) % 7, (k - 1) as nat)
    }
}

/// What the schedule asks for after events `ds`, one after the other,
/// starting from `p`.
pub open spec fn apply_all(p: PointView, ds: Seq<ProgrammedEventDesc>) -> PointView
    decreases ds.len(),
{
    if ds.len() == 0 {
        p
    } else {
        apply_all(apply_desc(p, ds[0]), ds.skip(1))
    }
}

/// Event `d` sets or clears zone `z`.
pub open spec fn names_zone(d: ProgrammedEventDesc, z: Seq<char>) -> bool {
    match d {
        ProgrammedEventDesc::HeatZone(y, _) => y@ == z,
        _ => false,
    }
}

/// Some event of `ds` sets or clears zone `z`.
pub open spec fn touches(ds: Seq<ProgrammedEventDesc>, z: Seq<char>) -> bool {
    exists|i: int| 0 <= i < ds.len() && names_zone(#[trigger] ds[i], z)
}

/// Some event of `ds` sets the hot water.
pub open spec fn sets_water(ds: Seq<ProgrammedEventDesc>) -> bool {
    exists|i: int| 0 <= i < ds.len() && (#[trigger] ds[i]) is Water
}

/// `p` and `q` agree on everything that the events `ds` leave alone.
pub open spec fn agree_outside(p: PointView, q: PointView, ds: Seq<ProgrammedEventDesc>) -> bool {
    &&& forall|z: Seq<char>| !touches(ds, z) ==> {
        &&& (#[trigger] p.heat.contains_key(z)) == q.heat.contains_key(z)
        &&& p.heat.contains_key(z) ==> p.heat[z] == q.heat[z]
    }
    &&& !sets_water(ds) ==> p.water == q.water
}

proof fn lemma_skip_touches(ds: Seq<ProgrammedEventDesc>)
    requires
        ds.len() > 0,
    ensures
        forall|z: Seq<char>| #[trigger] touches(ds.skip(1), z) ==> touches(ds, z),
        sets_water(ds.skip(1)) ==> sets_water(ds),
{
    assert forall|z: Seq<char>| #[trigger] touches(ds.skip(1), z) implies touches(ds, z) by {
        let i = choose|i: int| 0 <= i < ds.skip(1).len() && names_zone(#[trigger] ds.skip(1)[i], z);
        assert(ds[i + 1] == ds.skip(1)[i]);
    }
    if sets_water(ds.skip(1)) {
        let i = choose|i: int| 0 <= i < ds.skip(1).len() && (#[trigger] ds.skip(1)[i]) is Water;
        assert(ds[i + 1] == ds.skip(1)[i]);
    }
}

/// Two starting points that agree on what the events leave alone end up
/// the same.
proof fn lemma_apply_all_determined(p: PointView, q: PointView, ds: Seq<ProgrammedEventDesc>)
    requires
        agree_outside(p, q, ds),
    ensures
        apply_all(p, ds) == apply_all(q, ds),
    decreases ds.len(),
{
    if ds.len() == 0 {
        assert forall|z: Seq<char>| !touches(ds, z) by {}
        assert(!sets_water(ds));
        assert(p.heat =~= q.heat);
    } else {
        let d0 = ds[0];
        let p1 = apply_desc(p, d0);
        let q1 = apply_desc(q, d0);
        let rest = ds.skip(1);
        lemma_skip_touches(ds);
        assert forall|z: Seq<char>| !touches(rest, z) implies {
            &&& (#[trigger] p1.heat.contains_key(z)) == q1.heat.contains_key(z)
            &&& p1.heat.contains_key(z) ==> p1.heat[z] == q1.heat[z]
        } by {
            match d0 {
                ProgrammedEventDesc::HeatZone(y, _) => {
                    if y@ != z {
                        if touches(ds, z) {
                            let i = choose|i: int| 0 <= i < ds.len() && names_zone(#[trigger] ds[i], z);
                            assert(i != 0);
                            assert(rest[i - 1] == ds[i]);
                        }
                    }
                },
                ProgrammedEventDesc::Water(_) => {
                    if touches(ds, z) {
                        let i = choose|i: int| 0 <= i < ds.len() && names_zone(#[trigger] ds[i], z);
                        assert(i != 0);
                        assert(rest[i - 1] == ds[i]);
                    }
                },
            }
        }
        if !sets_water(rest) {
            if !(d0 is Water) {
                if sets_water(ds) {
                    let i = choose|i: int| 0 <= i < ds.len() && (#[trigger] ds[i]) is Water;
                    assert(i != 0);
                    assert(rest[i - 1] == ds[i]);
                }
            }
        }
        lemma_apply_all_determined(p1, q1, rest);
    }
}

/// The events leave alone what they do not touch.
proof fn lemma_apply_all_frame(p: PointView, ds: Seq<ProgrammedEventDesc>)
    ensures
        agree_outside(apply_all(p, ds), p, ds),
    decreases ds.len(),
{
    if ds.len() > 0 {
        let d0 = ds[0];
        let p1 = apply_desc(p, d0);
        let rest = ds.skip(1);
        lemma_apply_all_frame(p1, rest);
        lemma_skip_touches(ds);
        let r = apply_all(p, ds);
        assert forall|z: Seq<char>| !touches(ds, z) implies {
            &&& (#[trigger] r.heat.contains_key(z)) == p.heat.contains_key(z)
            &&& r.heat.contains_key(z) ==> r.heat[z] == p.heat[z]
        } by {
            assert(!touches(rest, z));
            match d0 {
                ProgrammedEventDesc::HeatZone(y, _) => {
                    assert(y@ != z) by {
                        if y@ == z {
                            assert(names_zone(ds[0], z));
                        }
                    }
                },
                _ => {},
            }
        }
        if !sets_water(ds) {
            assert(!(ds[0] is Water));
        }
    }
}

/// Carrying out the events twice over leaves what carrying them out once
/// leaves.
pub proof fn lemma_apply_all_twice(p: PointView, ds: Seq<ProgrammedEventDesc>)
    ensures
        apply_all(apply_all(p, ds), ds) == apply_all(p, ds),
{
    lemma_apply_all_frame(p, ds);
    lemma_apply_all_determined(apply_all(p, ds), p, ds);
}

proof fn lemma_apply_all_concat(p: PointView, a: Seq<ProgrammedEventDesc>, b: Seq<ProgrammedEventDesc>)
    ensures
        apply_all(p, a + b) == apply_all(apply_all(p, a), b),
    decreases a.len(),
{
    if a.len() == 0 {
        assert(a + b =~= b);
    } else {
        assert((a + b)[0] == a[0]);
        assert((a + b).skip(1) =~= a.skip(1) + b);
        lemma_apply_all_concat(apply_desc(p, a[0]), a.skip(1), b);
    }
}

proof fn lemma_steps_front(v: TrackerView, k: nat)
    ensures
        spec_steps(v, k + 1) == spec_steps(spec_step(v), k),
    decreases k,
{
    if k > 0 {
        lemma_steps_front(v, (k - 1) as nat);
        assert(spec_steps(v, k + 1) == spec_step(spec_steps(v, k)));
        assert(spec_steps(spec_step(v), k) == spec_step(spec_steps(spec_step(v), (k - 1) as nat)));
    } else {
        assert(spec_steps(v, 1) == spec_step(spec_steps(v, 0)));
    }
}

proof fn lemma_steps_add(v: TrackerView, a: nat, b: nat)
    ensures
        spec_steps(v, a + b) == spec_steps(spec_steps(v, a), b),
    decreases b,
{
    if b > 0 {
        lemma_steps_add(v, a, (b - 1) as nat);
        assert(spec_steps(v, a + b) == spec_step(spec_steps(v, (a + b - 1) as nat)));
    }
}

/// The steps left in the position's weekday.
pub open spec fn rest_of_day(v: TrackerView) -> int {
    let n = v.daily[v.wd].len();
    if n == 0 { 1 } else { n - v.t }
}

/// Stepping to the end of the position's weekday carries out its remaining
/// events and moves to the start of the next weekday.
proof fn lemma_rest_of_day(v: TrackerView)
    requires
        view_wf(v),
    ensures
        rest_of_day(v) >= 1,
        spec_steps(v, rest_of_day(v) as nat) == (TrackerView {
            daily: v.daily,
            point: apply_all(v.point, day_descs(v.daily, v.wd).skip(v.t)),
            wd: (v.wd + 1) % 7,
            t: 0,
        }),
    decreases rest_of_day(v),
{
    let day = v.daily[v.wd];
    let ds = day_descs(v.daily, v.wd);
    lemma_steps_front(v, (rest_of_day(v) - 1) as nat);
    assert(spec_steps(spec_step(v), 0) == spec_step(v));
    let p = v.point;
    if day.len() == 0 {
        assert(ds.skip(v.t).len() == 0);
        assert(apply_all(p, ds.skip(v.t)) == p);
    } else if v.t + 1 >= day.len() {
        assert(ds.skip(v.t)[0] == day[v.t].1);
        assert(ds.skip(v.t).skip(1).len() == 0);
        assert(apply_all(p, ds.skip(v.t)) == apply_all(apply_desc(p, day[v.t].1), ds.skip(v.t).skip(1)));
        assert(apply_all(apply_desc(p, day[v.t].1), ds.skip(v.t).skip(1)) == apply_desc(p, day[v.t].1));
    } else {
        let n = spec_step(v);
        assert(view_wf(n));
        assert(rest_of_day(n) == rest_of_day(v) - 1);
        lemma_rest_of_day(n);
        assert(ds.skip(v.t)[0] == day[v.t].1);
        assert(ds.skip(v.t).skip(1) =~= ds.skip(v.t + 1));
        assert(apply_all(p, ds.skip(v.t)) == apply_all(apply_desc(p, day[v.t].1), ds.skip(v.t + 1)));
        assert(day_descs(n.daily, n.wd) == ds);
    }
}

/// Stepping through `k` whole days from the start of a weekday.
proof fn lemma_whole_days(v: TrackerView, k: nat)
    requires
        view_wf(v),
        v.t == 0,
    ensures
        dist_days(v.daily, v.wd, k) >= 0,
        spec_steps(v, dist_days(v.daily, v.wd, k) as nat) == (TrackerView {
            daily: v.daily,
            point: apply_all(v.point, days_descs(v.daily, v.wd, k)),
            wd: (v.wd + k) % 7,
            t: 0,
        }),
    decreases k,
{
    lemma_dist_days_nonneg(v.daily, v.wd, k);
    if k == 0 {
        assert(days_descs(v.daily, v.wd, 0).len() == 0);
    } else {
        let first = rest_of_day(v);
        lemma_rest_of_day(v);
        assert(day_descs(v.daily, v.wd).skip(0) =~= day_descs(v.daily, v.wd));
        let n = spec_steps(v, first as nat);
        assert(view_wf(n));
        lemma_whole_days(n, (k - 1) as nat);
        lemma_dist_days_nonneg(v.daily, (v.wd + 1) % 7, (k - 1) as nat);
        lemma_steps_add(v, first as nat, dist_days(v.daily, (v.wd + 1) % 7, (k - 1) as nat) as nat);
        lemma_apply_all_concat(v.point, day_descs(v.daily, v.wd), days_descs(v.daily, (v.wd + 1) % 7, (k - 1) as nat));
        assert(((v.wd + 1) % 7 + (k - 1)) % 7 == (v.wd + k) % 7);
    }
}

/// Replaying the whole week from the start of a weekday comes back to the
/// start of that weekday, with every event of the week carried out in
/// order; replaying the week once more changes nothing.
pub proof fn lemma_week_replay_settles(v: TrackerView)
    requires
        view_wf(v),
        v.t == 0,
    ensures
        ({
            let n = dist_days(v.daily, v.wd, 7);
            let w = spec_steps(v, n as nat);
            &&& n >= 0
            &&& w.daily == v.daily
            &&& w.wd == v.wd
            &&& w.t == 0
            &&& w.point == apply_all(v.point, days_descs(v.daily, v.wd, 7))
            &&& spec_steps(w, n as nat) == w
        }),
{
    lemma_whole_days(v, 7);
    let n = dist_days(v.daily, v.wd, 7);
    let w = spec_steps(v, n as nat);
    assert((v.wd + 7) % 7 == v.wd);
    assert(view_wf(w));
    lemma_whole_days(w, 7);
    lemma_apply_all_twice(v.point, days_descs(v.daily, v.wd, 7));
}

} // verus!
