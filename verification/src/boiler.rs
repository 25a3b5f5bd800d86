//! Driving a boiler relay (heating or hot water) towards the wanted state.
//!
//! An intent must stay unchanged for a stability period before it is acted
//! on, and after each actuation the relay is left alone for a hold period.
//! A `TimedController` keeps the timers' deadlines: `HOLD_AFTER_ACT` after
//! an actuation and `KEEP_INTENTION` after a new intent is proposed; the
//! caller wakes at a deadline and hands the expiry over, which is taken only
//! once the deadline has come.
use vstd::prelude::*;
use crate::parse::Message;
use crate::time::representable;

verus! {

/// How long the relay is left alone after an actuation (nanoseconds).
pub const HOLD_AFTER_ACT: u128 = 20_000_000_000;
/// How long an intent must stay unchanged before it is acted on (nanoseconds).
pub const KEEP_INTENTION: u128 = 6_000_000_000;

/// The timers of a hold.
#[derive(Clone, Copy, Debug, PartialEq, Eq, Structural)]
pub enum HoldTimer {
    AfterAct,
    KeepIntention,
}

/// What `act` asks the caller to do.
#[derive(Clone, Copy, Debug, PartialEq, Eq, Structural)]
pub enum ActOutcome {
    /// Nothing.
    Nothing,
    /// (Re)start the `KEEP_INTENTION` timer: a new intent waits for stability.
    Propose,
    /// Set the relay, and start the `HOLD_AFTER_ACT` timer.
    Actuate,
}

/// Timing state of the relay.
#[derive(Clone, Copy, Debug, PartialEq, Eq, Structural)]
pub struct Hold {
    /// The `HOLD_AFTER_ACT` timer runs.
    pub after_act: bool,
    /// The `KEEP_INTENTION` timer runs.
    pub keep_intention: bool,
    /// Serial of the latest intent proposed.
    pub intention_proposed: u64,
    /// Serial of the intent that has stayed stable long enough.
    pub intention_allowed: u64,
}

/// The hold after `act(serial)`, and what the caller is asked to do.
pub open spec fn spec_act(h: Hold, serial: u64) -> (Hold, ActOutcome) {
    if serial == h.intention_allowed {
        if !h.after_act {
            (Hold { after_act: true, ..h }, ActOutcome::Actuate)
        } else {
            (h, ActOutcome::Nothing)
        }
    } else if serial != h.intention_proposed {
        (Hold { intention_proposed: serial, keep_intention: true, ..h }, ActOutcome::Propose)
    } else {
        (h, ActOutcome::Nothing)
    }
}

/// The hold after timer `t` expired.
pub open spec fn spec_timer_fired(h: Hold, t: HoldTimer) -> Hold {
    match t {
        HoldTimer::AfterAct => Hold { after_act: false, ..h },
        HoldTimer::KeepIntention => Hold { keep_intention: false, intention_allowed: h.intention_proposed, ..h },
    }
}

impl Hold {
    /// No timer running and nothing proposed.
    pub fn new() -> (r: Hold)
        ensures
            r == (Hold { after_act: false, keep_intention: false, intention_proposed: 0, intention_allowed: 0 }),
    {
        Hold { after_act: false, keep_intention: false, intention_proposed: 0, intention_allowed: 0 }
    }

    /// The relay should go to the intent numbered `serial`: acts on it if it
    /// has been stable long enough and no hold runs, proposes it if it is
    /// new.
    pub fn act(&mut self, serial: u64, state: bool) -> (r: ActOutcome)
        ensures
            (*final(self), r) == spec_act(*old(self), serial),
    {
        if serial == self.intention_allowed {
            if !self.after_act {
                self.after_act = true;
                ActOutcome::Actuate
            } else {
                ActOutcome::Nothing
            }
        } else if serial != self.intention_proposed {
            self.intention_proposed = serial;
            self.keep_intention = true;
            ActOutcome::Propose
        } else {
            ActOutcome::Nothing
        }
    }

    /// Timer `t` expired: the after-act hold ends, or the proposed intent
    /// becomes the allowed one.
    pub fn timer_fired(&mut self, t: HoldTimer)
        ensures
            *final(self) == spec_timer_fired(*old(self), t),
    {
        match t {
            HoldTimer::AfterAct => {
                self.after_act = false;
            },
            HoldTimer::KeepIntention => {
                self.keep_intention = false;
                self.intention_allowed = self.intention_proposed;
            },
        }
    }
}

/// An event seen by the controller.
#[derive(Clone, Copy, Debug, PartialEq, Eq, Structural)]
pub enum Update {
    /// The wanted relay state.
    NewIntent(bool),
    /// The relay state reported by the boiler.
    NewLive(bool),
    /// A hold timer expired (already applied with `Hold::timer_fired`).
    HoldRelease,
    /// An input stream ended.
    StreamEnded,
}

/// What the controller asks the caller to do after an event.
#[derive(Clone, Copy, Debug, PartialEq, Eq, Structural)]
pub enum ControllerAction {
    /// Start over: an input stream ended.
    Stop,
    /// Nothing to do.
    Idle,
    /// (Re)start the `KEEP_INTENTION` timer.
    Propose,
    /// Publish this relay state and start the `HOLD_AFTER_ACT` timer.
    Actuate(bool),
}

/// The controller of one relay.
#[derive(Clone, Copy, Debug)]
pub struct Controller {
    /// The wanted state, with the serial of the intent (bumped on each change).
    pub want: Option<(bool, u64)>,
    /// The reported state.
    pub got: Option<bool>,
    pub hold: Hold,
}

/// The wanted state after an intent `x`.
pub open spec fn spec_new_want(want: Option<(bool, u64)>, x: bool) -> Option<(bool, u64)> {
    match want {
        Some((old, i)) => if old != x { Some((x, (i + 1) as u64)) } else { want },
        None => Some((x, 1)),
    }
}

/// The controller after an event, and what the caller is asked to do.
pub open spec fn spec_step(c: Controller, u: Update) -> (Controller, ControllerAction) {
    match u {
        Update::StreamEnded => (c, ControllerAction::Stop),
        _ => {
            let c1 = match u {
                Update::NewIntent(x) => Controller { want: spec_new_want(c.want, x), ..c },
                Update::NewLive(x) => Controller { got: Some(x), ..c },
                _ => c,
            };
            match (c1.want, c1.got) {
                (Some((x, i)), Some(y)) if x != y => {
                    let (h, o) = spec_act(c1.hold, i);
                    (Controller { hold: h, ..c1 }, match o {
                        ActOutcome::Nothing => ControllerAction::Idle,
                        ActOutcome::Propose => ControllerAction::Propose,
                        ActOutcome::Actuate => ControllerAction::Actuate(x),
                    })
                },
                _ => (c1, ControllerAction::Idle),
            }
        },
    }
}

impl Controller {
    /// Nothing wanted or seen yet.
    pub fn new() -> (r: Controller)
        ensures
            r.want is None,
            r.got is None,
            r.hold == (Hold { after_act: false, keep_intention: false, intention_proposed: 0, intention_allowed: 0 }),
    {
        Controller { want: None, got: None, hold: Hold::new() }
    }

    /// Handles one input of the task: an event, or a hold timer's expiry
    /// (applied to the hold, then handled as a `HoldRelease`).
    pub fn input(&mut self, e: ControllerInput) -> (r: ControllerAction)
        requires
            old(self).want matches Some((_, i)) ==> i < u64::MAX,
        ensures
            (*final(self), r) == spec_input(*old(self), e),
    {
        proof {
            reveal(spec_input);
        }
        match e {
            ControllerInput::Event(u) => self.step(u),
            ControllerInput::Timer(t) => {
                self.hold.timer_fired(t);
                self.step(Update::HoldRelease)
            },
        }
    }

    /// Handles one event.
    pub fn step(&mut self, u: Update) -> (r: ControllerAction)
        requires
            old(self).want matches Some((_, i)) ==> i < u64::MAX,
        ensures
            (*final(self), r) == spec_step(*old(self), u),
    {
        match u {
            Update::StreamEnded => {
                return ControllerAction::Stop;
            },
            Update::NewIntent(x) => {
                self.want = match self.want {
                    Some((old, i)) => if old != x { Some((x, i + 1)) } else { Some((old, i)) },
                    None => Some((x, 1)),
                };
            },
            Update::NewLive(x) => {
                self.got = Some(x);
            },
            Update::HoldRelease => {},
        }
        match (self.want, self.got) {
            (Some((x, i)), Some(y)) => {
                if x != y {
                    match self.hold.act(i, x) {
                        ActOutcome::Nothing => ControllerAction::Idle,
                        ActOutcome::Propose => ControllerAction::Propose,
                        ActOutcome::Actuate => ControllerAction::Actuate(x),
                    }
                } else {
                    ControllerAction::Idle
                }
            },
            _ => ControllerAction::Idle,
        }
    }
}

/// The relay is only set to the wanted state, only when it differs from
/// the reported state, only for the intent that has stayed stable, and
/// never while an after-act hold runs; afterwards that hold runs.
pub proof fn lemma_actuation_guarded(c: Controller, u: Update)
    ensures
        ({
            let (c2, a) = spec_step(c, u);
            a matches ControllerAction::Actuate(x) ==> {
                &&& !c.hold.after_act
                &&& c2.hold.after_act
                &&& c2.want matches Some((w, i)) && w == x && i == c.hold.intention_allowed
                &&& c2.got matches Some(y) && y != x
            }
        }),
{
}

/// While the after-act hold runs, no event leads to an actuation.
pub proof fn lemma_no_actuation_during_hold(c: Controller, u: Update)
    requires
        c.hold.after_act,
    ensures
        !(spec_step(c, u).1 is Actuate),
        spec_step(c, u).0.hold.after_act,
{
}

/// The allowed intent only changes when the stability timer expires, and
/// then becomes the latest proposed one.
pub proof fn lemma_allowed_only_after_stability(c: Controller, u: Update, t: HoldTimer)
    ensures
        spec_step(c, u).0.hold.intention_allowed == c.hold.intention_allowed,
        spec_timer_fired(c.hold, t).intention_allowed == (
            if t is KeepIntention { c.hold.intention_proposed } else { c.hold.intention_allowed }),
{
}


/// What the controller's task hands it: an event, or the expiry of one of
/// the hold's timers (applied with `Hold::timer_fired`, then handled as a
/// `HoldRelease`).
#[derive(Clone, Copy, Debug, PartialEq, Eq, Structural)]
pub enum ControllerInput {
    Event(Update),
    Timer(HoldTimer),
}

/// The controller after an input, and what it asks for.
#[verifier::opaque]
pub open spec fn spec_input(c: Controller, e: ControllerInput) -> (Controller, ControllerAction) {
    match e {
        ControllerInput::Event(u) => spec_step(c, u),
        ControllerInput::Timer(t) => spec_step(Controller { hold: spec_timer_fired(c.hold, t), ..c }, Update::HoldRelease),
    }
}

/// The controller after the first `n` inputs of a run.
#[verifier::opaque]
pub open spec fn state_after(c: Controller, evs: Seq<ControllerInput>, n: nat) -> Controller
    decreases n,
{
    if n == 0 {
        c
    } else {
        spec_input(state_after(c, evs, (n - 1) as nat), evs[n - 1]).0
    }
}

/// What the controller asks for on input `i` of a run.
#[verifier::opaque]
pub open spec fn action_at(c: Controller, evs: Seq<ControllerInput>, i: nat) -> ControllerAction {
    spec_input(state_after(c, evs, i), evs[i as int]).1
}

/// The controller as `Controller::new` makes it.
pub open spec fn initial_controller() -> Controller {
    Controller {
        want: None,
        got: None,
        hold: Hold { after_act: false, keep_intention: false, intention_proposed: 0, intention_allowed: 0 },
    }
}

proof fn lemma_held_until(c: Controller, evs: Seq<ControllerInput>, a: nat, n: nat)
    requires
        a < n <= evs.len(),
        action_at(c, evs, a) is Actuate,
        forall|t: int| a < t < n ==> evs[t] != ControllerInput::Timer(HoldTimer::AfterAct),
    ensures
        state_after(c, evs, n).hold.after_act,
    decreases n,
{
    reveal(spec_input);
    reveal(state_after);
    reveal(action_at);
    if n > a + 1 {
        lemma_held_until(c, evs, a, (n - 1) as nat);
    }
}

/// Between two actuations of a run, the after-act hold timer expires (the
/// task starts it, for `HOLD_AFTER_ACT`, at each actuation).
pub proof fn lemma_actuations_separated_by_hold(c: Controller, evs: Seq<ControllerInput>, a: nat, b: nat)
    requires
        a < b < evs.len(),
        action_at(c, evs, a) is Actuate,
        action_at(c, evs, b) is Actuate,
    ensures
        exists|t: int| a < t <= b && evs[t] == ControllerInput::Timer(HoldTimer::AfterAct),
{
    reveal(spec_input);
    reveal(state_after);
    reveal(action_at);
    if !(exists|t: int| a < t <= b && evs[t] == ControllerInput::Timer(HoldTimer::AfterAct)) {
        lemma_held_until(c, evs, a, b);
        assert(evs[b as int] != ControllerInput::Timer(HoldTimer::AfterAct));
    }
}

/// The serial of the wanted state.
pub open spec fn serial_of(c: Controller) -> int {
    match c.want {
        Some((_, i)) => i as int,
        None => 0,
    }
}

proof fn lemma_serial_bound(evs: Seq<ControllerInput>, n: nat)
    requires
        n <= evs.len(),
        n < u64::MAX,
    ensures
        0 <= serial_of(state_after(initial_controller(), evs, n)) <= n,
        state_after(initial_controller(), evs, n).want is Some ==> serial_of(state_after(initial_controller(), evs, n)) >= 1,
    decreases n,
{
    reveal(spec_input);
    reveal(state_after);
    reveal(action_at);
    if n > 0 {
        lemma_serial_bound(evs, (n - 1) as nat);
    }
}

/// Along a run, the serial never goes down, and while it stays the same the
/// wanted state stays the same.
proof fn lemma_serial_monotone(evs: Seq<ControllerInput>, m: nat, n: nat)
    requires
        m <= n <= evs.len(),
        n < u64::MAX,
    ensures
        serial_of(state_after(initial_controller(), evs, m)) <= serial_of(state_after(initial_controller(), evs, n)),
        serial_of(state_after(initial_controller(), evs, m)) == serial_of(state_after(initial_controller(), evs, n))
            ==> state_after(initial_controller(), evs, m).want == state_after(initial_controller(), evs, n).want,
    decreases n,
{
    reveal(spec_input);
    reveal(state_after);
    reveal(action_at);
    if n > m {
        lemma_serial_monotone(evs, m, (n - 1) as nat);
        lemma_serial_bound(evs, (n - 1) as nat);
        lemma_serial_bound(evs, n);
    }
}

proof fn lemma_last_propose(evs: Seq<ControllerInput>, n: nat)
    requires
        n <= evs.len(),
        state_after(initial_controller(), evs, n).hold.intention_proposed != 0,
    ensures
        exists|p: int| 0 <= p < n && #[trigger] action_at(initial_controller(), evs, p as nat) is Propose
            && state_after(initial_controller(), evs, (p + 1) as nat).hold.intention_proposed
                == state_after(initial_controller(), evs, n).hold.intention_proposed
            && forall|q: nat| p < q < n ==> !(#[trigger] action_at(initial_controller(), evs, q) is Propose),
    decreases n,
{
    reveal(spec_input);
    reveal(state_after);
    reveal(action_at);
    let c0 = initial_controller();
    if n > 0 {
        let prev = state_after(c0, evs, (n - 1) as nat);
        if action_at(c0, evs, (n - 1) as nat) is Propose {
            let p = n - 1;
            assert(action_at(c0, evs, p as nat) is Propose);
        } else {
            assert(prev.hold.intention_proposed == state_after(c0, evs, n).hold.intention_proposed);
            lemma_last_propose(evs, (n - 1) as nat);
            let p = choose|p: int| 0 <= p < n - 1 && #[trigger] action_at(c0, evs, p as nat) is Propose
                && state_after(c0, evs, (p + 1) as nat).hold.intention_proposed == prev.hold.intention_proposed
                && forall|q: nat| p < q < n - 1 ==> !(#[trigger] action_at(c0, evs, q) is Propose);
            assert(action_at(c0, evs, p as nat) is Propose);
        }
    }
}

proof fn lemma_last_allow(evs: Seq<ControllerInput>, n: nat)
    requires
        n <= evs.len(),
        state_after(initial_controller(), evs, n).hold.intention_allowed != 0,
    ensures
        exists|t: int| 0 <= t < n && evs[t] == ControllerInput::Timer(HoldTimer::KeepIntention)
            && #[trigger] state_after(initial_controller(), evs, t as nat).hold.intention_proposed
                == state_after(initial_controller(), evs, n).hold.intention_allowed,
    decreases n,
{
    reveal(spec_input);
    reveal(state_after);
    reveal(action_at);
    let c0 = initial_controller();
    if n > 0 {
        let prev = state_after(c0, evs, (n - 1) as nat);
        if evs[n - 1] == ControllerInput::Timer(HoldTimer::KeepIntention) {
            assert(state_after(c0, evs, (n - 1) as nat).hold.intention_proposed == state_after(c0, evs, n).hold.intention_allowed);
        } else {
            assert(prev.hold.intention_allowed == state_after(c0, evs, n).hold.intention_allowed);
            lemma_last_allow(evs, (n - 1) as nat);
        }
    }
}

proof fn lemma_actuate_facts(c: Controller, e: ControllerInput)
    requires
        spec_input(c, e).1 is Actuate,
    ensures
        spec_input(c, e).0.want is Some,
        e == ControllerInput::Timer(HoldTimer::KeepIntention)
            ==> c.hold.intention_proposed == serial_of(spec_input(c, e).0),
        e != ControllerInput::Timer(HoldTimer::KeepIntention)
            ==> c.hold.intention_allowed == serial_of(spec_input(c, e).0),
{
    reveal(spec_input);
    reveal(state_after);
    reveal(action_at);
}

proof fn lemma_propose_records(c: Controller, e: ControllerInput)
    requires
        spec_input(c, e).1 is Propose,
    ensures
        spec_input(c, e).0.hold.intention_proposed == serial_of(spec_input(c, e).0),
{
    reveal(spec_input);
    reveal(state_after);
    reveal(action_at);
}

proof fn lemma_stability_timer(evs: Seq<ControllerInput>, b: nat)
    requires
        b < evs.len(),
        evs.len() < u64::MAX,
        action_at(initial_controller(), evs, b) is Actuate,
    ensures
        serial_of(state_after(initial_controller(), evs, (b + 1) as nat)) >= 1,
        exists|t: int| 0 <= t <= b && evs[t] == ControllerInput::Timer(HoldTimer::KeepIntention)
            && #[trigger] state_after(initial_controller(), evs, t as nat).hold.intention_proposed
                == serial_of(state_after(initial_controller(), evs, (b + 1) as nat)),
{
    reveal(state_after);
    reveal(action_at);
    let c0 = initial_controller();
    let cb = state_after(c0, evs, b);
    let e = evs[b as int];
    assert(state_after(c0, evs, (b + 1) as nat) == spec_input(cb, e).0);
    lemma_actuate_facts(cb, e);
    lemma_serial_bound(evs, (b + 1) as nat);
    if e != ControllerInput::Timer(HoldTimer::KeepIntention) {
        lemma_last_allow(evs, b);
    } else {
        assert(state_after(c0, evs, b as nat).hold.intention_proposed == serial_of(state_after(c0, evs, (b + 1) as nat)));
    }
}

proof fn lemma_proposal_before(evs: Seq<ControllerInput>, t: nat)
    requires
        t <= evs.len(),
        state_after(initial_controller(), evs, t).hold.intention_proposed != 0,
    ensures
        exists|p: int| 0 <= p < t && #[trigger] action_at(initial_controller(), evs, p as nat) is Propose
            && serial_of(state_after(initial_controller(), evs, (p + 1) as nat))
                == state_after(initial_controller(), evs, t).hold.intention_proposed
            && forall|q: nat| p < q < t ==> !(#[trigger] action_at(initial_controller(), evs, q) is Propose),
{
    reveal(state_after);
    reveal(action_at);
    let c0 = initial_controller();
    lemma_last_propose(evs, t);
    let p = choose|p: int| 0 <= p < t && #[trigger] action_at(c0, evs, p as nat) is Propose
        && state_after(c0, evs, (p + 1) as nat).hold.intention_proposed == state_after(c0, evs, t).hold.intention_proposed
        && forall|q: nat| p < q < t ==> !(#[trigger] action_at(c0, evs, q) is Propose);
    let cp = state_after(c0, evs, p as nat);
    assert(state_after(c0, evs, (p + 1) as nat) == spec_input(cp, evs[p]).0);
    lemma_propose_records(cp, evs[p]);
    assert(action_at(c0, evs, p as nat) is Propose);
}

/// In a run of a new controller, the relay is only set for an intent that
/// was proposed and then left unchanged until the stability timer, started
/// at that proposal and not restarted since (the task starts it, for
/// `KEEP_INTENTION`, at each proposal), expired: the intent actuated is the
/// one wanted right after the proposal.
pub proof fn lemma_actuation_after_stability(evs: Seq<ControllerInput>, b: nat)
    requires
        b < evs.len(),
        evs.len() < u64::MAX,
        action_at(initial_controller(), evs, b) is Actuate,
    ensures
        exists|p: int, t: int| #![trigger action_at(initial_controller(), evs, p as nat), evs[t]]
            0 <= p < t <= b
            && action_at(initial_controller(), evs, p as nat) is Propose
            && evs[t] == ControllerInput::Timer(HoldTimer::KeepIntention)
            && (forall|q: nat| p < q < t ==> !(#[trigger] action_at(initial_controller(), evs, q) is Propose))
            && state_after(initial_controller(), evs, (p + 1) as nat).want
                == state_after(initial_controller(), evs, (b + 1) as nat).want,
{
    let c0 = initial_controller();
    let i = serial_of(state_after(c0, evs, (b + 1) as nat));
    lemma_stability_timer(evs, b);
    let t = choose|t: int| 0 <= t <= b && evs[t] == ControllerInput::Timer(HoldTimer::KeepIntention)
        && #[trigger] state_after(c0, evs, t as nat).hold.intention_proposed == i;
    lemma_proposal_before(evs, t as nat);
    let p = choose|p: int| 0 <= p < t && #[trigger] action_at(c0, evs, p as nat) is Propose
        && serial_of(state_after(c0, evs, (p + 1) as nat)) == state_after(c0, evs, t as nat).hold.intention_proposed
        && forall|q: nat| p < q < t ==> !(#[trigger] action_at(c0, evs, q) is Propose);
    lemma_serial_monotone(evs, (p + 1) as nat, (b + 1) as nat);
    assert(action_at(c0, evs, p as nat) is Propose && evs[t] == ControllerInput::Timer(HoldTimer::KeepIntention));
}

/// A controller with the deadlines of its hold's timers (instants, in
/// nanoseconds): a timer is handed over only once its deadline has come.
#[derive(Clone, Copy, Debug)]
pub struct TimedController {
    pub c: Controller,
    /// When the after-act hold ends, while it runs.
    pub after_act_until: Option<i128>,
    /// When the proposed intent has been stable long enough, while the
    /// stability timer runs.
    pub keep_until: Option<i128>,
}

/// The deadline of timer `t`, if it runs.
pub open spec fn timer_deadline(tc: TimedController, t: HoldTimer) -> Option<i128> {
    match t {
        HoldTimer::AfterAct => tc.after_act_until,
        HoldTimer::KeepIntention => tc.keep_until,
    }
}

/// Input `e` at instant `now` is taken: an event always, a timer's expiry
/// only when the timer runs and its deadline has come.
pub open spec fn timer_due(tc: TimedController, e: ControllerInput, now: int) -> bool {
    match e {
        ControllerInput::Event(_) => true,
        ControllerInput::Timer(t) => timer_deadline(tc, t) matches Some(d) && now >= d,
    }
}

/// The timed controller after taking input `e` at instant `now`, and what
/// it asks for: the expired timer stops, a proposal starts the stability
/// timer for `KEEP_INTENTION`, an actuation starts the after-act hold for
/// `HOLD_AFTER_ACT`.
pub open spec fn spec_timed_input(tc: TimedController, e: ControllerInput, now: int) -> (TimedController, ControllerAction) {
    let (c2, a) = spec_input(tc.c, e);
    let stopped = match e {
        ControllerInput::Timer(HoldTimer::AfterAct) => TimedController { after_act_until: None, ..tc },
        ControllerInput::Timer(HoldTimer::KeepIntention) => TimedController { keep_until: None, ..tc },
        ControllerInput::Event(_) => tc,
    };
    let tc2 = TimedController { c: c2, ..stopped };
    (match a {
        ControllerAction::Propose => TimedController { keep_until: Some((now + KEEP_INTENTION) as i128), ..tc2 },
        ControllerAction::Actuate(_) => TimedController { after_act_until: Some((now + HOLD_AFTER_ACT) as i128), ..tc2 },
        _ => tc2,
    }, a)
}

impl TimedController {
    /// A new controller, no timer running.
    pub fn new() -> (r: TimedController)
        ensures
            r == initial_timed(),
    {
        TimedController { c: Controller::new(), after_act_until: None, keep_until: None }
    }

    /// The deadline of timer `t`, if it runs.
    pub fn deadline(&self, t: HoldTimer) -> (r: Option<i128>)
        ensures
            r == timer_deadline(*self, t),
    {
        match t {
            HoldTimer::AfterAct => self.after_act_until,
            HoldTimer::KeepIntention => self.keep_until,
        }
    }

    /// Takes input `e` at instant `now`, if it is due (else changes nothing
    /// and returns `None`), and says what to do.
    pub fn input_at(&mut self, e: ControllerInput, now: i128) -> (r: Option<ControllerAction>)
        requires
            old(self).c.want matches Some((_, i)) ==> i < u64::MAX,
            representable(now as int),
        ensures
            timer_due(*old(self), e, now as int) ==> {
                &&& r == Some(spec_timed_input(*old(self), e, now as int).1)
                &&& *final(self) == spec_timed_input(*old(self), e, now as int).0
            },
            !timer_due(*old(self), e, now as int) ==> r is None && *final(self) == *old(self),
    {
        match e {
            ControllerInput::Timer(t) => {
                match self.deadline(t) {
                    Some(d) => {
                        if now < d {
                            return None;
                        }
                    },
                    None => {
                        return None;
                    },
                }
                match t {
                    HoldTimer::AfterAct => {
                        self.after_act_until = None;
                    },
                    HoldTimer::KeepIntention => {
                        self.keep_until = None;
                    },
                }
            },
            ControllerInput::Event(_) => {},
        }
        let a = self.c.input(e);
        match a {
            ControllerAction::Propose => {
                self.keep_until = Some(now + KEEP_INTENTION as i128);
            },
            ControllerAction::Actuate(_) => {
                self.after_act_until = Some(now + HOLD_AFTER_ACT as i128);
            },
            _ => {},
        }
        Some(a)
    }
}

/// The timed controller as `TimedController::new` makes it.
pub open spec fn initial_timed() -> TimedController {
    TimedController { c: initial_controller(), after_act_until: None, keep_until: None }
}

/// The timed controller after the first `n` inputs of a run, input `k`
/// taken at instant `times[k]`.
pub open spec fn timed_after(tc: TimedController, evs: Seq<ControllerInput>, times: Seq<int>, n: nat) -> TimedController
    decreases n,
{
    if n == 0 {
        tc
    } else {
        spec_timed_input(timed_after(tc, evs, times, (n - 1) as nat), evs[n - 1], times[n - 1]).0
    }
}

/// A run as the task feeds the controller: each input taken (a timer's
/// expiry only once due), at instants that do not go back.
pub open spec fn taken_run(tc: TimedController, evs: Seq<ControllerInput>, times: Seq<int>) -> bool {
    &&& times.len() == evs.len()
    &&& forall|k: int| 0 <= k < evs.len() ==> #[trigger] timer_due(timed_after(tc, evs, times, k as nat), evs[k], times[k])
    &&& forall|k: int| 0 <= k < evs.len() ==> representable(#[trigger] times[k])
    &&& forall|i: int, j: int| 0 <= i <= j < times.len() ==> times[i] <= times[j]
}

proof fn lemma_timed_tracks(tc: TimedController, evs: Seq<ControllerInput>, times: Seq<int>, n: nat)
    ensures
        timed_after(tc, evs, times, n).c == state_after(tc.c, evs, n),
    decreases n,
{
    reveal(state_after);
    if n > 0 {
        lemma_timed_tracks(tc, evs, times, (n - 1) as nat);
    }
}

proof fn lemma_timed_action(tc: TimedController, evs: Seq<ControllerInput>, times: Seq<int>, k: nat)
    ensures
        spec_timed_input(timed_after(tc, evs, times, k), evs[k as int], times[k as int]).1 == action_at(tc.c, evs, k),
        timed_after(tc, evs, times, k + 1) == spec_timed_input(timed_after(tc, evs, times, k), evs[k as int], times[k as int]).0,
{
    reveal(action_at);
    lemma_timed_tracks(tc, evs, times, k);
}

proof fn lemma_after_act_deadline(tc: TimedController, evs: Seq<ControllerInput>, times: Seq<int>, a: nat, n: nat)
    requires
        taken_run(tc, evs, times),
        a < n <= evs.len(),
        action_at(tc.c, evs, a) is Actuate,
    ensures
        timed_after(tc, evs, times, n).after_act_until matches Some(d) ==> d >= times[a as int] + HOLD_AFTER_ACT,
    decreases n,
{
    let k = (n - 1) as nat;
    lemma_timed_action(tc, evs, times, k);
    assert(representable(times[k as int]));
    if n > a + 1 {
        lemma_after_act_deadline(tc, evs, times, a, k);
        assert(times[a as int] <= times[k as int]);
    }
}

/// In a run as the task feeds the controller, two actuations are at least
/// `HOLD_AFTER_ACT` apart.
pub proof fn lemma_actuations_apart(tc: TimedController, evs: Seq<ControllerInput>, times: Seq<int>, a: nat, b: nat)
    requires
        taken_run(tc, evs, times),
        a < b < evs.len(),
        action_at(tc.c, evs, a) is Actuate,
        action_at(tc.c, evs, b) is Actuate,
    ensures
        times[b as int] - times[a as int] >= HOLD_AFTER_ACT,
{
    lemma_actuations_separated_by_hold(tc.c, evs, a, b);
    let t = choose|t: int| a < t <= b && evs[t] == ControllerInput::Timer(HoldTimer::AfterAct);
    lemma_after_act_deadline(tc, evs, times, a, t as nat);
    assert(timer_due(timed_after(tc, evs, times, t as nat), evs[t], times[t]));
    assert(times[t] <= times[b as int]);
}

proof fn lemma_keep_deadline(tc: TimedController, evs: Seq<ControllerInput>, times: Seq<int>, p: nat, n: nat)
    requires
        taken_run(tc, evs, times),
        p < n <= evs.len(),
        action_at(tc.c, evs, p) is Propose,
        forall|q: nat| p < q < n ==> !(#[trigger] action_at(tc.c, evs, q) is Propose),
    ensures
        timed_after(tc, evs, times, n).keep_until matches Some(d) ==> d == times[p as int] + KEEP_INTENTION,
    decreases n,
{
    let k = (n - 1) as nat;
    lemma_timed_action(tc, evs, times, k);
    assert(representable(times[k as int]));
    if n > p + 1 {
        lemma_keep_deadline(tc, evs, times, p, k);
        assert(!(action_at(tc.c, evs, k) is Propose));
    }
}

/// In a run of a new controller as the task feeds it, the relay is only
/// set to an intent that was proposed at least `KEEP_INTENTION` earlier
/// and has been wanted, unchanged, ever since.
pub proof fn lemma_actuation_after_stable_intent(evs: Seq<ControllerInput>, times: Seq<int>, b: nat)
    requires
        taken_run(initial_timed(), evs, times),
        b < evs.len(),
        evs.len() < u64::MAX,
        action_at(initial_controller(), evs, b) is Actuate,
    ensures
        exists|p: int| #![trigger action_at(initial_controller(), evs, p as nat)]
            0 <= p < b
            && action_at(initial_controller(), evs, p as nat) is Propose
            && times[b as int] - times[p] >= KEEP_INTENTION
            && forall|k: int| p + 1 <= k <= b + 1
                ==> #[trigger] state_after(initial_controller(), evs, k as nat).want
                    == state_after(initial_controller(), evs, (b + 1) as nat).want,
{
    let c0 = initial_controller();
    let tc = initial_timed();
    lemma_actuation_after_stability(evs, b);
    let (p, t) = choose|p: int, t: int| #![trigger action_at(c0, evs, p as nat), evs[t]]
        0 <= p < t <= b
        && action_at(c0, evs, p as nat) is Propose
        && evs[t] == ControllerInput::Timer(HoldTimer::KeepIntention)
        && (forall|q: nat| p < q < t ==> !(#[trigger] action_at(c0, evs, q) is Propose))
        && state_after(c0, evs, (p + 1) as nat).want == state_after(c0, evs, (b + 1) as nat).want;
    lemma_keep_deadline(tc, evs, times, p as nat, t as nat);
    assert(timer_due(timed_after(tc, evs, times, t as nat), evs[t], times[t]));
    assert(times[t] <= times[b as int]);
    assert forall|k: int| p + 1 <= k <= b + 1 implies #[trigger] state_after(c0, evs, k as nat).want
        == state_after(c0, evs, (b + 1) as nat).want by {
        lemma_serial_monotone(evs, (p + 1) as nat, k as nat);
        lemma_serial_monotone(evs, k as nat, (b + 1) as nat);
        lemma_serial_monotone(evs, (p + 1) as nat, (b + 1) as nat);
    }
    assert(action_at(c0, evs, p as nat) is Propose);
}

/// A boiler relay that a `Controller` drives: the topic that sets it and
/// how the boiler reports it.
pub trait ControlSignal {
    /// The topic that sets the relay.
    spec fn spec_topic() -> Seq<char>;

    /// The relay state that a report gives, if any.
    spec fn spec_live(msg: Message) -> Option<bool>;

    fn topic() -> (r: &'static str)
        ensures
            r@ == Self::spec_topic(),
    ;

    fn get_live(msg: Message) -> (r: Option<bool>)
        ensures
            r == Self::spec_live(msg),
    ;
}

impl ControlSignal for crate::heat::Heat {
    open spec fn spec_topic() -> Seq<char> {
        crate::heat::spec_heat_topic()
    }

    open spec fn spec_live(msg: Message) -> Option<bool> {
        match msg {
            Message::Boiler(x) => x.heating,
            _ => None,
        }
    }

    fn topic() -> (r: &'static str) {
        crate::heat::Heat::topic()
    }

    fn get_live(msg: Message) -> (r: Option<bool>) {
        crate::heat::Heat::get_live(msg)
    }
}

impl ControlSignal for crate::hotwater::HotWater {
    open spec fn spec_topic() -> Seq<char> {
        crate::hotwater::spec_hot_water_topic()
    }

    open spec fn spec_live(msg: Message) -> Option<bool> {
        match msg {
            Message::Boiler(x) => x.hot_water,
            _ => None,
        }
    }

    fn topic() -> (r: &'static str) {
        crate::hotwater::HotWater::topic()
    }

    fn get_live(msg: Message) -> (r: Option<bool>) {
        crate::hotwater::HotWater::get_live(msg)
    }
}

} // verus!
