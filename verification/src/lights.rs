//! Switches with an off timer (garden lights, underfloor heating): the
//! timer's end lives in the persistent state, and the switch is turned off
//! once it has passed.
use vstd::prelude::*;
use crate::api::ApiError;
use crate::pb::PersistentState;
use crate::time::{make_delay, representable, spec_make_delay, timestamp_instant, Timestamp};

verus! {

/// A switch whose off timer is one field of the persistent state.
pub trait OnOffTimerImpl {
    /// The switch's timer in state `s`.
    spec fn spec_timer(s: PersistentState) -> Option<Timestamp>;

    /// State `s` with the switch's timer replaced by `t`.
    spec fn spec_with_timer(s: PersistentState, t: Option<Timestamp>) -> PersistentState;

    /// The topic that sets the switch.
    spec fn spec_set_topic() -> Seq<char>;

    fn set_topic() -> (r: &'static str)
        ensures
            r@ == Self::spec_set_topic(),
    ;

    fn get_timer(state: &PersistentState) -> (r: Option<Timestamp>)
        ensures
            r == Self::spec_timer(*state),
    ;

    fn set_timer(state: &mut PersistentState, ts: Timestamp)
        ensures
            *final(state) == Self::spec_with_timer(*old(state), Some(ts)),
    ;

    fn clear_timer(state: &mut PersistentState)
        ensures
            *final(state) == Self::spec_with_timer(*old(state), None),
    ;
}

/// The garden lights.
pub struct Garden;

impl OnOffTimerImpl for Garden {
    open spec fn spec_timer(s: PersistentState) -> Option<Timestamp> {
        s.garden_light_until
    }

    open spec fn spec_with_timer(s: PersistentState, t: Option<Timestamp>) -> PersistentState {
        PersistentState { garden_light_until: t, ..s }
    }

    open spec fn spec_set_topic() -> Seq<char> {
        "zigbee/garden/set/state"@
    }

    fn set_topic() -> (r: &'static str) {
        "zigbee/garden/set/state"
    }

    fn get_timer(state: &PersistentState) -> (r: Option<Timestamp>) {
        state.garden_light_until
    }

    fn set_timer(state: &mut PersistentState, ts: Timestamp) {
        state.garden_light_until = Some(ts);
    }

    fn clear_timer(state: &mut PersistentState) {
        state.garden_light_until = None;
    }
}

/// The underfloor heating.
pub struct UnderfloorHeating;

impl OnOffTimerImpl for UnderfloorHeating {
    open spec fn spec_timer(s: PersistentState) -> Option<Timestamp> {
        s.underfloor_heating_until
    }

    open spec fn spec_with_timer(s: PersistentState, t: Option<Timestamp>) -> PersistentState {
        PersistentState { underfloor_heating_until: t, ..s }
    }

    open spec fn spec_set_topic() -> Seq<char> {
        "zigbee/underfloor_heating/set/state"@
    }

    fn set_topic() -> (r: &'static str) {
        "zigbee/underfloor_heating/set/state"
    }

    fn get_timer(state: &PersistentState) -> (r: Option<Timestamp>) {
        state.underfloor_heating_until
    }

    fn set_timer(state: &mut PersistentState, ts: Timestamp) {
        state.underfloor_heating_until = Some(ts);
    }

    fn clear_timer(state: &mut PersistentState) {
        state.underfloor_heating_until = None;
    }
}

/// Reading a switch's timer gives back what was last written to it, and
/// writing one switch's timer leaves the other's alone.
pub proof fn lemma_timer_read_after_write(s: PersistentState, t: Option<Timestamp>)
    ensures
        Garden::spec_timer(Garden::spec_with_timer(s, t)) == t,
        UnderfloorHeating::spec_timer(UnderfloorHeating::spec_with_timer(s, t)) == t,
        UnderfloorHeating::spec_timer(Garden::spec_with_timer(s, t)) == UnderfloorHeating::spec_timer(s),
        Garden::spec_timer(UnderfloorHeating::spec_with_timer(s, t)) == Garden::spec_timer(s),
{
}

/// What to wait for while a timer is (or is not) set.
#[derive(Clone, Copy, Debug, PartialEq, Eq, Structural)]
pub enum TimerWait {
    /// No usable timer: wait for the state to change.
    UntilChange,
    /// Wait for the state to change, or this many nanoseconds.
    UntilChangeOr(u128),
    /// The timer has passed: turn the switch off (and on success clear the
    /// timer with `clear_timer`), then wait for the state to change.
    Expired,
}

/// What to wait for with timer `t` at `now`.
pub open spec fn spec_timer_wait(t: Option<Timestamp>, now: int) -> TimerWait {
    match t {
        None => TimerWait::UntilChange,
        Some(ts) => match timestamp_instant(ts) {
            None => TimerWait::UntilChange,
            Some(u) => if u >= now { TimerWait::UntilChangeOr((u - now) as u128) } else { TimerWait::Expired },
        },
    }
}

/// A switch of kind `T` with an off timer.
pub struct OnOffTimer<T> {
    pub kind: T,
}

impl<T: OnOffTimerImpl> OnOffTimer<T> {
    /// A request to switch on (`None`: indefinitely; `Some(d)`: for `d`
    /// milliseconds, recording the timer) or off (`Some(0)`).  Returns the
    /// state to set the switch to.
    pub fn duration_ms(
        &self,
        maybe_duration_ms: Option<u64>,
        state: &mut PersistentState,
        now: i128,
    ) -> (r: Result<bool, ApiError>)
        requires
            representable(now as int),
        ensures
            maybe_duration_ms is None ==> r == Ok::<bool, ApiError>(true) && *final(state) == *old(state),
            maybe_duration_ms == Some(0u64) ==> r == Ok::<bool, ApiError>(false) && *final(state) == *old(state),
            maybe_duration_ms matches Some(d) ==> (d > 0 ==> match spec_make_delay(now as int, d * 1_000_000) {
                None => r == Err::<bool, ApiError>(ApiError::SillyDuration) && *final(state) == *old(state),
                Some(end) => r == Ok::<bool, ApiError>(true) && *final(state) == T::spec_with_timer(*old(state), Some(end)),
            }),
    {
        match maybe_duration_ms {
            None => Ok(true),
            Some(0) => Ok(false),
            Some(duration_ms) => {
                let d: u128 = (duration_ms as u128) * 1_000_000;
                match make_delay(now, d) {
                    None => Err(ApiError::SillyDuration),
                    Some(end) => {
                        T::set_timer(state, end);
                        Ok(true)
                    },
                }
            },
        }
    }

    /// What the timer task waits for in state `state` at `now`.
    pub fn timer_wait(&self, state: &PersistentState, now: i128) -> (r: TimerWait)
        requires
            representable(now as int),
        ensures
            r == spec_timer_wait(T::spec_timer(*state), now as int),
    {
        match T::get_timer(state) {
            None => TimerWait::UntilChange,
            Some(ts) => {
                if ts.seconds < 0 || ts.nanos < 0 {
                    return TimerWait::UntilChange;
                }
                let carry: i64 = (ts.nanos / 1_000_000_000) as i64;
                if ts.seconds > i64::MAX - carry {
                    return TimerWait::UntilChange;
                }
                let until: i128 = (ts.seconds as i128) * 1_000_000_000 + (ts.nanos as i128);
                if until >= now {
                    TimerWait::UntilChangeOr((until - now) as u128)
                } else {
                    TimerWait::Expired
                }
            },
        }
    }
}

/// A timer set by `duration_ms` for a positive duration is waited for for
/// exactly that duration.
pub proof fn lemma_timer_waits_requested_duration(now: int, d: u64)
    requires
        representable(now),
        d > 0,
        spec_make_delay(now, d * 1_000_000) is Some,
    ensures
        spec_timer_wait(spec_make_delay(now, d * 1_000_000), now) == TimerWait::UntilChangeOr((d * 1_000_000) as u128),
{
    crate::time::lemma_delay_roundtrip(now, d * 1_000_000);
}

} // verus!
