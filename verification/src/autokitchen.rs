//! Kitchen lights: when the ceiling light is flipped while all three
//! kitchen lights agree, the two LED strips follow it, unless the flip was
//! made through the API moments earlier.
use vstd::prelude::*;

verus! {

/// How long an API change of the ceiling light suppresses the strips
/// following it (nanoseconds).
pub const SUPPRESS_WINDOW: u128 = 2_000_000_000;

/// The kitchen automation.
#[derive(Clone, Copy, Debug)]
pub struct AutoKitchen {
    /// When (monotonic nanoseconds) the ceiling light was last set through
    /// the API, if that has not been consumed yet.
    pub suppress: Option<u128>,
    /// Reported state of the ceiling light.
    pub l0: Option<bool>,
    /// Reported state of the strip under the cupboards.
    pub l1: Option<bool>,
    /// Reported state of the strip under the stairs.
    pub l2: Option<bool>,
}

/// A report seen by the kitchen automation.
#[derive(Clone, Copy, Debug)]
pub enum Update {
    StreamEnded,
    L0(Option<bool>),
    L1(Option<bool>),
    L2(Option<bool>),
}

/// What the automation asks the caller to do.
#[derive(Clone, Copy, Debug, PartialEq, Eq, Structural)]
pub enum KitchenAction {
    /// Start over: a report stream ended.
    Stop,
    Idle,
    /// Set both strips to this state.
    SetStrips(bool),
}

/// Time from `earlier` to `now` on the monotonic clock, zero if `earlier`
/// is later.
pub open spec fn elapsed(now: u128, earlier: u128) -> int {
    if now >= earlier { now - earlier } else { 0 }
}

/// The automation after a report, and what it asks for.
pub open spec fn spec_step(k: AutoKitchen, u: Update, now: u128) -> (AutoKitchen, KitchenAction) {
    match u {
        Update::StreamEnded => (k, KitchenAction::Stop),
        Update::L1(x) => (AutoKitchen { l1: x, ..k }, KitchenAction::Idle),
        Update::L2(x) => (AutoKitchen { l2: x, ..k }, KitchenAction::Idle),
        Update::L0(None) => (AutoKitchen { l0: None, ..k }, KitchenAction::Idle),
        Update::L0(Some(new)) => {
            if k.l0 == Some(!new) && k.l1 == Some(!new) && k.l2 == Some(!new) {
                let proceed = match k.suppress {
                    None => true,
                    Some(earlier) => elapsed(now, earlier) > SUPPRESS_WINDOW,
                };
                (AutoKitchen { l0: Some(new), suppress: None, ..k },
                    if proceed { KitchenAction::SetStrips(new) } else { KitchenAction::Idle })
            } else {
                (AutoKitchen { l0: Some(new), ..k }, KitchenAction::Idle)
            }
        },
    }
}

impl AutoKitchen {
    /// Nothing seen and nothing suppressed.
    pub fn new() -> (r: AutoKitchen)
        ensures
            r.suppress is None && r.l0 is None && r.l1 is None && r.l2 is None,
    {
        AutoKitchen { suppress: None, l0: None, l1: None, l2: None }
    }

    /// The ceiling light is being set through the API at `now`: the strips
    /// will not follow the flip that this causes.
    pub fn suppress(&mut self, now: u128)
        ensures
            *final(self) == (AutoKitchen { suppress: Some(now), ..*old(self) }),
    {
        self.suppress = Some(now);
    }

    /// Handles one report at monotonic instant `now`.
    pub fn step(&mut self, u: Update, now: u128) -> (r: KitchenAction)
        ensures
            (*final(self), r) == spec_step(*old(self), u, now),
    {
        match u {
            Update::StreamEnded => KitchenAction::Stop,
            Update::L1(x) => {
                self.l1 = x;
                KitchenAction::Idle
            },
            Update::L2(x) => {
                self.l2 = x;
                KitchenAction::Idle
            },
            Update::L0(None) => {
                self.l0 = None;
                KitchenAction::Idle
            },
            Update::L0(Some(new)) => {
                let mut action = KitchenAction::Idle;
                if self.l0 == Some(!new) && self.l1 == Some(!new) && self.l2 == Some(!new) {
                    let proceed = match self.suppress {
                        None => true,
                        Some(earlier) => {
                            let age: u128 = if now >= earlier { now - earlier } else { 0 };
                            age > SUPPRESS_WINDOW
                        },
                    };
                    self.suppress = None;
                    if proceed {
                        action = KitchenAction::SetStrips(new);
                    }
                }
                self.l0 = Some(new);
                action
            },
        }
    }
}

/// The strips are only set when the ceiling light flipped away from a state
/// that all three lights shared, and then to the ceiling's new state.
pub proof fn lemma_strips_follow_agreeing_flip(k: AutoKitchen, u: Update, now: u128)
    ensures
        spec_step(k, u, now).1 matches KitchenAction::SetStrips(x) ==> {
            &&& u matches Update::L0(Some(n)) && n == x
            &&& k.l0 == Some(!x) && k.l1 == Some(!x) && k.l2 == Some(!x)
        },
{
}

/// When all three lights were reported in one state and the ceiling light
/// flips away from it, with no API suppression in force, both strips are set
/// to the ceiling light's new state, on or off alike.
pub proof fn lemma_strips_follow_flip(k: AutoKitchen, x: bool, now: u128)
    requires
        k.l0 == Some(!x) && k.l1 == Some(!x) && k.l2 == Some(!x),
        k.suppress matches Some(t) ==> elapsed(now, t) > SUPPRESS_WINDOW,
    ensures
        spec_step(k, Update::L0(Some(x)), now).1 == KitchenAction::SetStrips(x),
        spec_step(k, Update::L0(Some(x)), now).0.l0 == Some(x),
        spec_step(k, Update::L0(Some(x)), now).0.suppress is None,
{
}

/// An API suppression blocks the next agreeing flip within its window and
/// is used up by it.
pub proof fn lemma_suppression_used_once(k: AutoKitchen, new: bool, now: u128)
    requires
        k.l0 == Some(!new) && k.l1 == Some(!new) && k.l2 == Some(!new),
        k.suppress matches Some(t) && elapsed(now, t) <= SUPPRESS_WINDOW,
    ensures
        spec_step(k, Update::L0(Some(new)), now).1 == KitchenAction::Idle,
        spec_step(k, Update::L0(Some(new)), now).0.suppress is None,
{
}

} // verus!
