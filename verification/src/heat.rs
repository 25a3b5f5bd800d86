//! The heating relay: wanted on whenever some zone's hold calls for heat.
use vstd::prelude::*;
use crate::parse::Message;
use crate::pb::PersistentState;

verus! {

/// The topic that sets the heating relay.
pub open spec fn spec_heat_topic() -> Seq<char> {
    "zigbee/boiler/set/state_l2"@
}

/// The override entry's hold calls for heat.
pub open spec fn calls_for_heat(e: crate::pb::SetPoint2) -> bool {
    e.hysteresis matches Some(h) && h.state_or_default()
}

/// Some zone's hold calls for heat.
pub open spec fn spec_heat_intent(s: PersistentState) -> bool {
    exists|k: int| 0 <= k < s.heating_override@.len() && calls_for_heat(#[trigger] s.heating_override@[k])
}

/// The heating relay a boiler control message should set.
pub struct Heat;

impl Heat {
    /// The topic that sets the heating relay.
    pub fn topic() -> (r: &'static str)
        ensures
            r@ == spec_heat_topic(),
    {
        "zigbee/boiler/set/state_l2"
    }

    /// Whether heating is wanted in state `s`.
    pub fn intent(s: &PersistentState) -> (r: bool)
        ensures
            r == spec_heat_intent(*s),
    {
        let mut k: usize = 0;
        while k < s.heating_override.len()
            invariant
                k <= s.heating_override@.len(),
                forall|j: int| 0 <= j < k ==> !calls_for_heat(#[trigger] s.heating_override@[j]),
            decreases s.heating_override@.len() - k,
        {
            if let Some(h) = s.heating_override[k].hysteresis {
                if let Some(true) = h.state {
                    assert(calls_for_heat(s.heating_override@[k as int]));
                    return true;
                }
            }
            k = k + 1;
        }
        false
    }

    /// The heating relay state in a boiler report.
    pub fn get_live(msg: Message) -> (r: Option<bool>)
        ensures
            r == (match msg {
                Message::Boiler(x) => x.heating,
                _ => None,
            }),
    {
        match msg {
            Message::Boiler(x) => x.heating,
            _ => None,
        }
    }
}

} // verus!
