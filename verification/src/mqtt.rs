//! Health of the MQTT connection, from the events of the client's loop.
use vstd::prelude::*;

verus! {

/// What the MQTT client loop reported.
#[derive(Clone, Copy, Debug, PartialEq, Eq, Structural)]
pub enum MqttEvent {
    /// A message arrived.
    Publish,
    /// The broker answered the connection, successfully or not.
    ConnAck(bool),
    /// Any other incoming packet.
    OtherIncoming,
    /// A packet went out.
    Outgoing,
    /// The client failed.
    Error,
}

/// The event shows a working connection.
pub open spec fn spec_event_healthy(e: MqttEvent) -> bool {
    match e {
        MqttEvent::ConnAck(ok) => ok,
        MqttEvent::Error => false,
        _ => true,
    }
}

/// Whether the event shows a working connection.
pub fn event_healthy(e: MqttEvent) -> (r: bool)
    ensures
        r == spec_event_healthy(e),
{
    match e {
        MqttEvent::ConnAck(ok) => ok,
        MqttEvent::Error => false,
        _ => true,
    }
}

/// What to do after an event.
#[derive(Clone, Copy, Debug, PartialEq, Eq, Structural)]
pub struct HealthAction {
    /// Report this health (only on a change).
    pub signal: Option<bool>,
    /// Reset the reconnection back-off.
    pub reset_backoff: bool,
    /// Wait for the next back-off delay before polling again.
    pub back_off: bool,
}

/// The reported health of the connection.
#[derive(Clone, Copy, Debug, PartialEq, Eq, Structural)]
pub struct Health {
    pub healthy: bool,
}

impl Health {
    /// Not healthy until the first good event.
    pub fn new() -> (r: Health)
        ensures
            !r.healthy,
    {
        Health { healthy: false }
    }

    /// Takes note of an event: health changes are reported, a recovery
    /// resets the back-off, and every bad event backs off.
    pub fn step(&mut self, e: MqttEvent) -> (r: HealthAction)
        ensures
            final(self).healthy == spec_event_healthy(e),
            r.signal == (if spec_event_healthy(e) != old(self).healthy { Some(spec_event_healthy(e)) } else { None::<bool> }),
            r.reset_backoff == (spec_event_healthy(e) && !old(self).healthy),
            r.back_off == !spec_event_healthy(e),
    {
        let now_healthy = event_healthy(e);
        if now_healthy {
            if !self.healthy {
                self.healthy = true;
                HealthAction { signal: Some(true), reset_backoff: true, back_off: false }
            } else {
                HealthAction { signal: None, reset_backoff: false, back_off: false }
            }
        } else {
            if self.healthy {
                self.healthy = false;
                HealthAction { signal: Some(false), reset_backoff: false, back_off: true }
            } else {
                HealthAction { signal: None, reset_backoff: false, back_off: true }
            }
        }
    }
}


/// A change of the wanted subscriptions, as queued for the broker.
#[derive(Clone, Copy, Debug, PartialEq, Eq, Structural)]
pub enum SubUnsub {
    /// A subscription was made (and is still alive, with a topic).
    Sub,
    /// The last holder of a subscription dropped it.
    Unsub,
}

/// Whether to pass a queued change on to the broker, given whether the
/// topic is (still) registered: a subscription only while its topic is
/// registered, an unsubscription only once it no longer is (a newer
/// subscription may have taken its place).
pub fn forward_change(change: SubUnsub, registered: bool) -> (r: bool)
    ensures
        r == (match change {
            SubUnsub::Sub => registered,
            SubUnsub::Unsub => !registered,
        }),
{
    match change {
        SubUnsub::Sub => registered,
        SubUnsub::Unsub => !registered,
    }
}

} // verus!
