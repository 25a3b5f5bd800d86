//! The persistent state with its dirty flag: writes mark it dirty, a
//! successful flush to disk clears the flag.
use vstd::prelude::*;
use crate::pb::PersistentState;
use crate::api::{cancel_heating_override, override_cleared};

verus! {

/// Where the persistent state is kept, and how long after a change it is
/// written (nanoseconds).
#[derive(Debug)]
pub struct StateArgs {
    pub persistent_state: String,
    pub state_write_interval: u128,
}

/// The persistent state and whether it changed since it was last written.
#[derive(Debug)]
pub struct StateCell {
    pub state: PersistentState,
    pub dirty: bool,
}

/// Read access to the state.
pub struct ReadGuard<'a>(pub &'a StateCell);

impl<'a> ReadGuard<'a> {
    /// The state.
    pub fn as_view(&self) -> (r: &'a PersistentState)
        ensures
            *r == self.0.state,
    {
        &self.0.state
    }
}

/// Write access to the state.
pub struct WriteGuard<'a>(pub &'a mut StateCell);

impl<'a> WriteGuard<'a> {
    /// The state, for changing: marks it dirty.
    pub fn as_mut(&mut self) -> (r: &mut PersistentState)
        ensures
            *r == old(self).0.state,
            final(self).0.state == *final(r),
            final(self).0.dirty,
    {
        self.0.dirty = true;
        &mut self.0.state
    }
}

/// How an attempt to write the state to disk went.
#[derive(Clone, Copy, Debug, PartialEq, Eq, Structural)]
pub enum FlushOutcome {
    /// Serialised, written and installed.
    Written,
    /// Serialising failed: the state cannot be written as it is.
    SerialiseError,
    /// Writing or installing the file failed: to be tried again.
    IoError,
}

impl StateCell {
    /// A clean cell holding `state`.
    pub fn new(state: PersistentState) -> (r: StateCell)
        ensures
            r.state == state,
            !r.dirty,
    {
        StateCell { state, dirty: false }
    }

    /// Whether the flusher must be woken when a writer releases the state,
    /// and whether a flush has anything to write: only after a change.
    pub fn needs_flush(&self) -> (r: bool)
        ensures
            r == self.dirty,
    {
        self.dirty
    }

    /// Ends the heating override, if one is set; only then is the state
    /// changed and marked dirty.  Returns whether it changed.
    pub fn cancel_heating_override(&mut self) -> (changed: bool)
        ensures
            changed == old(self).state.heating_override_until is Some,
            changed ==> override_cleared(old(self).state, final(self).state) && final(self).dirty,
            !changed ==> *final(self) == *old(self),
    {
        if self.state.heating_override_until.is_some() {
            self.dirty = true;
            cancel_heating_override(&mut self.state);
            true
        } else {
            false
        }
    }

    /// Records the outcome of a flush; returns the health to report.
    pub fn flushed(&mut self, outcome: FlushOutcome) -> (healthy: bool)
        ensures
            final(self).state == old(self).state,
            final(self).dirty == (old(self).dirty && outcome is IoError),
            healthy == outcome is Written,
    {
        match outcome {
            FlushOutcome::Written => {
                self.dirty = false;
                true
            },
            FlushOutcome::SerialiseError => {
                self.dirty = false;
                false
            },
            FlushOutcome::IoError => false,
        }
    }
}

} // verus!
