//! The global system deadline.

use vstd::prelude::*;

use crate::critical_section::DroppableCriticalSection;
use crate::types::Timestamp;

verus! {

/// The absolute deadline of whichever logical context currently owns the
/// processor's effective urgency: the minimum deadline task currently
/// executing.
///
/// Initialized to the maximum representable timestamp, meaning "nothing urgent
/// is running". Every access demands a critical-section token.
pub struct SystemDeadline {
    value: Timestamp,
}

impl SystemDeadline {
    /// The current value of the register.
    pub closed spec fn spec_value(&self) -> Timestamp {
        self.value
    }

    pub fn new() -> (r: Self)
        ensures
            r.spec_value() == Timestamp::MAX,
    {
        Self { value: Timestamp::MAX }
    }

    /// Get the system deadline.
    pub fn get<CS: DroppableCriticalSection>(&self, _cs: &CS) -> (v: Timestamp)
        ensures
            v == self.spec_value(),
    {
        self.value
    }

    /// Replaces the system deadline with the deadline provided, and returns
    /// the old deadline.
    pub fn replace<CS: DroppableCriticalSection>(&mut self, _cs: &CS, new_dl: Timestamp) -> (
        prev: Timestamp)
        ensures
            prev == old(self).spec_value(),
            final (self).spec_value() == new_dl,
    {
        let prev = self.value;
        self.value = new_dl;
        prev
    }
}

} // verus!
