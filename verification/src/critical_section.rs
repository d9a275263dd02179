//! Critical-section capability tokens.
//!
//! A critical-section value is a capability proving that the code region
//! holding it cannot be preempted by any scheduler-relevant interrupt. The
//! guarantee itself is physical (it comes from the interrupt controller), so
//! nothing about it can be checked here; what the library checks is that every
//! access to the shared scheduler structures demands such a token.

use vstd::prelude::*;

verus! {

/// A critical section that restores its previous interrupt state when
/// released.
///
/// Any implementation must guarantee that no scheduler-relevant interrupt can
/// preempt whatever runs between [`enter`](Self::enter) and
/// [`restore`](Self::restore) (this includes [`exit`](Self::exit)).
///
/// Two equally valid strategies exist: a zero-cost token proven by already
/// running at the highest priority (see [`NoopCs`], used by the signalling
/// path), or an explicit save/restore of the previous interrupt mask (used by
/// dispatcher paths, which run at a lower, task-specific priority and must not
/// permanently disable other interrupts).
pub trait DroppableCriticalSection: Sized {
    /// Enter the critical section by disabling preemption and saving the
    /// previous interrupt state.
    fn enter() -> Self;

    /// Release the critical section, restoring the saved interrupt state.
    fn exit(self);

    /// Forget the critical section without re-enabling the interrupts.
    fn forget(self);

    /// Re-enable the interrupts, only if they were enabled upon entering the
    /// critical section.
    fn restore(&mut self);
}

/// A no-op token usable as proof that a code section cannot be preempted.
///
/// It may only be created by a context that already runs at the highest (most
/// urgent) system priority, such as the arrival-signalling interrupt: that
/// alone guarantees the context cannot be preempted, so entering and leaving
/// the critical section need not touch the hardware at all.
pub struct NoopCs;

impl DroppableCriticalSection for NoopCs {
    fn enter() -> Self {
        Self
    }

    fn exit(self) {
        let mut cs = self;
        cs.restore();
    }

    fn forget(self) {
    }

    fn restore(&mut self) {
    }
}

} // verus!
