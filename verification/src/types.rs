//! Scalar types shared by the whole scheduler.

use vstd::prelude::*;

verus! {

/// A point on the platform's monotonic cycle counter.
pub type Timestamp = u32;

/// A time budget, measured in the same unit as [`Timestamp`].
///
/// A relative deadline is the number of cycles a task has, counted from the
/// moment it becomes runnable; an absolute deadline is a [`Timestamp`].
pub type Deadline = u32;

} // verus!
