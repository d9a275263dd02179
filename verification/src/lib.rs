//! Runtime core of a preemptive earliest-deadline-first (EDF) scheduler for
//! interrupt-driven embedded applications.
//!
//! Tasks are declared with a relative deadline; the build-time priority
//! assignment bins them onto hardware interrupt priority levels, and the
//! runtime dispatches the runnable task with the tightest absolute deadline,
//! using the hardware's priority-based preemption instead of software context
//! switching.

pub mod capacity;
pub mod critical_section;
pub mod edf_pass;
pub mod laws;
pub mod run_queue;
pub mod scheduler;
mod seq_facts;
pub mod system_deadline;
pub mod task;
pub mod types;
pub mod wait_queue;
