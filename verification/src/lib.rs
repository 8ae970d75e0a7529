//! Process-local concurrency control with Banker's-algorithm deadlock avoidance.
//!
//! The crate models the per-process state of a teaching kernel's
//! synchronization subsystem: slot tables of locks, counting semaphores and
//! condition variables, a thread table, and the deadlock-detector matrices
//! that guard every blocking acquisition when detection is enabled.  The
//! scheduler and trap machinery are external collaborators, so each entry
//! point takes the process state and the calling thread id as arguments and
//! performs one atomic transition under the process's metadata guard.

pub mod detector;
pub mod registry;
pub mod state;
pub mod sync;
pub mod tasks;
