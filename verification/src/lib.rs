//! A typed facade over an operating-system job-scheduling service.
//!
//! The crate models the two pieces of genuine design in such a facade:
//! a fluent builder ([`task::Task`]) that accumulates a complete job
//! definition before a single registration call, and a recursive folder
//! walker ([`store`]) that enumerates every registered job beneath a
//! folder of the service's hierarchical namespace.
//!
//! All time spans exchanged with the service travel as `PT<seconds>S`
//! text; [`duration`] holds the verified encoder and decoder for that
//! format.

pub mod duration;
pub mod error;
pub mod store;
pub mod task;
pub mod task_action;
pub mod task_settings;
pub mod task_trigger;
