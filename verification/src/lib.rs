//! A resource-oriented work scheduler.
//!
//! Units of work ("systems") declare, through a list of claims, which shared
//! resources they need and in what mode (shared read or exclusive write).
//! The scheduler owns a type-keyed resource store and drives full execution
//! rounds: before a system runs, every one of its claims is recorded in an
//! access ledger that spans the whole round, and the round fails at the first
//! pair of incompatible claims. Only after a system's claims have all been
//! granted does the scheduler materialize a frame through which the system
//! may read the resources it claimed and overwrite those it claimed
//! exclusively.

pub mod access;
pub mod claim;
pub mod frame;
pub mod laws;
pub mod ledger;
pub mod scheduler;
pub mod store;
pub mod system;

pub use access::Access;
pub use claim::Claim;
pub use claim::Conflict;
pub use frame::Frame;
pub use ledger::Ledger;
pub use scheduler::RoundError;
pub use scheduler::Scheduler;
pub use store::Store;
pub use system::System;
