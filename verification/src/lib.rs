//! Coordination core of a recurring, time-boxed leadership election.
//!
//! Every instant and duration in this crate is a whole number of seconds;
//! instants count from the Unix epoch.

pub mod clock;
pub mod decimal;
pub mod keys;
pub mod command;
pub mod directory;
pub mod store;
pub mod coordinator;
pub mod tally;
pub mod finalizer;
pub mod laws;
pub mod notice;
pub mod wire;
