//! Player-claim management for a competitive demon list.
//!
//! Members of the list may assert ownership of a player identity by placing a
//! claim on it. The claim manager maintains the invariant that every user
//! holds at most one claim at a time: initiating a new claim atomically
//! removes all of that user's prior claims before inserting the new one.

pub mod claim;
pub mod overview;
