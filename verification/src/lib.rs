//! Daily Set: the rules and the daily board of a game of Set.
//!
//! A board holds twelve distinct cards among which exactly six sets exist.
//! The player picks three cards at a time; a pick that is one of the six sets
//! is recorded as found, any other pick counts as a mistake.
pub mod game;
pub mod modal;
pub mod rng;
pub mod state;

use vstd::prelude::*;

verus! {

} // verus!
