//! Core of a spaced-repetition scheduling engine.
//!
//! The library is organised leaf-first: durations and fixed-point scalars,
//! then per-tag settings, the per-card interval/ease state machine, the deck
//! parser, and finally the scheduler that reconciles persisted state against
//! content and picks the next card to present.

use vstd::prelude::*;

pub mod cards;
pub mod clock;
pub mod deck;
pub mod duration;
pub mod milli;
pub mod scheduler;
pub mod settings;
pub mod text;

verus! {

/// A point in time, in whole minutes since the Unix epoch (UTC).
pub type Time = i64;

} // verus!
