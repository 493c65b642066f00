//! Completion engine for an application launcher: candidate discovery from a
//! colon-separated search path, prefix-based filtering with debounce and a
//! lazily installed snapshot, an execution outcome contract, and an
//! append-only command history with chronological recall.
use vstd::prelude::*;

pub mod backends;
pub mod config;
pub mod controller;
pub mod order;

verus! {

/// The debounce window: a `generate` call accepted at tick `t` suppresses
/// further calls until tick `t + DEBOUNCE_TICKS`.
pub const DEBOUNCE_TICKS: u64 = 1;

} // verus!
