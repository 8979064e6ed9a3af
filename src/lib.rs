//! Execution instrumentation and fuzzing for contract tests.
//!
//! - `inspector` and `inner`: the inspector stack that fans every execution event out to
//!   its inspectors, and the synthetic top-level transactions run for intercepted calls.
//! - `prank`: the prank and broadcast state machine and the other per-test cheat state.
//! - `uint` and `word`: bounded 256-bit value generation with a shrink/grow search tree.
//! - `invariant_fuzz`: target and sender selection, call sequences, and the run of one
//!   sequence against the invariants.
//! - `snapshot`, `outcome`, `inline_config`, `fmt_config`, `cli`: gas snapshots, test
//!   outcomes, inline configuration, formatter directives and command settings.
use vstd::prelude::*;

pub mod address;
pub mod cli;
pub mod draw;
pub mod fmt_config;
pub mod inline_config;
pub mod inner;
pub mod inspector;
pub mod invariant_fuzz;
pub mod outcome;
pub mod prank;
pub mod snapshot;
pub mod uint;
pub mod word;

verus! {

} // verus!
