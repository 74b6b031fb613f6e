//! Batch text-transformation engine.
//!
//! Given an ordered list of find/replace operations and a set of input
//! sources, the engine computes new content for each input, decides whether
//! to stage the changes for an all-at-once commit, and reports what happened.
//! Pattern matching supports literal and compiled-pattern (regex) modes with
//! case folding, word boundaries and replacement caps; results are rendered
//! as line-oriented diffs when a run is a dry run.

pub mod diff;
pub mod engine;
pub mod error;
pub mod events;
pub mod input;
pub mod matching;
pub mod model;
pub mod replacer;
pub mod transaction;

pub use error::Error;
