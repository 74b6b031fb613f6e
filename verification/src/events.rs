//! The event schema a presentation layer consumes.
//!
//! These are plain data: the engine's results are translated into events by
//! the caller, which also owns their serialized wire form.

use vstd::prelude::*;

verus! {

/// One event of a run's stream.
#[derive(Debug, Clone)]
pub enum Event {
    RunStart(RunStart),
    File(FileEvent),
    RunEnd(RunEnd),
}

/// The opening event: what the run was asked to do.
#[derive(Debug, Clone)]
pub struct RunStart {
    pub schema_version: String,
    pub tool_version: String,
    pub mode: String,
    pub input_mode: String,
    pub transaction_mode: String,
    pub dry_run: bool,
    pub validate_only: bool,
    pub no_write: bool,
    pub policies: Policies,
}

/// Run-level policies.
#[derive(Debug, Clone)]
pub struct Policies {
    pub require_match: bool,
    pub expect: Option<usize>,
    pub fail_on_change: bool,
}

/// One event per processed file.
#[derive(Debug, Clone)]
pub enum FileEvent {
    Success {
        path: String,
        modified: bool,
        replacements: usize,
        diff: Option<String>,
        generated_content: Option<String>,
        diff_is_binary: bool,
        is_virtual: bool,
    },
    Skipped { path: String, reason: SkipReason },
    Error { path: String, code: String, message: String },
}

/// Why a file was skipped.
#[derive(Debug, Clone, PartialEq)]
pub enum SkipReason {
    Binary,
    Symlink,
    GlobExclude,
    Other(String),
}

/// The closing event: what the run did.
#[derive(Debug, Clone)]
pub struct RunEnd {
    pub total_files: usize,
    pub total_processed: usize,
    pub total_modified: usize,
    pub total_replacements: usize,
    pub has_errors: bool,
    pub policy_violation: Option<String>,
    pub committed: bool,
    pub duration_ms: u64,
    pub exit_code: i32,
}

} // verus!
