//! The data model of a run: operations, pipeline configuration, per-item
//! results and the report.

use vstd::prelude::*;

verus! {

/// A byte-range restriction attached to an operation. Supplied by an
/// external search pass as an optimization hint; it never changes the
/// matching rules, and the engine is free to ignore it.
#[derive(Debug, Clone)]
pub struct ReplacementRange {
    pub start: usize,
    pub end: usize,
}

/// Whether a staged write may follow a symlink at its target.
#[derive(PartialEq, Eq, Structural, Clone, Copy, Debug)]
pub enum Symlinks {
    Follow,
    NoFollow,
}

/// A single requested transformation, immutable once constructed. A pipeline
/// applies its operations strictly in order, each seeing the output of the
/// previous one.
#[derive(Debug)]
pub enum Operation {
    Replace {
        find: String,
        with: String,
        literal: bool,
        ignore_case: bool,
        smart_case: bool,
        word: bool,
        multiline: bool,
        dot_matches_newline: bool,
        no_unicode: bool,
        /// Maximum number of replacements; 0 means unlimited.
        limit: usize,
        range: Option<ReplacementRange>,
    },
}

/// The configuration of one run.
#[derive(Debug)]
pub struct Pipeline {
    pub operations: Vec<Operation>,
    pub glob_include: Option<Vec<String>>,
    pub glob_exclude: Option<Vec<String>>,
    pub dry_run: bool,
    pub validate_only: bool,
    pub symlinks: Symlinks,
}

impl Default for Pipeline {
    /// An empty pipeline: no operations, no filters, a live run that does
    /// not follow symlinks.
    fn default() -> (r: Self)
        ensures
            r.operations@ == Seq::<Operation>::empty(),
            r.glob_include is None,
            r.glob_exclude is None,
            !r.dry_run,
            !r.validate_only,
            r.symlinks == Symlinks::NoFollow,
    {
        Pipeline {
            operations: Vec::new(),
            glob_include: None,
            glob_exclude: None,
            dry_run: false,
            validate_only: false,
            symlinks: Symlinks::NoFollow,
        }
    }
}

/// One outcome record per input item, in input order.
#[derive(Debug)]
pub struct FileResult {
    /// The identity of the target (a path, or the stdin marker).
    pub path: String,
    /// Whether the transformed content differs from the original.
    pub modified: bool,
    /// Total substitutions performed over all operations.
    pub replacements: usize,
    /// The error attributed to this item, if any.
    pub error: Option<String>,
    /// The rendered diff, when the run asked for one and content changed.
    pub diff: Option<Vec<u8>>,
    /// For text items on live runs: the content routed to the side channel
    /// (the transformed content when modified, the original otherwise).
    pub content: Option<Vec<u8>>,
}

/// The ordered results of a run plus the run-level flags captured at
/// construction.
#[derive(Debug)]
pub struct Report {
    pub files: Vec<FileResult>,
    pub dry_run: bool,
    pub validate_only: bool,
}

impl Report {
    /// An empty report carrying the run flags.
    pub fn new(dry_run: bool, validate_only: bool) -> (r: Report)
        ensures
            r.files@ == Seq::<FileResult>::empty(),
            r.dry_run == dry_run,
            r.validate_only == validate_only,
    {
        Report { files: Vec::new(), dry_run, validate_only }
    }

    /// Appends one result; the report is append-only.
    pub fn add_result(&mut self, result: FileResult)
        ensures
            final(self).files@ == old(self).files@.push(result),
            final(self).dry_run == old(self).dry_run,
            final(self).validate_only == old(self).validate_only,
    {
        self.files.push(result);
    }
}

} // verus!
