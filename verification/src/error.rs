//! Error taxonomy of the engine.
//!
//! Validation errors abort a run before any item is touched; encoding errors
//! are attributed to a single input item. Read and write failures never
//! arise here: content is handed in by the caller, and writes are performed
//! by the caller from the commit plan, so they are carried as plain message
//! strings inside a per-item result instead.

use vstd::prelude::*;

verus! {

/// An error of the transformation pipeline.
#[derive(Debug)]
pub enum Error {
    /// The pipeline configuration or a pattern was rejected before or during
    /// processing: empty input set, empty operation list, malformed glob,
    /// malformed pattern or replacement template.
    Validation(String),
    /// The content of one item was no longer valid UTF-8 after a
    /// transformation step.
    Encoding(String),
}

impl Error {
    /// The human-readable description carried by this error.
    pub open spec fn spec_message(self) -> Seq<char> {
        match self {
            Error::Validation(m) => m@,
            Error::Encoding(m) => m@,
        }
    }

    /// True for the validation class of errors.
    pub open spec fn is_validation(self) -> bool {
        matches!(self, Error::Validation(_))
    }

    /// The human-readable description carried by this error.
    pub fn message(&self) -> (r: &String)
        ensures
            r@ == self.spec_message(),
    {
        match self {
            Error::Validation(m) => m,
            Error::Encoding(m) => m,
        }
    }
}

} // verus!
