//! The transaction layer: staged writes and all-at-once commit.
//!
//! Staging is pure: a staged entry is a pending write held in memory, and
//! nothing touches a target while the manager is open. `commit` consumes the
//! manager and hands the ordered write plan to the caller, which performs
//! each durable write (write to a temporary, then rename, honoring the
//! entry's symlink policy). Discarding the manager without committing is the
//! implicit rollback: no plan is ever produced, so every original target
//! stays byte-identical to its pre-run content.

use vstd::prelude::*;

verus! {

/// One pending write: the target's identity, the new content, and whether
/// the write may follow a symlink at the target.
#[derive(Debug)]
pub struct StagedEntry {
    pub path: String,
    pub content: Vec<u8>,
    pub follow_symlinks: bool,
}

/// Stages proposed writes in order; terminal states are commit (the caller
/// receives the plan) and abandonment (the manager is dropped, nothing is
/// written).
#[derive(Debug)]
pub struct TransactionManager {
    staged: Vec<StagedEntry>,
}

impl TransactionManager {
    /// The entries staged so far, in staging order.
    pub closed spec fn staged_entries(&self) -> Seq<StagedEntry> {
        self.staged@
    }

    /// An open manager with nothing staged.
    pub fn new() -> (r: Self)
        ensures
            r.staged_entries() == Seq::<StagedEntry>::empty(),
    {
        TransactionManager { staged: Vec::new() }
    }

    /// Appends one pending write; no target is touched.
    pub fn stage(&mut self, entry: StagedEntry)
        ensures
            final(self).staged_entries() == old(self).staged_entries().push(entry),
    {
        self.staged.push(entry);
    }

    /// Closes the manager and returns the ordered write plan: every staged
    /// entry, in staging order. The caller applies each entry durably, in
    /// order, stopping at the first failure.
    pub fn commit(self) -> (r: Vec<StagedEntry>)
        ensures
            r@ == self.staged_entries(),
    {
        self.staged
    }
}

} // verus!
