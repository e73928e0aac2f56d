//! Collections of asset handles used by the graph-building collaborators:
//! evaluated entry points, and the chain of already-available assets.

use vstd::prelude::*;
use crate::erased::Vc;

verus! {

/// The evaluated entry points of a chunk group, in insertion order, each an
/// engine handle.
#[derive(Debug, Clone)]
pub struct EvaluatableAssets {
    pub entries: Vec<Vc>,
}

impl EvaluatableAssets {
    /// No entries.
    pub fn empty() -> (r: EvaluatableAssets)
        ensures
            r.entries@ == Seq::<Vc>::empty(),
    {
        EvaluatableAssets { entries: Vec::new() }
    }

    /// Exactly one entry.
    pub fn one(entry: Vc) -> (r: EvaluatableAssets)
        ensures
            r.entries@ == seq![entry],
    {
        let mut entries: Vec<Vc> = Vec::new();
        entries.push(entry);
        proof {
            assert(entries@ =~= seq![entry]);
        }
        EvaluatableAssets { entries }
    }

    /// These entries, with one more appended.
    pub fn with_entry(self, entry: Vc) -> (r: EvaluatableAssets)
        ensures
            r.entries@ == self.entries@.push(entry),
    {
        let mut entries = self.entries;
        entries.push(entry);
        EvaluatableAssets { entries }
    }
}

/// Which assets are already available to a chunk group. Adding more roots
/// forms a linked-list-like structure — each link a handle to the parent
/// record — to allow caching availability queries.
#[derive(Debug, Clone)]
pub struct AvailableAssets {
    pub parent: Option<Vc>,
    pub roots: Vec<Vc>,
}

impl AvailableAssets {
    /// A record with the given parent link and roots.
    pub fn new_normalized(parent: Option<Vc>, roots: Vec<Vc>) -> (r: AvailableAssets)
        ensures
            r.parent == parent,
            r.roots@ == roots@,
    {
        AvailableAssets { parent, roots }
    }

    /// A chain head: the given roots and no parent.
    pub fn new(roots: Vec<Vc>) -> (r: AvailableAssets)
        ensures
            r.parent is None,
            r.roots@ == roots@,
    {
        AvailableAssets::new_normalized(None, roots)
    }
}

} // verus!
