//! Where a live dynamic filter is consulted while a split is read.

use vstd::prelude::*;

verus! {

/// When the live dynamic filter is consulted: the only moments at which pruning could still save
/// work.
#[derive(Clone, Copy, Debug, PartialEq, Eq, Structural)]
pub enum DynamicFilterCheckpoint {
    /// The footer is known.
    Footer,
    /// The first row group of the split is about to be decoded.
    FirstRowGroup,
    /// A later row group is about to be decoded.
    NextRowGroup,
}

/// What a consultation decides. Nothing is pruned on a dynamic filter.
#[derive(Clone, Copy, Debug, PartialEq, Eq, Structural)]
pub enum DynamicFilterVerdict {
    ReadEverything,
}

/// What a live dynamic filter looked like when the page source was built.
#[derive(Clone, Copy, Debug, PartialEq, Eq, Structural)]
pub struct DynamicFilterObservation {
    pub covered_columns: usize,
    pub constrains_anything: bool,
    pub complete: bool,
}

impl DynamicFilterObservation {
    /// Observe a filter that covers so many columns, whose current predicate admits every row or
    /// not, and which may still change or not.
    pub fn observe(covered_columns: usize, predicate_is_all: bool, is_complete: bool) -> (observation: DynamicFilterObservation)
        ensures
            observation == (DynamicFilterObservation {
                covered_columns,
                constrains_anything: !predicate_is_all,
                complete: is_complete,
            }),
    {
        DynamicFilterObservation {
            covered_columns,
            constrains_anything: !predicate_is_all,
            complete: is_complete,
        }
    }

    /// The observation of a filter that never constrains anything.
    pub fn complete_all() -> (observation: DynamicFilterObservation)
        ensures
            observation == (DynamicFilterObservation {
                covered_columns: 0,
                constrains_anything: false,
                complete: true,
            }),
    {
        DynamicFilterObservation { covered_columns: 0, constrains_anything: false, complete: true }
    }

    pub fn covered_columns(&self) -> (columns: usize)
        ensures
            columns == self.covered_columns,
    {
        self.covered_columns
    }

    /// Whether the filter had narrowed anything at all when it was observed.
    pub fn constrains_anything(&self) -> (constrains: bool)
        ensures
            constrains == self.constrains_anything,
    {
        self.constrains_anything
    }

    pub fn is_complete(&self) -> (complete: bool)
        ensures
            complete == self.complete,
    {
        self.complete
    }
}

/// The one place where a dynamic filter decides anything: whatever it looked like, every row group
/// is read.
pub fn consult_dynamic_filter(observation: &DynamicFilterObservation, checkpoint: DynamicFilterCheckpoint) -> (verdict: DynamicFilterVerdict)
    ensures
        verdict == DynamicFilterVerdict::ReadEverything,
{
    let _ = (observation, checkpoint);
    DynamicFilterVerdict::ReadEverything
}

} // verus!
