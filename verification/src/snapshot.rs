//! The snapshot store: the baseline that observations are compared against.
use crate::tree::{has_changed, Tree, TreeView};
use vstd::prelude::*;

verus! {

/// The last tree that was built, if any.
///
/// An empty store means that there is no baseline yet. The first observation
/// then becomes the baseline and is never reported as a change.
#[derive(Clone, Debug)]
pub struct SnapshotStore {
    baseline: Option<Tree>,
}

/// What comparing an observation against the store found.
#[derive(Clone, Debug)]
pub enum Comparison {
    /// There was no baseline; the observation has become the baseline.
    Adopted,
    /// The observation is the baseline tree.
    Unchanged,
    /// The observation differs from the baseline; it is handed back.
    Changed(Tree),
}

impl View for SnapshotStore {
    type V = Option<TreeView>;

    closed spec fn view(&self) -> Option<TreeView> {
        match self.baseline {
            Some(tree) => Some(tree@),
            None => None,
        }
    }
}

/// What [`SnapshotStore::compare`] leaves in a store that held `before` and
/// is shown `current`.
pub open spec fn baseline_after(before: Option<TreeView>, current: TreeView) -> Option<TreeView> {
    match before {
        Some(tree) => before,
        None => Some(current),
    }
}

/// Whether an observation of `current` counts as a change against `before`.
/// Without a baseline nothing does.
pub open spec fn is_change(before: Option<TreeView>, current: TreeView) -> bool {
    match before {
        Some(tree) => current != tree,
        None => false,
    }
}

impl SnapshotStore {
    /// The representation invariant: the baseline, if any, is a well-formed
    /// tree.
    pub closed spec fn wf(&self) -> bool {
        match self.baseline {
            Some(tree) => tree.wf(),
            None => true,
        }
    }

    /// A store without a baseline.
    pub fn new() -> (store: SnapshotStore)
        ensures
            store.wf(),
            store@ is None,
    {
        SnapshotStore { baseline: None }
    }

    /// A store whose baseline is `tree`, as when a snapshot was found on disk.
    pub fn with_baseline(tree: Tree) -> (store: SnapshotStore)
        requires
            tree.wf(),
        ensures
            store.wf(),
            store@ == Some(tree@),
    {
        SnapshotStore { baseline: Some(tree) }
    }

    /// The baseline, if there is one.
    pub fn baseline(&self) -> (tree: Option<&Tree>)
        requires
            self.wf(),
        ensures
            tree is Some <==> self@ is Some,
            tree is Some ==> tree.unwrap().wf() && tree.unwrap()@ == self@.unwrap(),
    {
        self.baseline.as_ref()
    }

    /// Whether there is a baseline.
    pub fn has_baseline(&self) -> (present: bool)
        ensures
            present == self@ is Some,
    {
        self.baseline.is_some()
    }

    /// Makes `tree` the baseline.
    pub fn refresh(&mut self, tree: Tree)
        requires
            tree.wf(),
        ensures
            final(self).wf(),
            final(self)@ == Some(tree@),
    {
        self.baseline = Some(tree);
    }

    /// Compares an observation against the baseline. Without a baseline the
    /// observation becomes the baseline and no change is reported.
    pub fn compare(&mut self, current: Tree) -> (found: Comparison)
        requires
            old(self).wf(),
            current.wf(),
        ensures
            final(self).wf(),
            final(self)@ == baseline_after(old(self)@, current@),
            found is Adopted <==> old(self)@ is None,
            found is Changed <==> is_change(old(self)@, current@),
            found matches Comparison::Changed(tree) ==> tree.wf() && tree@ == current@,
    {
        let changed = match &self.baseline {
            Some(tree) => has_changed(&current, tree),
            None => {
                self.baseline = Some(current);
                return Comparison::Adopted;
            },
        };
        if changed {
            Comparison::Changed(current)
        } else {
            Comparison::Unchanged
        }
    }
}

} // verus!
