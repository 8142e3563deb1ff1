//! Dependency edges between issues.

use vstd::prelude::*;

use crate::dep_kind::DepKind;
use crate::issue_id::IssueId;

verus! {

/// An active dependency edge: `src` `kind`s `dst` (e.g. src blocks dst).
/// Removed edges do not exist here: removal is an event in the log.
#[derive(Debug, Clone, PartialEq, Eq)]
pub struct Dep {
    pub src: IssueId,
    pub dst: IssueId,
    pub kind: DepKind,
}

/// The plain-value model of a [`Dep`].
pub struct DepView {
    pub src: Seq<char>,
    pub dst: Seq<char>,
    pub kind: DepKind,
}

impl View for Dep {
    type V = DepView;

    open spec fn view(&self) -> DepView {
        DepView { src: self.src@, dst: self.dst@, kind: self.kind }
    }
}

impl Dep {
    /// A copy with the same model.
    pub fn duplicate(&self) -> (r: Dep)
        ensures
            r@ == self@,
    {
        Dep { src: self.src.duplicate(), dst: self.dst.duplicate(), kind: self.kind }
    }
}

} // verus!
