//! Comments on issues.

use vstd::prelude::*;

use crate::comment_id::CommentId;
use crate::issue_id::IssueId;

verus! {

/// A comment on an issue.
#[derive(Debug, Clone, PartialEq, Eq)]
pub struct Comment {
    pub id: CommentId,
    pub issue_id: IssueId,
    /// Empty string means anonymous.
    pub author: String,
    pub body: String,
    pub created_at: i64,
}

/// The plain-value model of a [`Comment`].
pub struct CommentView {
    pub id: Seq<char>,
    pub issue_id: Seq<char>,
    pub author: Seq<char>,
    pub body: Seq<char>,
    pub created_at: i64,
}

impl View for Comment {
    type V = CommentView;

    open spec fn view(&self) -> CommentView {
        CommentView {
            id: self.id@,
            issue_id: self.issue_id@,
            author: self.author@,
            body: self.body@,
            created_at: self.created_at,
        }
    }
}

impl Comment {
    /// A copy with the same model.
    pub fn duplicate(&self) -> (r: Comment)
        ensures
            r@ == self@,
    {
        Comment {
            id: self.id.duplicate(),
            issue_id: self.issue_id.duplicate(),
            author: self.author.clone(),
            body: self.body.clone(),
            created_at: self.created_at,
        }
    }
}

} // verus!
