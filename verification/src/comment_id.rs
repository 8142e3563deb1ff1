//! Comment identifiers.

use vstd::prelude::*;

verus! {

/// A comment id: a 26-character ULID.
#[derive(Debug, Clone, PartialEq, Eq, Hash)]
pub struct CommentId(String);

impl View for CommentId {
    type V = Seq<char>;

    closed spec fn view(&self) -> Seq<char> {
        self.0@
    }
}

impl CommentId {
    /// Wrap a raw comment id.
    pub fn new(raw: String) -> (r: CommentId)
        ensures
            r@ == raw@,
    {
        CommentId(raw)
    }

    /// The id as text.
    pub fn as_str(&self) -> (r: &str)
        ensures
            r@ == self@,
    {
        self.0.as_str()
    }

    /// A copy with the same characters.
    pub fn duplicate(&self) -> (r: CommentId)
        ensures
            r@ == self@,
    {
        CommentId(self.0.clone())
    }
}

} // verus!
