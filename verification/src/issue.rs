//! The issue aggregate and its store-input values.

use vstd::prelude::*;

use crate::hold::{Hold, HoldView};
use crate::issue_id::IssueId;
use crate::status::Status;

verus! {

/// Default priority for new issues (1 is highest urgency, 5 lowest; the
/// store itself accepts any `i32`, only the CLI enforces the 1..=5 range).
pub const DEFAULT_PRIORITY: i32 = 2;

/// The characters of each string, in order.
pub open spec fn strings_view(v: Seq<String>) -> Seq<Seq<char>> {
    v.map_values(|s: String| s@)
}

/// The characters of each string slice, in order.
pub open spec fn strs_view(v: Seq<&str>) -> Seq<Seq<char>> {
    v.map_values(|s: &str| s@)
}

/// A full issue snapshot as fetched from the store. Timestamps are
/// milliseconds since the Unix epoch.
#[derive(Debug, Clone, PartialEq, Eq)]
pub struct Issue {
    pub id: IssueId,
    pub title: String,
    pub body: String,
    pub status: Status,
    pub priority: i32,
    pub assignee: String,
    pub created_at: i64,
    pub updated_at: i64,
    pub tags: Vec<String>,
    /// Present while the issue is held.
    pub hold: Option<Hold>,
}

/// The plain-value model of an [`Issue`].
pub struct IssueView {
    pub id: Seq<char>,
    pub title: Seq<char>,
    pub body: Seq<char>,
    pub status: Status,
    pub priority: i32,
    pub assignee: Seq<char>,
    pub created_at: i64,
    pub updated_at: i64,
    pub tags: Seq<Seq<char>>,
    pub hold: Option<HoldView>,
}

/// The model of an optional hold.
pub open spec fn hold_opt_view(h: Option<Hold>) -> Option<HoldView> {
    match h {
        Some(h) => Some(h@),
        None => None,
    }
}

impl View for Issue {
    type V = IssueView;

    open spec fn view(&self) -> IssueView {
        IssueView {
            id: self.id@,
            title: self.title@,
            body: self.body@,
            status: self.status,
            priority: self.priority,
            assignee: self.assignee@,
            created_at: self.created_at,
            updated_at: self.updated_at,
            tags: strings_view(self.tags@),
            hold: hold_opt_view(self.hold),
        }
    }
}

/// A copy of a list of strings with the same characters.
pub fn copy_strings(v: &Vec<String>) -> (r: Vec<String>)
    ensures
        r@ == v@,
        strings_view(r@) == strings_view(v@),
{
    let mut r: Vec<String> = Vec::new();
    let mut i: usize = 0;
    while i < v.len()
        invariant
            i <= v.len(),
            r@ == v@.take(i as int),
        decreases v.len() - i,
    {
        r.push(v[i].clone());
        assert(r@ =~= v@.take(i + 1));
        i = i + 1;
    }
    assert(v@.take(v.len() as int) =~= v@);
    r
}

impl Issue {
    /// A copy with the same model.
    pub fn duplicate(&self) -> (r: Issue)
        ensures
            r@ == self@,
    {
        Issue {
            id: self.id.duplicate(),
            title: self.title.clone(),
            body: self.body.clone(),
            status: self.status,
            priority: self.priority,
            assignee: self.assignee.clone(),
            created_at: self.created_at,
            updated_at: self.updated_at,
            tags: copy_strings(&self.tags),
            hold: match &self.hold {
                Some(h) => Some(h.duplicate()),
                None => None,
            },
        }
    }
}

/// Input for creating an issue.
#[derive(Debug, Clone, Copy)]
pub struct NewIssue<'a> {
    /// Caller-chosen id; `None` generates `<prefix>-<short_hash(title + now_ms)>`.
    pub id: Option<&'a str>,
    pub title: &'a str,
    pub body: &'a str,
    pub priority: i32,
    pub assignee: &'a str,
    pub tags: &'a [&'a str],
}

impl<'a> Default for NewIssue<'a> {
    fn default() -> (r: Self)
        ensures
            r.id is None,
            r.title@ == Seq::<char>::empty(),
            r.body@ == Seq::<char>::empty(),
            r.priority == DEFAULT_PRIORITY,
            r.assignee@ == Seq::<char>::empty(),
            r.tags@ == Seq::<&str>::empty(),
    {
        proof {
            reveal_strlit("");
        }
        NewIssue { id: None, title: "", body: "", priority: DEFAULT_PRIORITY, assignee: "", tags: &[] }
    }
}

/// Partial update of an issue; `None` fields keep their current value.
#[derive(Debug, Clone, Copy)]
pub struct IssueUpdate<'a> {
    pub title: Option<&'a str>,
    pub body: Option<&'a str>,
    pub status: Option<Status>,
    pub priority: Option<i32>,
    pub assignee: Option<&'a str>,
    pub add_tags: &'a [&'a str],
    pub rm_tags: &'a [&'a str],
}

impl<'a> Default for IssueUpdate<'a> {
    fn default() -> (r: Self)
        ensures
            r.title is None,
            r.body is None,
            r.status is None,
            r.priority is None,
            r.assignee is None,
            r.add_tags@ == Seq::<&str>::empty(),
            r.rm_tags@ == Seq::<&str>::empty(),
    {
        IssueUpdate {
            title: None,
            body: None,
            status: None,
            priority: None,
            assignee: None,
            add_tags: &[],
            rm_tags: &[],
        }
    }
}

} // verus!
