//! The records of the `issues.jsonl` event log, one per line.
//!
//! Record structs mirror the bytes, not the domain: raw `String`s where the
//! log may contain anything. Conversion into domain values happens in
//! exactly one place per record, and a conversion failure means "skip this
//! record" — the self-healing tolerance that also lets unknown future
//! record types pass through harmlessly.

use vstd::prelude::*;

use crate::comment::Comment;
use crate::comment_id::CommentId;
use crate::dep_kind::{DepKind, dep_kind_wire, parse_dep_kind_spec};
use crate::issue::{copy_strings, strings_view};
use crate::issue_id::{IssueId, valid_issue_id};
use crate::status::{Status, parse_status_spec, status_wire};
use crate::text::{owned, str_eq};

verus! {

/// A full issue snapshot.
#[derive(Debug, Clone, PartialEq)]
pub struct IssueRecord {
    pub id: String,
    pub title: String,
    pub body: String,
    pub status: String,
    pub priority: i32,
    pub assignee: String,
    pub created_at: i64,
    /// Old lines may omit this; readers fall back to `created_at`.
    pub updated_at: Option<i64>,
    pub tags: Vec<String>,
}

/// A comment on an issue.
#[derive(Debug, Clone, PartialEq)]
pub struct CommentRecord {
    pub id: String,
    pub issue_id: String,
    pub author: String,
    pub body: String,
    pub created_at: i64,
}

/// A dependency edge event: `state` is `"removed"` for a removal and
/// anything else (normally `"active"`) for an addition.
#[derive(Debug, Clone, PartialEq)]
pub struct DepRecord {
    pub src_id: String,
    pub dst_id: String,
    pub kind: String,
    pub state: String,
}

/// A hold event: `state` is `"active"` (place or replace the hold) or
/// `"released"`.
#[derive(Debug, Clone, PartialEq)]
pub struct HoldRecord {
    pub issue_id: String,
    pub state: String,
    pub reason: String,
    pub kind: String,
    pub until: Option<i64>,
    pub created_at: i64,
}

/// A tombstone: the issue is hidden from then on.
#[derive(Debug, Clone, PartialEq)]
pub struct DeleteRecord {
    pub issue_id: String,
    pub deleted_at: i64,
}

/// One line of `issues.jsonl`, discriminated by its `type` field.
#[derive(Debug, Clone, PartialEq)]
pub enum Record {
    Issue(IssueRecord),
    Comment(CommentRecord),
    Dep(DepRecord),
    Hold(HoldRecord),
    Delete(DeleteRecord),
}

/// Plain-value model of an [`IssueRecord`].
pub struct IssueRecordView {
    pub id: Seq<char>,
    pub title: Seq<char>,
    pub body: Seq<char>,
    pub status: Seq<char>,
    pub priority: i32,
    pub assignee: Seq<char>,
    pub created_at: i64,
    pub updated_at: Option<i64>,
    pub tags: Seq<Seq<char>>,
}

/// Plain-value model of a [`CommentRecord`].
pub struct CommentRecordView {
    pub id: Seq<char>,
    pub issue_id: Seq<char>,
    pub author: Seq<char>,
    pub body: Seq<char>,
    pub created_at: i64,
}

/// Plain-value model of a [`DepRecord`].
pub struct DepRecordView {
    pub src_id: Seq<char>,
    pub dst_id: Seq<char>,
    pub kind: Seq<char>,
    pub state: Seq<char>,
}

/// Plain-value model of a [`HoldRecord`].
pub struct HoldRecordView {
    pub issue_id: Seq<char>,
    pub state: Seq<char>,
    pub reason: Seq<char>,
    pub kind: Seq<char>,
    pub until: Option<i64>,
    pub created_at: i64,
}

/// Plain-value model of a [`DeleteRecord`].
pub struct DeleteRecordView {
    pub issue_id: Seq<char>,
    pub deleted_at: i64,
}

/// Plain-value model of a [`Record`].
pub enum RecordView {
    Issue(IssueRecordView),
    Comment(CommentRecordView),
    Dep(DepRecordView),
    Hold(HoldRecordView),
    Delete(DeleteRecordView),
}

impl View for IssueRecord {
    type V = IssueRecordView;

    open spec fn view(&self) -> IssueRecordView {
        IssueRecordView {
            id: self.id@,
            title: self.title@,
            body: self.body@,
            status: self.status@,
            priority: self.priority,
            assignee: self.assignee@,
            created_at: self.created_at,
            updated_at: self.updated_at,
            tags: strings_view(self.tags@),
        }
    }
}

impl View for CommentRecord {
    type V = CommentRecordView;

    open spec fn view(&self) -> CommentRecordView {
        CommentRecordView {
            id: self.id@,
            issue_id: self.issue_id@,
            author: self.author@,
            body: self.body@,
            created_at: self.created_at,
        }
    }
}

impl View for DepRecord {
    type V = DepRecordView;

    open spec fn view(&self) -> DepRecordView {
        DepRecordView {
            src_id: self.src_id@,
            dst_id: self.dst_id@,
            kind: self.kind@,
            state: self.state@,
        }
    }
}

impl View for HoldRecord {
    type V = HoldRecordView;

    open spec fn view(&self) -> HoldRecordView {
        HoldRecordView {
            issue_id: self.issue_id@,
            state: self.state@,
            reason: self.reason@,
            kind: self.kind@,
            until: self.until,
            created_at: self.created_at,
        }
    }
}

impl View for DeleteRecord {
    type V = DeleteRecordView;

    open spec fn view(&self) -> DeleteRecordView {
        DeleteRecordView { issue_id: self.issue_id@, deleted_at: self.deleted_at }
    }
}

impl View for Record {
    type V = RecordView;

    open spec fn view(&self) -> RecordView {
        match self {
            Record::Issue(r) => RecordView::Issue(r@),
            Record::Comment(r) => RecordView::Comment(r@),
            Record::Dep(r) => RecordView::Dep(r@),
            Record::Hold(r) => RecordView::Hold(r@),
            Record::Delete(r) => RecordView::Delete(r@),
        }
    }
}

/// The models of a sequence of records.
pub open spec fn records_view(s: Seq<Record>) -> Seq<RecordView> {
    s.map_values(|r: Record| r@)
}

/// The validated content of an issue record, ready for the derived state.
/// Not a domain [`crate::issue::Issue`]: holds fold in from other records.
pub struct IssueSnapshot {
    pub id: IssueId,
    pub title: String,
    pub body: String,
    pub status: Status,
    pub priority: i32,
    pub assignee: String,
    pub created_at: i64,
    pub updated_at: i64,
    pub tags: Vec<String>,
}

/// Plain-value model of an [`IssueSnapshot`].
pub struct SnapshotView {
    pub id: Seq<char>,
    pub title: Seq<char>,
    pub body: Seq<char>,
    pub status: Status,
    pub priority: i32,
    pub assignee: Seq<char>,
    pub created_at: i64,
    pub updated_at: i64,
    pub tags: Seq<Seq<char>>,
}

impl View for IssueSnapshot {
    type V = SnapshotView;

    open spec fn view(&self) -> SnapshotView {
        SnapshotView {
            id: self.id@,
            title: self.title@,
            body: self.body@,
            status: self.status,
            priority: self.priority,
            assignee: self.assignee@,
            created_at: self.created_at,
            updated_at: self.updated_at,
            tags: strings_view(self.tags@),
        }
    }
}

/// The snapshot an issue record converts to: `None` when its id is not an
/// acceptable issue id or its status is not a wire name. A missing
/// `updated_at` falls back to `created_at`.
pub open spec fn snapshot_of(r: IssueRecordView) -> Option<SnapshotView> {
    if valid_issue_id(r.id) && parse_status_spec(r.status) is Some {
        Some(SnapshotView {
            id: r.id,
            title: r.title,
            body: r.body,
            status: parse_status_spec(r.status)->0,
            priority: r.priority,
            assignee: r.assignee,
            created_at: r.created_at,
            updated_at: match r.updated_at {
                Some(u) => u,
                None => r.created_at,
            },
            tags: r.tags,
        })
    } else {
        None
    }
}

/// The issue record that writes a snapshot back out.
pub open spec fn record_of_snapshot(s: SnapshotView) -> IssueRecordView {
    IssueRecordView {
        id: s.id,
        title: s.title,
        body: s.body,
        status: status_wire(s.status),
        priority: s.priority,
        assignee: s.assignee,
        created_at: s.created_at,
        updated_at: Some(s.updated_at),
        tags: s.tags,
    }
}

/// The edge a dependency record names: `None` when an id or the kind does
/// not parse.
pub open spec fn edge_of(r: DepRecordView) -> Option<(Seq<char>, Seq<char>, DepKind)> {
    if valid_issue_id(r.src_id) && valid_issue_id(r.dst_id) && parse_dep_kind_spec(r.kind) is Some {
        Some((r.src_id, r.dst_id, parse_dep_kind_spec(r.kind)->0))
    } else {
        None
    }
}

/// The state written for an active edge.
pub open spec fn active_state() -> Seq<char> {
    "active"@
}

/// The state written for a removed edge.
pub open spec fn removed_state() -> Seq<char> {
    "removed"@
}

/// The state a dependency record has when the line omits it.
pub fn default_dep_state() -> (r: String)
    ensures
        r@ == active_state(),
{
    owned("active")
}

impl IssueRecord {
    /// A copy with the same model.
    pub fn duplicate(&self) -> (r: IssueRecord)
        ensures
            r@ == self@,
    {
        IssueRecord {
            id: self.id.clone(),
            title: self.title.clone(),
            body: self.body.clone(),
            status: self.status.clone(),
            priority: self.priority,
            assignee: self.assignee.clone(),
            created_at: self.created_at,
            updated_at: self.updated_at,
            tags: copy_strings(&self.tags),
        }
    }

    /// `None` means the record is not importable (bad id or status); the
    /// caller skips it.
    pub fn into_snapshot(self) -> (r: Option<IssueSnapshot>)
        ensures
            match r {
                Some(s) => snapshot_of(self@) == Some(s@),
                None => snapshot_of(self@) is None,
            },
    {
        let id = match IssueId::from_string(self.id) {
            Ok(id) => id,
            Err(_) => return None,
        };
        let status = match Status::parse(self.status.as_str()) {
            Ok(st) => st,
            Err(_) => return None,
        };
        let updated_at = match self.updated_at {
            Some(u) => u,
            None => self.created_at,
        };
        Some(IssueSnapshot {
            id,
            title: self.title,
            body: self.body,
            status,
            priority: self.priority,
            assignee: self.assignee,
            created_at: self.created_at,
            updated_at,
            tags: self.tags,
        })
    }

    /// The record that writes `snapshot` to the log.
    pub fn from_snapshot(snapshot: &IssueSnapshot) -> (r: IssueRecord)
        ensures
            r@ == record_of_snapshot(snapshot@),
    {
        IssueRecord {
            id: owned(snapshot.id.as_str()),
            title: snapshot.title.clone(),
            body: snapshot.body.clone(),
            status: owned(snapshot.status.as_str()),
            priority: snapshot.priority,
            assignee: snapshot.assignee.clone(),
            created_at: snapshot.created_at,
            updated_at: Some(snapshot.updated_at),
            tags: copy_strings(&snapshot.tags),
        }
    }
}

impl CommentRecord {
    /// A copy with the same model.
    pub fn duplicate(&self) -> (r: CommentRecord)
        ensures
            r@ == self@,
    {
        CommentRecord {
            id: self.id.clone(),
            issue_id: self.issue_id.clone(),
            author: self.author.clone(),
            body: self.body.clone(),
            created_at: self.created_at,
        }
    }

    /// `None` when the issue id does not parse; the caller skips it.
    pub fn into_comment(self) -> (r: Option<Comment>)
        ensures
            match r {
                Some(c) => valid_issue_id(self.issue_id@) && c@.id == self.id@ && c@.issue_id
                    == self.issue_id@ && c@.author == self.author@ && c@.body == self.body@
                    && c@.created_at == self.created_at,
                None => !valid_issue_id(self.issue_id@),
            },
    {
        let issue_id = match IssueId::from_string(self.issue_id) {
            Ok(id) => id,
            Err(_) => return None,
        };
        Some(
            Comment {
                id: CommentId::new(self.id),
                issue_id,
                author: self.author,
                body: self.body,
                created_at: self.created_at,
            },
        )
    }

    /// The record that writes `comment` to the log.
    pub fn from_comment(comment: &Comment) -> (r: CommentRecord)
        ensures
            r@.id == comment@.id,
            r@.issue_id == comment@.issue_id,
            r@.author == comment@.author,
            r@.body == comment@.body,
            r@.created_at == comment@.created_at,
    {
        CommentRecord {
            id: owned(comment.id.as_str()),
            issue_id: owned(comment.issue_id.as_str()),
            author: comment.author.clone(),
            body: comment.body.clone(),
            created_at: comment.created_at,
        }
    }
}

impl DepRecord {
    /// A copy with the same model.
    pub fn duplicate(&self) -> (r: DepRecord)
        ensures
            r@ == self@,
    {
        DepRecord {
            src_id: self.src_id.clone(),
            dst_id: self.dst_id.clone(),
            kind: self.kind.clone(),
            state: self.state.clone(),
        }
    }

    /// Whether this record removes its edge.
    pub fn is_removed(&self) -> (r: bool)
        ensures
            r == (self.state@ == removed_state()),
    {
        str_eq(self.state.as_str(), "removed")
    }

    /// `(src, dst, kind)`; `None` for unparseable ids or kind — skip it.
    pub fn into_edge(self) -> (r: Option<(IssueId, IssueId, DepKind)>)
        ensures
            match r {
                Some((s, d, k)) => edge_of(self@) == Some((s@, d@, k)),
                None => edge_of(self@) is None,
            },
    {
        let ghost v = self@;
        let src = match IssueId::from_string(self.src_id) {
            Ok(id) => id,
            Err(_) => return None,
        };
        let dst = match IssueId::from_string(self.dst_id) {
            Ok(id) => id,
            Err(_) => return None,
        };
        let kind = match DepKind::parse(self.kind.as_str()) {
            Ok(k) => k,
            Err(_) => return None,
        };
        assert(edge_of(v) == Some((src@, dst@, kind)));
        Some((src, dst, kind))
    }

    /// The record for adding (or, with `removed`, removing) an edge.
    pub fn edge(src: &IssueId, dst: &IssueId, kind: DepKind, removed: bool) -> (r: DepRecord)
        ensures
            r@.src_id == src@,
            r@.dst_id == dst@,
            r@.kind == dep_kind_wire(kind),
            r@.state == if removed { removed_state() } else { active_state() },
    {
        DepRecord {
            src_id: owned(src.as_str()),
            dst_id: owned(dst.as_str()),
            kind: owned(kind.as_str()),
            state: if removed { owned("removed") } else { owned("active") },
        }
    }
}

impl HoldRecord {
    /// A copy with the same model.
    pub fn duplicate(&self) -> (r: HoldRecord)
        ensures
            r@ == self@,
    {
        HoldRecord {
            issue_id: self.issue_id.clone(),
            state: self.state.clone(),
            reason: self.reason.clone(),
            kind: self.kind.clone(),
            until: self.until,
            created_at: self.created_at,
        }
    }
}

impl DeleteRecord {
    /// A copy with the same model.
    pub fn duplicate(&self) -> (r: DeleteRecord)
        ensures
            r@ == self@,
    {
        DeleteRecord { issue_id: self.issue_id.clone(), deleted_at: self.deleted_at }
    }
}

impl Record {
    /// A copy with the same model.
    pub fn duplicate(&self) -> (r: Record)
        ensures
            r@ == self@,
    {
        match self {
            Record::Issue(r) => Record::Issue(r.duplicate()),
            Record::Comment(r) => Record::Comment(r.duplicate()),
            Record::Dep(r) => Record::Dep(r.duplicate()),
            Record::Hold(r) => Record::Hold(r.duplicate()),
            Record::Delete(r) => Record::Delete(r.duplicate()),
        }
    }
}

} // verus!
