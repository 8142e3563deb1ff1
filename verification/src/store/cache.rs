//! The derived state behind the store: issues, comments and active
//! dependency edges, always equal to the replay of the event log.

use vstd::prelude::*;

use crate::comment::{Comment, CommentView};
use crate::comment_id::CommentId;
use crate::dep::{Dep, DepView};
use crate::dep_kind::{DepKind, dep_kind_wire};
use crate::hold::{Hold, HoldKind, HoldView, parse_hold_kind_spec};
use crate::issue::{Issue, IssueView, strings_view};
use crate::issue_id::{IssueId, valid_issue_id};
use crate::store::log::{
    CommentRecordView, IssueSnapshot, Record, RecordView, SnapshotView, active_state, edge_of,
    removed_state, snapshot_of,
};
use crate::status::Status;
use super::fts::{FtsDoc, FtsDocView};
use crate::text::{chars_eq, chars_le, chars_of, chars_starts_with, is_prefix, str_eq, str_le, string_of};

verus! {

broadcast use vstd::seq_lib::group_seq_properties;

// ------------------------------------------------------------------ model

/// Plain-value model of the derived state.
pub struct CacheView {
    pub issues: Seq<IssueView>,
    pub comments: Seq<CommentView>,
    pub deps: Seq<DepView>,
}

/// The first index at or after `i` whose element satisfies `p`.
pub open spec fn first_from<T>(s: Seq<T>, p: spec_fn(T) -> bool, i: int) -> Option<int>
    decreases s.len() - i,
{
    if i < 0 || i >= s.len() {
        None
    } else if p(s[i]) {
        Some(i)
    } else {
        first_from(s, p, i + 1)
    }
}

/// The first index whose element satisfies `p`.
pub open spec fn first_index<T>(s: Seq<T>, p: spec_fn(T) -> bool) -> Option<int> {
    first_from(s, p, 0)
}

/// `first_index` finds the first match, and `None` means there is none.
pub proof fn lemma_first_from<T>(s: Seq<T>, p: spec_fn(T) -> bool, i: int)
    requires
        0 <= i,
    ensures
        first_from(s, p, i) matches Some(k) ==> i <= k < s.len() && p(s[k]) && forall|j: int|
            i <= j < k ==> !p(#[trigger] s[j]),
        first_from(s, p, i) is None ==> forall|j: int| i <= j < s.len() ==> !p(#[trigger] s[j]),
    decreases s.len() - i,
{
    if i < s.len() {
        lemma_first_from(s, p, i + 1);
    }
}

/// The predicate "is the issue with id `id`".
pub open spec fn issue_has_id(id: Seq<char>) -> spec_fn(IssueView) -> bool {
    |v: IssueView| v.id == id
}

/// The predicate "is the comment with id `id`".
pub open spec fn comment_has_id(id: Seq<char>) -> spec_fn(CommentView) -> bool {
    |v: CommentView| v.id == id
}

/// The predicate "is the edge `e`".
pub open spec fn is_edge(e: DepView) -> spec_fn(DepView) -> bool {
    |v: DepView| v == e
}

/// Where the issue with id `id` sits in the issue table.
pub open spec fn find_issue(s: Seq<IssueView>, id: Seq<char>) -> Option<int> {
    first_index(s, issue_has_id(id))
}

/// The tags of a snapshot as a set: the first occurrence of each, in order.
pub open spec fn dedup(s: Seq<Seq<char>>) -> Seq<Seq<char>>
    decreases s.len(),
{
    if s.len() == 0 {
        s
    } else {
        let d = dedup(s.drop_last());
        if d.contains(s.last()) {
            d
        } else {
            d.push(s.last())
        }
    }
}

/// The issue row a snapshot becomes, carrying `hold` over.
pub open spec fn row_of(s: SnapshotView, hold: Option<HoldView>) -> IssueView {
    IssueView {
        id: s.id,
        title: s.title,
        body: s.body,
        status: s.status,
        priority: s.priority,
        assignee: s.assignee,
        created_at: s.created_at,
        updated_at: s.updated_at,
        tags: dedup(s.tags),
        hold,
    }
}

/// Later snapshots win: replace the row in place (keeping its hold) or
/// append a new one.
pub open spec fn upsert_issue(c: CacheView, s: SnapshotView) -> CacheView {
    match find_issue(c.issues, s.id) {
        Some(k) => CacheView { issues: c.issues.update(k, row_of(s, c.issues[k].hold)), ..c },
        None => CacheView { issues: c.issues.push(row_of(s, None)), ..c },
    }
}

/// The comment a comment record becomes.
pub open spec fn comment_of(r: CommentRecordView) -> CommentView {
    CommentView {
        id: r.id,
        issue_id: r.issue_id,
        author: r.author,
        body: r.body,
        created_at: r.created_at,
    }
}

/// A comment with a known id replaces the old one in place; a new one is
/// appended.
pub open spec fn upsert_comment(c: CacheView, v: CommentView) -> CacheView {
    match first_index(c.comments, comment_has_id(v.id)) {
        Some(k) => CacheView { comments: c.comments.update(k, v), ..c },
        None => CacheView { comments: c.comments.push(v), ..c },
    }
}

/// Adding an edge that exists already changes nothing.
pub open spec fn add_edge(c: CacheView, e: DepView) -> CacheView {
    match first_index(c.deps, is_edge(e)) {
        Some(_) => c,
        None => CacheView { deps: c.deps.push(e), ..c },
    }
}

/// Removing an edge drops it if present.
pub open spec fn remove_edge(c: CacheView, e: DepView) -> CacheView {
    match first_index(c.deps, is_edge(e)) {
        Some(k) => CacheView { deps: c.deps.remove(k), ..c },
        None => c,
    }
}

/// Set (or clear) the hold of an existing issue; unknown ids change
/// nothing.
pub open spec fn set_hold(c: CacheView, id: Seq<char>, h: Option<HoldView>) -> CacheView {
    match find_issue(c.issues, id) {
        Some(k) => CacheView { issues: c.issues.update(k, IssueView { hold: h, ..c.issues[k] }), ..c },
        None => c,
    }
}

/// A tombstone removes the issue row (with its hold).
pub open spec fn delete_issue(c: CacheView, id: Seq<char>) -> CacheView {
    match find_issue(c.issues, id) {
        Some(k) => CacheView { issues: c.issues.remove(k), ..c },
        None => c,
    }
}

/// The hold state of a hold record that releases.
pub open spec fn released_state() -> Seq<char> {
    "released"@
}

/// The effect of one log record on the derived state. Records that do not
/// convert (bad ids, statuses, kinds or states) change nothing.
pub open spec fn apply_record(c: CacheView, r: RecordView) -> CacheView {
    match r {
        RecordView::Issue(ir) => match snapshot_of(ir) {
            Some(s) => upsert_issue(c, s),
            None => c,
        },
        RecordView::Comment(cr) => if valid_issue_id(cr.issue_id) {
            upsert_comment(c, comment_of(cr))
        } else {
            c
        },
        RecordView::Dep(dr) => match edge_of(dr) {
            Some((s, d, k)) => {
                let e = DepView { src: s, dst: d, kind: k };
                if dr.state == removed_state() {
                    remove_edge(c, e)
                } else {
                    add_edge(c, e)
                }
            },
            None => c,
        },
        RecordView::Hold(hr) => if !valid_issue_id(hr.issue_id) {
            c
        } else if hr.state == active_state() {
            match parse_hold_kind_spec(hr.kind) {
                Some(k) => set_hold(
                    c,
                    hr.issue_id,
                    Some(HoldView { reason: hr.reason, until: hr.until, kind: k }),
                ),
                None => c,
            }
        } else if hr.state == released_state() {
            set_hold(c, hr.issue_id, None)
        } else {
            c
        },
        RecordView::Delete(dr) => if valid_issue_id(dr.issue_id) {
            delete_issue(c, dr.issue_id)
        } else {
            c
        },
    }
}

/// The state of an empty store.
pub open spec fn empty_cache() -> CacheView {
    CacheView { issues: Seq::empty(), comments: Seq::empty(), deps: Seq::empty() }
}

/// The derived state of a log: every record applied in order.
pub open spec fn replay(log: Seq<RecordView>) -> CacheView
    decreases log.len(),
{
    if log.len() == 0 {
        empty_cache()
    } else {
        apply_record(replay(log.drop_last()), log.last())
    }
}

// ------------------------------------------------------------------ state

/// The derived state: issue rows, comments, and active edges.
pub struct Cache {
    issues: Vec<Issue>,
    comments: Vec<Comment>,
    deps: Vec<Dep>,
}

/// The models of a list of issues.
pub open spec fn issues_view(s: Seq<Issue>) -> Seq<IssueView> {
    s.map_values(|i: Issue| i@)
}

/// The models of a list of comments.
pub open spec fn comments_view(s: Seq<Comment>) -> Seq<CommentView> {
    s.map_values(|c: Comment| c@)
}

/// The models of a list of edges.
pub open spec fn deps_view(s: Seq<Dep>) -> Seq<DepView> {
    s.map_values(|d: Dep| d@)
}

impl View for Cache {
    type V = CacheView;

    closed spec fn view(&self) -> CacheView {
        CacheView {
            issues: issues_view(self.issues@),
            comments: comments_view(self.comments@),
            deps: deps_view(self.deps@),
        }
    }
}

fn contains_string(v: &Vec<String>, s: &String) -> (r: bool)
    ensures
        r == strings_view(v@).contains(s@),
{
    let mut i: usize = 0;
    while i < v.len()
        invariant
            i <= v.len(),
            forall|j: int| 0 <= j < i ==> v@[j]@ != s@,
        decreases v.len() - i,
    {
        if str_eq(v[i].as_str(), s.as_str()) {
            assert(strings_view(v@)[i as int] == s@);
            return true;
        }
        i = i + 1;
    }
    assert forall|j: int| 0 <= j < strings_view(v@).len() implies strings_view(v@)[j] != s@ by {
        assert(strings_view(v@)[j] == v@[j]@);
    }
    false
}

/// Collapse duplicate tags, keeping the first occurrence of each.
pub fn dedup_tags(tags: &Vec<String>) -> (r: Vec<String>)
    ensures
        strings_view(r@) == dedup(strings_view(tags@)),
{
    let mut r: Vec<String> = Vec::new();
    let mut i: usize = 0;
    while i < tags.len()
        invariant
            i <= tags.len(),
            strings_view(r@) == dedup(strings_view(tags@.take(i as int))),
        decreases tags.len() - i,
    {
        let ghost before = strings_view(tags@.take(i as int));
        assert(strings_view(tags@.take(i + 1)) =~= before.push(tags@[i as int]@));
        assert(strings_view(tags@.take(i + 1)).drop_last() =~= before);
        if !contains_string(&r, &tags[i]) {
            r.push(tags[i].clone());
            assert(strings_view(r@) =~= dedup(before).push(tags@[i as int]@));
        }
        i = i + 1;
    }
    assert(tags@.take(tags.len() as int) =~= tags@);
    r
}

impl Cache {
    /// An empty derived state.
    pub fn new() -> (r: Cache)
        ensures
            r@ == empty_cache(),
    {
        let r = Cache { issues: Vec::new(), comments: Vec::new(), deps: Vec::new() };
        assert(r@.issues =~= Seq::<IssueView>::empty());
        assert(r@.comments =~= Seq::<CommentView>::empty());
        assert(r@.deps =~= Seq::<DepView>::empty());
        r
    }

    /// Where the issue with id `id` sits in the issue table.
    pub fn find_issue(&self, id: &Vec<char>) -> (r: Option<usize>)
        ensures
            match r {
                Some(k) => find_issue(self@.issues, id@) == Some(k as int) && k < self@.issues.len(),
                None => find_issue(self@.issues, id@) is None,
            },
    {
        proof {
            lemma_first_from(self@.issues, issue_has_id(id@), 0);
        }
        let ghost s = self@.issues;
        let mut i: usize = 0;
        while i < self.issues.len()
            invariant
                i <= self.issues.len(),
                s == issues_view(self.issues@),
                first_from(s, issue_has_id(id@), 0) == first_from(s, issue_has_id(id@), i as int),
            decreases self.issues.len() - i,
        {
            let cid = chars_of(self.issues[i].id.as_str());
            if chars_eq(&cid, id) {
                assert(s[i as int].id == id@);
                return Some(i);
            }
            assert(!issue_has_id(id@)(s[i as int]));
            i = i + 1;
        }
        None
    }

    fn find_comment(&self, id: &Vec<char>) -> (r: Option<usize>)
        ensures
            match r {
                Some(k) => first_index(self@.comments, comment_has_id(id@)) == Some(k as int) && k
                    < self@.comments.len(),
                None => first_index(self@.comments, comment_has_id(id@)) is None,
            },
    {
        proof {
            lemma_first_from(self@.comments, comment_has_id(id@), 0);
        }
        let ghost s = self@.comments;
        let mut i: usize = 0;
        while i < self.comments.len()
            invariant
                i <= self.comments.len(),
                s == comments_view(self.comments@),
                first_from(s, comment_has_id(id@), 0) == first_from(
                    s,
                    comment_has_id(id@),
                    i as int,
                ),
            decreases self.comments.len() - i,
        {
            let cid = chars_of(self.comments[i].id.as_str());
            if chars_eq(&cid, id) {
                assert(s[i as int].id == id@);
                return Some(i);
            }
            assert(!comment_has_id(id@)(s[i as int]));
            i = i + 1;
        }
        None
    }

    fn find_edge(&self, src: &Vec<char>, dst: &Vec<char>, kind: DepKind) -> (r: Option<usize>)
        ensures
            ({
                let e = DepView { src: src@, dst: dst@, kind };
                match r {
                    Some(k) => first_index(self@.deps, is_edge(e)) == Some(k as int) && k
                        < self@.deps.len(),
                    None => first_index(self@.deps, is_edge(e)) is None,
                }
            }),
    {
        proof {
            lemma_first_from(self@.deps, is_edge(DepView { src: src@, dst: dst@, kind }), 0);
        }
        let ghost s = self@.deps;
        let ghost e = DepView { src: src@, dst: dst@, kind };
        let mut i: usize = 0;
        while i < self.deps.len()
            invariant
                i <= self.deps.len(),
                s == deps_view(self.deps@),
                e == (DepView { src: src@, dst: dst@, kind }),
                first_from(s, is_edge(e), 0) == first_from(s, is_edge(e), i as int),
            decreases self.deps.len() - i,
        {
            let ds = chars_of(self.deps[i].src.as_str());
            let dd = chars_of(self.deps[i].dst.as_str());
            if chars_eq(&ds, src) && chars_eq(&dd, dst) && self.deps[i].kind == kind {
                assert(s[i as int] == e);
                return Some(i);
            }
            assert(!is_edge(e)(s[i as int]));
            i = i + 1;
        }
        None
    }

    fn upsert_snapshot(&mut self, snap: IssueSnapshot)
        ensures
            final(self)@ == upsert_issue(old(self)@, snap@),
    {
        let idv = chars_of(snap.id.as_str());
        let tags = dedup_tags(&snap.tags);
        match self.find_issue(&idv) {
            Some(k) => {
                let hold = match &self.issues[k].hold {
                    Some(h) => Some(h.duplicate()),
                    None => None,
                };
                let row = Issue {
                    id: snap.id,
                    title: snap.title,
                    body: snap.body,
                    status: snap.status,
                    priority: snap.priority,
                    assignee: snap.assignee,
                    created_at: snap.created_at,
                    updated_at: snap.updated_at,
                    tags,
                    hold,
                };
                let ghost rv = row@;
                self.issues.set(k, row);
                assert(self@.issues =~= old(self)@.issues.update(k as int, rv));
            },
            None => {
                let row = Issue {
                    id: snap.id,
                    title: snap.title,
                    body: snap.body,
                    status: snap.status,
                    priority: snap.priority,
                    assignee: snap.assignee,
                    created_at: snap.created_at,
                    updated_at: snap.updated_at,
                    tags,
                    hold: None,
                };
                let ghost rv = row@;
                self.issues.push(row);
                assert(self@.issues =~= old(self)@.issues.push(rv));
            },
        }
    }

    fn upsert_comment(&mut self, c: Comment)
        ensures
            final(self)@ == upsert_comment(old(self)@, c@),
    {
        let idv = chars_of(c.id.as_str());
        let ghost cv = c@;
        match self.find_comment(&idv) {
            Some(k) => {
                self.comments.set(k, c);
                assert(self@.comments =~= old(self)@.comments.update(k as int, cv));
            },
            None => {
                self.comments.push(c);
                assert(self@.comments =~= old(self)@.comments.push(cv));
            },
        }
    }

    fn add_edge(&mut self, src: IssueId, dst: IssueId, kind: DepKind)
        ensures
            final(self)@ == add_edge(old(self)@, DepView { src: src@, dst: dst@, kind }),
    {
        let sv = chars_of(src.as_str());
        let dv = chars_of(dst.as_str());
        match self.find_edge(&sv, &dv, kind) {
            Some(_) => {},
            None => {
                let d = Dep { src, dst, kind };
                let ghost v = d@;
                self.deps.push(d);
                assert(self@.deps =~= old(self)@.deps.push(v));
            },
        }
    }

    fn remove_edge(&mut self, src: IssueId, dst: IssueId, kind: DepKind)
        ensures
            final(self)@ == remove_edge(old(self)@, DepView { src: src@, dst: dst@, kind }),
    {
        let sv = chars_of(src.as_str());
        let dv = chars_of(dst.as_str());
        match self.find_edge(&sv, &dv, kind) {
            Some(k) => {
                self.deps.remove(k);
                assert(self@.deps =~= old(self)@.deps.remove(k as int));
            },
            None => {},
        }
    }

    fn set_hold(&mut self, id: &Vec<char>, hold: Option<Hold>)
        ensures
            final(self)@ == set_hold(old(self)@, id@, crate::issue::hold_opt_view(hold)),
    {
        match self.find_issue(id) {
            Some(k) => {
                let old_row = self.issues[k].duplicate();
                let row = Issue { hold, ..old_row };
                let ghost rv = row@;
                self.issues.set(k, row);
                assert(self@.issues =~= old(self)@.issues.update(k as int, rv));
            },
            None => {},
        }
    }

    fn delete_issue(&mut self, id: &Vec<char>)
        ensures
            final(self)@ == delete_issue(old(self)@, id@),
    {
        match self.find_issue(id) {
            Some(k) => {
                self.issues.remove(k);
                assert(self@.issues =~= old(self)@.issues.remove(k as int));
            },
            None => {},
        }
    }

    /// Apply one log record to the derived state.
    pub fn apply(&mut self, record: &Record)
        ensures
            final(self)@ == apply_record(old(self)@, record@),
    {
        match record {
            Record::Issue(ir) => {
                match ir.duplicate().into_snapshot() {
                    Some(snap) => self.upsert_snapshot(snap),
                    None => {},
                }
            },
            Record::Comment(cr) => {
                match cr.duplicate().into_comment() {
                    Some(c) => {
                        assert(c@ == comment_of(cr@));
                        self.upsert_comment(c);
                    },
                    None => {},
                }
            },
            Record::Dep(dr) => {
                let removed = dr.is_removed();
                match dr.duplicate().into_edge() {
                    Some((src, dst, kind)) => {
                        if removed {
                            self.remove_edge(src, dst, kind);
                        } else {
                            self.add_edge(src, dst, kind);
                        }
                    },
                    None => {},
                }
            },
            Record::Hold(hr) => {
                let idv = chars_of(hr.issue_id.as_str());
                match crate::issue_id::check_id_chars(&idv) {
                    Ok(()) => {
                        proof {
                            crate::issue_id::lemma_check_issue_id_exact(idv@);
                        }
                        if str_eq(hr.state.as_str(), "active") {
                            match HoldKind::parse(hr.kind.as_str()) {
                                Ok(kind) => {
                                    let h = Hold {
                                        reason: hr.reason.clone(),
                                        until: hr.until,
                                        kind,
                                    };
                                    self.set_hold(&idv, Some(h));
                                },
                                Err(_) => {},
                            }
                        } else if str_eq(hr.state.as_str(), "released") {
                            self.set_hold(&idv, None);
                        }
                    },
                    Err(_) => {
                        proof {
                            crate::issue_id::lemma_check_issue_id_exact(idv@);
                        }
                    },
                }
            },
            Record::Delete(dr) => {
                let idv = chars_of(dr.issue_id.as_str());
                match crate::issue_id::check_id_chars(&idv) {
                    Ok(()) => {
                        proof {
                            crate::issue_id::lemma_check_issue_id_exact(idv@);
                        }
                        self.delete_issue(&idv);
                    },
                    Err(_) => {
                        proof {
                            crate::issue_id::lemma_check_issue_id_exact(idv@);
                        }
                    },
                }
            },
        }
    }
}

// ------------------------------------------------------------ orderings

/// How a list of issues is ordered.
#[derive(Clone, Copy, PartialEq, Eq, Structural)]
pub enum IssueOrder {
    /// Most recently updated first.
    UpdatedDesc,
    /// Priority ascending (1 first), then most recently updated first.
    PriorityThenUpdatedDesc,
    /// Priority ascending, then oldest first, then by id.
    PriorityThenCreatedThenId,
}

/// Whether `a` may stay ahead of `b` under order `o`.
pub open spec fn issue_before(o: IssueOrder, a: IssueView, b: IssueView) -> bool {
    match o {
        IssueOrder::UpdatedDesc => a.updated_at >= b.updated_at,
        IssueOrder::PriorityThenUpdatedDesc => a.priority < b.priority || (a.priority
            == b.priority && a.updated_at >= b.updated_at),
        IssueOrder::PriorityThenCreatedThenId => a.priority < b.priority || (a.priority
            == b.priority && (a.created_at < b.created_at || (a.created_at == b.created_at
            && chars_le(a.id, b.id)))),
    }
}

/// Insert `x` into `s` after every element that may stay ahead of it
/// (a stable insertion).
pub open spec fn insert_issue(s: Seq<IssueView>, x: IssueView, o: IssueOrder) -> Seq<IssueView>
    decreases s.len(),
{
    if s.len() == 0 {
        seq![x]
    } else if issue_before(o, s.last(), x) {
        s.push(x)
    } else {
        insert_issue(s.drop_last(), x, o).push(s.last())
    }
}

/// `s` stably sorted under `o`: equal-ranked issues keep their order.
pub open spec fn sort_issues(s: Seq<IssueView>, o: IssueOrder) -> Seq<IssueView>
    decreases s.len(),
{
    if s.len() == 0 {
        s
    } else {
        insert_issue(sort_issues(s.drop_last(), o), s.last(), o)
    }
}

proof fn lemma_insert_issue_at(s: Seq<IssueView>, x: IssueView, o: IssueOrder, j: int)
    requires
        0 <= j <= s.len(),
        j == 0 || issue_before(o, s[j - 1], x),
        forall|k: int| j <= k < s.len() ==> !issue_before(o, #[trigger] s[k], x),
    ensures
        insert_issue(s, x, o) == s.take(j) + seq![x] + s.skip(j),
    decreases s.len(),
{
    if s.len() == 0 {
        assert(s.take(j) + seq![x] + s.skip(j) =~= seq![x]);
    } else if issue_before(o, s.last(), x) {
        assert(j == s.len());
        assert(s.take(j) + seq![x] + s.skip(j) =~= s.push(x));
    } else {
        let t = s.drop_last();
        lemma_insert_issue_at(t, x, o, j);
        assert(t.take(j) + seq![x] + t.skip(j) + seq![s.last()] =~= s.take(j) + seq![x] + s.skip(
            j,
        ));
    }
}

fn issue_before_exec(o: IssueOrder, a: &Issue, b: &Issue) -> (r: bool)
    ensures
        r == issue_before(o, a@, b@),
{
    match o {
        IssueOrder::UpdatedDesc => a.updated_at >= b.updated_at,
        IssueOrder::PriorityThenUpdatedDesc => a.priority < b.priority || (a.priority
            == b.priority && a.updated_at >= b.updated_at),
        IssueOrder::PriorityThenCreatedThenId => a.priority < b.priority || (a.priority
            == b.priority && (a.created_at < b.created_at || (a.created_at == b.created_at
            && str_le(a.id.as_str(), b.id.as_str())))),
    }
}

/// Stably sort issues under `o`.
pub fn sort_issue_vec(v: &Vec<Issue>, o: IssueOrder) -> (r: Vec<Issue>)
    ensures
        issues_view(r@) == sort_issues(issues_view(v@), o),
{
    let mut r: Vec<Issue> = Vec::new();
    let mut i: usize = 0;
    while i < v.len()
        invariant
            i <= v.len(),
            issues_view(r@) == sort_issues(issues_view(v@.take(i as int)), o),
        decreases v.len() - i,
    {
        let x = v[i].duplicate();
        let ghost rs = issues_view(r@);
        let mut j: usize = r.len();
        while j > 0 && !issue_before_exec(o, &r[j - 1], &x)
            invariant
                j <= r.len(),
                rs == issues_view(r@),
                forall|k: int| j <= k < rs.len() ==> !issue_before(o, #[trigger] rs[k], x@),
            decreases j,
        {
            j = j - 1;
        }
        proof {
            lemma_insert_issue_at(rs, x@, o, j as int);
            assert(issues_view(v@.take(i + 1)).drop_last() =~= issues_view(v@.take(i as int)));
            assert(issues_view(v@.take(i + 1)).last() == v@[i as int]@);
        }
        let ghost xv = x@;
        r.insert(j, x);
        assert(issues_view(r@) =~= rs.take(j as int) + seq![xv] + rs.skip(j as int));
        i = i + 1;
    }
    assert(v@.take(v.len() as int) =~= v@);
    r
}

/// Whether comment `a` may stay ahead of `b`: oldest first.
pub open spec fn comment_before(a: CommentView, b: CommentView) -> bool {
    a.created_at <= b.created_at
}

/// Stable insertion of a comment into an oldest-first list.
pub open spec fn insert_comment(s: Seq<CommentView>, x: CommentView) -> Seq<CommentView>
    decreases s.len(),
{
    if s.len() == 0 {
        seq![x]
    } else if comment_before(s.last(), x) {
        s.push(x)
    } else {
        insert_comment(s.drop_last(), x).push(s.last())
    }
}

/// `s` stably sorted oldest first.
pub open spec fn sort_comments(s: Seq<CommentView>) -> Seq<CommentView>
    decreases s.len(),
{
    if s.len() == 0 {
        s
    } else {
        insert_comment(sort_comments(s.drop_last()), s.last())
    }
}

proof fn lemma_insert_comment_at(s: Seq<CommentView>, x: CommentView, j: int)
    requires
        0 <= j <= s.len(),
        j == 0 || comment_before(s[j - 1], x),
        forall|k: int| j <= k < s.len() ==> !comment_before(#[trigger] s[k], x),
    ensures
        insert_comment(s, x) == s.take(j) + seq![x] + s.skip(j),
    decreases s.len(),
{
    if s.len() == 0 {
        assert(s.take(j) + seq![x] + s.skip(j) =~= seq![x]);
    } else if comment_before(s.last(), x) {
        assert(j == s.len());
        assert(s.take(j) + seq![x] + s.skip(j) =~= s.push(x));
    } else {
        let t = s.drop_last();
        lemma_insert_comment_at(t, x, j);
        assert(t.take(j) + seq![x] + t.skip(j) + seq![s.last()] =~= s.take(j) + seq![x] + s.skip(
            j,
        ));
    }
}

/// Stably sort comments oldest first.
pub fn sort_comment_vec(v: &Vec<Comment>) -> (r: Vec<Comment>)
    ensures
        comments_view(r@) == sort_comments(comments_view(v@)),
{
    let mut r: Vec<Comment> = Vec::new();
    let mut i: usize = 0;
    while i < v.len()
        invariant
            i <= v.len(),
            comments_view(r@) == sort_comments(comments_view(v@.take(i as int))),
        decreases v.len() - i,
    {
        let x = v[i].duplicate();
        let ghost rs = comments_view(r@);
        let mut j: usize = r.len();
        while j > 0 && !(r[j - 1].created_at <= x.created_at)
            invariant
                j <= r.len(),
                rs == comments_view(r@),
                forall|k: int| j <= k < rs.len() ==> !comment_before(#[trigger] rs[k], x@),
            decreases j,
        {
            j = j - 1;
        }
        proof {
            lemma_insert_comment_at(rs, x@, j as int);
            assert(comments_view(v@.take(i + 1)).drop_last() =~= comments_view(
                v@.take(i as int),
            ));
            assert(comments_view(v@.take(i + 1)).last() == v@[i as int]@);
        }
        let ghost xv = x@;
        r.insert(j, x);
        assert(comments_view(r@) =~= rs.take(j as int) + seq![xv] + rs.skip(j as int));
        i = i + 1;
    }
    assert(v@.take(v.len() as int) =~= v@);
    r
}

/// Whether edge `a` may stay ahead of `b`: by source id, then target id,
/// then kind name.
pub open spec fn dep_before(a: DepView, b: DepView) -> bool {
    if a.src != b.src {
        chars_le(a.src, b.src)
    } else if a.dst != b.dst {
        chars_le(a.dst, b.dst)
    } else {
        chars_le(dep_kind_wire(a.kind), dep_kind_wire(b.kind))
    }
}

/// Stable insertion of an edge into an ordered list.
pub open spec fn insert_dep(s: Seq<DepView>, x: DepView) -> Seq<DepView>
    decreases s.len(),
{
    if s.len() == 0 {
        seq![x]
    } else if dep_before(s.last(), x) {
        s.push(x)
    } else {
        insert_dep(s.drop_last(), x).push(s.last())
    }
}

/// `s` stably sorted by source, target and kind.
pub open spec fn sort_deps(s: Seq<DepView>) -> Seq<DepView>
    decreases s.len(),
{
    if s.len() == 0 {
        s
    } else {
        insert_dep(sort_deps(s.drop_last()), s.last())
    }
}

proof fn lemma_insert_dep_at(s: Seq<DepView>, x: DepView, j: int)
    requires
        0 <= j <= s.len(),
        j == 0 || dep_before(s[j - 1], x),
        forall|k: int| j <= k < s.len() ==> !dep_before(#[trigger] s[k], x),
    ensures
        insert_dep(s, x) == s.take(j) + seq![x] + s.skip(j),
    decreases s.len(),
{
    if s.len() == 0 {
        assert(s.take(j) + seq![x] + s.skip(j) =~= seq![x]);
    } else if dep_before(s.last(), x) {
        assert(j == s.len());
        assert(s.take(j) + seq![x] + s.skip(j) =~= s.push(x));
    } else {
        let t = s.drop_last();
        lemma_insert_dep_at(t, x, j);
        assert(t.take(j) + seq![x] + t.skip(j) + seq![s.last()] =~= s.take(j) + seq![x] + s.skip(
            j,
        ));
    }
}

fn dep_before_exec(a: &Dep, b: &Dep) -> (r: bool)
    ensures
        r == dep_before(a@, b@),
{
    if !str_eq(a.src.as_str(), b.src.as_str()) {
        str_le(a.src.as_str(), b.src.as_str())
    } else if !str_eq(a.dst.as_str(), b.dst.as_str()) {
        str_le(a.dst.as_str(), b.dst.as_str())
    } else {
        str_le(a.kind.as_str(), b.kind.as_str())
    }
}

/// Stably sort edges by source, target and kind.
pub fn sort_dep_vec(v: &Vec<Dep>) -> (r: Vec<Dep>)
    ensures
        deps_view(r@) == sort_deps(deps_view(v@)),
{
    let mut r: Vec<Dep> = Vec::new();
    let mut i: usize = 0;
    while i < v.len()
        invariant
            i <= v.len(),
            deps_view(r@) == sort_deps(deps_view(v@.take(i as int))),
        decreases v.len() - i,
    {
        let x = v[i].duplicate();
        let ghost rs = deps_view(r@);
        let mut j: usize = r.len();
        while j > 0 && !dep_before_exec(&r[j - 1], &x)
            invariant
                j <= r.len(),
                rs == deps_view(r@),
                forall|k: int| j <= k < rs.len() ==> !dep_before(#[trigger] rs[k], x@),
            decreases j,
        {
            j = j - 1;
        }
        proof {
            lemma_insert_dep_at(rs, x@, j as int);
            assert(deps_view(v@.take(i + 1)).drop_last() =~= deps_view(v@.take(i as int)));
            assert(deps_view(v@.take(i + 1)).last() == v@[i as int]@);
        }
        let ghost xv = x@;
        r.insert(j, x);
        assert(deps_view(r@) =~= rs.take(j as int) + seq![xv] + rs.skip(j as int));
        i = i + 1;
    }
    assert(v@.take(v.len() as int) =~= v@);
    r
}

// ------------------------------------------------------------ resolution

/// How user input resolves against the issue ids.
pub enum Resolution {
    NotFound,
    Found(Seq<char>),
    Ambiguous,
}

/// The predicate "the issue's id starts with `p`".
pub open spec fn id_has_prefix(p: Seq<char>) -> spec_fn(IssueView) -> bool {
    |v: IssueView| is_prefix(p, v.id)
}

/// Exact match first; otherwise a prefix match that must be unique. The
/// empty string is a prefix of every id.
pub open spec fn resolve_spec(c: CacheView, input: Seq<char>) -> Resolution {
    if find_issue(c.issues, input) is Some {
        Resolution::Found(input)
    } else {
        let m = c.issues.filter(id_has_prefix(input));
        if m.len() == 0 {
            Resolution::NotFound
        } else if m.len() == 1 {
            Resolution::Found(m[0].id)
        } else {
            Resolution::Ambiguous
        }
    }
}

/// The outcome of resolving user input.
pub enum Resolved {
    NotFound,
    Found(IssueId),
    Ambiguous,
}

/// Whether an executable resolution outcome is the specified one.
pub open spec fn resolved_is(r: Resolved, s: Resolution) -> bool {
    match (r, s) {
        (Resolved::NotFound, Resolution::NotFound) => true,
        (Resolved::Ambiguous, Resolution::Ambiguous) => true,
        (Resolved::Found(id), Resolution::Found(v)) => id@ == v,
        _ => false,
    }
}

/// The predicate of `list`'s filter: `None` fields match everything.
pub open spec fn list_pred(
    status: Option<Status>,
    assignee: Option<Seq<char>>,
    tag: Option<Seq<char>>,
) -> spec_fn(IssueView) -> bool {
    |v: IssueView|
        (status matches Some(s) ==> v.status == s) && (assignee matches Some(a) ==> v.assignee
            == a) && (tag matches Some(t) ==> v.tags.contains(t))
}

/// The model of an optional string slice.
pub open spec fn opt_str_view(o: Option<&str>) -> Option<Seq<char>> {
    match o {
        Some(s) => Some(s@),
        None => None,
    }
}

fn tags_contain(tags: &Vec<String>, t: &str) -> (r: bool)
    ensures
        r == strings_view(tags@).contains(t@),
{
    let mut i: usize = 0;
    while i < tags.len()
        invariant
            i <= tags.len(),
            forall|j: int| 0 <= j < i ==> tags@[j]@ != t@,
        decreases tags.len() - i,
    {
        if str_eq(tags[i].as_str(), t) {
            assert(strings_view(tags@)[i as int] == t@);
            return true;
        }
        i = i + 1;
    }
    assert forall|j: int| 0 <= j < strings_view(tags@).len() implies strings_view(tags@)[j] != t@ by {
        assert(strings_view(tags@)[j] == tags@[j]@);
    }
    false
}

impl Cache {
    /// Resolve user input to an issue id: exact match first, otherwise a
    /// unique prefix match.
    pub fn resolve(&self, input: &str) -> (r: Resolved)
        ensures
            resolved_is(r, resolve_spec(self@, input@)),
            r matches Resolved::Found(id) ==> find_issue(self@.issues, id@) is Some,
    {
        let inv = chars_of(input);
        match self.find_issue(&inv) {
            Some(k) => {
                proof {
                    lemma_first_from(self@.issues, issue_has_id(inv@), 0);
                }
                return Resolved::Found(self.issues[k].id.duplicate());
            },
            None => {},
        }
        let ghost s = self@.issues;
        let ghost p = id_has_prefix(input@);
        let mut count: usize = 0;
        let mut first: usize = 0;
        let mut i: usize = 0;
        while i < self.issues.len()
            invariant
                i <= self.issues.len(),
                s == issues_view(self.issues@),
                inv@ == input@,
                p == id_has_prefix(input@),
                count == s.take(i as int).filter(p).len(),
                count > 0 ==> first < i && s.take(i as int).filter(p)[0] == s[first as int],
            decreases self.issues.len() - i,
        {
            proof {
                assert(s.take(i + 1) =~= s.take(i as int).push(s[i as int]));
                s.take(i as int).lemma_filter_push(s[i as int], p);
            }
            let idc = chars_of(self.issues[i].id.as_str());
            if chars_starts_with(&idc, &inv) {
                if count == 0 {
                    first = i;
                }
                count = count + 1;
            }
            i = i + 1;
        }
        assert(s.take(s.len() as int) =~= s);
        if count == 0 {
            Resolved::NotFound
        } else if count == 1 {
            proof {
                lemma_first_from(s, issue_has_id(s[first as int].id), 0);
                assert(issue_has_id(s[first as int].id)(s[first as int]));
            }
            Resolved::Found(self.issues[first].id.duplicate())
        } else {
            Resolved::Ambiguous
        }
    }

    /// A copy of the issue row at `k`.
    pub fn issue_at(&self, k: usize) -> (r: Issue)
        requires
            k < self@.issues.len(),
        ensures
            r@ == self@.issues[k as int],
    {
        self.issues[k].duplicate()
    }

    /// Issues matching the filter, most recently updated first.
    pub fn list(&self, status: Option<Status>, assignee: Option<&str>, tag: Option<&str>) -> (r: Vec<
        Issue,
    >)
        ensures
            issues_view(r@) == sort_issues(
                self@.issues.filter(list_pred(status, opt_str_view(assignee), opt_str_view(tag))),
                IssueOrder::UpdatedDesc,
            ),
    {
        self.list_ordered(status, assignee, tag, IssueOrder::UpdatedDesc)
    }

    /// Issues matching the filter, ordered by `o`.
    pub fn list_ordered(
        &self,
        status: Option<Status>,
        assignee: Option<&str>,
        tag: Option<&str>,
        o: IssueOrder,
    ) -> (r: Vec<Issue>)
        ensures
            issues_view(r@) == sort_issues(
                self@.issues.filter(list_pred(status, opt_str_view(assignee), opt_str_view(tag))),
                o,
            ),
    {
        let ghost s = self@.issues;
        let ghost p = list_pred(status, opt_str_view(assignee), opt_str_view(tag));
        let mut hits: Vec<Issue> = Vec::new();
        let mut i: usize = 0;
        while i < self.issues.len()
            invariant
                i <= self.issues.len(),
                s == issues_view(self.issues@),
                p == list_pred(status, opt_str_view(assignee), opt_str_view(tag)),
                issues_view(hits@) == s.take(i as int).filter(p),
            decreases self.issues.len() - i,
        {
            proof {
                assert(s.take(i + 1) =~= s.take(i as int).push(s[i as int]));
                s.take(i as int).lemma_filter_push(s[i as int], p);
            }
            let row = &self.issues[i];
            let ok_status = match status {
                Some(st) => row.status == st,
                None => true,
            };
            let ok_assignee = match assignee {
                Some(a) => str_eq(row.assignee.as_str(), a),
                None => true,
            };
            let ok_tag = match tag {
                Some(t) => tags_contain(&row.tags, t),
                None => true,
            };
            assert((ok_status && ok_assignee && ok_tag) == p(s[i as int]));
            if ok_status && ok_assignee && ok_tag {
                let ghost hv = issues_view(hits@);
                hits.push(row.duplicate());
                assert(issues_view(hits@) =~= hv.push(s[i as int]));
            }
            i = i + 1;
        }
        assert(s.take(s.len() as int) =~= s);
        sort_issue_vec(&hits, o)
    }
}

// ------------------------------------------------------------ comments, deps

/// The predicate "is a comment on issue `id`".
pub open spec fn comment_on(id: Seq<char>) -> spec_fn(CommentView) -> bool {
    |v: CommentView| v.issue_id == id
}

/// The predicate "has issue `id` as an endpoint".
pub open spec fn edge_touches(id: Seq<char>) -> spec_fn(DepView) -> bool {
    |v: DepView| v.src == id || v.dst == id
}

// ------------------------------------------------------------ ready

/// A status whose issue still blocks what it `blocks`.
pub open spec fn is_working(s: Status) -> bool {
    s == Status::Open || s == Status::InProgress
}

/// Some issue with id `id` is open or in progress.
pub open spec fn has_working_issue(c: CacheView, id: Seq<char>) -> bool {
    exists|j: int| 0 <= j < c.issues.len() && c.issues[j].id == id && is_working(c.issues[j].status)
}

/// Issue `id` is the target of an active `blocks` edge whose source is an
/// open or in-progress issue. (A chain of `blocks` edges blocks only
/// through open or in-progress issues, so its last edge decides.)
pub open spec fn is_blocked(c: CacheView, id: Seq<char>) -> bool {
    exists|k: int|
        0 <= k < c.deps.len() && c.deps[k].kind == DepKind::Blocks && c.deps[k].dst == id
            && has_working_issue(c, c.deps[k].src)
}

/// A hold excludes its issue from `ready` until released, or until its
/// `until` time has come when one is set.
pub open spec fn hold_in_force(h: Option<HoldView>, now: i64) -> bool {
    match h {
        Some(hv) => match hv.until {
            Some(u) => now < u,
            None => true,
        },
        None => false,
    }
}

/// The predicate of `ready`: open, not held, not blocked, and assigned to
/// `assignee` when one is given.
pub open spec fn ready_pred(c: CacheView, assignee: Option<Seq<char>>, now: i64) -> spec_fn(
    IssueView,
) -> bool {
    |v: IssueView|
        v.status == Status::Open && !hold_in_force(v.hold, now) && !is_blocked(c, v.id) && (
        assignee matches Some(a) ==> v.assignee == a)
}

// ------------------------------------------------------------ search

/// The bodies of `s`, joined by single spaces.
pub open spec fn joined_bodies(s: Seq<CommentView>) -> Seq<char>
    decreases s.len(),
{
    if s.len() == 0 {
        Seq::empty()
    } else if s.len() == 1 {
        s[0].body
    } else {
        joined_bodies(s.drop_last()) + seq![' '] + s.last().body
    }
}

/// The comment text searched for issue `id`: the bodies of its comments,
/// oldest first, joined by spaces.
pub open spec fn comment_text(c: CacheView, id: Seq<char>) -> Seq<char> {
    joined_bodies(sort_comments(c.comments.filter(comment_on(id))))
}

/// The search row of issue row `k`: its index as rowid, title, body,
/// comment text and update time.
pub open spec fn search_doc(c: CacheView, k: int) -> FtsDocView {
    FtsDocView {
        rowid: k as i64,
        title: c.issues[k].title,
        body: c.issues[k].body,
        comments: comment_text(c, c.issues[k].id),
        updated: c.issues[k].updated_at,
    }
}

/// The search rows of a state, one per issue row, in row order.
pub open spec fn search_docs(c: CacheView) -> Seq<FtsDocView> {
    Seq::new(c.issues.len(), |k: int| search_doc(c, k))
}

/// The issue rows that `ranked` names by rowid, in that order (rowids
/// naming no row are passed over).
pub open spec fn rows_by_rowid(c: CacheView, ranked: Seq<i64>) -> Seq<IssueView>
    decreases ranked.len(),
{
    if ranked.len() == 0 {
        Seq::empty()
    } else {
        let rest = rows_by_rowid(c, ranked.drop_last());
        let k = ranked.last();
        if 0 <= k < c.issues.len() {
            rest.push(c.issues[k as int])
        } else {
            rest
        }
    }
}

impl Cache {
    /// All comments on issue `id`, oldest first.
    pub fn comments_of(&self, id: &Vec<char>) -> (r: Vec<Comment>)
        ensures
            comments_view(r@) == sort_comments(self@.comments.filter(comment_on(id@))),
    {
        let ghost s = self@.comments;
        let ghost p = comment_on(id@);
        let mut hits: Vec<Comment> = Vec::new();
        let mut i: usize = 0;
        while i < self.comments.len()
            invariant
                i <= self.comments.len(),
                s == comments_view(self.comments@),
                p == comment_on(id@),
                comments_view(hits@) == s.take(i as int).filter(p),
            decreases self.comments.len() - i,
        {
            proof {
                assert(s.take(i + 1) =~= s.take(i as int).push(s[i as int]));
                s.take(i as int).lemma_filter_push(s[i as int], p);
            }
            let cid = chars_of(self.comments[i].issue_id.as_str());
            if chars_eq(&cid, id) {
                let ghost hv = comments_view(hits@);
                hits.push(self.comments[i].duplicate());
                assert(comments_view(hits@) =~= hv.push(s[i as int]));
            }
            i = i + 1;
        }
        assert(s.take(s.len() as int) =~= s);
        sort_comment_vec(&hits)
    }

    /// The active edges that have issue `id` as an endpoint, ordered by
    /// source, target and kind.
    pub fn deps_of(&self, id: &Vec<char>) -> (r: Vec<Dep>)
        ensures
            deps_view(r@) == sort_deps(self@.deps.filter(edge_touches(id@))),
    {
        let ghost s = self@.deps;
        let ghost p = edge_touches(id@);
        let mut hits: Vec<Dep> = Vec::new();
        let mut i: usize = 0;
        while i < self.deps.len()
            invariant
                i <= self.deps.len(),
                s == deps_view(self.deps@),
                p == edge_touches(id@),
                deps_view(hits@) == s.take(i as int).filter(p),
            decreases self.deps.len() - i,
        {
            proof {
                assert(s.take(i + 1) =~= s.take(i as int).push(s[i as int]));
                s.take(i as int).lemma_filter_push(s[i as int], p);
            }
            let src = chars_of(self.deps[i].src.as_str());
            let dst = chars_of(self.deps[i].dst.as_str());
            if chars_eq(&src, id) || chars_eq(&dst, id) {
                let ghost hv = deps_view(hits@);
                hits.push(self.deps[i].duplicate());
                assert(deps_view(hits@) =~= hv.push(s[i as int]));
            }
            i = i + 1;
        }
        assert(s.take(s.len() as int) =~= s);
        sort_dep_vec(&hits)
    }

    fn has_working_issue(&self, id: &Vec<char>) -> (r: bool)
        ensures
            r == has_working_issue(self@, id@),
    {
        let ghost s = self@.issues;
        let mut j: usize = 0;
        while j < self.issues.len()
            invariant
                j <= self.issues.len(),
                s == issues_view(self.issues@),
                forall|m: int| 0 <= m < j ==> !(s[m].id == id@ && is_working(s[m].status)),
            decreases self.issues.len() - j,
        {
            let iid = chars_of(self.issues[j].id.as_str());
            let st = self.issues[j].status;
            if chars_eq(&iid, id) && (st == Status::Open || st == Status::InProgress) {
                assert(s[j as int].id == id@ && is_working(s[j as int].status));
                return true;
            }
            j = j + 1;
        }
        false
    }

    fn is_blocked(&self, id: &Vec<char>) -> (r: bool)
        ensures
            r == is_blocked(self@, id@),
    {
        let ghost s = self@.deps;
        let mut k: usize = 0;
        while k < self.deps.len()
            invariant
                k <= self.deps.len(),
                s == deps_view(self.deps@),
                forall|m: int|
                    0 <= m < k ==> !(s[m].kind == DepKind::Blocks && s[m].dst == id@
                        && has_working_issue(self@, s[m].src)),
            decreases self.deps.len() - k,
        {
            let d = &self.deps[k];
            if d.kind == DepKind::Blocks {
                let dst = chars_of(d.dst.as_str());
                if chars_eq(&dst, id) {
                    let src = chars_of(d.src.as_str());
                    if self.has_working_issue(&src) {
                        assert(s[k as int].kind == DepKind::Blocks && s[k as int].dst == id@
                            && has_working_issue(self@, s[k as int].src));
                        return true;
                    }
                }
            }
            k = k + 1;
        }
        false
    }

    /// Issues that are ready to work: open, not held, not blocked by an open
    /// or in-progress issue; priority ascending, then most recently updated.
    pub fn ready(&self, assignee: Option<&str>, now: i64) -> (r: Vec<Issue>)
        ensures
            issues_view(r@) == sort_issues(
                self@.issues.filter(ready_pred(self@, opt_str_view(assignee), now)),
                IssueOrder::PriorityThenUpdatedDesc,
            ),
    {
        let ghost s = self@.issues;
        let ghost p = ready_pred(self@, opt_str_view(assignee), now);
        let mut hits: Vec<Issue> = Vec::new();
        let mut i: usize = 0;
        while i < self.issues.len()
            invariant
                i <= self.issues.len(),
                s == issues_view(self.issues@),
                s == self@.issues,
                p == ready_pred(self@, opt_str_view(assignee), now),
                issues_view(hits@) == s.take(i as int).filter(p),
            decreases self.issues.len() - i,
        {
            proof {
                assert(s.take(i + 1) =~= s.take(i as int).push(s[i as int]));
                s.take(i as int).lemma_filter_push(s[i as int], p);
            }
            let row = &self.issues[i];
            let held = match &row.hold {
                Some(h) => match h.until {
                    Some(u) => now < u,
                    None => true,
                },
                None => false,
            };
            let ok_assignee = match assignee {
                Some(a) => str_eq(row.assignee.as_str(), a),
                None => true,
            };
            let ok = if row.status == Status::Open && !held && ok_assignee {
                let idv = chars_of(row.id.as_str());
                !self.is_blocked(&idv)
            } else {
                false
            };
            assert(ok == p(s[i as int]));
            if ok {
                let ghost hv = issues_view(hits@);
                hits.push(row.duplicate());
                assert(issues_view(hits@) =~= hv.push(s[i as int]));
            }
            i = i + 1;
        }
        assert(s.take(s.len() as int) =~= s);
        sort_issue_vec(&hits, IssueOrder::PriorityThenUpdatedDesc)
    }

    /// The number of issue rows.
    pub fn issue_count(&self) -> (r: usize)
        ensures
            r == self@.issues.len(),
    {
        self.issues.len()
    }

    /// The comment text searched for issue `id`.
    pub fn comment_text_of(&self, id: &Vec<char>) -> (r: String)
        ensures
            r@ == comment_text(self@, id@),
    {
        let cs = self.comments_of(id);
        let ghost sv = comments_view(cs@);
        let mut out: Vec<char> = Vec::new();
        let mut i: usize = 0;
        while i < cs.len()
            invariant
                i <= cs.len(),
                sv == comments_view(cs@),
                out@ == joined_bodies(sv.take(i as int)),
            decreases cs.len() - i,
        {
            let mut b = chars_of(cs[i].body.as_str());
            assert(sv.take(i + 1).drop_last() =~= sv.take(i as int));
            assert(sv.take(i + 1).last() == sv[i as int]);
            if i > 0 {
                out.push(' ');
            } else {
                assert(sv.take(1) =~= seq![sv[0]]);
            }
            let ghost before = out@;
            out.append(&mut b);
            i = i + 1;
        }
        assert(sv.take(sv.len() as int) =~= sv);
        string_of(&out)
    }

    /// The search row of issue row `k`.
    pub fn search_doc_at(&self, k: usize) -> (r: FtsDoc)
        requires
            k < self@.issues.len(),
        ensures
            r@ == search_doc(self@, k as int),
    {
        let row = &self.issues[k];
        let idv = chars_of(row.id.as_str());
        FtsDoc {
            rowid: k as i64,
            title: row.title.clone(),
            body: row.body.clone(),
            comments: self.comment_text_of(&idv),
            updated: row.updated_at,
        }
    }

    /// The issue rows that `ranked` names by rowid, in that order.
    pub fn rows_by_rowid(&self, ranked: &Vec<i64>) -> (r: Vec<Issue>)
        ensures
            issues_view(r@) == rows_by_rowid(self@, ranked@),
    {
        let mut out: Vec<Issue> = Vec::new();
        let mut i: usize = 0;
        while i < ranked.len()
            invariant
                i <= ranked.len(),
                issues_view(out@) == rows_by_rowid(self@, ranked@.take(i as int)),
            decreases ranked.len() - i,
        {
            let k = ranked[i];
            assert(ranked@.take(i + 1).drop_last() =~= ranked@.take(i as int));
            assert(ranked@.take(i + 1).last() == k);
            if 0 <= k && (k as u64) < (self.issues.len() as u64) {
                let ghost before = issues_view(out@);
                let row = self.issue_at(k as usize);
                out.push(row);
                assert(issues_view(out@) =~= before.push(self@.issues[k as int]));
            }
            i = i + 1;
        }
        assert(ranked@.take(ranked.len() as int) =~= ranked@);
        out
    }
}

} // verus!
