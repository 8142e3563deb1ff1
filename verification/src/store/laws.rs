//! Properties of the store as a whole: what a read gives back of a write,
//! what replay preserves, how resolution behaves, and what each query
//! returns.

use vstd::prelude::*;

use crate::dep::DepView;
use crate::dep_kind::{DepKind, dep_kind_wire, lemma_dep_kind_wire_round_trip};
use crate::hold::{HoldView, lemma_hold_kind_wire_round_trip};
use crate::issue::{IssueUpdate, IssueView, NewIssue, strs_view};
use crate::issue_id::valid_issue_id;
use crate::status::{Status, lemma_status_wire_round_trip};
use crate::comment::CommentView;
use crate::store::cache::{
    CacheView, Resolution, add_edge, apply_record, comment_before, comment_has_id, comment_of,
    comment_on, dedup, delete_issue, find_issue, first_from, first_index, id_has_prefix,
    insert_comment, is_edge, issue_has_id, joined_bodies, lemma_first_from, remove_edge, replay,
    resolve_spec, row_of, rows_by_rowid, search_doc, search_docs, set_hold, sort_comments,
    upsert_comment, upsert_issue,
};
use crate::store::cache::{
    IssueOrder, edge_touches, has_working_issue, is_blocked, is_working, list_pred, ready_pred,
    released_state, sort_deps, sort_issues,
};
use crate::store::order::{
    comment_le, dep_le, issue_le, lemma_sort_comments_sorted_permutation,
    lemma_sort_deps_sorted_permutation, lemma_sort_issues_sorted_permutation,
};
use crate::text::chars_le;
use crate::store::log::{
    CommentRecordView, RecordView, active_state, edge_of, records_view, removed_state, snapshot_of,
};
use crate::store::{
    StoreView, appended, candidate_id, dep_record, edit_tags, hold_record, new_issue_record, not_in,
    release_record, row, state, updated_record,
};

verus! {

broadcast use vstd::seq_lib::group_seq_properties;

/// Every issue row has an acceptable id, and no two rows share one.
pub open spec fn rows_well_formed(c: CacheView) -> bool {
    &&& forall|i: int| 0 <= i < c.issues.len() ==> valid_issue_id(#[trigger] c.issues[i].id)
    &&& forall|i: int, j: int|
        0 <= i < j < c.issues.len() ==> #[trigger] c.issues[i].id != #[trigger] c.issues[j].id
}

/// In a well-formed state, each row is found under its own id.
pub proof fn lemma_find_row(c: CacheView, k: int)
    requires
        rows_well_formed(c),
        0 <= k < c.issues.len(),
    ensures
        find_issue(c.issues, c.issues[k].id) == Some(k),
{
    lemma_first_from(c.issues, issue_has_id(c.issues[k].id), 0);
    assert(issue_has_id(c.issues[k].id)(c.issues[k]));
}

proof fn lemma_apply_well_formed(c: CacheView, r: RecordView)
    requires
        rows_well_formed(c),
    ensures
        rows_well_formed(apply_record(c, r)),
{
    let c2 = apply_record(c, r);
    match r {
        RecordView::Issue(ir) => {
            if let Some(s) = snapshot_of(ir) {
                lemma_first_from(c.issues, issue_has_id(s.id), 0);
            }
        },
        RecordView::Hold(hr) => {
            lemma_first_from(c.issues, issue_has_id(hr.issue_id), 0);
        },
        RecordView::Delete(dr) => {
            lemma_first_from(c.issues, issue_has_id(dr.issue_id), 0);
            if let Some(k) = find_issue(c.issues, dr.issue_id) {
                if valid_issue_id(dr.issue_id) {
                    assert forall|i: int, j: int|
                        0 <= i < j < c2.issues.len() implies #[trigger] c2.issues[i].id
                        != #[trigger] c2.issues[j].id by {
                        let i0 = if i < k { i } else { i + 1 };
                        let j0 = if j < k { j } else { j + 1 };
                        assert(c2.issues[i] == c.issues[i0]);
                        assert(c2.issues[j] == c.issues[j0]);
                    }
                    assert forall|i: int| 0 <= i < c2.issues.len() implies valid_issue_id(
                        #[trigger] c2.issues[i].id,
                    ) by {
                        let i0 = if i < k { i } else { i + 1 };
                        assert(c2.issues[i] == c.issues[i0]);
                    }
                }
            }
        },
        _ => {},
    }
}

/// The derived state of any log is well formed.
pub proof fn lemma_replay_well_formed(log: Seq<RecordView>)
    ensures
        rows_well_formed(replay(log)),
    decreases log.len(),
{
    if log.len() > 0 {
        lemma_replay_well_formed(log.drop_last());
        lemma_apply_well_formed(replay(log.drop_last()), log.last());
    }
}

/// A resolved id names a row.
pub proof fn lemma_resolved_has_row(c: CacheView, input: Seq<char>)
    ensures
        resolve_spec(c, input) matches Resolution::Found(v) ==> find_issue(c.issues, v) is Some
            && c.issues[find_issue(c.issues, v)->0].id == v,
{
    lemma_first_from(c.issues, issue_has_id(input), 0);
    if let Resolution::Found(v) = resolve_spec(c, input) {
        if find_issue(c.issues, input) is None {
            let m = c.issues.filter(id_has_prefix(input));
            assert(m.contains(m[0]));
            c.issues.lemma_filter_contains_rev(id_has_prefix(input), m[0]);
            let j = choose|j: int| 0 <= j < c.issues.len() && c.issues[j] == m[0];
            lemma_first_from(c.issues, issue_has_id(v), 0);
            assert(issue_has_id(v)(c.issues[j]));
        }
        lemma_first_from(c.issues, issue_has_id(v), 0);
    }
}

/// An existing id always resolves to itself: exact matches win over
/// prefix matches.
pub proof fn lemma_resolve_exact(c: CacheView, k: int)
    requires
        0 <= k < c.issues.len(),
    ensures
        resolve_spec(c, c.issues[k].id) == Resolution::Found(c.issues[k].id),
{
    lemma_first_from(c.issues, issue_has_id(c.issues[k].id), 0);
    assert(issue_has_id(c.issues[k].id)(c.issues[k]));
}

/// The empty string is a prefix of every id: it resolves exactly when the
/// store holds a single issue, and is ambiguous with two or more.
pub proof fn lemma_resolve_empty(c: CacheView)
    requires
        rows_well_formed(c),
    ensures
        c.issues.len() == 0 ==> resolve_spec(c, Seq::empty()) == Resolution::NotFound,
        c.issues.len() == 1 ==> resolve_spec(c, Seq::empty()) == Resolution::Found(c.issues[0].id),
        c.issues.len() >= 2 ==> resolve_spec(c, Seq::empty()) == Resolution::Ambiguous,
{
    let e = Seq::<char>::empty();
    lemma_first_from(c.issues, issue_has_id(e), 0);
    assert forall|j: int| 0 <= j < c.issues.len() implies !issue_has_id(e)(c.issues[j]) by {
        assert(valid_issue_id(c.issues[j].id));
    }
    assert forall|j: int| 0 <= j < c.issues.len() implies #[trigger] id_has_prefix(e)(c.issues[j]) by {
        assert(c.issues[j].id.subrange(0, 0) =~= e);
    }
    lemma_filter_all(c.issues, id_has_prefix(e));
}

proof fn lemma_filter_all<T>(s: Seq<T>, p: spec_fn(T) -> bool)
    requires
        forall|j: int| 0 <= j < s.len() ==> #[trigger] p(s[j]),
    ensures
        s.filter(p) == s,
    decreases s.len(),
{
    reveal(Seq::filter);
    if s.len() > 0 {
        lemma_filter_all(s.drop_last(), p);
        assert(s.drop_last().push(s.last()) =~= s);
    }
}

/// Collapsing duplicates keeps exactly the tags there were, each once:
/// the tags a new issue reads back are the set of the tags it was given.
pub proof fn lemma_dedup_no_duplicates(s: Seq<Seq<char>>)
    ensures
        dedup(s).no_duplicates(),
        forall|x: Seq<char>| #[trigger] dedup(s).contains(x) <==> s.contains(x),
    decreases s.len(),
{
    if s.len() > 0 {
        lemma_dedup_no_duplicates(s.drop_last());
        let d = dedup(s.drop_last());
        assert forall|x: Seq<char>| #[trigger] dedup(s).contains(x) <==> s.contains(x) by {
            if s.contains(x) && x != s.last() {
                let i = choose|i: int| 0 <= i < s.len() && s[i] == x;
                assert(s.drop_last()[i] == x);
            }
            if d.contains(x) {
                assert(s.drop_last().contains(x));
                let i = choose|i: int| 0 <= i < s.drop_last().len() && s.drop_last()[i] == x;
                assert(s[i] == x);
            }
            if dedup(s).contains(x) && !d.contains(x) {
                assert(x == s.last());
                assert(s[s.len() - 1] == x);
            }
        }
    }
}

proof fn lemma_dedup_unique(s: Seq<Seq<char>>)
    requires
        s.no_duplicates(),
    ensures
        dedup(s) == s,
    decreases s.len(),
{
    if s.len() > 0 {
        let t = s.drop_last();
        assert(t.no_duplicates());
        lemma_dedup_unique(t);
        lemma_dedup_no_duplicates(t);
        if t.contains(s.last()) {
            let i = choose|i: int| 0 <= i < t.len() && t[i] == s.last();
            assert(s[i] == s[s.len() - 1]);
        }
        assert(t.push(s.last()) =~= s);
    }
}

/// Collapsing duplicate tags twice is collapsing them once, and the result
/// holds each tag once.
pub proof fn lemma_dedup_idempotent(s: Seq<Seq<char>>)
    ensures
        dedup(dedup(s)) == dedup(s),
        dedup(s).no_duplicates(),
{
    lemma_dedup_no_duplicates(s);
    lemma_dedup_unique(dedup(s));
}

proof fn lemma_filter_agree(
    s: Seq<Seq<char>>,
    p: spec_fn(Seq<char>) -> bool,
    q: spec_fn(Seq<char>) -> bool,
)
    requires
        forall|i: int| 0 <= i < s.len() ==> p(#[trigger] s[i]) == q(s[i]),
    ensures
        s.filter(p) == s.filter(q),
    decreases s.len(),
{
    if s.len() > 0 {
        let t = s.drop_last();
        assert forall|i: int| 0 <= i < t.len() implies p(#[trigger] t[i]) == q(t[i]) by {
            assert(t[i] == s[i]);
        }
        lemma_filter_agree(t, p, q);
        assert(s =~= t.push(s.last()));
        t.lemma_filter_push(s.last(), p);
        t.lemma_filter_push(s.last(), q);
    }
}

/// The tags an update leaves, as a set: a tag is kept exactly when the
/// issue had it or the update adds it, and the update does not remove it;
/// each tag once.
pub proof fn lemma_edit_tags_set(old: Seq<Seq<char>>, add: Seq<Seq<char>>, rm: Seq<Seq<char>>)
    ensures
        edit_tags(old, add, rm).no_duplicates(),
        forall|t: Seq<char>| #[trigger] edit_tags(old, add, rm).contains(t) <==> ((old.contains(t)
            || add.contains(t)) && !rm.contains(t)),
{
    let all = old + add;
    let kept = all.filter(not_in(rm));
    lemma_dedup_no_duplicates(kept);
    assert forall|t: Seq<char>| #[trigger] edit_tags(old, add, rm).contains(t) <==> ((old.contains(
        t,
    ) || add.contains(t)) && !rm.contains(t)) by {
        if kept.contains(t) {
            all.lemma_filter_contains_rev(not_in(rm), t);
            let i = choose|i: int| 0 <= i < all.len() && all[i] == t;
            if i < old.len() {
                assert(old[i] == t);
            } else {
                assert(add[i - old.len()] == t);
            }
        }
        if (old.contains(t) || add.contains(t)) && !rm.contains(t) {
            if old.contains(t) {
                let i = choose|i: int| 0 <= i < old.len() && old[i] == t;
                assert(all[i] == t);
                all.lemma_filter_contains(not_in(rm), i);
            } else {
                let i = choose|i: int| 0 <= i < add.len() && add[i] == t;
                assert(all[old.len() + i] == t);
                all.lemma_filter_contains(not_in(rm), old.len() + i);
            }
        }
    }
}

proof fn lemma_apply_edges_unique(c: CacheView, r: RecordView)
    requires
        c.deps.no_duplicates(),
    ensures
        apply_record(c, r).deps.no_duplicates(),
{
    let c2 = apply_record(c, r);
    if let RecordView::Dep(dr) = r {
        if let Some((src, dst, k)) = edge_of(dr) {
            let e = DepView { src, dst, kind: k };
            lemma_first_from(c.deps, is_edge(e), 0);
            if dr.state == removed_state() {
                if let Some(j) = first_index(c.deps, is_edge(e)) {
                    assert forall|a: int, b: int| 0 <= a < b < c2.deps.len() implies c2.deps[a]
                        != c2.deps[b] by {
                        let a0 = if a < j { a } else { a + 1 };
                        let b0 = if b < j { b } else { b + 1 };
                        assert(c2.deps[a] == c.deps[a0] && c2.deps[b] == c.deps[b0]);
                    }
                }
            } else if first_index(c.deps, is_edge(e)) is None {
                assert forall|a: int, b: int| 0 <= a < b < c2.deps.len() implies c2.deps[a]
                    != c2.deps[b] by {
                    if b == c.deps.len() {
                        assert(!is_edge(e)(c.deps[a]));
                    }
                }
            }
        }
    }
}

/// No edge appears twice in the derived state of any log.
pub proof fn lemma_replay_edges_unique(log: Seq<RecordView>)
    ensures
        replay(log).deps.no_duplicates(),
    decreases log.len(),
{
    if log.len() > 0 {
        lemma_replay_edges_unique(log.drop_last());
        lemma_apply_edges_unique(replay(log.drop_last()), log.last());
    }
}

/// Removing an edge leaves no copy of it, and every other edge stays: what
/// `remove_dep` appends takes exactly that edge out of the state.
pub proof fn lemma_remove_dep_removes(s: StoreView, src: Seq<char>, dst: Seq<char>, kind: DepKind)
    requires
        valid_issue_id(src),
        valid_issue_id(dst),
    ensures
        ({
            let before = state(s).deps;
            let after = state(appended(s, RecordView::Dep(dep_record(src, dst, kind, true)))).deps;
            let e = DepView { src, dst, kind };
            &&& !after.contains(e)
            &&& forall|f: DepView| f != e ==> (#[trigger] after.contains(f) <==> before.contains(f))
        }),
{
    let s2 = appended(s, RecordView::Dep(dep_record(src, dst, kind, true)));
    assert(s2.log.drop_last() =~= s.log);
    let c = state(s);
    let e = DepView { src, dst, kind };
    lemma_replay_edges_unique(s.log);
    lemma_dep_kind_wire_round_trip(kind);
    reveal_strlit("active");
    reveal_strlit("removed");
    assert(removed_state() != active_state()) by {
        assert(removed_state()[0] != active_state()[0]);
    }
    let after = state(s2).deps;
    assert(after == remove_edge(c, e).deps);
    lemma_first_from(c.deps, is_edge(e), 0);
    match first_index(c.deps, is_edge(e)) {
        Some(j) => {
            assert(after == c.deps.remove(j));
            assert(c.deps[j] == e);
            assert forall|f: DepView| f != e implies (#[trigger] after.contains(f) <==> c.deps.contains(
                f,
            )) by {
                if c.deps.contains(f) {
                    let i = choose|i: int| 0 <= i < c.deps.len() && c.deps[i] == f;
                    assert(i != j);
                    if i < j {
                        assert(after[i] == f);
                    } else {
                        assert(after[i - 1] == f);
                    }
                }
                if after.contains(f) {
                    let i = choose|i: int| 0 <= i < after.len() && after[i] == f;
                    if i < j {
                        assert(c.deps[i] == f);
                    } else {
                        assert(c.deps[i + 1] == f);
                    }
                }
            }
            if after.contains(e) {
                let i = choose|i: int| 0 <= i < after.len() && after[i] == e;
                if i < j {
                    assert(c.deps[i] == c.deps[j]);
                } else {
                    assert(c.deps[i + 1] == c.deps[j]);
                }
            }
        },
        None => {
            assert(after == c.deps);
            if after.contains(e) {
                let i = choose|i: int| 0 <= i < after.len() && after[i] == e;
                assert(is_edge(e)(c.deps[i]));
            }
        },
    }
}

/// Removing a tag the issue does not carry (and the update does not add)
/// is a no-op: it leaves the resulting tags as they would be without it.
pub proof fn lemma_remove_absent_tag(
    old: Seq<Seq<char>>,
    add: Seq<Seq<char>>,
    rm: Seq<Seq<char>>,
    t: Seq<char>,
)
    requires
        !old.contains(t),
        !add.contains(t),
    ensures
        edit_tags(old, add, rm.push(t)) == edit_tags(old, add, rm),
{
    let all = old + add;
    assert forall|i: int| 0 <= i < all.len() implies not_in(rm.push(t))(#[trigger] all[i])
        == not_in(rm)(all[i]) by {
        if i < old.len() {
            assert(all[i] == old[i]);
        } else {
            assert(all[i] == add[i - old.len()]);
        }
        assert(all[i] != t);
        if rm.push(t).contains(all[i]) {
            let j = choose|j: int| 0 <= j < rm.push(t).len() && rm.push(t)[j] == all[i];
            assert(j < rm.len());
            assert(rm[j] == all[i]);
        }
        if rm.contains(all[i]) {
            let j = choose|j: int| 0 <= j < rm.len() && rm[j] == all[i];
            assert(rm.push(t)[j] == all[i]);
        }
    }
    lemma_filter_agree(all, not_in(rm.push(t)), not_in(rm));
}

/// What a successful create writes, a fetch of the new id reads back:
/// status open, both timestamps `now`, each tag once, no hold.
pub proof fn lemma_create_then_fetch(s: StoreView, new: NewIssue, now: i64)
    requires
        valid_issue_id(candidate_id(s.prefix, new, now)),
        find_issue(state(s).issues, candidate_id(s.prefix, new, now)) is None,
    ensures
        ({
            let id = candidate_id(s.prefix, new, now);
            let s2 = appended(s, RecordView::Issue(new_issue_record(id, new, now)));
            &&& resolve_spec(state(s2), id) == Resolution::Found(id)
            &&& row(state(s2), id) == IssueView {
                id,
                title: new.title@,
                body: new.body@,
                status: Status::Open,
                priority: new.priority,
                assignee: new.assignee@,
                created_at: now,
                updated_at: now,
                tags: dedup(strs_view(new.tags@)),
                hold: None,
            }
        }),
{
    let id = candidate_id(s.prefix, new, now);
    let s2 = appended(s, RecordView::Issue(new_issue_record(id, new, now)));
    assert(s2.log.drop_last() =~= s.log);
    lemma_status_wire_round_trip(Status::Open);
    let c = state(s);
    let c2 = state(s2);
    lemma_replay_well_formed(s2.log);
    lemma_dedup_idempotent(strs_view(new.tags@));
    assert(c2.issues == c.issues.push(c2.issues.last()));
    let k = c.issues.len() as int;
    lemma_find_row(c2, k);
    lemma_resolve_exact(c2, k);
}

/// What a successful update writes, a fetch reads back: fields the update
/// sets take the new values, the others keep theirs, `created_at` and the
/// hold stay, `updated_at` becomes `now`.
pub proof fn lemma_update_then_fetch(s: StoreView, input: Seq<char>, u: IssueUpdate, now: i64)
    requires
        resolve_spec(state(s), input) is Found,
    ensures
        ({
            let id = resolve_spec(state(s), input)->Found_0;
            let old_row = row(state(s), id);
            let s2 = appended(s, RecordView::Issue(updated_record(old_row, u, now)));
            &&& resolve_spec(state(s2), id) == Resolution::Found(id)
            &&& row(state(s2), id) == IssueView {
                id,
                title: match u.title {
                    Some(t) => t@,
                    None => old_row.title,
                },
                body: match u.body {
                    Some(b) => b@,
                    None => old_row.body,
                },
                status: match u.status {
                    Some(st) => st,
                    None => old_row.status,
                },
                priority: match u.priority {
                    Some(p) => p,
                    None => old_row.priority,
                },
                assignee: match u.assignee {
                    Some(a) => a@,
                    None => old_row.assignee,
                },
                created_at: old_row.created_at,
                updated_at: now,
                tags: edit_tags(old_row.tags, strs_view(u.add_tags@), strs_view(u.rm_tags@)),
                hold: old_row.hold,
            }
        }),
{
    let c = state(s);
    let id = resolve_spec(c, input)->Found_0;
    lemma_resolved_has_row(c, input);
    lemma_replay_well_formed(s.log);
    let k = find_issue(c.issues, id)->0;
    lemma_first_from(c.issues, issue_has_id(id), 0);
    let old_row = c.issues[k];
    assert(valid_issue_id(old_row.id));
    assert(old_row.id == id);
    let s2 = appended(s, RecordView::Issue(updated_record(old_row, u, now)));
    assert(s2.log.drop_last() =~= s.log);
    let st = match u.status {
        Some(x) => x,
        None => old_row.status,
    };
    lemma_status_wire_round_trip(st);
    let tags = (old_row.tags + strs_view(u.add_tags@)).filter(
        not_in(strs_view(u.rm_tags@)),
    );
    lemma_dedup_idempotent(tags);
    let c2 = state(s2);
    lemma_replay_well_formed(s2.log);
    assert(c2.issues == c.issues.update(k, c2.issues[k]));
    lemma_find_row(c2, k);
    lemma_resolve_exact(c2, k);
}

/// Adding an edge twice is adding it once.
pub proof fn lemma_add_edge_idempotent(c: CacheView, e: DepView)
    ensures
        add_edge(add_edge(c, e), e) == add_edge(c, e),
{
    let c1 = add_edge(c, e);
    lemma_first_from(c.deps, is_edge(e), 0);
    if first_index(c.deps, is_edge(e)) is None {
        let n = c.deps.len() as int;
        lemma_first_from(c1.deps, is_edge(e), 0);
        assert(is_edge(e)(c1.deps[n]));
    }
}

/// Adding the same dependency twice leaves the state as adding it once.
pub proof fn lemma_add_dep_idempotent(s: StoreView, src: Seq<char>, dst: Seq<char>, kind: DepKind)
    ensures
        ({
            let once = appended(s, RecordView::Dep(dep_record(src, dst, kind, false)));
            state(appended(once, RecordView::Dep(dep_record(src, dst, kind, false)))) == state(once)
        }),
{
    let r = RecordView::Dep(dep_record(src, dst, kind, false));
    let once = appended(s, r);
    let twice = appended(once, r);
    assert(once.log.drop_last() =~= s.log);
    assert(twice.log.drop_last() =~= once.log);
    reveal_strlit("active");
    reveal_strlit("removed");
    assert(removed_state() != active_state()) by {
        assert(removed_state()[0] != active_state()[0]);
    }
    if let Some((a, b, k)) = edge_of(dep_record(src, dst, kind, false)) {
        lemma_add_edge_idempotent(state(s), DepView { src: a, dst: b, kind: k });
    }
}

/// Removing an edge that was just added to a state without it restores
/// the state.
pub proof fn lemma_remove_undoes_add(c: CacheView, e: DepView)
    requires
        first_index(c.deps, is_edge(e)) is None,
    ensures
        remove_edge(add_edge(c, e), e) == c,
{
    let c1 = add_edge(c, e);
    let n = c.deps.len() as int;
    lemma_first_from(c.deps, is_edge(e), 0);
    lemma_first_from(c1.deps, is_edge(e), 0);
    assert(is_edge(e)(c1.deps[n]));
    assert forall|j: int| 0 <= j < n implies !is_edge(e)(#[trigger] c1.deps[j]) by {
        assert(c1.deps[j] == c.deps[j]);
    }
    assert(c1.deps.remove(n) =~= c.deps);
}

/// After a tombstone, the deleted id no longer names any issue.
pub proof fn lemma_delete_hides(s: StoreView, id: Seq<char>, at: i64)
    requires
        valid_issue_id(id),
    ensures
        find_issue(
            state(
                appended(
                    s,
                    RecordView::Delete(crate::store::log::DeleteRecordView { issue_id: id, deleted_at: at }),
                ),
            ).issues,
            id,
        ) is None,
{
    let s2 = appended(
        s,
        RecordView::Delete(crate::store::log::DeleteRecordView { issue_id: id, deleted_at: at }),
    );
    assert(s2.log.drop_last() =~= s.log);
    let c = state(s);
    let c2 = state(s2);
    lemma_replay_well_formed(s.log);
    lemma_first_from(c.issues, issue_has_id(id), 0);
    lemma_first_from(c2.issues, issue_has_id(id), 0);
    if let Some(k) = find_issue(c.issues, id) {
        assert forall|j: int| 0 <= j < c2.issues.len() implies !issue_has_id(id)(#[trigger] c2.issues[j]) by {
            let j0 = if j < k { j } else { j + 1 };
            assert(c2.issues[j] == c.issues[j0]);
            if j0 != k {
                if j0 < k {
                    assert(c.issues[j0].id != c.issues[k].id);
                } else {
                    assert(c.issues[k].id != c.issues[j0].id);
                }
            }
        }
    }
}

proof fn lemma_insert_comment_contains(s: Seq<CommentView>, x: CommentView, y: CommentView)
    requires
        s.contains(y) || y == x,
    ensures
        insert_comment(s, x).contains(y),
    decreases s.len(),
{
    if s.len() == 0 {
        assert(insert_comment(s, x)[0] == y);
    } else if comment_before(s.last(), x) {
        let r = s.push(x);
        if y == x {
            assert(r[s.len() as int] == y);
        } else {
            let j = choose|j: int| 0 <= j < s.len() && s[j] == y;
            assert(r[j] == y);
        }
    } else {
        let t = s.drop_last();
        let r = insert_comment(t, x).push(s.last());
        if y == s.last() {
            assert(r[r.len() - 1] == y);
        } else {
            if y != x {
                let j = choose|j: int| 0 <= j < s.len() && s[j] == y;
                assert(t[j] == y);
            }
            lemma_insert_comment_contains(t, x, y);
            let i = choose|i: int| 0 <= i < insert_comment(t, x).len() && insert_comment(t, x)[i] == y;
            assert(r[i] == y);
        }
    }
}

proof fn lemma_sort_comments_contains(s: Seq<CommentView>, y: CommentView)
    requires
        s.contains(y),
    ensures
        sort_comments(s).contains(y),
    decreases s.len(),
{
    let t = s.drop_last();
    if y == s.last() {
        lemma_insert_comment_contains(sort_comments(t), s.last(), y);
    } else {
        let j = choose|j: int| 0 <= j < s.len() && s[j] == y;
        assert(t[j] == y);
        lemma_sort_comments_contains(t, y);
        lemma_insert_comment_contains(sort_comments(t), s.last(), y);
    }
}

/// `b` is a contiguous part of `t`.
pub open spec fn occurs_in(b: Seq<char>, t: Seq<char>) -> bool {
    exists|i: int| 0 <= i && i + b.len() <= t.len() && #[trigger] t.subrange(i, i + b.len()) == b
}

proof fn lemma_joined_holds_body(s: Seq<CommentView>, y: CommentView)
    requires
        s.contains(y),
    ensures
        occurs_in(y.body, joined_bodies(s)),
    decreases s.len(),
{
    let j = choose|j: int| 0 <= j < s.len() && s[j] == y;
    let t = joined_bodies(s);
    if s.len() == 1 {
        assert(t == y.body);
        assert(t.subrange(0, 0 + y.body.len() as int) =~= y.body);
    } else if j == s.len() - 1 {
        assert(t == joined_bodies(s.drop_last()) + seq![' '] + y.body);
        let i = t.len() - y.body.len();
        assert(t.subrange(i, i + y.body.len()) =~= y.body);
    } else {
        assert(t == joined_bodies(s.drop_last()) + seq![' '] + s.last().body);
        let u = s.drop_last();
        assert(u[j] == y);
        lemma_joined_holds_body(u, y);
        let p = joined_bodies(u);
        let i = choose|i: int| 0 <= i && i + y.body.len() <= p.len() && #[trigger] p.subrange(
            i,
            i + y.body.len(),
        ) == y.body;
        assert(t.subrange(i, i + y.body.len()) =~= p.subrange(i, i + y.body.len()));
    }
}

/// A comment on an existing issue, with an id no comment has yet, is added
/// as one more comment and changes nothing else. (A comment whose id is
/// taken replaces the earlier one: later records win.)
pub proof fn lemma_comment_added(s: StoreView, input: Seq<char>, cr: CommentRecordView)
    requires
        resolve_spec(state(s), input) == Resolution::Found(cr.issue_id),
        forall|j: int| 0 <= j < state(s).comments.len() ==> #[trigger] state(s).comments[j].id != cr.id,
    ensures
        state(appended(s, RecordView::Comment(cr))) == (CacheView {
            comments: state(s).comments.push(comment_of(cr)),
            ..state(s)
        }),
{
    let c = state(s);
    let s2 = appended(s, RecordView::Comment(cr));
    assert(s2.log.drop_last() =~= s.log);
    lemma_replay_well_formed(s.log);
    lemma_resolved_has_row(c, input);
    lemma_first_from(c.issues, issue_has_id(cr.issue_id), 0);
    assert(valid_issue_id(c.issues[find_issue(c.issues, cr.issue_id)->0].id));
    lemma_first_from(c.comments, comment_has_id(cr.id), 0);
    if let Some(k) = first_index(c.comments, comment_has_id(cr.id)) {
        assert(comment_has_id(cr.id)(c.comments[k]));
    }
}

/// A comment is searchable as soon as it is added: after a comment on an
/// existing issue, the comment's text is part of the comment text that the
/// issue's search row holds.
pub proof fn lemma_comment_searchable(s: StoreView, input: Seq<char>, cr: CommentRecordView)
    requires
        resolve_spec(state(s), input) == Resolution::Found(cr.issue_id),
    ensures
        ({
            let c2 = state(appended(s, RecordView::Comment(cr)));
            let k = find_issue(c2.issues, cr.issue_id);
            &&& k is Some
            &&& c2.issues[k->0].id == cr.issue_id
            &&& occurs_in(cr.body, search_docs(c2)[k->0].comments)
        }),
{
    let c = state(s);
    let s2 = appended(s, RecordView::Comment(cr));
    assert(s2.log.drop_last() =~= s.log);
    let c2 = state(s2);
    lemma_replay_well_formed(s.log);
    lemma_resolved_has_row(c, input);
    let k = find_issue(c.issues, cr.issue_id)->0;
    lemma_first_from(c.issues, issue_has_id(cr.issue_id), 0);
    assert(valid_issue_id(c.issues[k].id));
    let v = comment_of(cr);
    assert(c2 == upsert_comment(c, v));
    assert(c2.issues == c.issues);
    lemma_first_from(c.comments, comment_has_id(v.id), 0);
    let ci = match first_index(c.comments, comment_has_id(v.id)) {
        Some(i) => i,
        None => c.comments.len() as int,
    };
    assert(0 <= ci < c2.comments.len() && c2.comments[ci] == v);
    assert(comment_on(cr.issue_id)(c2.comments[ci]));
    c2.comments.lemma_filter_contains(comment_on(cr.issue_id), ci);
    lemma_sort_comments_contains(c2.comments.filter(comment_on(cr.issue_id)), v);
    lemma_joined_holds_body(sort_comments(c2.comments.filter(comment_on(cr.issue_id))), v);
    assert(search_docs(c2)[k] == search_doc(c2, k));
}

proof fn lemma_set_hold_row(c: CacheView, c2: CacheView, id: Seq<char>, h: Option<HoldView>)
    requires
        rows_well_formed(c),
        rows_well_formed(c2),
        find_issue(c.issues, id) is Some,
        c2 == crate::store::cache::set_hold(c, id, h),
    ensures
        find_issue(c2.issues, id) == find_issue(c.issues, id),
        row(c2, id) == (IssueView { hold: h, ..row(c, id) }),
{
    lemma_first_from(c.issues, issue_has_id(id), 0);
    let k = find_issue(c.issues, id)->0;
    assert(c2.issues[k].id == id);
    lemma_find_row(c2, k);
}

/// What a hold writes, a fetch reads back: after a hold on an existing
/// issue the issue carries exactly that hold, and nothing else of it
/// changes. Holding a held issue replaces its hold.
pub proof fn lemma_hold_then_fetch(
    s: StoreView,
    input: Seq<char>,
    id: Seq<char>,
    h: HoldView,
    at: i64,
)
    requires
        resolve_spec(state(s), input) == Resolution::Found(id),
    ensures
        row(state(appended(s, RecordView::Hold(hold_record(id, h, at)))), id) == (IssueView {
            hold: Some(h),
            ..row(state(s), id)
        }),
{
    let c = state(s);
    let s2 = appended(s, RecordView::Hold(hold_record(id, h, at)));
    assert(s2.log.drop_last() =~= s.log);
    lemma_replay_well_formed(s.log);
    lemma_replay_well_formed(s2.log);
    lemma_resolved_has_row(c, input);
    lemma_first_from(c.issues, issue_has_id(id), 0);
    assert(valid_issue_id(c.issues[find_issue(c.issues, id)->0].id));
    lemma_hold_kind_wire_round_trip(h.kind);
    lemma_set_hold_row(c, state(s2), id, Some(h));
}

/// Releasing a hold clears it: the issue carries no hold afterwards, and
/// nothing else of it changes.
pub proof fn lemma_unhold_then_fetch(
    s: StoreView,
    input: Seq<char>,
    id: Seq<char>,
    h: HoldView,
    at: i64,
)
    requires
        resolve_spec(state(s), input) == Resolution::Found(id),
    ensures
        row(state(appended(s, RecordView::Hold(release_record(id, h, at)))), id) == (IssueView {
            hold: None,
            ..row(state(s), id)
        }),
{
    let c = state(s);
    let s2 = appended(s, RecordView::Hold(release_record(id, h, at)));
    assert(s2.log.drop_last() =~= s.log);
    lemma_replay_well_formed(s.log);
    lemma_replay_well_formed(s2.log);
    lemma_resolved_has_row(c, input);
    lemma_first_from(c.issues, issue_has_id(id), 0);
    assert(valid_issue_id(c.issues[find_issue(c.issues, id)->0].id));
    reveal_strlit("active");
    reveal_strlit("released");
    assert(released_state() != active_state()) by {
        assert(released_state()[0] != active_state()[0]);
    }
    lemma_set_hold_row(c, state(s2), id, None);
}

/// Reimporting a store's own log changes nothing, and a fresh store that
/// imports another's event stream reaches the same derived state.
pub proof fn lemma_export_import_round_trip(s: StoreView, fresh: StoreView)
    requires
        fresh.log.len() == 0,
    ensures
        state(StoreView { log: fresh.log + s.log, ..fresh }) == state(s),
        state(StoreView { log: s.log, ..s }) == state(s),
{
    assert(fresh.log + s.log =~= s.log);
}

/// The derived state is a function of the log alone: two stores with the
/// same log read the same, whatever their prefix or id generator.
pub proof fn lemma_state_depends_on_log_only(a: StoreView, b: StoreView)
    requires
        a.log == b.log,
    ensures
        state(a) == state(b),
{
}

/// Replaying a longer log is replaying its prefix, then the new records in
/// order: importing appended bytes incrementally agrees with a full
/// reimport.
pub proof fn lemma_replay_incremental(log: Seq<RecordView>, more: Seq<RecordView>)
    ensures
        replay(log + more) == more.fold_left(replay(log), |c: CacheView, r: RecordView| apply_record(c, r)),
    decreases more.len(),
{
    if more.len() == 0 {
        assert(log + more =~= log);
    } else {
        lemma_replay_incremental(log, more.drop_last());
        assert((log + more).drop_last() =~= log + more.drop_last());
    }
}

// ------------------------------------------------------------ queries

proof fn lemma_permutation_members<T>(a: Seq<T>, b: Seq<T>)
    requires
        a.to_multiset() == b.to_multiset(),
    ensures
        forall|x: T| a.contains(x) <==> b.contains(x),
{
    assert forall|x: T| a.contains(x) <==> b.contains(x) by {
        vstd::seq_lib::to_multiset_contains(a, x);
        vstd::seq_lib::to_multiset_contains(b, x);
    }
}

proof fn lemma_filter_members<T>(s: Seq<T>, p: spec_fn(T) -> bool)
    ensures
        forall|x: T| s.filter(p).contains(x) <==> s.contains(x) && p(x),
{
    assert forall|x: T| s.filter(p).contains(x) <==> s.contains(x) && p(x) by {
        if s.filter(p).contains(x) {
            s.lemma_filter_contains_rev(p, x);
            let i = choose|i: int| 0 <= i < s.filter(p).len() && s.filter(p)[i] == x;
            s.lemma_filter_pred(p, i);
        }
        if s.contains(x) && p(x) {
            let i = choose|i: int| 0 <= i < s.len() && s[i] == x;
            s.lemma_filter_contains(p, i);
        }
    }
}

/// A listing holds exactly the issues that meet every filter that is set:
/// the status when one is given, the assignee when one is given, and the
/// tag when one is given. Set filters combine by "and", so a listing by
/// status and tag is the issues listed by that status that are also listed
/// by that tag; an unset filter matches everything. The listing is most
/// recently updated first.
pub proof fn lemma_list_meets_every_filter(
    c: CacheView,
    status: Option<Status>,
    assignee: Option<Seq<char>>,
    tag: Option<Seq<char>>,
)
    ensures
        ({
            let r = sort_issues(
                c.issues.filter(list_pred(status, assignee, tag)),
                IssueOrder::UpdatedDesc,
            );
            &&& forall|v: IssueView| #[trigger]
                r.contains(v) <==> {
                    &&& c.issues.contains(v)
                    &&& (status matches Some(st) ==> v.status == st)
                    &&& (assignee matches Some(a) ==> v.assignee == a)
                    &&& (tag matches Some(t) ==> v.tags.contains(t))
                }
            &&& forall|i: int, j: int| 0 <= i < j < r.len() ==> r[i].updated_at >= r[j].updated_at
        }),
{
    let o = IssueOrder::UpdatedDesc;
    let p = list_pred(status, assignee, tag);
    let f = c.issues.filter(p);
    let r = sort_issues(f, o);
    lemma_sort_issues_sorted_permutation(f, o);
    lemma_permutation_members(r, f);
    lemma_filter_members(c.issues, p);
    assert forall|i: int, j: int| 0 <= i < j < r.len() implies r[i].updated_at
        >= r[j].updated_at by {
        assert(issue_le(o)(r[i], r[j]));
    }
}

/// The ready queue at time `now` holds exactly the open issues that are not
/// held (no hold, or a hold whose `until` time has come), that no active
/// `blocks` edge points at from an open or in-progress issue (whether or
/// not that issue is held itself), and that carry `assignee` when one is
/// given. It is ordered by priority, 1 first, then most recently updated.
pub proof fn lemma_ready_queue(c: CacheView, assignee: Option<Seq<char>>, now: i64)
    ensures
        ({
            let r = sort_issues(
                c.issues.filter(ready_pred(c, assignee, now)),
                IssueOrder::PriorityThenUpdatedDesc,
            );
            &&& forall|v: IssueView| #[trigger]
                r.contains(v) <==> {
                    &&& c.issues.contains(v)
                    &&& v.status == Status::Open
                    &&& (v.hold matches Some(h) ==> (h.until matches Some(u) && u <= now))
                    &&& !exists|k: int, j: int|
                        #![trigger c.deps[k], c.issues[j]]
                        0 <= k < c.deps.len() && 0 <= j < c.issues.len() && c.deps[k].kind
                            == DepKind::Blocks && c.deps[k].dst == v.id && c.issues[j].id
                            == c.deps[k].src && (c.issues[j].status == Status::Open
                            || c.issues[j].status == Status::InProgress)
                    &&& (assignee matches Some(a) ==> v.assignee == a)
                }
            &&& forall|i: int, j: int|
                0 <= i < j < r.len() ==> r[i].priority < r[j].priority || (r[i].priority
                    == r[j].priority && r[i].updated_at >= r[j].updated_at)
        }),
{
    let o = IssueOrder::PriorityThenUpdatedDesc;
    let p = ready_pred(c, assignee, now);
    let f = c.issues.filter(p);
    let r = sort_issues(f, o);
    lemma_sort_issues_sorted_permutation(f, o);
    lemma_permutation_members(r, f);
    lemma_filter_members(c.issues, p);
    assert forall|v: IssueView| #[trigger] p(v) implies !exists|k: int, j: int|
        #![trigger c.deps[k], c.issues[j]]
        0 <= k < c.deps.len() && 0 <= j < c.issues.len() && c.deps[k].kind == DepKind::Blocks
            && c.deps[k].dst == v.id && c.issues[j].id == c.deps[k].src && (c.issues[j].status
            == Status::Open || c.issues[j].status == Status::InProgress) by {
        if exists|k: int, j: int|
            #![trigger c.deps[k], c.issues[j]]
            0 <= k < c.deps.len() && 0 <= j < c.issues.len() && c.deps[k].kind == DepKind::Blocks
                && c.deps[k].dst == v.id && c.issues[j].id == c.deps[k].src && (
                c.issues[j].status == Status::Open || c.issues[j].status == Status::InProgress) {
            let (k, j) = choose|k: int, j: int|
                #![trigger c.deps[k], c.issues[j]]
                0 <= k < c.deps.len() && 0 <= j < c.issues.len() && c.deps[k].kind
                    == DepKind::Blocks && c.deps[k].dst == v.id && c.issues[j].id == c.deps[k].src
                    && (c.issues[j].status == Status::Open || c.issues[j].status
                    == Status::InProgress);
            assert(has_working_issue(c, c.deps[k].src));
            assert(is_blocked(c, v.id));
        }
    }
    assert forall|v: IssueView|
        v.status == Status::Open && (v.hold matches Some(h) ==> (h.until matches Some(u) && u
            <= now)) && !(exists|k: int, j: int|
            #![trigger c.deps[k], c.issues[j]]
            0 <= k < c.deps.len() && 0 <= j < c.issues.len() && c.deps[k].kind == DepKind::Blocks
                && c.deps[k].dst == v.id && c.issues[j].id == c.deps[k].src && (
                c.issues[j].status == Status::Open || c.issues[j].status == Status::InProgress))
            && (assignee matches Some(a) ==> v.assignee == a) implies #[trigger] p(v) by {
        if is_blocked(c, v.id) {
            let k = choose|k: int|
                0 <= k < c.deps.len() && c.deps[k].kind == DepKind::Blocks && c.deps[k].dst == v.id
                    && has_working_issue(c, c.deps[k].src);
            let j = choose|j: int|
                0 <= j < c.issues.len() && c.issues[j].id == c.deps[k].src
                    && is_working(c.issues[j].status);
            assert(c.deps[k].kind == DepKind::Blocks && c.issues[j].id == c.deps[k].src);
        }
    }
    assert forall|i: int, j: int| 0 <= i < j < r.len() implies r[i].priority < r[j].priority || (
    r[i].priority == r[j].priority && r[i].updated_at >= r[j].updated_at) by {
        assert(issue_le(o)(r[i], r[j]));
    }
}

/// An issue's comments are exactly the comments whose issue id is that
/// issue's id (not those of another issue whose id merely begins with it),
/// oldest first.
pub proof fn lemma_comments_of_issue(c: CacheView, id: Seq<char>)
    ensures
        ({
            let r = sort_comments(c.comments.filter(comment_on(id)));
            &&& forall|x: CommentView| #[trigger]
                r.contains(x) <==> c.comments.contains(x) && x.issue_id == id
            &&& forall|i: int, j: int| 0 <= i < j < r.len() ==> r[i].created_at <= r[j].created_at
        }),
{
    let p = comment_on(id);
    let f = c.comments.filter(p);
    let r = sort_comments(f);
    lemma_sort_comments_sorted_permutation(f);
    lemma_permutation_members(r, f);
    lemma_filter_members(c.comments, p);
    assert forall|i: int, j: int| 0 <= i < j < r.len() implies r[i].created_at
        <= r[j].created_at by {
        assert(comment_le()(r[i], r[j]));
    }
}

/// An issue's edges are exactly the active edges that have that issue's id
/// as source or as target (an endpoint equal to it, not one that merely
/// begins with it), ordered by source id, then target id, then kind name.
pub proof fn lemma_deps_of_issue(c: CacheView, id: Seq<char>)
    ensures
        ({
            let r = sort_deps(c.deps.filter(edge_touches(id)));
            &&& forall|e: DepView| #[trigger]
                r.contains(e) <==> c.deps.contains(e) && (e.src == id || e.dst == id)
            &&& forall|i: int, j: int|
                #![trigger r[i], r[j]]
                0 <= i < j < r.len() ==> if r[i].src != r[j].src {
                    chars_le(r[i].src, r[j].src)
                } else if r[i].dst != r[j].dst {
                    chars_le(r[i].dst, r[j].dst)
                } else {
                    chars_le(dep_kind_wire(r[i].kind), dep_kind_wire(r[j].kind))
                }
        }),
{
    let p = edge_touches(id);
    let f = c.deps.filter(p);
    let r = sort_deps(f);
    lemma_sort_deps_sorted_permutation(f);
    lemma_permutation_members(r, f);
    lemma_filter_members(c.deps, p);
    assert forall|e: DepView| #[trigger] r.contains(e) <==> c.deps.contains(e) && (e.src == id
        || e.dst == id) by {
        assert(f.contains(e) <==> c.deps.contains(e) && p(e));
    }
    assert forall|i: int, j: int|
        #![trigger r[i], r[j]]
        0 <= i < j < r.len() implies if r[i].src != r[j].src {
        chars_le(r[i].src, r[j].src)
    } else if r[i].dst != r[j].dst {
        chars_le(r[i].dst, r[j].dst)
    } else {
        chars_le(dep_kind_wire(r[i].kind), dep_kind_wire(r[j].kind))
    } by {
        assert(dep_le()(r[i], r[j]));
    }
}

/// Search indexes every issue row as it stands, whatever its status: the
/// search document of row `k` has rowid `k`, the row's title and body
/// unchanged, the row's update time, and a comment text in which the body
/// of every comment on that issue occurs.
pub proof fn lemma_search_indexes_every_row(c: CacheView)
    ensures
        search_docs(c).len() == c.issues.len(),
        forall|k: int|
            0 <= k < c.issues.len() ==> {
                let d = #[trigger] search_docs(c)[k];
                &&& d.rowid == k as i64
                &&& d.title == c.issues[k].title
                &&& d.body == c.issues[k].body
                &&& d.updated == c.issues[k].updated_at
            },
        forall|k: int, x: CommentView|
            #![trigger search_docs(c)[k], c.comments.contains(x)]
            0 <= k < c.issues.len() && c.comments.contains(x) && x.issue_id == c.issues[k].id
                ==> occurs_in(x.body, search_docs(c)[k].comments),
{
    assert forall|k: int| 0 <= k < c.issues.len() implies {
        let d = #[trigger] search_docs(c)[k];
        &&& d.rowid == k as i64
        &&& d.title == c.issues[k].title
        &&& d.body == c.issues[k].body
        &&& d.updated == c.issues[k].updated_at
    } by {
        assert(search_docs(c)[k] == search_doc(c, k));
    }
    assert forall|k: int, x: CommentView|
        #![trigger search_docs(c)[k], c.comments.contains(x)]
        0 <= k < c.issues.len() && c.comments.contains(x) && x.issue_id == c.issues[k].id implies
        occurs_in(x.body, search_docs(c)[k].comments) by {
        let id = c.issues[k].id;
        let i = choose|i: int| 0 <= i < c.comments.len() && c.comments[i] == x;
        assert(comment_on(id)(c.comments[i]));
        c.comments.lemma_filter_contains(comment_on(id), i);
        lemma_sort_comments_contains(c.comments.filter(comment_on(id)), x);
        lemma_joined_holds_body(sort_comments(c.comments.filter(comment_on(id))), x);
        assert(search_docs(c)[k] == search_doc(c, k));
    }
}

/// Search answers with the rows that the ranking names, in the ranking's
/// order: where every ranked rowid names a row, there is one hit per rowid
/// and the `i`-th hit is the row whose index is the `i`-th rowid.
pub proof fn lemma_hits_follow_ranking(c: CacheView, ranked: Seq<i64>)
    requires
        forall|i: int| 0 <= i < ranked.len() ==> 0 <= #[trigger] ranked[i] < c.issues.len(),
    ensures
        rows_by_rowid(c, ranked).len() == ranked.len(),
        forall|i: int|
            0 <= i < ranked.len() ==> #[trigger] rows_by_rowid(c, ranked)[i] == c.issues[ranked[i]
                as int],
    decreases ranked.len(),
{
    if ranked.len() > 0 {
        let t = ranked.drop_last();
        assert forall|i: int| 0 <= i < t.len() implies 0 <= #[trigger] t[i] < c.issues.len() by {
            assert(t[i] == ranked[i]);
        }
        lemma_hits_follow_ranking(c, t);
    }
}

} // verus!
