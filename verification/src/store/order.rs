//! The stable insertion sorts of listings, searches' comments and
//! dependency edges produce sorted permutations of their input.

use vstd::prelude::*;

use crate::comment::CommentView;
use crate::dep::DepView;
use crate::dep_kind::dep_kind_wire;
use crate::issue::IssueView;
use crate::text::{lemma_chars_le_antisym, lemma_chars_le_total, lemma_chars_le_trans};
use super::cache::{
    IssueOrder, comment_before, dep_before, insert_comment, insert_dep, insert_issue, issue_before,
    sort_comments, sort_deps, sort_issues,
};

verus! {

/// Stable insertion of `x`: after every element that may stay ahead of it.
pub open spec fn insert_by<T>(s: Seq<T>, x: T, le: spec_fn(T, T) -> bool) -> Seq<T>
    decreases s.len(),
{
    if s.len() == 0 {
        seq![x]
    } else if le(s.last(), x) {
        s.push(x)
    } else {
        insert_by(s.drop_last(), x, le).push(s.last())
    }
}

/// Stable insertion sort.
pub open spec fn sort_by<T>(s: Seq<T>, le: spec_fn(T, T) -> bool) -> Seq<T>
    decreases s.len(),
{
    if s.len() == 0 {
        s
    } else {
        insert_by(sort_by(s.drop_last(), le), s.last(), le)
    }
}

/// Every element may stay ahead of every later one.
pub open spec fn sorted_by<T>(s: Seq<T>, le: spec_fn(T, T) -> bool) -> bool {
    forall|i: int, j: int| 0 <= i < j < s.len() ==> #[trigger] le(s[i], s[j])
}

/// `le` is total and transitive.
pub open spec fn total_preorder<T>(le: spec_fn(T, T) -> bool) -> bool {
    &&& forall|a: T, b: T| #[trigger] le(a, b) || le(b, a)
    &&& forall|a: T, b: T, c: T| #[trigger] le(a, b) && #[trigger] le(b, c) ==> le(a, c)
}

proof fn lemma_insert_by_permutes<T>(s: Seq<T>, x: T, le: spec_fn(T, T) -> bool)
    ensures
        insert_by(s, x, le).to_multiset() == s.to_multiset().insert(x),
    decreases s.len(),
{
    broadcast use vstd::multiset::group_multiset_axioms;

    if s.len() == 0 {
        vstd::seq_lib::to_multiset_build(s, x);
        assert(seq![x] =~= s.push(x));
    } else if le(s.last(), x) {
        vstd::seq_lib::to_multiset_build(s, x);
    } else {
        let t = s.drop_last();
        lemma_insert_by_permutes(t, x, le);
        vstd::seq_lib::to_multiset_build(insert_by(t, x, le), s.last());
        vstd::seq_lib::to_multiset_build(t, s.last());
        assert(t.push(s.last()) =~= s);
        assert(t.to_multiset().insert(x).insert(s.last()) =~= t.to_multiset().insert(s.last()).insert(
            x,
        ));
    }
}

proof fn lemma_insert_by_sorted<T>(s: Seq<T>, x: T, le: spec_fn(T, T) -> bool)
    requires
        sorted_by(s, le),
        total_preorder(le),
    ensures
        sorted_by(insert_by(s, x, le), le),
    decreases s.len(),
{
    broadcast use vstd::multiset::group_multiset_axioms;

    if s.len() == 0 {
    } else if le(s.last(), x) {
        let r = s.push(x);
        assert forall|i: int, j: int| 0 <= i < j < r.len() implies #[trigger] le(r[i], r[j]) by {
            if j == s.len() {
                if i < s.len() - 1 {
                    assert(le(s[i], s[s.len() - 1]));
                }
                assert(le(r[i], s.last()) && le(s.last(), x));
            } else {
                assert(le(s[i], s[j]));
            }
        }
    } else {
        let t = s.drop_last();
        let m = insert_by(t, x, le);
        assert(sorted_by(t, le)) by {
            assert forall|i: int, j: int| 0 <= i < j < t.len() implies #[trigger] le(t[i], t[j]) by {
                assert(le(s[i], s[j]));
            }
        }
        lemma_insert_by_sorted(t, x, le);
        lemma_insert_by_permutes(t, x, le);
        assert(le(x, s.last()));
        let r = m.push(s.last());
        assert forall|i: int, j: int| 0 <= i < j < r.len() implies #[trigger] le(r[i], r[j]) by {
            if j == m.len() {
                let e = m[i];
                assert(m.contains(e));
                vstd::seq_lib::to_multiset_contains(m, e);
                if e != x {
                    assert(t.to_multiset().count(e) > 0);
                    vstd::seq_lib::to_multiset_contains(t, e);
                    let k = choose|k: int| 0 <= k < t.len() && t[k] == e;
                    assert(le(s[k], s[s.len() - 1]));
                }
            } else {
                assert(le(m[i], m[j]));
            }
        }
    }
}

/// A stable insertion sort under a total preorder gives a sorted
/// permutation of its input.
pub proof fn lemma_sort_by_sorted_permutation<T>(s: Seq<T>, le: spec_fn(T, T) -> bool)
    requires
        total_preorder(le),
    ensures
        sorted_by(sort_by(s, le), le),
        sort_by(s, le).to_multiset() == s.to_multiset(),
    decreases s.len(),
{
    if s.len() > 0 {
        let t = s.drop_last();
        lemma_sort_by_sorted_permutation(t, le);
        lemma_insert_by_sorted(sort_by(t, le), s.last(), le);
        lemma_insert_by_permutes(sort_by(t, le), s.last(), le);
        vstd::seq_lib::to_multiset_build(t, s.last());
        assert(t.push(s.last()) =~= s);
    }
}

// ------------------------------------------------------------ issues

/// The order of an issue listing, as a relation.
pub open spec fn issue_le(o: IssueOrder) -> spec_fn(IssueView, IssueView) -> bool {
    |a: IssueView, b: IssueView| issue_before(o, a, b)
}

proof fn lemma_insert_issue_is_insert_by(s: Seq<IssueView>, x: IssueView, o: IssueOrder)
    ensures
        insert_issue(s, x, o) == insert_by(s, x, issue_le(o)),
    decreases s.len(),
{
    if s.len() > 0 {
        lemma_insert_issue_is_insert_by(s.drop_last(), x, o);
    }
}

proof fn lemma_sort_issues_is_sort_by(s: Seq<IssueView>, o: IssueOrder)
    ensures
        sort_issues(s, o) == sort_by(s, issue_le(o)),
    decreases s.len(),
{
    if s.len() > 0 {
        lemma_sort_issues_is_sort_by(s.drop_last(), o);
        lemma_insert_issue_is_insert_by(sort_issues(s.drop_last(), o), s.last(), o);
    }
}

proof fn lemma_issue_order_total(o: IssueOrder)
    ensures
        total_preorder(issue_le(o)),
{
    let le = issue_le(o);
    assert forall|a: IssueView, b: IssueView| #[trigger] le(a, b) || le(b, a) by {
        lemma_chars_le_total(a.id, b.id);
    }
    assert forall|a: IssueView, b: IssueView, c: IssueView| #[trigger] le(a, b) && #[trigger] le(
        b,
        c,
    ) implies le(a, c) by {
        if o == IssueOrder::PriorityThenCreatedThenId && a.priority == b.priority && b.priority
            == c.priority && a.created_at == b.created_at && b.created_at == c.created_at {
            lemma_chars_le_trans(a.id, b.id, c.id);
        }
    }
}

/// Every issue listing order sorts: the listing is a sorted permutation of
/// the issues it lists.
pub proof fn lemma_sort_issues_sorted_permutation(s: Seq<IssueView>, o: IssueOrder)
    ensures
        sorted_by(sort_issues(s, o), issue_le(o)),
        sort_issues(s, o).to_multiset() == s.to_multiset(),
{
    lemma_issue_order_total(o);
    lemma_sort_issues_is_sort_by(s, o);
    lemma_sort_by_sorted_permutation(s, issue_le(o));
}

// ------------------------------------------------------------ comments

/// Oldest first, as a relation.
pub open spec fn comment_le() -> spec_fn(CommentView, CommentView) -> bool {
    |a: CommentView, b: CommentView| comment_before(a, b)
}

proof fn lemma_insert_comment_is_insert_by(s: Seq<CommentView>, x: CommentView)
    ensures
        insert_comment(s, x) == insert_by(s, x, comment_le()),
    decreases s.len(),
{
    if s.len() > 0 {
        lemma_insert_comment_is_insert_by(s.drop_last(), x);
    }
}

proof fn lemma_sort_comments_is_sort_by(s: Seq<CommentView>)
    ensures
        sort_comments(s) == sort_by(s, comment_le()),
    decreases s.len(),
{
    if s.len() > 0 {
        lemma_sort_comments_is_sort_by(s.drop_last());
        lemma_insert_comment_is_insert_by(sort_comments(s.drop_last()), s.last());
    }
}

/// Comments oldest first are a sorted permutation of the comments.
pub proof fn lemma_sort_comments_sorted_permutation(s: Seq<CommentView>)
    ensures
        sorted_by(sort_comments(s), comment_le()),
        sort_comments(s).to_multiset() == s.to_multiset(),
{
    lemma_sort_comments_is_sort_by(s);
    lemma_sort_by_sorted_permutation(s, comment_le());
}

// ------------------------------------------------------------ edges

/// By source, target and kind name, as a relation.
pub open spec fn dep_le() -> spec_fn(DepView, DepView) -> bool {
    |a: DepView, b: DepView| dep_before(a, b)
}

proof fn lemma_insert_dep_is_insert_by(s: Seq<DepView>, x: DepView)
    ensures
        insert_dep(s, x) == insert_by(s, x, dep_le()),
    decreases s.len(),
{
    if s.len() > 0 {
        lemma_insert_dep_is_insert_by(s.drop_last(), x);
    }
}

proof fn lemma_sort_deps_is_sort_by(s: Seq<DepView>)
    ensures
        sort_deps(s) == sort_by(s, dep_le()),
    decreases s.len(),
{
    if s.len() > 0 {
        lemma_sort_deps_is_sort_by(s.drop_last());
        lemma_insert_dep_is_insert_by(sort_deps(s.drop_last()), s.last());
    }
}

proof fn lemma_dep_order_total()
    ensures
        total_preorder(dep_le()),
{
    let le = dep_le();
    assert forall|a: DepView, b: DepView| #[trigger] le(a, b) || le(b, a) by {
        lemma_chars_le_total(a.src, b.src);
        lemma_chars_le_total(a.dst, b.dst);
        lemma_chars_le_total(dep_kind_wire(a.kind), dep_kind_wire(b.kind));
    }
    assert forall|a: DepView, b: DepView, c: DepView| #[trigger] le(a, b) && #[trigger] le(b, c)
        implies le(a, c) by {
        // Equal sources, then equal targets, fall through to the next key.
        if a.src != b.src && b.src != c.src {
            lemma_chars_le_trans(a.src, b.src, c.src);
            if a.src == c.src {
                lemma_chars_le_antisym(a.src, b.src);
            }
        } else if a.src == b.src && b.src == c.src {
            if a.dst != b.dst && b.dst != c.dst {
                lemma_chars_le_trans(a.dst, b.dst, c.dst);
                if a.dst == c.dst {
                    lemma_chars_le_antisym(a.dst, b.dst);
                }
            } else if a.dst == b.dst && b.dst == c.dst {
                lemma_chars_le_trans(dep_kind_wire(a.kind), dep_kind_wire(b.kind), dep_kind_wire(c.kind));
            }
        }
    }
}

/// Edges by source, target and kind are a sorted permutation of the edges.
pub proof fn lemma_sort_deps_sorted_permutation(s: Seq<DepView>)
    ensures
        sorted_by(sort_deps(s), dep_le()),
        sort_deps(s).to_multiset() == s.to_multiset(),
{
    lemma_dep_order_total();
    lemma_sort_deps_is_sort_by(s);
    lemma_sort_by_sorted_permutation(s, dep_le());
}

} // verus!
