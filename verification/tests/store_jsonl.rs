//! The event-log contract: every mutation appends one record, the log is
//! never rewritten, and replaying it (reimport, reopen) restores the state.

use tix::dep_kind::DepKind;
use tix::issue::{IssueUpdate, NewIssue};
use tix::status::Status;
use tix::store::log::{IssueRecord, Record};
use tix::store::{Error, Store};

const T0: i64 = 1_782_864_000_000;

fn scratch() -> Store {
    Store::open("/work/scratch/.tix", None, Vec::new(), 42)
}

fn reimport(store: &mut Store) {
    let log = store.export();
    store.force_reimport(log);
}

/// A reopen over the store's log, as read back from disk with no cache.
fn reopen(store: &Store) -> Store {
    Store::open("/work/scratch/.tix", Some(store.prefix()), store.export(), 7)
}

fn issue_line(id: &str, title: &str) -> Record {
    Record::Issue(IssueRecord {
        id: id.to_owned(),
        title: title.to_owned(),
        body: String::new(),
        status: "open".to_owned(),
        priority: 2,
        assignee: String::new(),
        created_at: 1000,
        updated_at: Some(1000),
        tags: Vec::new(),
    })
}

#[test]
fn create_issue_writes_snapshot_to_jsonl() {
    let mut store = scratch();
    let id = store
        .create_issue(
            &NewIssue {
                title: "JSONL test",
                body: "body text",
                priority: 3,
                assignee: "dev",
                ..NewIssue::default()
            },
            T0,
        )
        .expect("create issue");

    let log = store.records();
    assert_eq!(log.len(), 1);
    match &log[0] {
        Record::Issue(r) => {
            assert_eq!(r.id, id.as_str());
            assert_eq!(r.title, "JSONL test");
            assert_eq!(r.body, "body text");
            assert_eq!(r.status, "open");
            assert_eq!(r.priority, 3);
            assert_eq!(r.assignee, "dev");
            assert_eq!(r.created_at, T0);
            assert_eq!(r.updated_at, Some(T0));
        }
        other => panic!("expected an issue record, got {other:?}"),
    }
}

#[test]
fn add_comment_writes_record_to_jsonl() {
    let mut store = scratch();
    let id = store
        .create_issue(
            &NewIssue {
                title: "Comment JSONL",
                ..NewIssue::default()
            },
            T0,
        )
        .expect("create issue");
    let cid = store
        .add_comment(id.as_str(), "tester", "my comment", T0 + 1)
        .expect("add comment");

    match store.records().last() {
        Some(Record::Comment(c)) => {
            assert_eq!(c.id, cid.as_str());
            assert_eq!(c.issue_id, id.as_str());
            assert_eq!(c.author, "tester");
            assert_eq!(c.body, "my comment");
            assert_eq!(c.created_at, T0 + 1);
        }
        other => panic!("expected a comment record, got {other:?}"),
    }
}

#[test]
fn add_dep_writes_record_to_jsonl() {
    let mut store = scratch();
    let id1 = store
        .create_issue(&NewIssue { title: "Dep JSONL A", ..NewIssue::default() }, T0)
        .expect("create issue");
    let id2 = store
        .create_issue(&NewIssue { title: "Dep JSONL B", ..NewIssue::default() }, T0)
        .expect("create issue");
    store
        .add_dep(id1.as_str(), DepKind::Blocks, id2.as_str())
        .expect("add dep");

    match store.records().last() {
        Some(Record::Dep(d)) => {
            assert_eq!(d.src_id, id1.as_str());
            assert_eq!(d.dst_id, id2.as_str());
            assert_eq!(d.kind, "blocks");
            assert_eq!(d.state, "active");
        }
        other => panic!("expected a dep record, got {other:?}"),
    }
}

#[test]
fn remove_dep_appends_removed_record_to_jsonl() {
    let mut store = scratch();
    let id1 = store
        .create_issue(&NewIssue { title: "Rm dep A", ..NewIssue::default() }, T0)
        .expect("create issue");
    let id2 = store
        .create_issue(&NewIssue { title: "Rm dep B", ..NewIssue::default() }, T0)
        .expect("create issue");
    store
        .add_dep(id1.as_str(), DepKind::Blocks, id2.as_str())
        .expect("add dep");
    store
        .remove_dep(id1.as_str(), DepKind::Blocks, id2.as_str())
        .expect("remove dep");

    let log = store.records();
    assert_eq!(log.len(), 4);
    match &log[3] {
        Record::Dep(d) => assert_eq!(d.state, "removed"),
        other => panic!("expected a dep record, got {other:?}"),
    }
}

#[test]
fn update_issue_appends_to_jsonl() {
    let mut store = scratch();
    let id = store
        .create_issue(&NewIssue { title: "Update JSONL", ..NewIssue::default() }, T0)
        .expect("create issue");
    let before = store.records().clone();

    store
        .update_issue(
            id.as_str(),
            &IssueUpdate {
                title: Some("Updated JSONL"),
                ..IssueUpdate::default()
            },
            T0 + 1,
        )
        .expect("update issue");

    let after = store.records();
    assert_eq!(after.len(), before.len() + 1);
    assert_eq!(after[..before.len()], before[..]);
    match after.last() {
        Some(Record::Issue(r)) => {
            assert_eq!(r.title, "Updated JSONL");
            assert_eq!(r.created_at, T0);
            assert_eq!(r.updated_at, Some(T0 + 1));
        }
        other => panic!("expected an issue record, got {other:?}"),
    }
}

#[test]
fn control_characters_are_kept_verbatim_in_records() {
    let mut store = scratch();
    store
        .create_issue(
            &NewIssue {
                title: "Control chars",
                body: "before\u{01}\u{02}\u{03}after",
                ..NewIssue::default()
            },
            T0,
        )
        .expect("create issue");
    match &store.records()[0] {
        Record::Issue(r) => assert_eq!(r.body, "before\u{01}\u{02}\u{03}after"),
        other => panic!("expected an issue record, got {other:?}"),
    }
}

#[test]
fn force_reimport_rebuilds_cache_from_jsonl() {
    let mut store = scratch();
    let id = store
        .create_issue(
            &NewIssue {
                title: "Reimport test",
                body: "body",
                priority: 1,
                assignee: "dev",
                ..NewIssue::default()
            },
            T0,
        )
        .expect("create issue");
    store
        .update_issue(
            id.as_str(),
            &IssueUpdate {
                add_tags: &["test-tag"],
                ..IssueUpdate::default()
            },
            T0 + 1,
        )
        .expect("tag issue");

    reimport(&mut store);

    let issue = store.fetch_issue(id.as_str()).expect("fetch after reimport");
    assert_eq!(issue.title, "Reimport test");
    assert_eq!(issue.tags, ["test-tag"]);
}

#[test]
fn force_reimport_preserves_comments() {
    let mut store = scratch();
    let id = store
        .create_issue(&NewIssue { title: "Comment reimport", ..NewIssue::default() }, T0)
        .expect("create issue");
    let comment_id = store
        .add_comment(id.as_str(), "alice", "test comment", T0 + 1)
        .expect("add comment");

    reimport(&mut store);

    let issue = store.fetch_issue(id.as_str()).expect("fetch after reimport");
    assert_eq!(issue.title, "Comment reimport");
    let comments = store.comments(id.as_str()).expect("comments after reimport");
    assert_eq!(comments.len(), 1);
    assert_eq!(comments[0].id, comment_id);
    assert_eq!(comments[0].body, "test comment");
}

#[test]
fn force_reimport_preserves_dependencies() {
    let mut store = scratch();
    let id1 = store
        .create_issue(&NewIssue { title: "Dep reimport A", ..NewIssue::default() }, T0)
        .expect("create issue");
    let id2 = store
        .create_issue(&NewIssue { title: "Dep reimport B", ..NewIssue::default() }, T0)
        .expect("create issue");
    store
        .add_dep(id1.as_str(), DepKind::Blocks, id2.as_str())
        .expect("add dep");

    reimport(&mut store);

    store.fetch_issue(id1.as_str()).expect("fetch A after reimport");
    store.fetch_issue(id2.as_str()).expect("fetch B after reimport");
    let deps = store.deps(id1.as_str()).expect("deps after reimport");
    assert_eq!(deps.len(), 1);
}

#[test]
fn reimport_preserves_special_chars() {
    let mut store = scratch();
    let id = store
        .create_issue(
            &NewIssue {
                title: "Title with \"quotes\"",
                body: "Body with\nnewlines\tand\ttabs",
                assignee: "user\\name",
                ..NewIssue::default()
            },
            T0,
        )
        .expect("create issue");

    reimport(&mut store);

    let issue = store.fetch_issue(id.as_str()).expect("fetch after reimport");
    assert_eq!(issue.title, "Title with \"quotes\"");
    assert_eq!(issue.body, "Body with\nnewlines\tand\ttabs");
    assert_eq!(issue.assignee, "user\\name");
}

#[test]
fn reimport_preserves_tags() {
    let mut store = scratch();
    let id = store
        .create_issue(
            &NewIssue {
                title: "Tag roundtrip",
                tags: &["alpha", "beta", "gamma"],
                ..NewIssue::default()
            },
            T0,
        )
        .expect("create issue");

    reimport(&mut store);

    let issue = store.fetch_issue(id.as_str()).expect("fetch after reimport");
    let mut tags = issue.tags.clone();
    tags.sort();
    assert_eq!(tags, ["alpha", "beta", "gamma"]);
}

#[test]
fn reopen_without_cache_recovers_issues_from_jsonl() {
    let mut store = scratch();
    let id = store
        .create_issue(
            &NewIssue {
                title: "Persistent",
                body: "body",
                priority: 1,
                assignee: "tester",
                ..NewIssue::default()
            },
            T0,
        )
        .expect("create issue");

    let store = reopen(&store);
    let issue = store.fetch_issue(id.as_str()).expect("fetch after rebuild");
    assert_eq!(issue.title, "Persistent");
    assert_eq!(issue.body, "body");
    assert_eq!(issue.priority, 1);
    assert_eq!(issue.assignee, "tester");
    assert_eq!(issue.status, Status::Open);
}

#[test]
fn reopen_without_cache_recovers_updated_state() {
    let mut store = scratch();
    let id = store
        .create_issue(&NewIssue { title: "Update reopen", ..NewIssue::default() }, T0)
        .expect("create issue");
    store
        .update_issue(
            id.as_str(),
            &IssueUpdate {
                status: Some(Status::Closed),
                priority: Some(5),
                assignee: Some("bob"),
                ..IssueUpdate::default()
            },
            T0 + 1,
        )
        .expect("update issue");

    let store = reopen(&store);
    let issue = store.fetch_issue(id.as_str()).expect("fetch after rebuild");
    assert_eq!(issue.status, Status::Closed);
    assert_eq!(issue.priority, 5);
    assert_eq!(issue.assignee, "bob");
}

#[test]
fn opens_with_empty_jsonl() {
    let store = scratch();
    assert!(store.records().is_empty());
    assert!(store.list(&tix::store::ListFilter::default()).is_empty());
}

#[test]
fn skips_records_missing_required_fields() {
    // A snapshot whose status is not a wire name is skipped on replay.
    let mut bad = issue_line("test-123", "t");
    if let Record::Issue(r) = &mut bad {
        r.status = "doing".to_owned();
    }
    let store = Store::open("/work/scratch/.tix", None, vec![bad], 1);
    let result = store.resolve_id("test-123");
    assert!(
        matches!(result, Err(Error::IssueNotFound { .. })),
        "expected IssueNotFound, got {result:?}"
    );
}

#[test]
fn reopen_imports_externally_appended_records() {
    let mut store = scratch();
    let id = store
        .create_issue(&NewIssue { title: "Local issue", ..NewIssue::default() }, T0)
        .expect("create issue");

    let mut log = store.export();
    log.push(issue_line("ext-aaaaaa", "External issue"));
    let store = Store::open("/.tix", Some(store.prefix()), log, 1);

    store.fetch_issue(id.as_str()).expect("local issue survives");
    let external = store
        .fetch_issue("ext-aaaaaa")
        .expect("external issue imported");
    assert_eq!(external.title, "External issue");
}

#[test]
fn reopen_after_jsonl_truncation_fully_reimports() {
    let mut store = scratch();
    let id1 = store
        .create_issue(&NewIssue { title: "Kept issue", ..NewIssue::default() }, T0)
        .expect("create issue");
    let id2 = store
        .create_issue(&NewIssue { title: "Dropped issue", ..NewIssue::default() }, T0)
        .expect("create issue");

    let mut log = store.export();
    log.truncate(1);
    store.force_reimport(log);

    store.fetch_issue(id1.as_str()).expect("first issue survives");
    let result = store.fetch_issue(id2.as_str());
    assert!(
        matches!(result, Err(Error::IssueNotFound { .. })),
        "truncated-away issue must be gone from the cache, got {result:?}"
    );
}

#[test]
fn later_snapshots_win_on_replay() {
    let log = vec![
        issue_line("demo-1", "first"),
        issue_line("demo-1", "second"),
    ];
    let store = Store::open("/work/demo/.tix", None, log, 1);
    assert_eq!(store.fetch_issue("demo-1").expect("fetch").title, "second");
    assert_eq!(store.list(&tix::store::ListFilter::default()).len(), 1);
}

#[test]
fn dep_record_defaults_state_to_active() {
    // The state a dep line gets when it has none.
    let state = tix::store::log::default_dep_state();
    assert_eq!(state, "active");
    let record = tix::store::log::DepRecord {
        src_id: "a".to_owned(),
        dst_id: "b".to_owned(),
        kind: "blocks".to_owned(),
        state,
    };
    assert!(!record.is_removed());
    let log = vec![issue_line("a", "A"), issue_line("b", "B"), Record::Dep(record)];
    let store = Store::open("/work/scratch/.tix", None, log, 1);
    assert_eq!(store.deps("a").expect("deps").len(), 1);
}
