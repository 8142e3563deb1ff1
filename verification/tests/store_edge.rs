//! Edge cases: special characters, priority boundaries, status
//! transitions, long payloads, tag semantics.

use tix::store::Store;

use tix::model::{DepKind, IssueUpdate, NewIssue, Status};

const T0: i64 = 1_782_864_000_000;

fn scratch() -> Store {
    Store::open("/work/scratch/.tix", None, Vec::new(), 42)
}

fn reimport(store: &mut Store) {
    let log = store.export();
    store.force_reimport(log);
}


fn create_titled(store: &mut Store, title: &str) -> String {
    store
        .create_issue(&NewIssue {
            title,
            ..NewIssue::default()
        }, T0)
        .expect("create issue")
        .as_str()
        .to_owned()
}

#[test]
fn title_with_quotes_roundtrips() {
    let mut store = scratch();
    let id = create_titled(&mut store, "Fix \"bug\" in module");
    let issue = store.fetch_issue(&id).expect("fetch issue");
    assert_eq!(issue.title, "Fix \"bug\" in module");
}

#[test]
fn body_with_newlines_roundtrips() {
    let mut store = scratch();
    let id = store
        .create_issue(&NewIssue {
            title: "Newline test",
            body: "line1\nline2\nline3",
            ..NewIssue::default()
        }, T0)
        .expect("create issue");
    let issue = store.fetch_issue(id.as_str()).expect("fetch issue");
    assert_eq!(issue.body, "line1\nline2\nline3");
}

#[test]
fn title_with_backslashes_roundtrips() {
    let mut store = scratch();
    let id = create_titled(&mut store, "path\\to\\file");
    let issue = store.fetch_issue(&id).expect("fetch issue");
    assert_eq!(issue.title, "path\\to\\file");
}

#[test]
fn body_with_tabs_roundtrips() {
    let mut store = scratch();
    let id = store
        .create_issue(&NewIssue {
            title: "Tab test",
            body: "col1\tcol2",
            ..NewIssue::default()
        }, T0)
        .expect("create issue");
    let issue = store.fetch_issue(id.as_str()).expect("fetch issue");
    assert_eq!(issue.body, "col1\tcol2");
}

#[test]
fn comment_with_special_chars_keeps_jsonl_valid() {
    let mut store = scratch();
    let id = create_titled(&mut store, "Comment special");
    store
        .add_comment(id.as_str(), "alice", "This has \"quotes\" and\nnewlines", T0 + 1)
        .expect("add comment");

    reimport(&mut store);
    let issue = store.fetch_issue(&id).expect("fetch after reimport");
    assert_eq!(issue.title, "Comment special");
    let comments = store.comments(&id).expect("comments after reimport");
    assert_eq!(comments.len(), 1);
    assert_eq!(comments[0].body, "This has \"quotes\" and\nnewlines");
}

#[test]
fn title_with_unicode_roundtrips() {
    let mut store = scratch();
    let id = create_titled(&mut store, "Fix café bug 🐛");
    let issue = store.fetch_issue(&id).expect("fetch issue");
    assert_eq!(issue.title, "Fix café bug 🐛");
}

#[test]
fn priority_one_roundtrips() {
    let mut store = scratch();
    let id = store
        .create_issue(&NewIssue {
            title: "P1",
            priority: 1,
            ..NewIssue::default()
        }, T0)
        .expect("create issue");
    assert_eq!(
        store
            .fetch_issue(id.as_str())
            .expect("fetch issue")
            .priority,
        1
    );
}

#[test]
fn priority_five_roundtrips() {
    let mut store = scratch();
    let id = store
        .create_issue(&NewIssue {
            title: "P5",
            priority: 5,
            ..NewIssue::default()
        }, T0)
        .expect("create issue");
    assert_eq!(
        store
            .fetch_issue(id.as_str())
            .expect("fetch issue")
            .priority,
        5
    );
}

#[test]
fn priority_zero_roundtrips() {
    let mut store = scratch();
    let id = store
        .create_issue(&NewIssue {
            title: "P0",
            priority: 0,
            ..NewIssue::default()
        }, T0)
        .expect("create issue");
    assert_eq!(
        store
            .fetch_issue(id.as_str())
            .expect("fetch issue")
            .priority,
        0
    );
}

#[test]
fn negative_priority_roundtrips() {
    let mut store = scratch();
    let id = store
        .create_issue(&NewIssue {
            title: "Negative pri",
            priority: -1,
            ..NewIssue::default()
        }, T0)
        .expect("create issue");
    assert_eq!(
        store
            .fetch_issue(id.as_str())
            .expect("fetch issue")
            .priority,
        -1
    );
}

#[test]
fn very_large_priority_roundtrips() {
    let mut store = scratch();
    let id = store
        .create_issue(&NewIssue {
            title: "Big pri",
            priority: 99999,
            ..NewIssue::default()
        }, T0)
        .expect("create issue");
    assert_eq!(
        store
            .fetch_issue(id.as_str())
            .expect("fetch issue")
            .priority,
        99999
    );
}

#[test]
fn negative_priority_survives_reimport() {
    let mut store = scratch();
    let id = store
        .create_issue(&NewIssue {
            title: "Negative pri",
            priority: -5,
            ..NewIssue::default()
        }, T0)
        .expect("create issue");
    assert_eq!(
        store
            .fetch_issue(id.as_str())
            .expect("fetch issue")
            .priority,
        -5
    );

    reimport(&mut store);
    assert_eq!(
        store
            .fetch_issue(id.as_str())
            .expect("fetch after reimport")
            .priority,
        -5
    );
}

#[test]
fn long_title_roundtrips() {
    let mut store = scratch();
    let long_title = "A".repeat(500);
    let id = create_titled(&mut store, &long_title);
    let issue = store.fetch_issue(&id).expect("fetch issue");
    assert_eq!(issue.title, long_title);
}

#[test]
fn long_body_roundtrips() {
    let mut store = scratch();
    let long_body = "B".repeat(2000);
    let id = store
        .create_issue(&NewIssue {
            title: "Long body",
            body: &long_body,
            ..NewIssue::default()
        }, T0)
        .expect("create issue");
    let issue = store.fetch_issue(id.as_str()).expect("fetch issue");
    assert_eq!(issue.body, long_body);
}

#[test]
fn seven_thousand_byte_body_roundtrips() {
    let mut store = scratch();
    let body = "X".repeat(7000);
    let id = store
        .create_issue(&NewIssue {
            title: "Buffer test",
            body: &body,
            ..NewIssue::default()
        }, T0)
        .expect("create issue");
    let issue = store.fetch_issue(id.as_str()).expect("fetch issue");
    assert_eq!(issue.body.len(), 7000);
}

#[test]
fn body_beyond_zig_buffer_limit_roundtrips() {
    let mut store = scratch();
    let body = "X".repeat(8100);
    let id = store
        .create_issue(&NewIssue {
            title: "Overflow test",
            body: &body,
            ..NewIssue::default()
        }, T0)
        .expect("create issue");
    let issue = store.fetch_issue(id.as_str()).expect("fetch issue");
    assert_eq!(issue.body.len(), 8100);
}

#[test]
fn long_comment_roundtrips() {
    let mut store = scratch();
    let id = create_titled(&mut store, "Comment overflow");
    let long_comment = "Y".repeat(4000);
    store
        .add_comment(&id, "author", &long_comment, T0 + 1)
        .expect("add long comment");
    let comments = store.comments(&id).expect("list comments");
    assert_eq!(comments.len(), 1);
    assert_eq!(comments[0].body, long_comment);
}

#[test]
fn dep_write_with_generated_ids_succeeds() {
    let mut store = scratch();
    let id1 = create_titled(&mut store, "Dep buf A");
    let id2 = create_titled(&mut store, "Dep buf B");
    store
        .add_dep(&id1, DepKind::Blocks, &id2)
        .expect("add dep");
}

#[test]
fn ten_tags_roundtrip() {
    let mut store = scratch();
    let tags: Vec<String> = (0..10).map(|i| format!("tag-{i}")).collect();
    let tag_refs: Vec<&str> = tags.iter().map(String::as_str).collect();
    let id = store
        .create_issue(&NewIssue {
            title: "Many tags",
            tags: &tag_refs,
            ..NewIssue::default()
        }, T0)
        .expect("create issue");

    let issue = store.fetch_issue(id.as_str()).expect("fetch issue");
    let mut got = issue.tags.clone();
    got.sort();
    let mut want = tags.clone();
    want.sort();
    assert_eq!(got, want);
}

#[test]
fn duplicate_tag_collapses_to_one() {
    let mut store = scratch();
    let id = store
        .create_issue(&NewIssue {
            title: "Dup tag",
            tags: &["bug", "bug"],
            ..NewIssue::default()
        }, T0)
        .expect("create issue");
    let issue = store.fetch_issue(id.as_str()).expect("fetch issue");
    assert_eq!(issue.tags, ["bug"]);
}

#[test]
fn same_tag_shared_across_issues() {
    let mut store = scratch();
    let make = |store: &mut Store, title| {
        store
            .create_issue(&NewIssue {
                title,
                tags: &["shared"],
                ..NewIssue::default()
            }, T0)
            .expect("create issue")
    };
    let id1 = make(&mut store, "Shared tag 1");
    let id2 = make(&mut store, "Shared tag 2");

    let issue1 = store.fetch_issue(id1.as_str()).expect("fetch issue 1");
    let issue2 = store.fetch_issue(id2.as_str()).expect("fetch issue 2");
    assert_eq!(issue1.tags, ["shared"]);
    assert_eq!(issue2.tags, ["shared"]);
}

#[test]
fn removing_nonexistent_tag_is_noop() {
    let mut store = scratch();
    let id = store
        .create_issue(&NewIssue {
            title: "Remove phantom tag",
            tags: &["exists"],
            ..NewIssue::default()
        }, T0)
        .expect("create issue");

    store
        .update_issue(
            id.as_str(),
            &IssueUpdate {
                rm_tags: &["doesnotexist"],
                ..IssueUpdate::default()
            },
            T0 + 1,
        )
        .expect("update issue");

    let issue = store.fetch_issue(id.as_str()).expect("fetch issue");
    assert_eq!(issue.tags, ["exists"]);
}

#[test]
fn status_walks_open_in_progress_closed() {
    let mut store = scratch();
    let id = create_titled(&mut store, "Workflow");

    assert_eq!(
        store.fetch_issue(&id).expect("fetch issue").status,
        Status::Open
    );

    for status in [Status::InProgress, Status::Closed] {
        store
            .update_issue(
                &id,
                &IssueUpdate {
                    status: Some(status),
                    ..IssueUpdate::default()
                },
                T0 + 1,
            )
            .expect("update status");
        assert_eq!(
            store.fetch_issue(&id).expect("fetch issue").status,
            status
        );
    }
}

#[test]
fn status_reopens_from_closed() {
    let mut store = scratch();
    let id = create_titled(&mut store, "Reopen");

    for status in [Status::Closed, Status::Open] {
        store
            .update_issue(
                &id,
                &IssueUpdate {
                    status: Some(status),
                    ..IssueUpdate::default()
                },
                T0 + 1,
            )
            .expect("update status");
    }
    assert_eq!(
        store.fetch_issue(&id).expect("fetch issue").status,
        Status::Open
    );
}

#[test]
fn empty_title_is_allowed() {
    let mut store = scratch();
    let id = create_titled(&mut store, "");
    let issue = store.fetch_issue(&id).expect("fetch issue");
    assert_eq!(issue.title, "");
}

#[test]
fn empty_assignee_is_allowed() {
    let mut store = scratch();
    let id = create_titled(&mut store, "No assignee");
    let issue = store.fetch_issue(&id).expect("fetch issue");
    assert_eq!(issue.assignee, "");
}

#[test]
fn fifty_rapid_creates_all_fetchable() {
    let mut store = scratch();
    let ids: Vec<String> = (0..50)
        .map(|i| create_titled(&mut store, &format!("Issue #{i}")))
        .collect();

    for id in &ids {
        store.fetch_issue(id).expect("fetch issue");
    }
}
