//! Issue create / fetch / update.


use tix::issue::{IssueUpdate, NewIssue};
use tix::status::Status;
use tix::store::{Error, Store};

const T0: i64 = 1_782_864_000_000;

fn scratch() -> Store {
    Store::open("/work/scratch/.tix", None, Vec::new(), 42)
}


#[test]
fn create_issue_returns_id_with_prefix() {
    let mut store = scratch();
    let id = store
        .create_issue(&NewIssue {
            title: "Test issue",
            ..NewIssue::default()
        }, T0)
        .expect("create issue");
    let expected_prefix = format!("{}-", store.prefix());
    assert!(
        id.as_str().starts_with(&expected_prefix),
        "id {id:?} does not start with {expected_prefix:?}"
    );
}

#[test]
fn create_and_fetch_roundtrip() {
    let mut store = scratch();
    let id = store
        .create_issue(&NewIssue {
            title: "My Title",
            body: "My body text",
            priority: 3,
            assignee: "alice",
            ..NewIssue::default()
        }, T0)
        .expect("create issue");

    let issue = store.fetch_issue(id.as_str()).expect("fetch issue");
    assert_eq!(issue.title, "My Title");
    assert_eq!(issue.body, "My body text");
    assert_eq!(issue.status, Status::Open);
    assert_eq!(issue.priority, 3);
    assert_eq!(issue.assignee, "alice");
    assert!(issue.created_at > 0);
    assert!(issue.updated_at > 0);
}

#[test]
fn create_issue_stores_defaults() {
    let mut store = scratch();
    let id = store
        .create_issue(&NewIssue {
            title: "Defaults",
            ..NewIssue::default()
        }, T0)
        .expect("create issue");

    let issue = store.fetch_issue(id.as_str()).expect("fetch issue");
    assert_eq!(issue.priority, 2);
    assert_eq!(issue.assignee, "");
    assert_eq!(issue.body, "");
}

#[test]
fn create_issue_with_tags() {
    let mut store = scratch();
    let id = store
        .create_issue(&NewIssue {
            title: "Tagged issue",
            priority: 1,
            tags: &["bug", "urgent"],
            ..NewIssue::default()
        }, T0)
        .expect("create issue");

    let issue = store.fetch_issue(id.as_str()).expect("fetch issue");
    // Tag order is unspecified.
    let mut tags = issue.tags.clone();
    tags.sort();
    assert_eq!(tags, ["bug", "urgent"]);
}

#[test]
fn create_issue_with_empty_tags() {
    let mut store = scratch();
    let id = store
        .create_issue(&NewIssue {
            title: "No tags",
            ..NewIssue::default()
        }, T0)
        .expect("create issue");

    let issue = store.fetch_issue(id.as_str()).expect("fetch issue");
    assert_eq!(issue.tags, Vec::<String>::new());
}

#[test]
fn create_issue_ids_are_unique() {
    let mut store = scratch();
    let mut make = |title| {
        store
            .create_issue(&NewIssue {
                title,
                ..NewIssue::default()
            }, T0)
            .expect("create issue")
    };
    let id1 = make("First");
    let id2 = make("Second");
    let id3 = make("Third");
    assert_ne!(id1, id2);
    assert_ne!(id1, id3);
    assert_ne!(id2, id3);
}

#[test]
fn fetch_nonexistent_is_not_found() {
    let store = scratch();
    let result = store.fetch_issue("nonexistent-abc123");
    assert!(
        matches!(result, Err(Error::IssueNotFound { .. })),
        "expected IssueNotFound, got {result:?}"
    );
}

#[test]
fn update_changes_title() {
    let mut store = scratch();
    let id = store
        .create_issue(&NewIssue {
            title: "Original",
            ..NewIssue::default()
        }, T0)
        .expect("create issue");

    store
        .update_issue(
            id.as_str(),
            &IssueUpdate {
                title: Some("Updated Title"),
                ..IssueUpdate::default()
            },
            T0 + 1,
        )
        .expect("update issue");

    let issue = store.fetch_issue(id.as_str()).expect("fetch issue");
    assert_eq!(issue.title, "Updated Title");
}

#[test]
fn update_changes_status() {
    let mut store = scratch();
    let id = store
        .create_issue(&NewIssue {
            title: "Status test",
            ..NewIssue::default()
        }, T0)
        .expect("create issue");

    store
        .update_issue(
            id.as_str(),
            &IssueUpdate {
                status: Some(Status::InProgress),
                ..IssueUpdate::default()
            },
            T0 + 1,
        )
        .expect("update issue");

    let issue = store.fetch_issue(id.as_str()).expect("fetch issue");
    assert_eq!(issue.status, Status::InProgress);
}

#[test]
fn update_changes_priority() {
    let mut store = scratch();
    let id = store
        .create_issue(&NewIssue {
            title: "Priority test",
            ..NewIssue::default()
        }, T0)
        .expect("create issue");

    store
        .update_issue(
            id.as_str(),
            &IssueUpdate {
                priority: Some(5),
                ..IssueUpdate::default()
            },
            T0 + 1,
        )
        .expect("update issue");

    let issue = store.fetch_issue(id.as_str()).expect("fetch issue");
    assert_eq!(issue.priority, 5);
}

#[test]
fn update_changes_assignee() {
    let mut store = scratch();
    let id = store
        .create_issue(&NewIssue {
            title: "Assign test",
            ..NewIssue::default()
        }, T0)
        .expect("create issue");

    store
        .update_issue(
            id.as_str(),
            &IssueUpdate {
                assignee: Some("bob"),
                ..IssueUpdate::default()
            },
            T0 + 1,
        )
        .expect("update issue");

    let issue = store.fetch_issue(id.as_str()).expect("fetch issue");
    assert_eq!(issue.assignee, "bob");
}

#[test]
fn update_changes_body() {
    let mut store = scratch();
    let id = store
        .create_issue(&NewIssue {
            title: "Body test",
            body: "old body",
            ..NewIssue::default()
        }, T0)
        .expect("create issue");

    store
        .update_issue(
            id.as_str(),
            &IssueUpdate {
                body: Some("new body"),
                ..IssueUpdate::default()
            },
            T0 + 1,
        )
        .expect("update issue");

    let issue = store.fetch_issue(id.as_str()).expect("fetch issue");
    assert_eq!(issue.body, "new body");
}

#[test]
fn update_multiple_fields_at_once() {
    let mut store = scratch();
    let id = store
        .create_issue(&NewIssue {
            title: "Multi update",
            ..NewIssue::default()
        }, T0)
        .expect("create issue");

    store
        .update_issue(
            id.as_str(),
            &IssueUpdate {
                title: Some("New Title"),
                body: Some("New body"),
                status: Some(Status::Closed),
                priority: Some(1),
                assignee: Some("charlie"),
                ..IssueUpdate::default()
            },
            T0 + 1,
        )
        .expect("update issue");

    let issue = store.fetch_issue(id.as_str()).expect("fetch issue");
    assert_eq!(issue.title, "New Title");
    assert_eq!(issue.body, "New body");
    assert_eq!(issue.status, Status::Closed);
    assert_eq!(issue.priority, 1);
    assert_eq!(issue.assignee, "charlie");
}

#[test]
fn update_adds_tags() {
    let mut store = scratch();
    let id = store
        .create_issue(&NewIssue {
            title: "Tag add test",
            ..NewIssue::default()
        }, T0)
        .expect("create issue");

    store
        .update_issue(
            id.as_str(),
            &IssueUpdate {
                add_tags: &["feature"],
                ..IssueUpdate::default()
            },
            T0 + 1,
        )
        .expect("update issue");

    let issue = store.fetch_issue(id.as_str()).expect("fetch issue");
    assert_eq!(issue.tags, ["feature"]);
}

#[test]
fn update_removes_tags() {
    let mut store = scratch();
    let id = store
        .create_issue(&NewIssue {
            title: "Tag rm test",
            tags: &["bug", "wontfix"],
            ..NewIssue::default()
        }, T0)
        .expect("create issue");

    store
        .update_issue(
            id.as_str(),
            &IssueUpdate {
                rm_tags: &["bug"],
                ..IssueUpdate::default()
            },
            T0 + 1,
        )
        .expect("update issue");

    let issue = store.fetch_issue(id.as_str()).expect("fetch issue");
    assert_eq!(issue.tags, ["wontfix"]);
}

#[test]
fn update_adds_and_removes_tags_simultaneously() {
    let mut store = scratch();
    let id = store
        .create_issue(&NewIssue {
            title: "Tag swap test",
            tags: &["old-tag"],
            ..NewIssue::default()
        }, T0)
        .expect("create issue");

    store
        .update_issue(
            id.as_str(),
            &IssueUpdate {
                add_tags: &["new-tag"],
                rm_tags: &["old-tag"],
                ..IssueUpdate::default()
            },
            T0 + 1,
        )
        .expect("update issue");

    let issue = store.fetch_issue(id.as_str()).expect("fetch issue");
    assert_eq!(issue.tags, ["new-tag"]);
}

#[test]
fn update_bumps_updated_at_and_preserves_created_at() {
    let mut store = scratch();
    let id = store
        .create_issue(&NewIssue {
            title: "Timestamp test",
            ..NewIssue::default()
        }, T0)
        .expect("create issue");

    let before = store.fetch_issue(id.as_str()).expect("fetch issue");

    store
        .update_issue(
            id.as_str(),
            &IssueUpdate {
                title: Some("Changed"),
                ..IssueUpdate::default()
            },
            T0 + 1,
        )
        .expect("update issue");

    let after = store.fetch_issue(id.as_str()).expect("fetch issue");
    assert_eq!(after.created_at, before.created_at);
    assert!(after.updated_at >= before.updated_at);
}

#[test]
fn update_nonexistent_is_not_found() {
    let mut store = scratch();
    let result = store.update_issue(
        "nonexistent-xyz",
        &IssueUpdate {
            title: Some("title"),
            ..IssueUpdate::default()
        },
        T0 + 1,
    );
    assert!(
        matches!(result, Err(Error::IssueNotFound { .. })),
        "expected IssueNotFound, got {result:?}"
    );
}

#[test]
fn update_preserves_unchanged_fields() {
    let mut store = scratch();
    let id = store
        .create_issue(&NewIssue {
            title: "Original title",
            body: "original body",
            priority: 3,
            assignee: "alice",
            ..NewIssue::default()
        }, T0)
        .expect("create issue");

    store
        .update_issue(
            id.as_str(),
            &IssueUpdate {
                status: Some(Status::Closed),
                ..IssueUpdate::default()
            },
            T0 + 1,
        )
        .expect("update issue");

    let issue = store.fetch_issue(id.as_str()).expect("fetch issue");
    assert_eq!(issue.title, "Original title");
    assert_eq!(issue.body, "original body");
    assert_eq!(issue.status, Status::Closed);
    assert_eq!(issue.priority, 3);
    assert_eq!(issue.assignee, "alice");
}
