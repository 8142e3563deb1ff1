//! Dependency edges between issues.


use tix::dep_kind::DepKind;
use tix::issue::NewIssue;
use tix::store::{Error, Store};

const T0: i64 = 1_782_864_000_000;

fn scratch() -> Store {
    Store::open("/work/scratch/.tix", None, Vec::new(), 42)
}


fn two_issues(store: &mut Store, a: &str, b: &str) -> (String, String) {
    let id1 = store
        .create_issue(&NewIssue {
            title: a,
            ..NewIssue::default()
        }, T0)
        .expect("create first issue");
    let id2 = store
        .create_issue(&NewIssue {
            title: b,
            ..NewIssue::default()
        }, T0)
        .expect("create second issue");
    (id1.as_str().to_owned(), id2.as_str().to_owned())
}

#[test]
fn add_dep_blocks() {
    let mut store = scratch();
    let (id1, id2) = two_issues(&mut store, "Blocker", "Blocked");
    store
        .add_dep(&id1, DepKind::Blocks, &id2)
        .expect("add blocks dep");

    let deps = store.deps(&id1).expect("list deps");
    assert_eq!(deps.len(), 1);
    assert_eq!(deps[0].src.as_str(), id1);
    assert_eq!(deps[0].dst.as_str(), id2);
    assert_eq!(deps[0].kind, DepKind::Blocks);
}

#[test]
fn add_dep_relates() {
    let mut store = scratch();
    let (id1, id2) = two_issues(&mut store, "Related A", "Related B");
    store
        .add_dep(&id1, DepKind::Relates, &id2)
        .expect("add relates dep");

    let deps = store.deps(&id1).expect("list deps");
    assert_eq!(deps.len(), 1);
    assert_eq!(deps[0].kind, DepKind::Relates);
}

#[test]
fn add_dep_to_self_errors() {
    let mut store = scratch();
    let id = store
        .create_issue(&NewIssue {
            title: "Self dep",
            ..NewIssue::default()
        }, T0)
        .expect("create issue");

    let result = store.add_dep(id.as_str(), DepKind::Blocks, id.as_str());
    assert!(
        matches!(result, Err(Error::SelfDependency)),
        "expected SelfDependency, got {result:?}"
    );
}

#[test]
fn add_dep_nonexistent_source_is_not_found() {
    let mut store = scratch();
    let id = store
        .create_issue(&NewIssue {
            title: "Real",
            ..NewIssue::default()
        }, T0)
        .expect("create issue");

    let result = store
        .add_dep("nonexistent-xyz", DepKind::Blocks, id.as_str());
    assert!(
        matches!(result, Err(Error::IssueNotFound { .. })),
        "expected IssueNotFound, got {result:?}"
    );
}

#[test]
fn add_dep_nonexistent_target_is_not_found() {
    let mut store = scratch();
    let id = store
        .create_issue(&NewIssue {
            title: "Real",
            ..NewIssue::default()
        }, T0)
        .expect("create issue");

    let result = store
        .add_dep(id.as_str(), DepKind::Blocks, "nonexistent-xyz");
    assert!(
        matches!(result, Err(Error::IssueNotFound { .. })),
        "expected IssueNotFound, got {result:?}"
    );
}

#[test]
fn remove_dep() {
    let mut store = scratch();
    let (id1, id2) = two_issues(&mut store, "Blocker", "Blocked");
    store
        .add_dep(&id1, DepKind::Blocks, &id2)
        .expect("add dep");
    store
        .remove_dep(&id1, DepKind::Blocks, &id2)
        .expect("remove dep");

    let deps = store.deps(&id1).expect("list deps");
    assert_eq!(deps, []);
}

#[test]
fn add_dep_duplicate_is_idempotent() {
    let mut store = scratch();
    let (id1, id2) = two_issues(&mut store, "A", "B");
    store
        .add_dep(&id1, DepKind::Blocks, &id2)
        .expect("add dep");
    store
        .add_dep(&id1, DepKind::Blocks, &id2)
        .expect("re-add same dep");

    let deps = store.deps(&id1).expect("list deps");
    assert_eq!(deps.len(), 1);
}
