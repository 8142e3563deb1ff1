//! Caller-chosen ids, holds, export/import, tombstones and the backlog
//! document.

use tix::dep_kind::DepKind;
use tix::hold::{Hold, HoldKind};
use tix::issue::NewIssue;
use tix::issue_id::ParseIssueIdError;
use tix::store::log::{HoldRecord, IssueRecord, Record};
use tix::store::{Error, ListFilter, Store};

const T0: i64 = 1_782_864_000_000;

fn scratch() -> Store {
    Store::open("/work/scratch/.tix", None, Vec::new(), 42)
}

fn reimport(store: &mut Store) {
    let log = store.export();
    store.force_reimport(log);
}

#[test]
fn create_with_caller_chosen_id() {
    let mut store = scratch();
    let id = store
        .create_issue(
            &NewIssue {
                id: Some("boot-strap-1"),
                title: "Bootstrap",
                ..NewIssue::default()
            },
            T0,
        )
        .expect("create issue with chosen id");
    assert_eq!(id.as_str(), "boot-strap-1");

    let issue = store.fetch_issue("boot-strap-1").expect("fetch by chosen id");
    assert_eq!(issue.id, id);
    assert_eq!(issue.title, "Bootstrap");
}

#[test]
fn create_with_colliding_id_errors_and_preserves_original() {
    let mut store = scratch();
    store
        .create_issue(
            &NewIssue {
                id: Some("dup-1"),
                title: "Original",
                ..NewIssue::default()
            },
            T0,
        )
        .expect("create original");

    let result = store.create_issue(
        &NewIssue {
            id: Some("dup-1"),
            title: "Impostor",
            ..NewIssue::default()
        },
        T0 + 1,
    );
    assert!(
        matches!(result, Err(Error::IssueIdExists { .. })),
        "expected IssueIdExists, got {result:?}"
    );

    let issue = store.fetch_issue("dup-1").expect("fetch original");
    assert_eq!(issue.title, "Original");
    assert_eq!(store.records().len(), 1);
}

#[test]
fn create_with_invalid_chosen_id_is_rejected() {
    let mut store = scratch();
    let result = store.create_issue(
        &NewIssue {
            id: Some("bad id"),
            title: "Nope",
            ..NewIssue::default()
        },
        T0,
    );
    match result {
        Err(Error::InvalidIssueId { input, reason }) => {
            assert_eq!(input, "bad id");
            assert_eq!(reason, ParseIssueIdError::InvalidChar(' '));
        }
        other => panic!("expected InvalidIssueId, got {other:?}"),
    }
    assert!(store.records().is_empty());
}

#[test]
fn hold_records_reason_kind_and_until() {
    let mut store = scratch();
    let id = store
        .create_issue(&NewIssue { title: "Held work", ..NewIssue::default() }, T0)
        .expect("create issue");

    let hold = Hold {
        reason: "captain decision pending".to_owned(),
        until: Some(1_790_000_000_000),
        kind: HoldKind::Captain,
    };
    store.hold(id.as_str(), &hold, T0 + 1).expect("hold issue");

    let issue = store.fetch_issue(id.as_str()).expect("fetch issue");
    assert_eq!(issue.hold, Some(hold));
}

#[test]
fn ready_excludes_held_until_released() {
    let mut store = scratch();
    let free = store
        .create_issue(&NewIssue { title: "Free work", ..NewIssue::default() }, T0)
        .expect("create free issue");
    let held = store
        .create_issue(&NewIssue { title: "Held work", ..NewIssue::default() }, T0)
        .expect("create held issue");

    store
        .hold(
            held.as_str(),
            &Hold {
                reason: "waiting on upstream".to_owned(),
                until: None,
                kind: HoldKind::External,
            },
            T0 + 1,
        )
        .expect("hold issue");

    let ready: Vec<_> = store
        .ready(None, T0 + 2)
        .into_iter()
        .map(|i| i.id)
        .collect();
    assert_eq!(ready.as_slice(), std::slice::from_ref(&free));

    store.unhold(held.as_str(), T0 + 3).expect("release hold");
    let mut ready: Vec<_> = store
        .ready(None, T0 + 4)
        .into_iter()
        .map(|i| i.id)
        .collect();
    ready.sort_by(|a, b| a.as_str().cmp(b.as_str()));
    let mut want = [free, held];
    want.sort_by(|a, b| a.as_str().cmp(b.as_str()));
    assert_eq!(ready, want);
}

#[test]
fn hold_with_a_past_deadline_no_longer_excludes() {
    let mut store = scratch();
    let id = store
        .create_issue(&NewIssue { title: "Until work", ..NewIssue::default() }, T0)
        .expect("create issue");
    store
        .hold(
            id.as_str(),
            &Hold {
                reason: "later".to_owned(),
                until: Some(T0 + 100),
                kind: HoldKind::Future,
            },
            T0 + 1,
        )
        .expect("hold issue");
    assert!(store.ready(None, T0 + 50).is_empty());
    assert_eq!(store.ready(None, T0 + 100).len(), 1);
}

#[test]
fn unhold_of_an_unheld_issue_appends_nothing() {
    let mut store = scratch();
    let id = store
        .create_issue(&NewIssue { title: "Never held", ..NewIssue::default() }, T0)
        .expect("create issue");
    let got = store.unhold(id.as_str(), T0 + 1).expect("unhold");
    assert_eq!(got, id);
    assert_eq!(store.records().len(), 1);
}

#[test]
fn hold_survives_cache_rebuild() {
    let mut store = scratch();
    let id = store
        .create_issue(&NewIssue { title: "Held across reopen", ..NewIssue::default() }, T0)
        .expect("create issue");
    store
        .hold(
            id.as_str(),
            &Hold {
                reason: "parked for later".to_owned(),
                until: None,
                kind: HoldKind::Parked,
            },
            T0 + 1,
        )
        .expect("hold issue");

    let reopened = Store::open("/.tix", Some(store.prefix()), store.export(), 3);
    let issue = reopened.fetch_issue(id.as_str()).expect("fetch after rebuild");
    let hold = issue.hold.expect("hold survives rebuild");
    assert_eq!(hold.reason, "parked for later");
    assert_eq!(hold.kind, HoldKind::Parked);
}

#[test]
fn export_import_round_trip_preserves_ids_and_state() {
    let mut src = scratch();
    let a = src
        .create_issue(
            &NewIssue {
                title: "Exported A",
                body: "body A",
                priority: 1,
                assignee: "alice",
                tags: &["bug"],
                ..NewIssue::default()
            },
            T0,
        )
        .expect("create A");
    let b = src
        .create_issue(&NewIssue { title: "Exported B", ..NewIssue::default() }, T0)
        .expect("create B");
    src.add_dep(a.as_str(), DepKind::Blocks, b.as_str())
        .expect("add dep");
    let comment = src
        .add_comment(a.as_str(), "alice", "ported comment", T0 + 1)
        .expect("add comment");

    let events = src.export();
    let mut dst = scratch();
    let applied = dst.import(events);
    assert!(
        applied >= 4,
        "expected at least 4 records applied, got {applied}"
    );

    let issue_a = dst.fetch_issue(a.as_str()).expect("A exists in dst");
    assert_eq!(issue_a.id, a);
    assert_eq!(issue_a.title, "Exported A");
    assert_eq!(issue_a.body, "body A");
    assert_eq!(issue_a.priority, 1);
    assert_eq!(issue_a.assignee, "alice");
    assert_eq!(issue_a.tags, ["bug"]);

    dst.fetch_issue(b.as_str()).expect("B exists in dst");
    let deps = dst.deps(a.as_str()).expect("deps in dst");
    assert_eq!(deps.len(), 1);
    assert_eq!(deps[0].dst, b);

    let comments = dst.comments(a.as_str()).expect("comments in dst");
    assert_eq!(comments.len(), 1);
    assert_eq!(comments[0].id, comment);
    assert_eq!(comments[0].body, "ported comment");
}

#[test]
fn delete_hides_issue_everywhere() {
    let mut store = scratch();
    let keep = store
        .create_issue(&NewIssue { title: "Keep me", ..NewIssue::default() }, T0)
        .expect("create kept issue");
    let doomed = store
        .create_issue(&NewIssue { title: "Delete me", ..NewIssue::default() }, T0)
        .expect("create doomed issue");

    store.delete(doomed.as_str(), T0 + 1).expect("delete issue");

    let result = store.fetch_issue(doomed.as_str());
    assert!(
        matches!(result, Err(Error::IssueNotFound { .. })),
        "deleted issue must be hidden from fetch, got {result:?}"
    );
    let listed: Vec<_> = store
        .list(&ListFilter::default())
        .into_iter()
        .map(|i| i.id)
        .collect();
    assert_eq!(listed, [keep.clone()]);
    let ready: Vec<_> = store.ready(None, T0 + 2).into_iter().map(|i| i.id).collect();
    assert_eq!(ready, [keep]);
    assert!(store.search("Delete").expect("search").is_empty());
}

#[test]
fn delete_preserves_append_only_history() {
    let mut store = scratch();
    let id = store
        .create_issue(&NewIssue { title: "Tombstoned", ..NewIssue::default() }, T0)
        .expect("create issue");

    let log_before = store.records().clone();
    store.delete(id.as_str(), T0 + 1).expect("delete issue");
    let log_after = store.records().clone();

    assert!(
        log_after.starts_with(&log_before),
        "delete must append, not rewrite history"
    );
    assert!(
        matches!(&log_after[0], Record::Issue(r) if r.title == "Tombstoned"),
        "original snapshot preserved"
    );
    assert!(
        matches!(log_after.last(), Some(Record::Delete(d)) if d.issue_id == id.as_str()),
        "tombstone record appended; log: {log_after:?}"
    );

    reimport(&mut store);
    let result = store.fetch_issue(id.as_str());
    assert!(
        matches!(result, Err(Error::IssueNotFound { .. })),
        "tombstone must hold after reimport, got {result:?}"
    );
}

fn fixture_issue(id: &str, title: &str, body: &str, status: &str, updated: i64, tags: &[&str]) -> Record {
    Record::Issue(IssueRecord {
        id: id.to_owned(),
        title: title.to_owned(),
        body: body.to_owned(),
        status: status.to_owned(),
        priority: 2,
        assignee: String::new(),
        created_at: 1_782_864_000_000,
        updated_at: Some(updated),
        tags: tags.iter().map(|t| (*t).to_owned()).collect(),
    })
}

// 1782864000000 = 2026-07-01T00:00:00Z, 1783641600000 = 2026-07-10T00:00:00Z.
#[test]
fn dump_backlog_renders_the_fixture() {
    let log = vec![
        fixture_issue(
            "demo-aaaa01",
            "Ship the demo",
            "line one\nline two",
            "open",
            1_782_864_000_000,
            &["repo:demo", "kind:ship"],
        ),
        fixture_issue("demo-bbbb02", "Waiting task", "", "open", 1_782_864_000_000, &[]),
        Record::Hold(HoldRecord {
            issue_id: "demo-bbbb02".to_owned(),
            state: "active".to_owned(),
            reason: "captain decision pending".to_owned(),
            kind: "captain".to_owned(),
            until: None,
            created_at: 1_782_864_000_000,
        }),
        fixture_issue("demo-cccc03", "In flight task", "", "in_progress", 1_782_864_000_000, &[]),
        fixture_issue("demo-dddd04", "Done task", "", "closed", 1_783_641_600_000, &[]),
    ];
    let store = Store::open("/work/demo/.tix", None, log, 1);
    let expected = [
        "## In flight\n",
        "\n",
        "- [ ] demo-cccc03 - In flight task (since 2026-07-01)\n",
        "\n",
        "## Queued\n",
        "\n",
        "- [ ] demo-aaaa01 - Ship the demo (repo: demo) (kind: ship) (since 2026-07-01)\n",
        "  line one\n",
        "  line two\n",
        "- [ ] demo-bbbb02 - Waiting task (since 2026-07-01) (hold: captain decision pending) (hold-kind: captain)\n",
        "\n",
        "## Done\n",
        "\n",
        "- [x] demo-dddd04 - Done task (since 2026-07-01) (closed 2026-07-10)\n",
    ]
    .concat();
    assert_eq!(store.dump_backlog(), expected);
}

#[test]
fn dump_backlog_of_an_empty_store_has_bare_sections() {
    let store = scratch();
    assert_eq!(
        store.dump_backlog(),
        "## In flight\n\n## Queued\n\n## Done\n"
    );
}

#[test]
fn dump_backlog_orders_by_priority_then_age_then_id() {
    let mut store = scratch();
    let late = store
        .create_issue(&NewIssue { id: Some("b-2"), title: "late", ..NewIssue::default() }, T0 + 5)
        .expect("create");
    let urgent = store
        .create_issue(
            &NewIssue { id: Some("c-3"), title: "urgent", priority: 1, ..NewIssue::default() },
            T0 + 9,
        )
        .expect("create");
    let early = store
        .create_issue(&NewIssue { id: Some("z-9"), title: "early", ..NewIssue::default() }, T0)
        .expect("create");
    let tie = store
        .create_issue(&NewIssue { id: Some("a-1"), title: "tie", ..NewIssue::default() }, T0 + 5)
        .expect("create");
    let text = store.dump_backlog();
    let pos = |id: &tix::issue_id::IssueId| text.find(id.as_str()).expect("listed");
    assert!(pos(&urgent) < pos(&early));
    assert!(pos(&early) < pos(&tie));
    assert!(pos(&tie) < pos(&late));
}
