//! Listing, readiness, search, dependency and comment queries, the laws
//! that tie the operations together, dates, and the CLI error maps.

use tix::cli::{error_code, exit_code, Failure};
use tix::dep_kind::DepKind;
use tix::hold::{Hold, HoldKind};
use tix::issue::{IssueUpdate, NewIssue};
use tix::issue_id::{IssueId, ParseIssueIdError};
use tix::status::Status;
use tix::store::backlog::date_of;
use tix::store::log::{IssueRecord, Record};
use tix::store::{Error, ListFilter, Store};

const T0: i64 = 1_782_864_000_000;

fn scratch() -> Store {
    Store::open("/work/demo/.tix", None, Vec::new(), 5)
}

fn add(store: &mut Store, id: &str, title: &str, priority: i32, now: i64) -> IssueId {
    store
        .create_issue(
            &NewIssue {
                id: Some(id),
                title,
                priority,
                ..NewIssue::default()
            },
            now,
        )
        .expect("create issue")
}

fn ids(issues: Vec<tix::issue::Issue>) -> Vec<String> {
    issues.into_iter().map(|i| i.id.as_str().to_owned()).collect()
}

#[test]
fn generated_id_is_prefix_dash_hash_of_title_and_clock() {
    let mut store = scratch();
    let id = store
        .create_issue(&NewIssue { title: "x", ..NewIssue::default() }, 1000)
        .expect("create");
    assert_eq!(id.as_str(), format!("demo-{}", tix::ids::short_hash("x1000")));
}

#[test]
fn same_title_at_the_same_instant_collides() {
    let mut store = scratch();
    store
        .create_issue(&NewIssue { title: "twin", ..NewIssue::default() }, T0)
        .expect("first");
    let again = store.create_issue(&NewIssue { title: "twin", ..NewIssue::default() }, T0);
    assert!(matches!(again, Err(Error::IssueIdExists { .. })), "{again:?}");
    let later = store.create_issue(&NewIssue { title: "twin", ..NewIssue::default() }, T0 + 1);
    assert!(later.is_ok());
}

#[test]
fn list_is_most_recently_updated_first_and_filters() {
    let mut store = scratch();
    add(&mut store, "a-1", "a", 2, T0);
    add(&mut store, "b-2", "b", 2, T0 + 1);
    add(&mut store, "c-3", "c", 2, T0 + 2);
    store
        .update_issue(
            "a-1",
            &IssueUpdate {
                status: Some(Status::Closed),
                assignee: Some("kim"),
                add_tags: &["x"],
                ..IssueUpdate::default()
            },
            T0 + 3,
        )
        .expect("update");

    assert_eq!(ids(store.list(&ListFilter::default())), ["a-1", "c-3", "b-2"]);
    let closed = ListFilter { status: Some(Status::Closed), ..ListFilter::default() };
    assert_eq!(ids(store.list(&closed)), ["a-1"]);
    let open = ListFilter { status: Some(Status::Open), ..ListFilter::default() };
    assert_eq!(ids(store.list(&open)), ["c-3", "b-2"]);
    let kim = ListFilter { assignee: Some("kim"), ..ListFilter::default() };
    assert_eq!(ids(store.list(&kim)), ["a-1"]);
    let tagged = ListFilter { tag: Some("x"), ..ListFilter::default() };
    assert_eq!(ids(store.list(&tagged)), ["a-1"]);
    let nobody = ListFilter { assignee: Some("zed"), ..ListFilter::default() };
    assert!(store.list(&nobody).is_empty());
}

#[test]
fn ready_orders_by_priority_then_recency_and_skips_blocked() {
    let mut store = scratch();
    add(&mut store, "a-1", "a", 3, T0);
    add(&mut store, "b-2", "b", 1, T0 + 1);
    add(&mut store, "c-3", "c", 3, T0 + 2);
    add(&mut store, "d-4", "d", 2, T0 + 3);
    assert_eq!(ids(store.ready(None, T0 + 10)), ["b-2", "d-4", "c-3", "a-1"]);

    // b blocks d: d is not ready while b is open or in progress.
    store.add_dep("b-2", DepKind::Blocks, "d-4").expect("dep");
    assert_eq!(ids(store.ready(None, T0 + 10)), ["b-2", "c-3", "a-1"]);
    store
        .update_issue(
            "b-2",
            &IssueUpdate { status: Some(Status::InProgress), ..IssueUpdate::default() },
            T0 + 4,
        )
        .expect("update");
    assert_eq!(ids(store.ready(None, T0 + 10)), ["c-3", "a-1"]);
    store
        .update_issue(
            "b-2",
            &IssueUpdate { status: Some(Status::Closed), ..IssueUpdate::default() },
            T0 + 5,
        )
        .expect("update");
    assert_eq!(ids(store.ready(None, T0 + 10)), ["d-4", "c-3", "a-1"]);

    // A relates edge never blocks.
    store.add_dep("c-3", DepKind::Relates, "a-1").expect("dep");
    assert_eq!(ids(store.ready(None, T0 + 10)), ["d-4", "c-3", "a-1"]);
}

#[test]
fn a_chain_blocks_only_through_working_issues() {
    let mut store = scratch();
    add(&mut store, "a-1", "a", 2, T0);
    add(&mut store, "b-2", "b", 2, T0 + 1);
    add(&mut store, "c-3", "c", 2, T0 + 2);
    // a blocks b blocks c: while b is open, c waits on it.
    store.add_dep("a-1", DepKind::Blocks, "b-2").expect("dep");
    store.add_dep("b-2", DepKind::Blocks, "c-3").expect("dep");
    assert_eq!(ids(store.ready(None, T0 + 10)), ["a-1"]);
    // Once b is closed, the chain no longer reaches c.
    store
        .update_issue("b-2", &IssueUpdate { status: Some(Status::Closed), ..IssueUpdate::default() }, T0 + 3)
        .expect("update");
    assert_eq!(ids(store.ready(None, T0 + 10)), ["c-3", "a-1"]);
}

#[test]
fn a_blocking_cycle_blocks_every_member() {
    let mut store = scratch();
    add(&mut store, "a-1", "a", 2, T0);
    add(&mut store, "b-2", "b", 2, T0 + 1);
    store.add_dep("a-1", DepKind::Blocks, "b-2").expect("dep");
    store.add_dep("b-2", DepKind::Blocks, "a-1").expect("dep");
    assert!(store.ready(None, T0 + 10).is_empty());
}

#[test]
fn ready_narrows_to_one_assignee() {
    let mut store = scratch();
    add(&mut store, "a-1", "a", 2, T0);
    add(&mut store, "b-2", "b", 2, T0 + 1);
    store
        .update_issue("a-1", &IssueUpdate { assignee: Some("kim"), ..IssueUpdate::default() }, T0 + 2)
        .expect("update");
    assert_eq!(ids(store.ready(Some("kim"), T0 + 10)), ["a-1"]);
    assert_eq!(ids(store.ready(Some(""), T0 + 10)), ["b-2"]);
}

#[test]
fn removing_a_blocking_edge_unblocks() {
    let mut store = scratch();
    add(&mut store, "a-1", "a", 2, T0);
    add(&mut store, "b-2", "b", 2, T0 + 1);
    store.add_dep("a-1", DepKind::Blocks, "b-2").expect("dep");
    assert_eq!(ids(store.ready(None, T0 + 10)), ["a-1"]);
    store.remove_dep("a-1", DepKind::Blocks, "b-2").expect("rm");
    assert_eq!(ids(store.ready(None, T0 + 10)), ["b-2", "a-1"]);
    assert!(store.deps("a-1").expect("deps").is_empty());
}

#[test]
fn deps_touch_either_endpoint() {
    let mut store = scratch();
    add(&mut store, "a-1", "a", 2, T0);
    add(&mut store, "b-2", "b", 2, T0);
    add(&mut store, "c-3", "c", 2, T0);
    store.add_dep("a-1", DepKind::Blocks, "b-2").expect("dep");
    store.add_dep("c-3", DepKind::Relates, "b-2").expect("dep");
    let on_b = store.deps("b-2").expect("deps");
    assert_eq!(on_b.len(), 2);
    assert_eq!(on_b[0].src.as_str(), "a-1");
    assert_eq!(on_b[1].src.as_str(), "c-3");
    assert_eq!(store.deps("c-3").expect("deps").len(), 1);
    // Ordered by source, target and kind, whatever the insertion order.
    store.add_dep("b-2", DepKind::Relates, "a-1").expect("dep");
    store.add_dep("b-2", DepKind::Blocks, "a-1").expect("dep");
    let on_a: Vec<(String, String, &str)> = store
        .deps("a-1")
        .expect("deps")
        .into_iter()
        .map(|d| (d.src.as_str().to_owned(), d.dst.as_str().to_owned(), d.kind.as_str()))
        .collect();
    assert_eq!(
        on_a,
        [
            ("a-1".to_owned(), "b-2".to_owned(), "blocks"),
            ("b-2".to_owned(), "a-1".to_owned(), "blocks"),
            ("b-2".to_owned(), "a-1".to_owned(), "relates"),
        ]
    );
    let missing = store.deps("zzz");
    assert!(matches!(missing, Err(Error::IssueNotFound { .. })), "{missing:?}");
}

#[test]
fn dep_with_ambiguous_endpoint_is_refused() {
    let mut store = scratch();
    add(&mut store, "a-1", "a", 2, T0);
    add(&mut store, "a-2", "b", 2, T0);
    let r = store.add_dep("a-", DepKind::Blocks, "a-1");
    assert!(matches!(r, Err(Error::IssueIdAmbiguous { .. })), "{r:?}");
    assert_eq!(store.records().len(), 2);
}

#[test]
fn comments_come_oldest_first() {
    let mut store = scratch();
    add(&mut store, "a-1", "a", 2, T0);
    store.add_comment("a-1", "x", "second", T0 + 5).expect("comment");
    store.add_comment("a-1", "y", "first", T0 + 1).expect("comment");
    let comments = store.comments("a-1").expect("comments");
    assert_eq!(comments.len(), 2);
    assert_eq!(comments[0].body, "first");
    assert_eq!(comments[1].body, "second");
    assert_eq!(comments[1].author, "x");
}

#[test]
fn search_is_term_based_and_case_insensitive() {
    let mut store = scratch();
    add(&mut store, "a-1", "Login page broken", 2, T0);
    add(&mut store, "b-2", "Logout flow", 2, T0 + 1);
    let find = |store: &Store, q: &str| ids(store.search(q).expect("search"));
    assert_eq!(find(&store, "LOGIN"), ["a-1"]);
    assert!(find(&store, "log").is_empty(), "a term is not a substring match");
    assert_eq!(find(&store, "login broken"), ["a-1"]);
    assert!(find(&store, "login flow").is_empty());
    // FTS5 query syntax: prefix terms and OR.
    assert_eq!(find(&store, "log*").len(), 2);
    assert_eq!(find(&store, "broken OR flow").len(), 2);
    store.add_comment("b-2", "", "see login", T0 + 2).expect("comment");
    let mut both = find(&store, "login");
    both.sort();
    assert_eq!(both, ["a-1", "b-2"]);
}

#[test]
fn search_folds_unicode_case_and_diacritics() {
    let mut store = scratch();
    add(&mut store, "a-1", "Fix Café bug", 2, T0);
    assert_eq!(ids(store.search("cafe").expect("search")), ["a-1"]);
    assert_eq!(ids(store.search("CAFÉ").expect("search")), ["a-1"]);
}

#[test]
fn search_ranks_the_best_match_first() {
    let mut store = scratch();
    add(&mut store, "old-1", "login login login", 2, T0);
    store
        .create_issue(
            &NewIssue {
                id: Some("new-2"),
                title: "login page",
                body: "a long body that goes on about many other things entirely unrelated to the term",
                ..NewIssue::default()
            },
            T0 + 5,
        )
        .expect("create");
    assert_eq!(ids(store.search("login").expect("search")), ["old-1", "new-2"]);
}

#[test]
fn search_rejects_bad_query_syntax() {
    let mut store = scratch();
    add(&mut store, "a-1", "anything", 2, T0);
    let r = store.search("\"unbalanced");
    assert!(matches!(r, Err(Error::Sqlite { .. })), "{r:?}");
}

fn snapshot(id: &str, title: &str) -> Record {
    Record::Issue(IssueRecord {
        id: id.to_owned(),
        title: title.to_owned(),
        body: String::new(),
        status: "open".to_owned(),
        priority: 2,
        assignee: String::new(),
        created_at: 1000,
        updated_at: Some(1000),
        tags: Vec::new(),
    })
}

#[test]
fn open_creates_schema_including_fts5() {
    let store = Store::open("/work/demo/.tix", None, vec![snapshot("t-1", "searchable words")], 1);
    let hits = store.search("searchable").expect("search");
    assert_eq!(hits.len(), 1);
}

#[test]
fn upsert_preserves_rowid_and_search_reflects_updates() {
    let log = vec![snapshot("t-1", "original title"), snapshot("t-1", "replacement title")];
    let store = Store::open("/work/demo/.tix", None, log, 1);
    assert!(store.search("original").expect("search").is_empty());
    assert_eq!(store.search("replacement").expect("search").len(), 1);
}

#[test]
fn resolve_escapes_like_metacharacters() {
    let log = vec![
        snapshot("my_repo-1234", "underscore store"),
        snapshot("myXrepo-5678", "would match a bare underscore wildcard"),
    ];
    let store = Store::open("/work/demo/.tix", None, log, 1);
    let resolved = store.resolve_id("my_repo").expect("resolve");
    assert_eq!(resolved.as_str(), "my_repo-1234");
}

#[test]
fn resolution_prefers_an_exact_match_over_a_prefix() {
    let mut store = scratch();
    add(&mut store, "ab-1", "short", 2, T0);
    add(&mut store, "ab-12", "long", 2, T0);
    assert_eq!(store.resolve_id("ab-1").expect("exact").as_str(), "ab-1");
    assert_eq!(store.resolve_id("ab-12").expect("exact").as_str(), "ab-12");
    let r = store.resolve_id("ab");
    assert!(matches!(r, Err(Error::IssueIdAmbiguous { .. })), "{r:?}");
}

#[test]
fn update_replaces_tags_with_removal_winning() {
    let mut store = scratch();
    store
        .create_issue(
            &NewIssue { id: Some("t-1"), title: "t", tags: &["a", "b"], ..NewIssue::default() },
            T0,
        )
        .expect("create");
    store
        .update_issue(
            "t-1",
            &IssueUpdate { add_tags: &["c", "a", "d"], rm_tags: &["d", "b"], ..IssueUpdate::default() },
            T0 + 1,
        )
        .expect("update");
    assert_eq!(store.fetch_issue("t-1").expect("fetch").tags, ["a", "c"]);
}

#[test]
fn update_returns_the_resolved_id() {
    let mut store = scratch();
    add(&mut store, "long-name-1", "t", 2, T0);
    let id = store
        .update_issue("long", &IssueUpdate { title: Some("u"), ..IssueUpdate::default() }, T0 + 1)
        .expect("update");
    assert_eq!(id.as_str(), "long-name-1");
}

#[test]
fn hold_replaces_an_earlier_hold() {
    let mut store = scratch();
    add(&mut store, "h-1", "t", 2, T0);
    let first = Hold { reason: "one".to_owned(), until: None, kind: HoldKind::Load };
    let second = Hold { reason: "two".to_owned(), until: Some(5), kind: HoldKind::Parked };
    store.hold("h-1", &first, T0 + 1).expect("hold");
    store.hold("h-1", &second, T0 + 2).expect("hold");
    assert_eq!(store.fetch_issue("h-1").expect("fetch").hold, Some(second));
    store.unhold("h-1", T0 + 3).expect("unhold");
    assert_eq!(store.fetch_issue("h-1").expect("fetch").hold, None);
}

#[test]
fn a_later_snapshot_resurrects_a_deleted_issue() {
    let mut store = scratch();
    add(&mut store, "r-1", "t", 2, T0);
    store.delete("r-1", T0 + 1).expect("delete");
    assert!(store.fetch_issue("r-1").is_err());
    add(&mut store, "r-1", "back", 2, T0 + 2);
    assert_eq!(store.fetch_issue("r-1").expect("fetch").title, "back");
}

#[test]
fn import_counts_the_records_and_replays_them() {
    let mut src = scratch();
    add(&mut src, "a-1", "a", 2, T0);
    add(&mut src, "b-2", "b", 2, T0);
    src.add_dep("a-1", DepKind::Blocks, "b-2").expect("dep");
    let events = src.export();
    assert_eq!(events.len(), 3);
    let mut dst = scratch();
    add(&mut dst, "c-3", "c", 2, T0);
    assert_eq!(dst.import(events), 3);
    assert_eq!(dst.records().len(), 4);
    assert_eq!(dst.list(&ListFilter::default()).len(), 3);
}

#[test]
fn calendar_dates_are_utc() {
    let text = |ms: i64| date_of(ms).into_iter().collect::<String>();
    assert_eq!(text(0), "1970-01-01");
    assert_eq!(text(-1), "1969-12-31");
    assert_eq!(text(86_399_999), "1970-01-01");
    assert_eq!(text(86_400_000), "1970-01-02");
    assert_eq!(text(1_782_864_000_000), "2026-07-01");
    assert_eq!(text(1_783_641_600_000), "2026-07-10");
    assert_eq!(text(951_782_400_000), "2000-02-29");
    assert_eq!(text(951_868_800_000), "2000-03-01");
    assert_eq!(text(-62_167_219_200_000), "0000-01-01");
    assert_eq!(text(-62_167_219_200_001), "-0001-12-31");
    assert_eq!(text(253_402_300_799_999), "9999-12-31");
}

#[test]
fn error_codes_and_exit_codes() {
    let cases = [
        (Error::StoreNotFound, "store_not_found", 3),
        (Error::IssueNotFound { input: "x".to_owned() }, "issue_not_found", 3),
        (Error::IssueIdAmbiguous { input: "x".to_owned() }, "issue_id_ambiguous", 4),
        (
            Error::IssueIdExists { id: "x".parse().expect("valid id") },
            "issue_id_exists",
            4,
        ),
        (
            Error::InvalidIssueId { input: "-".to_owned(), reason: ParseIssueIdError::BadEdge },
            "invalid_issue_id",
            5,
        ),
        (Error::SelfDependency, "self_dependency", 4),
        (Error::DatabaseBusy, "store_busy", 1),
        (Error::Sqlite { message: "m".to_owned() }, "cache_failure", 1),
        (Error::Io { message: "m".to_owned() }, "io_failure", 1),
    ];
    for (err, code, exit) in cases {
        assert_eq!(error_code(&err), code);
        assert_eq!(exit_code(&err), exit);
        let f = Failure::Store(err);
        assert_eq!(f.code(), code);
        assert_eq!(f.exit(), exit);
    }
    let v = Failure::Validation("bad status".to_owned());
    assert_eq!((v.code(), v.exit()), ("validation_failure", 5));
    let n = Failure::NotImplemented("dump".to_owned());
    assert_eq!((n.code(), n.exit()), ("not_implemented", 1));
}
