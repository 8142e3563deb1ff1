//! Term search over titles, bodies and comments.

use tix::store::Store;

use tix::model::NewIssue;

const T0: i64 = 1_782_864_000_000;

fn scratch() -> Store {
    Store::open("/work/scratch/.tix", None, Vec::new(), 42)
}


#[test]
fn search_finds_issue_by_title() {
    let mut store = scratch();
    let id = store
        .create_issue(&NewIssue {
            title: "Authentication bug in login",
            ..NewIssue::default()
        }, T0)
        .expect("create issue");

    let hits = store.search("authentication").expect("search");
    assert_eq!(hits.len(), 1);
    assert_eq!(hits[0].id, id);
}

#[test]
fn search_finds_issue_by_body() {
    let mut store = scratch();
    let id = store
        .create_issue(&NewIssue {
            title: "Bug report",
            body: "The frobnicator is broken",
            ..NewIssue::default()
        }, T0)
        .expect("create issue");

    let hits = store.search("frobnicator").expect("search");
    assert_eq!(hits.len(), 1);
    assert_eq!(hits[0].id, id);
}

#[test]
fn search_does_not_match_unrelated_terms() {
    let mut store = scratch();
    store
        .create_issue(&NewIssue {
            title: "Login page fix",
            body: "Fixed the auth flow",
            ..NewIssue::default()
        }, T0)
        .expect("create issue");

    let hits = store.search("database").expect("search");
    assert_eq!(hits, []);
}

#[test]
fn search_finds_comment_text_without_reimport() {
    let mut store = scratch();
    let id = store
        .create_issue(&NewIssue {
            title: "Plain title",
            body: "plain body",
            ..NewIssue::default()
        }, T0)
        .expect("create issue");
    store
        .add_comment(id.as_str(), "alice", "supercalifragilistic", T0 + 1)
        .expect("add comment");

    let hits = store.search("supercalifragilistic").expect("search");
    assert_eq!(hits.len(), 1);
    assert_eq!(hits[0].id, id);
}
