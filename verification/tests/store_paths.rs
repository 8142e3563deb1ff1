//! Store discovery, the log's path, and the default prefix taken from the
//! store directory's parent.

use tix::store::{discover, Error, Store};

fn strings(v: &[&str]) -> Vec<String> {
    v.iter().map(|s| (*s).to_owned()).collect()
}

#[test]
fn tix_store_env_wins() {
    let ancestors = strings(&["/home/u/repo/src", "/home/u/repo", "/home/u", "/home", "/"]);
    let has = vec![false, true, false, false, false];
    assert_eq!(discover(&ancestors, &has, Some("/elsewhere/.tix")).expect("found"), "/elsewhere/.tix");
    assert_eq!(
        discover(&ancestors, &has, Some("custom/.tix")).expect("found"),
        "/home/u/repo/src/custom/.tix"
    );
}

#[test]
fn discovery_walks_up_to_the_nearest_store() {
    let ancestors = strings(&["/home/u/repo/src", "/home/u/repo", "/home/u", "/home", "/"]);
    let has = vec![false, true, true, false, false];
    assert_eq!(discover(&ancestors, &has, None).expect("found"), "/home/u/repo/.tix");
    let root_only = vec![false, false, false, false, true];
    assert_eq!(discover(&ancestors, &root_only, None).expect("found"), "/.tix");
}

#[test]
fn discovery_without_a_store_fails() {
    let ancestors = strings(&["/a/b", "/a", "/"]);
    let none = vec![false, false, false];
    let r = discover(&ancestors, &none, None);
    assert!(matches!(r, Err(Error::StoreNotFound)), "{r:?}");
}

#[test]
fn jsonl_path_is_inside_the_store_directory() {
    let store = Store::open("/repo/.tix", None, Vec::new(), 1);
    assert_eq!(store.jsonl_path(), "/repo/.tix/issues.jsonl");
    let slashed = Store::open("/repo/.tix/", None, Vec::new(), 1);
    assert_eq!(slashed.jsonl_path(), "/repo/.tix/issues.jsonl");
}

#[test]
fn default_prefix_follows_the_parent_directory_name() {
    let prefix = |dir: &str| Store::open(dir, None, Vec::new(), 1).prefix().to_owned();
    assert_eq!(prefix("/repo/.tix"), "repo");
    assert_eq!(prefix("repo/.tix"), "repo");
    assert_eq!(prefix("/a/b/.tix/"), "b");
    assert_eq!(prefix("/a//b/./.tix"), "b");
    assert_eq!(prefix("/tix.rs/.tix"), "tix.rs");
    assert_eq!(prefix(".tix"), "do");
    assert_eq!(prefix("/.tix"), "do");
    assert_eq!(prefix("../.tix"), "do");
}
