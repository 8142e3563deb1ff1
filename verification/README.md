# tix

A minimal per-repo issue tracker for humans and agents, as a verified
library and a thin program around it.

A store is an append-only event log (`issues.jsonl`) of issue snapshots,
comments, dependency edges, holds and tombstones. Every mutation appends
one record; the state that `fetch`, `list`, `ready`, `search` and `dump`
read is always the replay of that log, which is what makes the cache
disposable and reimport, reopen and export/import agree.

## Layout

- `src/` — the library, verified with Verus:
  - `store.rs` — the store: its operations and their contracts, stated
    over the log and the state it replays to;
  - `store/log.rs` — the record types of the log and their validation;
  - `store/cache.rs` — replay, resolution, ordering, readiness, and the
    rows handed to search;
  - `store/fts.rs` — full-text search through SQLite FTS5 (`rusqlite`);
  - `store/order.rs` — the sorts give sorted permutations of their input;
  - `store/backlog.rs` — the `backlog.md` rendering and UTC dates;
  - `store/laws.rs` — properties of the store as a whole;
  - `ids.rs` — issue-id hashes and monotonic ULIDs;
  - `issue_id.rs`, `status.rs`, `dep_kind.rs`, `hold.rs`, … — the model
    types and their parse boundaries;
  - `paths.rs`, `text.rs` — path and character helpers;
  - `cli.rs` — parsed commands, error codes and exit codes.
- `app/` — the program: command-line parsing, the files on disk, the
  SQLite file that keeps the id prefix, and the JSON line format.
- `tests/` — tests of the library.
