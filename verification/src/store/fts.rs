//! Full-text search through SQLite FTS5: each issue becomes one row of an
//! in-memory `docs(title, body, comments, updated UNINDEXED)` table, and a
//! query returns the matching rowids best match first (by `bm25`), then
//! most recently updated.

use vstd::prelude::*;

use rusqlite::Connection;
use rusqlite::Error as SqliteError;

verus! {

#[verifier::external_type_specification]
#[verifier::external_body]
pub struct ExConnection(rusqlite::Connection);

#[verifier::external_type_specification]
#[verifier::external_body]
pub struct ExSqliteError(SqliteError);

/// One row of the search table.
pub struct FtsDoc {
    pub rowid: i64,
    pub title: String,
    pub body: String,
    /// The bodies of the issue's comments, oldest first, joined by spaces.
    pub comments: String,
    pub updated: i64,
}

/// The plain-value model of an [`FtsDoc`].
pub struct FtsDocView {
    pub rowid: i64,
    pub title: Seq<char>,
    pub body: Seq<char>,
    pub comments: Seq<char>,
    pub updated: i64,
}

impl View for FtsDoc {
    type V = FtsDocView;

    open spec fn view(&self) -> FtsDocView {
        FtsDocView {
            rowid: self.rowid,
            title: self.title@,
            body: self.body@,
            comments: self.comments@,
            updated: self.updated,
        }
    }
}

/// The rows of a connection's `docs` table, in the order they were
/// inserted (none before the table exists).
pub uninterp spec fn fts_docs(db: Connection) -> Seq<FtsDocView>;

/// Whether a connection holds the `docs` table.
pub uninterp spec fn fts_table(db: Connection) -> bool;

/// What an FTS5 `MATCH` of `query` against the rows `docs` gives: `None`
/// when SQLite rejects the query (its FTS5 syntax is not valid), else the
/// matching rowids, ordered by `bm25` rank, then by `updated` descending
/// (rows equal in both come in SQLite's order).
pub uninterp spec fn fts_ranked(docs: Seq<FtsDocView>, query: Seq<char>) -> Option<Seq<i64>>;

/// A new in-memory database, with no tables and so no rows.
///
/// Trusted: calls `rusqlite::Connection::open_in_memory`; the contract
/// claims that opening a private in-memory database succeeds (short of
/// running out of memory) and that it holds no tables.
#[verifier::external_body]
pub(crate) fn open_memory() -> (r: Result<Connection, SqliteError>)
    ensures
        r is Ok,
        r matches Ok(db) ==> !fts_table(db) && fts_docs(db) == Seq::<FtsDocView>::empty(),
{
    Connection::open_in_memory()
}

/// Create the empty FTS5 `docs` table.
///
/// Trusted: calls `rusqlite::Connection::execute_batch` with the
/// `CREATE VIRTUAL TABLE` statement; the contract claims that on a
/// database without the table this succeeds (the bundled SQLite is built
/// with FTS5; short of running out of memory) and leaves an empty table.
#[verifier::external_body]
pub(crate) fn create_docs_table(db: &mut Connection) -> (r: Result<(), SqliteError>)
    requires
        !fts_table(*old(db)),
        fts_docs(*old(db)) == Seq::<FtsDocView>::empty(),
    ensures
        r is Ok,
        fts_table(*final(db)),
        fts_docs(*final(db)) == Seq::<FtsDocView>::empty(),
{
    db.execute_batch("CREATE VIRTUAL TABLE docs USING fts5(title, body, comments, updated UNINDEXED)")
}

/// Insert one row into `docs`.
///
/// Trusted: calls `rusqlite::Connection::execute` with an `INSERT`
/// statement; the contract claims that with the table present and a rowid
/// no row has yet, the insert succeeds (short of running out of memory)
/// and adds the row; that a failing statement (SQLite statements are
/// atomic) adds nothing; and that the table stays.
#[verifier::external_body]
pub(crate) fn insert_doc(db: &mut Connection, doc: &FtsDoc) -> (r: Result<usize, SqliteError>)
    ensures
        fts_table(*old(db)) && (forall|i: int|
            0 <= i < fts_docs(*old(db)).len() ==> #[trigger] fts_docs(*old(db))[i].rowid != doc.rowid)
            ==> r is Ok,
        r is Ok ==> fts_table(*old(db)) && fts_docs(*final(db)) == fts_docs(*old(db)).push(doc@),
        r is Err ==> fts_docs(*final(db)) == fts_docs(*old(db)),
        fts_table(*final(db)) == fts_table(*old(db)),
{
    db.execute(
        "INSERT INTO docs(rowid, title, body, comments, updated) VALUES (?1, ?2, ?3, ?4, ?5)",
        (doc.rowid, doc.title.as_str(), doc.body.as_str(), doc.comments.as_str(), doc.updated),
    )
}

/// The rowids matching `query`, best match first.
///
/// Trusted: calls `rusqlite::Connection::prepare` and
/// `rusqlite::Statement::query_map` on a `SELECT ... WHERE docs MATCH ?1
/// ORDER BY bm25(docs), updated DESC`, picking column 0 of each row; the
/// contract names the result. With the table present, the query succeeds
/// exactly when SQLite accepts `query` as FTS5 syntax (short of running out
/// of memory).
#[verifier::external_body]
pub(crate) fn match_docs(db: &Connection, query: &str) -> (r: Result<Vec<i64>, SqliteError>)
    ensures
        fts_table(*db) && fts_ranked(fts_docs(*db), query@) is Some ==> r is Ok,
        r matches Ok(v) ==> fts_ranked(fts_docs(*db), query@) == Some(v@),
{
    let mut stmt = db.prepare(
        "SELECT rowid FROM docs WHERE docs MATCH ?1 ORDER BY bm25(docs), CAST(updated AS INTEGER) DESC",
    )?;
    let rows: Result<Vec<i64>, SqliteError> = stmt.query_map([query], |row| row.get(0))?.collect();
    rows
}

/// The text of a SQLite error.
///
/// Trusted: calls `Display` of `rusqlite::Error`; nothing is claimed of
/// the text.
#[verifier::external_body]
pub(crate) fn sqlite_message(e: &SqliteError) -> String {
    e.to_string()
}

} // verus!
