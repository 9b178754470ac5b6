//! Calls into `rusqlite`, which runs the SQLite full-text index (FTS5 with the
//! porter/unicode61 tokenizer and BM25 ranking) behind the memory store.
//!
//! A connection's contents are named by the statements applied to it
//! (`sqlite_history`); what a query returns is named as a function of those
//! statements and of the query (`sqlite_rows`). Every call may fail, and
//! after a failed statement nothing is said of the contents.

use vstd::prelude::*;

verus! {

#[verifier::external_type_specification]
#[verifier::external_body]
pub struct ExConnection(rusqlite::Connection);

#[verifier::external_type_specification]
#[verifier::external_body]
pub struct ExSqliteError(rusqlite::Error);

/// The statements (with their text parameters) successfully applied to a
/// connection's database since it was opened, oldest first; a batch counts as
/// one statement with no parameters.
pub uninterp spec fn sqlite_history(c: rusqlite::Connection) -> Seq<(Seq<char>, Seq<Seq<char>>)>;

/// The rows (first two columns, as text) that the query `sql`, with text
/// parameters `args` and then the integer `limit`, returns on a database built
/// by the statements `history`. Only the library's own statements are applied
/// and only its full-text query is read (see the `requires` of the wrappers);
/// none of them reads a clock or a random source, and SQLite is bundled, so
/// the same statements build the same database and the query reads the same
/// rows.
pub uninterp spec fn sqlite_rows(history: Seq<(Seq<char>, Seq<Seq<char>>)>, sql: Seq<char>, args: Seq<Seq<char>>, limit: i64) -> Seq<(Seq<char>, Seq<char>)>;

/// The text values of `args`.
pub open spec fn text_args(args: Seq<String>) -> Seq<Seq<char>> {
    args.map_values(|a: String| a@)
}

/// The text values of the rows of a query.
pub open spec fn row_texts(rows: Seq<(String, String)>) -> Seq<(Seq<char>, Seq<char>)> {
    rows.map_values(|p: (String, String)| (p.0@, p.1@))
}

/// Calls `rusqlite::Connection::open_in_memory`, which opens a fresh private
/// in-memory database: no statement has been applied to it.
#[verifier::external_body]
pub(crate) fn sqlite_open_in_memory() -> (r: Result<rusqlite::Connection, rusqlite::Error>)
    ensures
        r is Ok ==> sqlite_history(r->Ok_0) == Seq::<(Seq<char>, Seq<Seq<char>>)>::empty(),
{
    rusqlite::Connection::open_in_memory()
}

/// Calls `rusqlite::Connection::execute_batch`, which runs the statements of
/// `sql` (only the index schema is run); on success the batch is applied to
/// the database.
#[verifier::external_body]
pub(crate) fn sqlite_execute_batch(conn: &mut rusqlite::Connection, sql: &str) -> (r: Result<
    (),
    rusqlite::Error,
>)
    requires
        sql@ == crate::memory::store::INDEX_SCHEMA@,
    ensures
        r is Ok ==> sqlite_history(*final(conn)) == sqlite_history(*old(conn)).push(
            (sql@, Seq::<Seq<char>>::empty()),
        ),
{
    conn.execute_batch(sql)
}

/// Calls `rusqlite::Connection::execute`, which runs one statement with
/// `args` bound, in order, as text parameters, and returns the number of rows
/// changed (only the library's four insert statements are run); on success
/// the statement is applied to the database.
#[verifier::external_body]
pub(crate) fn sqlite_execute(conn: &mut rusqlite::Connection, sql: &str, args: &Vec<String>) -> (r:
    Result<usize, rusqlite::Error>)
    requires
        sql@ == crate::memory::store::FACT_INSERT_SQL@ || sql@ == crate::memory::store::FACT_FTS_INSERT_SQL@
            || sql@ == crate::memory::store::EPISODE_INSERT_SQL@ || sql@
            == crate::memory::store::EPISODE_FTS_INSERT_SQL@,
    ensures
        r is Ok ==> sqlite_history(*final(conn)) == sqlite_history(*old(conn)).push((sql@, text_args(args@))),
{
    conn.execute(sql, rusqlite::params_from_iter(args.iter()))
}

/// Calls `rusqlite::Connection::prepare` and `Statement::query_map`: runs the
/// full-text query `sql` with `args` bound as text parameters followed by `limit` as an
/// integer parameter, and collects the first two columns of every row as text,
/// in the order the query returns them.
#[verifier::external_body]
pub(crate) fn sqlite_query_text_pairs(
    conn: &rusqlite::Connection,
    sql: &str,
    args: &Vec<String>,
    limit: i64,
) -> (r: Result<Vec<(String, String)>, rusqlite::Error>)
    requires
        sql@ == crate::memory::store::FTS_QUERY_SQL@,
    ensures
        r is Ok ==> row_texts(r->Ok_0@) == sqlite_rows(sqlite_history(*conn), sql@, text_args(args@), limit),
{
    let mut values: Vec<rusqlite::types::Value> =
        args.iter().map(|a| rusqlite::types::Value::Text(a.clone())).collect();
    values.push(rusqlite::types::Value::Integer(limit));
    let mut stmt = conn.prepare(sql)?;
    let rows = stmt.query_map(rusqlite::params_from_iter(values), |row| Ok((row.get(0)?, row.get(1)?)))?;
    rows.collect()
}

/// Calls the `Display` impl of `rusqlite::Error`; the text is not stated.
#[verifier::external_body]
pub(crate) fn sqlite_error_text(e: &rusqlite::Error) -> (r: String) {
    format!("{}", e)
}

} // verus!
