//! The on-disk index store: one SQLite database holding a `files` table
//! keyed by path, an external-content FTS shadow kept coherent by triggers,
//! and the connection tuning around them. Every call into SQLite stands
//! here, behind a contract over the abstract row map `db_rows`.
use vstd::prelude::*;

verus! {

/// A handle to the index database: one open SQLite connection.
#[verifier::external_body]
pub struct Db {
    conn: rusqlite::Connection,
}

/// The searchable part of one indexed row: name, is_dir, hidden.
pub type DbRow = (Seq<char>, bool, bool);

/// What the `files` table of the database behind `d` holds, keyed by the
/// UNIQUE `path` column.
///
/// The map reads the table as this one handle's view of it. That is sound
/// while a single `Db` leads to each database file, as this crate uses it;
/// a second handle on the same file, or an outside writer, is not modeled.
pub uninterp spec fn db_rows(d: Db) -> Map<Seq<char>, DbRow>;

/// An index with nothing in it.
pub open spec fn no_rows() -> Map<Seq<char>, DbRow> {
    Map::empty()
}

/// One character sequence occurs inside another.
pub open spec fn seq_contains_sub(hay: Seq<char>, needle: Seq<char>) -> bool {
    exists|k: int|
        0 <= k && k + needle.len() <= hay.len() && #[trigger] hay.subrange(k, k + needle.len())
            == needle
}

/// What the trigram tokenizer's case folding turns a text into: a function
/// of the characters alone.
pub uninterp spec fn sqlite_fold(s: Seq<char>) -> Seq<char>;

/// Containment up to the trigram tokenizer's case folding.
pub open spec fn fold_contains(hay: Seq<char>, needle: Seq<char>) -> bool {
    seq_contains_sub(sqlite_fold(hay), sqlite_fold(needle))
}

/// Where SQLite's `bm25()` ranks a row of the table for a match
/// expression: a function of the table contents, the expression, and the
/// row's path (lower ranks first).
pub uninterp spec fn bm25_rank(rows: Map<Seq<char>, DbRow>, expr: Seq<char>, path: Seq<char>) -> int;

/// The text between the quotes of a quoted phrase-prefix expression.
pub open spec fn phrase_of(expr: Seq<char>) -> Seq<char> {
    expr.subrange(1, expr.len() - 2)
}

/// A well-formed quoted phrase-prefix expression: `"<phrase>"*` with no
/// quote inside the phrase.
pub open spec fn is_quoted_prefix(expr: Seq<char>) -> bool {
    &&& expr.len() >= 3
    &&& expr.first() == '"'
    &&& expr[expr.len() - 2] == '"'
    &&& expr.last() == '*'
    &&& forall|j: int| 1 <= j < expr.len() - 2 ==> expr[j] != '"'
}

/// ASCII lowercasing of one character, the folding SQLite's LIKE applies.
pub open spec fn ascii_lower_char(c: char) -> char {
    if 'A' <= c && c <= 'Z' {
        ((c as u8) + 32) as char
    } else {
        c
    }
}

/// ASCII lowercasing of a text.
pub open spec fn ascii_fold(s: Seq<char>) -> Seq<char> {
    s.map_values(|c: char| ascii_lower_char(c))
}

/// Containment up to ASCII case, which is how LIKE compares.
pub open spec fn like_contains(hay: Seq<char>, needle: Seq<char>) -> bool {
    seq_contains_sub(ascii_fold(hay), ascii_fold(needle))
}

/// A LIKE pattern of the shape `%<core>%` whose core holds no wildcard.
pub open spec fn is_simple_like_pattern(p: Seq<char>) -> bool {
    &&& p.len() >= 2
    &&& p.first() == '%'
    &&& p.last() == '%'
    &&& forall|j: int| 1 <= j < p.len() - 1 ==> p[j] != '%' && p[j] != '_'
}

/// The text between the wildcards of a simple LIKE pattern.
pub open spec fn like_core(p: Seq<char>) -> Seq<char> {
    p.subrange(1, p.len() - 1)
}

/// Relies on `rusqlite::Connection::open`: opens the database file at
/// `path`, creating it when absent. What rows are already on disk is
/// unknown, so nothing is assumed of the contents.
#[verifier::external_body]
pub fn db_open(path: &str) -> (r: Result<Db, ()>) {
    match rusqlite::Connection::open(path) {
        Ok(conn) => Ok(Db { conn }),
        Err(_) => Err(()),
    }
}

/// Relies on `rusqlite::Connection::execute_batch` running only PRAGMA
/// statements, which tune the connection and touch no table row.
#[verifier::external_body]
pub fn db_tune(d: &mut Db) -> (r: Result<(), ()>)
    ensures
        db_rows(*final(d)) == db_rows(*old(d)),
{
    d.conn.execute_batch(
        "PRAGMA journal_mode = WAL; PRAGMA synchronous = NORMAL; PRAGMA cache_size = -64000; PRAGMA temp_store = MEMORY; PRAGMA mmap_size = 268435456;",
    ).map_err(|_| ())
}

/// Relies on `rusqlite::Connection::execute_batch`: CREATE TABLE / VIRTUAL
/// TABLE / TRIGGER / INDEX, all IF NOT EXISTS, create the schema where it is
/// missing and leave every existing row of `files` as it was.
#[verifier::external_body]
pub fn db_init_schema(d: &mut Db) -> (r: Result<(), ()>)
    ensures
        db_rows(*final(d)) == db_rows(*old(d)),
{
    d.conn.execute_batch(
        "CREATE TABLE IF NOT EXISTS files (id INTEGER PRIMARY KEY, path TEXT UNIQUE NOT NULL, name TEXT NOT NULL, is_dir INTEGER NOT NULL, hidden INTEGER NOT NULL DEFAULT 0, parent_path TEXT, extension TEXT, size INTEGER, modified INTEGER);
         CREATE VIRTUAL TABLE IF NOT EXISTS files_fts USING fts5(name, path, content='files', content_rowid='id', tokenize='trigram');
         CREATE TRIGGER IF NOT EXISTS files_ai AFTER INSERT ON files BEGIN INSERT INTO files_fts(rowid, name, path) VALUES (new.id, new.name, new.path); END;
         CREATE TRIGGER IF NOT EXISTS files_ad AFTER DELETE ON files BEGIN INSERT INTO files_fts(files_fts, rowid, name, path) VALUES('delete', old.id, old.name, old.path); END;
         CREATE TRIGGER IF NOT EXISTS files_au AFTER UPDATE ON files BEGIN INSERT INTO files_fts(files_fts, rowid, name, path) VALUES('delete', old.id, old.name, old.path); INSERT INTO files_fts(rowid, name, path) VALUES (new.id, new.name, new.path); END;
         CREATE INDEX IF NOT EXISTS idx_files_parent ON files(parent_path);
         CREATE INDEX IF NOT EXISTS idx_files_is_dir ON files(is_dir);
         CREATE INDEX IF NOT EXISTS idx_files_extension ON files(extension);",
    ).map_err(|_| ())
}

/// Relies on `rusqlite::Connection::execute_batch`: ALTER TABLE ADD COLUMN
/// either adds the column with its default to an older database or fails
/// (duplicate column); in neither case does it add or drop a row.
#[verifier::external_body]
pub fn db_add_hidden_column(d: &mut Db)
    ensures
        db_rows(*final(d)).dom() == db_rows(*old(d)).dom(),
{
    let _ = d.conn.execute_batch("ALTER TABLE files ADD COLUMN hidden INTEGER NOT NULL DEFAULT 0;");
}

/// Relies on `rusqlite::Connection::execute_batch` running only PRAGMA
/// statements (the bulk-writer downgrade), which touch no table row.
#[verifier::external_body]
pub fn db_bulk_tune(d: &mut Db)
    ensures
        db_rows(*final(d)) == db_rows(*old(d)),
{
    let _ = d.conn.execute_batch(
        "PRAGMA synchronous = OFF; PRAGMA journal_mode = MEMORY; PRAGMA temp_store = MEMORY;",
    );
}

/// Relies on `rusqlite::Connection::execute_batch` running only PRAGMA
/// statements (the steady-state restore), which touch no table row.
#[verifier::external_body]
pub fn db_restore_tune(d: &mut Db)
    ensures
        db_rows(*final(d)) == db_rows(*old(d)),
{
    let _ = d.conn.execute_batch("PRAGMA synchronous = NORMAL; PRAGMA journal_mode = WAL;");
}

/// Relies on `rusqlite::Connection::execute_batch`: opening a transaction
/// changes no row, whether or not it succeeds.
#[verifier::external_body]
pub fn db_begin(d: &mut Db)
    ensures
        db_rows(*final(d)) == db_rows(*old(d)),
{
    let _ = d.conn.execute_batch("BEGIN TRANSACTION;");
}

/// Relies on `rusqlite::Connection::execute_batch`: a successful COMMIT (and
/// fresh BEGIN) makes the written rows durable and leaves what this
/// connection sees unchanged. A failed commit may roll the transaction back,
/// so nothing is claimed then.
#[verifier::external_body]
pub fn db_commit_begin(d: &mut Db) -> (r: Result<(), ()>)
    ensures
        r is Ok ==> db_rows(*final(d)) == db_rows(*old(d)),
{
    d.conn.execute_batch("COMMIT; BEGIN TRANSACTION;").map_err(|_| ())
}

/// Relies on `rusqlite::Connection::execute_batch`: a successful COMMIT
/// leaves what this connection sees unchanged; a failed one may roll back.
#[verifier::external_body]
pub fn db_commit(d: &mut Db) -> (r: Result<(), ()>)
    ensures
        r is Ok ==> db_rows(*final(d)) == db_rows(*old(d)),
{
    d.conn.execute_batch("COMMIT;").map_err(|_| ())
}

/// Relies on `rusqlite::Connection::execute`: INSERT OR REPLACE into a table
/// whose `path` column is UNIQUE replaces any row of the same path, so
/// afterwards the table maps this path to exactly this row. A failed
/// statement changes nothing (SQLite statements are atomic).
#[verifier::external_body]
pub fn db_upsert(
    d: &mut Db,
    path: &str,
    name: &str,
    is_dir: bool,
    hidden: bool,
    parent: &Option<String>,
    extension: &Option<String>,
    size: u64,
    modified: i64,
) -> (r: Result<(), ()>)
    ensures
        r is Ok ==> db_rows(*final(d)) == db_rows(*old(d)).insert(path@, (name@, is_dir, hidden)),
        r is Err ==> db_rows(*final(d)) == db_rows(*old(d)),
{
    let res = d.conn.execute(
        "INSERT OR REPLACE INTO files (path, name, is_dir, hidden, parent_path, extension, size, modified) VALUES (?1, ?2, ?3, ?4, ?5, ?6, ?7, ?8)",
        (path, name, is_dir as i32, hidden as i32, parent, extension, size as i64, modified),
    );
    match res {
        Ok(_) => Ok(()),
        Err(_) => Err(()),
    }
}

/// Relies on `Connection::prepare` and `Statement::query_map` over
/// `SELECT ... FROM files_fts JOIN files ON rowid = id WHERE files_fts MATCH
/// ?1 ORDER BY bm25(files_fts) LIMIT ?2`: at most `limit` rows come back,
/// each the (name, path, is_dir, hidden) of a row of `files`, in ascending
/// `bm25()` order. The FTS table uses the trigram tokenizer, which matches
/// a quoted phrase of three or more characters exactly where the row's
/// indexed text contains the phrase as a case-folded substring, so for a
/// well-formed phrase-prefix expression every returned row's name or path
/// contains the phrase up to that folding.
#[verifier::external_body]
pub fn db_query_fts(d: &Db, match_expr: &str, limit: usize) -> (r: Result<
    Vec<(String, String, i32, i32)>,
    (),
>)
    ensures
        r matches Ok(rows) ==> rows@.len() <= limit && forall|i: int|
            0 <= i < rows@.len() ==> db_rows(*d).contains_key((#[trigger] rows@[i]).1@) && db_rows(
                *d,
            )[rows@[i].1@].0 == rows@[i].0@ && db_rows(*d)[rows@[i].1@].1 == (rows@[i].2 != 0)
                && db_rows(*d)[rows@[i].1@].2 == (rows@[i].3 != 0),
        r matches Ok(rows) ==> is_quoted_prefix(match_expr@) && phrase_of(match_expr@).len() >= 3
            ==> forall|i: int|
            0 <= i < rows@.len() ==> seq_contains_sub(
                sqlite_fold((#[trigger] rows@[i]).0@),
                sqlite_fold(phrase_of(match_expr@)),
            ) || seq_contains_sub(sqlite_fold(rows@[i].1@), sqlite_fold(phrase_of(match_expr@))),
        r matches Ok(rows) ==> forall|i: int, j: int|
            0 <= i < j < rows@.len() ==> bm25_rank(db_rows(*d), match_expr@, (#[trigger] rows@[i]).1@)
                <= bm25_rank(db_rows(*d), match_expr@, (#[trigger] rows@[j]).1@),
{
    let mut stmt = d.conn.prepare(
        "SELECT f.name, f.path, f.is_dir, f.hidden FROM files_fts fts JOIN files f ON fts.rowid = f.id WHERE files_fts MATCH ?1 ORDER BY bm25(files_fts) LIMIT ?2",
    ).map_err(|_| ())?;
    let rows = stmt.query_map((match_expr, limit as i64), |row| {
        Ok((row.get(0)?, row.get(1)?, row.get(2)?, row.get(3)?))
    }).map_err(|_| ())?;
    Ok(rows.filter_map(|x| x.ok()).collect())
}

/// Relies on `Connection::prepare` and `Statement::query_map` over
/// `SELECT ... FROM files WHERE name LIKE ?1 OR path LIKE ?1 LIMIT 5000`:
/// at most 5000 rows come back, each the (name, path, is_dir, hidden) of a
/// row of `files`. LIKE compares case-insensitively for ASCII only, so for
/// a `%core%` pattern whose core holds no wildcard, every returned row's
/// name or path contains the core up to ASCII case.
#[verifier::external_body]
pub fn db_query_like(d: &Db, pattern: &str) -> (r: Result<Vec<(String, String, i32, i32)>, ()>)
    ensures
        r matches Ok(rows) ==> rows@.len() <= 5000 && forall|i: int|
            0 <= i < rows@.len() ==> db_rows(*d).contains_key((#[trigger] rows@[i]).1@) && db_rows(
                *d,
            )[rows@[i].1@].0 == rows@[i].0@ && db_rows(*d)[rows@[i].1@].1 == (rows@[i].2 != 0)
                && db_rows(*d)[rows@[i].1@].2 == (rows@[i].3 != 0),
        r matches Ok(rows) ==> is_simple_like_pattern(pattern@) ==> forall|i: int|
            0 <= i < rows@.len() ==> like_contains((#[trigger] rows@[i]).0@, like_core(pattern@))
                || like_contains(rows@[i].1@, like_core(pattern@)),
{
    let mut stmt = d.conn.prepare(
        "SELECT name, path, is_dir, hidden FROM files WHERE name LIKE ?1 OR path LIKE ?1 LIMIT 5000",
    ).map_err(|_| ())?;
    let rows = stmt.query_map((pattern,), |row| {
        Ok((row.get(0)?, row.get(1)?, row.get(2)?, row.get(3)?))
    }).map_err(|_| ())?;
    Ok(rows.filter_map(|x| x.ok()).collect())
}

/// Relies on `rusqlite::Connection::query_row`: `SELECT COUNT(*) FROM files`
/// counts the rows, which the UNIQUE `path` column keys one-to-one.
#[verifier::external_body]
pub fn db_count(d: &Db) -> (r: Result<usize, ()>)
    ensures
        r matches Ok(c) ==> c as nat == db_rows(*d).dom().len(),
{
    let n: i64 = d.conn.query_row("SELECT COUNT(*) FROM files", [], |row| row.get(0)).map_err(
        |_| (),
    )?;
    usize::try_from(n).map_err(|_| ())
}

/// Relies on `rusqlite::Connection::execute_batch`: DELETE without a WHERE
/// clause empties both tables; VACUUM compacts the file and touches no row.
/// The statements run in order and each DELETE is atomic, so a failure
/// leaves `files` either untouched (the first statement failed) or already
/// emptied (a later one did).
#[verifier::external_body]
pub fn db_clear(d: &mut Db) -> (r: Result<(), ()>)
    ensures
        r is Ok ==> db_rows(*final(d)) == no_rows(),
        r is Err ==> db_rows(*final(d)) == db_rows(*old(d)) || db_rows(*final(d)) == no_rows(),
{
    d.conn.execute_batch("DELETE FROM files; DELETE FROM files_fts; VACUUM;").map_err(|_| ())
}

} // verus!
