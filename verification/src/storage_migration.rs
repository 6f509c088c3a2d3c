//! Detection of the on-disk format of a collection file and the in-process
//! migration of a stock-SQLite collection to Doltlite's prolly engine.
//!
//! The file operations (reading the header, copying and renaming files,
//! opening connections) are done by the caller; this module decides and
//! runs the SQL.

use vstd::prelude::*;
use crate::sql::{
    binds_text, column_names_or_unknown, result_column_names, entry, extends, integer_at, lemma_slice_within, param_entry, raw_entry, Record, last_rows, optional_text_at, pragma_entry_sql, sent,
    text_at, Db, DbError, SqlArg, SqlCell,
};
use crate::sql_text::{pk_columns_from_table_info, placeholder_list, placeholders, quote_plain, quoted_plain, sort_by_key_position, sort_by_position, table_info_keys, key_views};
use crate::text::{concat, join_seq, join_str, views};

verus! {

/// The storage format of a collection file.
#[derive(Debug, Clone, Copy, PartialEq, Eq, Structural)]
pub enum Format {
    /// The file does not exist or is empty: a fresh prolly database will be
    /// created.
    Empty,
    /// A Doltlite prolly file (`CTLD` magic at offset 0).
    Prolly,
    /// A stock SQLite B-tree file, to be migrated before regular use.
    Sqlite,
}

/// The file starts with neither magic.
#[derive(Debug, Clone, Copy, PartialEq, Eq, Structural)]
pub struct UnknownFormat;

/// `CTLD`
pub open spec fn prolly_magic() -> Seq<u8> {
    seq![67u8, 84u8, 76u8, 68u8]
}

/// `SQLite format 3\0`
pub open spec fn sqlite_magic() -> Seq<u8> {
    seq![83u8, 81u8, 76u8, 105u8, 116u8, 101u8, 32u8, 102u8, 111u8, 114u8, 109u8, 97u8, 116u8, 32u8, 51u8, 0u8]
}

/// `bytes` begins with `prefix`.
pub open spec fn starts_with(bytes: Seq<u8>, prefix: Seq<u8>) -> bool {
    prefix.len() <= bytes.len() && bytes.subrange(0, prefix.len() as int) == prefix
}

/// The format of a file with these contents.
pub open spec fn format_of(bytes: Seq<u8>) -> Result<Format, UnknownFormat> {
    if bytes.len() == 0 {
        Ok(Format::Empty)
    } else if starts_with(bytes, prolly_magic()) {
        Ok(Format::Prolly)
    } else if starts_with(bytes, sqlite_magic()) {
        Ok(Format::Sqlite)
    } else {
        Err(UnknownFormat)
    }
}

fn has_prefix(bytes: &[u8], prefix: &[u8]) -> (r: bool)
    ensures
        r == starts_with(bytes@, prefix@),
{
    if prefix.len() > bytes.len() {
        return false;
    }
    let mut i: usize = 0;
    while i < prefix.len()
        invariant
            i <= prefix.len() <= bytes.len(),
            forall|k: int| 0 <= k < i ==> bytes@[k] == prefix@[k],
        decreases prefix.len() - i,
    {
        if bytes[i] != prefix[i] {
            assert(bytes@.subrange(0, prefix@.len() as int)[i as int] != prefix@[i as int]);
            return false;
        }
        i += 1;
    }
    assert(bytes@.subrange(0, prefix@.len() as int) =~= prefix@);
    true
}

/// Classifies the contents of a collection file by its leading bytes.
pub fn classify_header(bytes: &[u8]) -> (r: Result<Format, UnknownFormat>)
    ensures
        r == format_of(bytes@),
{
    let prolly: [u8; 4] = [67u8, 84u8, 76u8, 68u8];
    let sqlite: [u8; 16] = [83u8, 81u8, 76u8, 105u8, 116u8, 101u8, 32u8, 102u8, 111u8, 114u8, 109u8, 97u8, 116u8, 32u8, 51u8, 0u8];
    assert(prolly@ =~= prolly_magic());
    assert(sqlite@ =~= sqlite_magic());
    if bytes.len() == 0 {
        Ok(Format::Empty)
    } else if has_prefix(bytes, &prolly) {
        Ok(Format::Prolly)
    } else if has_prefix(bytes, &sqlite) {
        Ok(Format::Sqlite)
    } else {
        Err(UnknownFormat)
    }
}

/// The path of a side file: the path with `suffix` appended.
pub fn with_suffix(path: &str, suffix: &str) -> (r: String)
    ensures
        r@ == path@ + suffix@,
{
    concat(path, suffix)
}

// ---------------------------------------------------------------------
// Sanitising DDL with regular expressions
// ---------------------------------------------------------------------

/// Name for what `regex::Regex::new(pattern)` followed by `replace_all`
/// gives: `text` with every leftmost-first match of `pattern` replaced by
/// `replacement`, or `text` unchanged when the pattern does not compile.
pub uninterp spec fn regex_replace_all(pattern: Seq<char>, text: Seq<char>, replacement: Seq<char>) -> Seq<char>;

/// Compiles `pattern` (`regex::Regex::new`) and replaces all its matches
/// in `text` (`Regex::replace_all`). Its result is named by
/// `regex_replace_all`.
#[verifier::external_body]
fn replace_all_matches(pattern: &str, text: &str, replacement: &str) -> (r: String)
    ensures
        r@ == regex_replace_all(pattern@, text@, replacement@),
{
    match regex::Regex::new(pattern) {
        Ok(re) => re.replace_all(text, replacement).into_owned(),
        Err(_) => text.to_owned(),
    }
}

/// `(?i)\s+COLLATE\s+unicase`
pub open spec fn collate_pattern() -> Seq<char> {
    seq!['(', '?', 'i', ')', '\\', 's', '+', 'C', 'O', 'L', 'L', 'A', 'T', 'E', '\\', 's', '+', 'u', 'n', 'i', 'c', 'a', 's', 'e']
}

/// `--[^\n]*\n?`
pub open spec fn line_comment_pattern() -> Seq<char> {
    seq!['-', '-', '[', '^', '\\', 'n', ']', '*', '\\', 'n', '?']
}

/// What `sanitize_ddl` returns: ` COLLATE unicase` annotations (with the
/// whitespace before them) removed, then each `-- ...` line comment and
/// its newline replaced by a newline.
pub open spec fn spec_sanitize_ddl(sql: Seq<char>) -> Seq<char> {
    regex_replace_all(
        line_comment_pattern(),
        regex_replace_all(collate_pattern(), sql, Seq::<char>::empty()),
        seq!['\n'],
    )
}

/// Strips `COLLATE unicase` annotations (case-insensitive) and rewrites
/// `-- ...` line comments to plain newlines.
pub fn sanitize_ddl(sql: &str) -> (r: String)
    ensures
        r@ == spec_sanitize_ddl(sql@),
{
    proof {
        reveal_strlit("(?i)\\s+COLLATE\\s+unicase");
        reveal_strlit("--[^\\n]*\\n?");
        reveal_strlit("");
        reveal_strlit("\n");
        assert("(?i)\\s+COLLATE\\s+unicase"@ =~= collate_pattern());
        assert("--[^\\n]*\\n?"@ =~= line_comment_pattern());
        assert("\n"@ =~= seq!['\n']);
        assert(""@ =~= Seq::<char>::empty());
    }
    let s = replace_all_matches("(?i)\\s+COLLATE\\s+unicase", sql, "");
    replace_all_matches("--[^\\n]*\\n?", s.as_str(), "\n")
}

/// Sets `PRAGMA writable_schema` to `ON` or `OFF`.
fn set_writable_schema(db: &mut Db, value: &str) -> (r: Result<(), DbError>)
    ensures
        final(db).conn == old(db).conn,
        final(db).log@.len() == old(db).log@.len() + 1,
        final(db).log@.drop_last() == old(db).log@,
        sets_writable_schema(final(db).log@.last(), value@),
        r matches Err(e) ==> e is Sqlite,
{
    let arg = SqlArg::Text(value.to_owned());
    let r = db.set_pragma("writable_schema", &arg);
    assert(db.log@.drop_last() =~= old(db).log@);
    r
}

/// `e` records `PRAGMA writable_schema` set to `value`.
pub open spec fn sets_writable_schema(e: Record, value: Seq<char>) -> bool {
    &&& e.0 == pragma_entry_sql("writable_schema"@)
    &&& e.1.len() == 1
    &&& binds_text(e.1[0], value)
}

/// A `sqlite_master` row `(rowid, sql)`: an integer and a text or `NULL`.
pub open spec fn master_entry(row: Vec<SqlCell>) -> Option<(i64, Option<Seq<char>>)> {
    if row@.len() >= 2 {
        match (row@[0], row@[1]) {
            (SqlCell::Integer(id), SqlCell::Text(t)) => Some((id, Some(t@))),
            (SqlCell::Integer(id), SqlCell::Null) => Some((id, None)),
            _ => None,
        }
    } else {
        None
    }
}

/// The `(rowid, sanitised sql)` of every `sqlite_master` row whose SQL
/// sanitising changes, in row order; `None` when a row is not
/// `(integer, text or NULL)`.
pub open spec fn master_rewrites(rows: Seq<Vec<SqlCell>>) -> Option<Seq<(i64, Seq<char>)>>
    decreases rows.len(),
{
    if rows.len() == 0 {
        Some(seq![])
    } else {
        match (master_rewrites(rows.drop_last()), master_entry(rows.last())) {
            (Some(p), Some((id, Some(t)))) => if spec_sanitize_ddl(t) != t {
                Some(p.push((id, spec_sanitize_ddl(t))))
            } else {
                Some(p)
            },
            (Some(p), Some((_, None))) => Some(p),
            _ => None,
        }
    }
}

/// Rowid-and-text pairs as character sequences.
pub open spec fn id_views(v: Seq<(i64, String)>) -> Seq<(i64, Seq<char>)> {
    v.map_values(|p: (i64, String)| (p.0, p.1@))
}

proof fn lemma_master_rewrites_none_extends(rows: Seq<Vec<SqlCell>>, n: nat)
    requires
        n <= rows.len(),
        master_rewrites(rows.take(n as int)) is None,
    ensures
        master_rewrites(rows) is None,
    decreases rows.len() - n,
{
    if n < rows.len() {
        assert(rows.take((n + 1) as int).drop_last() =~= rows.take(n as int));
        lemma_master_rewrites_none_extends(rows, n + 1);
    } else {
        assert(rows.take(n as int) =~= rows);
    }
}

/// The rewrites that `SELECT rowid, sql FROM sqlite_master` rows call for
/// (`master_rewrites`).
pub fn master_rewrites_from(rows: &Vec<Vec<SqlCell>>) -> (r: Result<Vec<(i64, String)>, DbError>)
    ensures
        match r {
            Ok(v) => master_rewrites(rows@) == Some(id_views(v@)),
            Err(e) => master_rewrites(rows@) is None && e is InvalidColumnType,
        },
{
    let mut out: Vec<(i64, String)> = Vec::new();
    let mut i: usize = 0;
    while i < rows.len()
        invariant
            i <= rows.len(),
            master_rewrites(rows@.take(i as int)) == Some(id_views(out@)),
        decreases rows.len() - i,
    {
        proof {
            assert(rows@.take(i + 1).drop_last() =~= rows@.take(i as int));
            assert(rows@.take(i + 1).last() == rows@[i as int]);
        }
        let rowid = integer_at(&rows[i], 0);
        let sql = optional_text_at(&rows[i], 1);
        match (rowid, sql) {
            (Ok(rowid), Ok(Some(sql))) => {
                let sanitized = sanitize_ddl(sql.as_str());
                if !(sanitized == sql) {
                    let ghost before = id_views(out@);
                    let ghost sv = sanitized@;
                    out.push((rowid, sanitized));
                    assert(id_views(out@) =~= before.push((rowid, sv)));
                }
            },
            (Ok(_), Ok(None)) => {},
            _ => {
                proof {
                    assert(master_entry(rows@[i as int]) is None);
                    lemma_master_rewrites_none_extends(rows@, (i + 1) as nat);
                }
                return Err(DbError::InvalidColumnType);
            },
        }
        i += 1;
    }
    assert(rows@.take(rows.len() as int) =~= rows@);
    Ok(out)
}

/// The statement that stores one rewrite of `sqlite_master`.
pub open spec fn master_update_sql() -> Seq<char> {
    "UPDATE sqlite_master SET sql = ?1 WHERE rowid = ?2"@
}

/// The query of every `sqlite_master` row.
pub open spec fn master_query() -> Seq<char> {
    "SELECT rowid, sql FROM sqlite_master"@
}

/// `e` records the `UPDATE` that stores rewrite `w = (rowid, sql)`.
pub open spec fn stores_master_rewrite(e: Record, w: (i64, Seq<char>)) -> bool {
    &&& e.0 == master_update_sql()
    &&& e.1.len() == 2
    &&& binds_text(e.1[0], w.1)
    &&& e.1[1] == SqlArg::Integer(w.0)
}

/// Rewrites every `sqlite_master.sql` that sanitising changes, with
/// `writable_schema` switched on for the duration.
///
/// On success the record holds, in order: `writable_schema` set to `ON`,
/// the query of every `sqlite_master` row with its answer, one `UPDATE` per
/// rewrite that answer calls for (`master_rewrites`), and
/// `writable_schema` set to `OFF`.
pub fn sanitize_sqlite_master(db: &mut Db) -> (r: Result<(), DbError>)
    ensures
        extends(*old(db), *final(db)),
        r matches Err(e) ==> e is Sqlite || e is InvalidColumnType,
        r is Ok ==> {
            let n = old(db).log@.len() as int;
            let l = final(db).log@;
            let rows = l[n + 1].2;
            &&& master_rewrites(rows) is Some
            &&& l.len() == n + 3 + master_rewrites(rows)->0.len()
            &&& sets_writable_schema(l[n], "ON"@)
            &&& l[n + 1].0 == master_query()
            &&& l[n + 1].1 == Seq::<SqlArg>::empty()
            &&& forall|j: int|
                0 <= j < master_rewrites(rows)->0.len() ==> stores_master_rewrite(
                    #[trigger] l[n + 2 + j],
                    master_rewrites(rows)->0[j],
                )
            &&& sets_writable_schema(l.last(), "OFF"@)
        },
{
    let ghost l0 = db.log@;
    let ghost n = l0.len() as int;
    proof {
        reveal_strlit("ON");
        reveal_strlit("OFF");
    }
    let on = set_writable_schema(db, "ON");
    assert(db.log@.subrange(0, n) =~= l0);
    on?;
    let args: Vec<SqlArg> = Vec::new();
    assert(args@ =~= seq![]);
    let rows = db.query("SELECT rowid, sql FROM sqlite_master", &args);
    let ghost l1 = db.log@;
    assert(l1.subrange(0, n) =~= l0);
    assert(l1[n] == l1.drop_last()[n]);
    let rows = rows?;
    let rewrites = master_rewrites_from(&rows)?;
    assert(l1[n + 1] == l1.last());
    let mut i: usize = 0;
    while i < rewrites.len()
        invariant
            i <= rewrites.len(),
            id_views(rewrites@) == master_rewrites(l1[n + 1].2)->0,
            master_rewrites(l1[n + 1].2) is Some,
            db.conn == old(db).conn,
            db.log@.len() == n + 2 + i,
            db.log@.subrange(0, n + 2) == l1,
            l1.len() == n + 2,
            l1.subrange(0, n) == l0,
            n == l0.len(),
            l0 == old(db).log@,
            forall|q: int|
                0 <= q < i ==> stores_master_rewrite(
                    #[trigger] db.log@[n + 2 + q],
                    master_rewrites(l1[n + 1].2)->0[q],
                ),
        decreases rewrites.len() - i,
    {
        let mut params: Vec<SqlArg> = Vec::new();
        params.push(SqlArg::Text(rewrites[i].1.clone()));
        params.push(SqlArg::Integer(rewrites[i].0));
        let ghost before = db.log@;
        let done = db.run("UPDATE sqlite_master SET sql = ?1 WHERE rowid = ?2", &params);
        proof {
            assert(db.log@.drop_last() == before);
            assert(db.log@.subrange(0, n + 2) =~= l1) by {
                assert(before.subrange(0, n + 2) == l1);
            }
            assert forall|q: int| 0 <= q < i + 1 implies stores_master_rewrite(
                #[trigger] db.log@[n + 2 + q],
                master_rewrites(l1[n + 1].2)->0[q],
            ) by {
                if q < i {
                    assert(db.log@[n + 2 + q] == before[n + 2 + q]);
                } else {
                    assert(id_views(rewrites@)[q] == (rewrites@[q].0, rewrites@[q].1@));
                }
            }
        }
        if let Err(e) = done {
            proof {
                assert(db.log@.subrange(0, n) =~= l0) by {
                    assert(db.log@.subrange(0, n + 2).subrange(0, n) =~= db.log@.subrange(0, n));
                }
            }
            return Err(e);
        }
        i += 1;
    }
    let ghost l2 = db.log@;
    let off = set_writable_schema(db, "OFF");
    proof {
        let l = db.log@;
        assert(l.drop_last() == l2);
        assert(l.subrange(0, n) =~= l0) by {
            assert(l2.subrange(0, n + 2).subrange(0, n) =~= l2.subrange(0, n));
            assert(l.subrange(0, n) =~= l2.subrange(0, n));
        }
        assert(l[n] == l1[n]) by {
            assert(l2.subrange(0, n + 2)[n] == l2[n]);
        }
        assert(l[n + 1] == l1[n + 1]) by {
            assert(l2.subrange(0, n + 2)[n + 1] == l2[n + 1]);
        }
        assert forall|q: int|
            0 <= q < master_rewrites(l[n + 1].2)->0.len() implies stores_master_rewrite(
            #[trigger] l[n + 2 + q],
            master_rewrites(l[n + 1].2)->0[q],
        ) by {
            assert(l[n + 2 + q] == l2[n + 2 + q]);
        }
    }
    off?;
    Ok(())
}

// ---------------------------------------------------------------------
// Copying rows
// ---------------------------------------------------------------------

/// `PRAGMA table_info("<table>")`
pub open spec fn table_info_sql(table: Seq<char>) -> Seq<char> {
    seq!['P', 'R', 'A', 'G', 'M', 'A', ' ', 't', 'a', 'b', 'l', 'e', '_', 'i', 'n', 'f', 'o', '(']
        + quoted_plain(table) + seq![')']
}

/// The `PRAGMA table_info` statement for `table` (`table_info_sql`).
pub fn table_info_query(table: &str) -> (r: String)
    ensures
        r@ == table_info_sql(table@),
{
    proof {
        reveal_strlit("PRAGMA table_info(");
        reveal_strlit(")");
    }
    let quoted = quote_plain(table);
    let head = concat("PRAGMA table_info(", quoted.as_str());
    let r = concat(head.as_str(), ")");
    assert(r@ =~= table_info_sql(table@));
    r
}

/// `SELECT * FROM "<table>"` followed by an order clause.
pub open spec fn select_all_sql(table: Seq<char>, order: Seq<char>) -> Seq<char> {
    seq!['S', 'E', 'L', 'E', 'C', 'T', ' ', '*', ' ', 'F', 'R', 'O', 'M', ' '] + quoted_plain(table)
        + order
}

/// The statement that reads every row of `table` in the given order
/// (`select_all_sql`).
pub fn select_all_query(table: &str, order: &str) -> (r: String)
    ensures
        r@ == select_all_sql(table@, order@),
{
    proof {
        reveal_strlit("SELECT * FROM ");
    }
    let t = quote_plain(table);
    let head = concat("SELECT * FROM ", t.as_str());
    let r = concat(head.as_str(), order);
    assert(r@ =~= select_all_sql(table@, order@));
    r
}

/// The names of the columns in primary-key order.
pub open spec fn names_in_key_order(pk: Seq<(i64, String)>) -> Seq<Seq<char>> {
    sort_by_position(pk).map_values(|c: (i64, String)| c.1@)
}

/// The primary-key columns of `table`, in key order: sends
/// `table_info_sql` and reads its answer.
pub fn primary_key_columns(db: &mut Db, table: &str) -> (r: Result<Vec<String>, DbError>)
    ensures
        sent(*old(db), *final(db), table_info_sql(table@), seq![]),
        r matches Ok(names) ==> exists|pk: Seq<(i64, String)>|
            table_info_keys(last_rows(*final(db)), false) == Some(key_views(pk)) && views(names@)
                == names_in_key_order(pk),
        r matches Err(e) ==> e is Sqlite || e is InvalidColumnType,
{
    let sql = table_info_query(table);
    let args: Vec<SqlArg> = Vec::new();
    assert(args@ =~= seq![]);
    let rows = db.query(sql.as_str(), &args);
    assert(db.log@.drop_last() =~= old(db).log@);
    let rows = rows?;
    let pk = pk_columns_from_table_info(&rows, false)?;
    let names = key_order_names(&pk);
    assert(table_info_keys(last_rows(*db), false) == Some(key_views(pk@)) && views(names@)
        == names_in_key_order(pk@));
    Ok(names)
}

/// The names of `(position, name)` pairs sorted by position (stable).
pub fn key_order_names(pk: &Vec<(i64, String)>) -> (r: Vec<String>)
    ensures
        views(r@) == names_in_key_order(pk@),
{
    let sorted = sort_by_key_position(pk);
    let mut out: Vec<String> = Vec::new();
    let mut i: usize = 0;
    while i < sorted.len()
        invariant
            i <= sorted.len(),
            sorted@ == sort_by_position(pk@),
            views(out@) == sorted@.take(i as int).map_values(|c: (i64, String)| c.1@),
        decreases sorted.len() - i,
    {
        let ghost before = views(out@);
        out.push(sorted[i].1.clone());
        proof {
            let target = sorted@.take(i + 1).map_values(|c: (i64, String)| c.1@);
            assert(views(out@) =~= before.push(sorted@[i as int].1@));
            assert forall|x: int| 0 <= x < i + 1 implies #[trigger] views(out@)[x] == target[x] by {
                if x < i {
                    assert(sorted@.take(i as int)[x] == sorted@.take(i + 1)[x]);
                }
            }
            assert(views(out@) =~= target);
        }
        i += 1;
    }
    assert(sorted@.take(sorted.len() as int) =~= sorted@);
    out
}

/// ` ORDER BY "c1", "c2"` for primary-key columns, empty without any.
pub open spec fn order_by_columns(pk: Seq<Seq<char>>) -> Seq<char> {
    if pk.len() == 0 {
        Seq::<char>::empty()
    } else {
        seq![' ', 'O', 'R', 'D', 'E', 'R', ' ', 'B', 'Y', ' '] + join_seq(
            pk.map_values(|c: Seq<char>| quoted_plain(c)),
            seq![',', ' '],
        )
    }
}

/// The names, each put in double quotes.
pub fn quote_all_plain(names: &Vec<String>) -> (r: Vec<String>)
    ensures
        views(r@) == views(names@).map_values(|c: Seq<char>| quoted_plain(c)),
{
    let mut out: Vec<String> = Vec::new();
    let mut i: usize = 0;
    while i < names.len()
        invariant
            i <= names.len(),
            views(out@) == views(names@.take(i as int)).map_values(|c: Seq<char>| quoted_plain(c)),
        decreases names.len() - i,
    {
        let q = quote_plain(names[i].as_str());
        let ghost before = views(out@);
        let ghost qv = q@;
        out.push(q);
        proof {
            let target = views(names@.take(i + 1)).map_values(|c: Seq<char>| quoted_plain(c));
            let prev = views(names@.take(i as int)).map_values(|c: Seq<char>| quoted_plain(c));
            assert(views(out@) =~= before.push(qv));
            assert forall|x: int| 0 <= x < i + 1 implies #[trigger] views(out@)[x] == target[x] by {
                if x < i {
                    assert(before[x] == prev[x]);
                    assert(names@.take(i as int)[x] == names@.take(i + 1)[x]);
                }
            }
            assert(views(out@) =~= target);
        }
        i += 1;
    }
    assert(names@.take(names.len() as int) =~= names@);
    out
}

/// The `ORDER BY` clause for the primary-key columns (empty without any).
pub fn order_by_for_columns(pk: &Vec<String>) -> (r: String)
    ensures
        r@ == order_by_columns(views(pk@)),
{
    if pk.len() == 0 {
        return String::new();
    }
    let quoted = quote_all_plain(pk);
    proof {
        reveal_strlit(", ");
        reveal_strlit(" ORDER BY ");
        assert(", "@ =~= seq![',', ' ']);
    }
    let cols = join_str(&quoted, ", ");
    concat(" ORDER BY ", cols.as_str())
}

/// `INSERT INTO "<table>" ("c1", ...) VALUES (?1, ...)`, names in double
/// quotes as they are.
pub open spec fn insert_sql(table: Seq<char>, cols: Seq<Seq<char>>) -> Seq<char> {
    seq!['I', 'N', 'S', 'E', 'R', 'T', ' ', 'I', 'N', 'T', 'O', ' '] + quoted_plain(table) + seq![
        ' ',
        '(',
    ] + join_seq(cols.map_values(|c: Seq<char>| quoted_plain(c)), seq![',', ' ']) + seq![
        ')',
        ' ',
        'V',
        'A',
        'L',
        'U',
        'E',
        'S',
        ' ',
        '(',
    ] + join_seq(placeholder_list(cols.len()), seq![',', ' ']) + seq![')']
}

/// The statement that inserts one row with one numbered parameter per
/// column.
pub fn build_insert_sql(table: &str, cols: &Vec<String>) -> (r: String)
    requires
        cols.len() < usize::MAX,
    ensures
        r@ == insert_sql(table@, views(cols@)),
{
    let quoted = quote_all_plain(cols);
    proof {
        reveal_strlit("INSERT INTO ");
        reveal_strlit(" (");
        reveal_strlit(") VALUES (");
        reveal_strlit(")");
        reveal_strlit(", ");
        assert(", "@ =~= seq![',', ' ']);
    }
    let col_list = join_str(&quoted, ", ");
    let marks = placeholders(cols.len(), ", ");
    let t = quote_plain(table);
    let s1 = concat("INSERT INTO ", t.as_str());
    let s2 = concat(s1.as_str(), " (");
    let s3 = concat(s2.as_str(), col_list.as_str());
    let s4 = concat(s3.as_str(), ") VALUES (");
    let s5 = concat(s4.as_str(), marks.as_str());
    let s6 = concat(s5.as_str(), ")");
    assert(s6@ =~= insert_sql(table@, views(cols@)));
    s6
}

/// The names of result columns, `?` where a name cannot be read
/// (`result_column_names`).
fn names_or_unknown(cells: &Vec<SqlCell>) -> (r: Vec<String>)
    ensures
        views(r@) == result_column_names(*cells),
{
    column_names_or_unknown(cells)
}

/// The records `ls` (of the source) and `ld` (of the destination) copy
/// `table`: the source answered the `table_info` query and then the
/// `SELECT * FROM` the table ordered by the key columns that answer gives,
/// which reported its result columns; the destination ran one insert into
/// the table per row the select answered, naming exactly those result
/// columns in order, the `k`-th binding the `k`-th row's values.
pub open spec fn table_copied(ls: Seq<Record>, ld: Seq<Record>, table: Seq<char>) -> bool {
    &&& ls.len() == 2
    &&& ls[0].0 == table_info_sql(table)
    &&& exists|pk: Seq<(i64, String)>|
        table_info_keys(ls[0].2, false) == Some(key_views(pk)) && ls[1].0 == select_all_sql(
            table,
            order_by_columns(names_in_key_order(pk)),
        )
    &&& ls[1].3 == ls[1].4.len()
    &&& ls[1].2.len() == 1
    &&& ld.len() == ls[1].4.len()
    &&& forall|j: int|
        0 <= j < ld.len() ==> (#[trigger] ld[j]).0 == insert_sql(table, result_column_names(ls[1].2[0]))
    &&& forall|j: int| 0 <= j < ld.len() ==> (#[trigger] ld[j]).4 == seq![ls[1].4[j]]
}

/// A table copy writes every value to the column it was read from: each
/// insert names the select's result columns, all of them and in their
/// order, and binds the row the select answered at the same position.
pub proof fn law_copied_values_keep_their_columns(ls: Seq<Record>, ld: Seq<Record>, table: Seq<char>)
    requires
        table_copied(ls, ld, table),
    ensures
        ld.len() == ls[1].4.len(),
        forall|j: int|
            0 <= j < ld.len() ==> (#[trigger] ld[j]).0 == insert_sql(table, result_column_names(ls[1].2[0]))
                && ld[j].4 == seq![ls[1].4[j]],
        result_column_names(ls[1].2[0]).len() == ls[1].2[0]@.len(),
        forall|k: int|
            0 <= k < ls[1].2[0]@.len() ==> (ls[1].2[0]@[k] matches SqlCell::Text(n) ==> (
            #[trigger] result_column_names(ls[1].2[0])[k]) == n@),
{
}

/// Copies every row of `table` from `src` to `dest`, walking the source in
/// primary-key order.
///
/// On success the two records it adds to `src` and all it adds to `dest`
/// are the copy of `table` (`table_copied`).
pub fn copy_table(src: &mut Db, dest: &mut Db, table: &str) -> (r: Result<(), DbError>)
    ensures
        extends(*old(src), *final(src)),
        extends(*old(dest), *final(dest)),
        r matches Err(e) ==> e is Sqlite || e is InvalidColumnType,
        r is Ok ==> {
            let a = old(src).log@.len() as int;
            let ls = final(src).log@;
            let b = old(dest).log@.len() as int;
            let ld = final(dest).log@;
            &&& ls.len() == a + 2
            &&& table_copied(ls.subrange(a, a + 2), ld.subrange(b, ld.len() as int), table@)
        },
{
    let ghost s0 = src.log@;
    let ghost d0 = dest.log@;
    let ghost a = s0.len() as int;
    let ghost b = d0.len() as int;
    assert(dest.log@.subrange(0, b) =~= d0);
    let pk_cols = primary_key_columns(src, table);
    assert(src.log@.subrange(0, a) =~= s0);
    let pk_cols = pk_cols?;
    let ghost s1 = src.log@;
    assert(s1.len() == a + 1);
    assert(s1.subrange(0, a) == s0);
    let order_by = order_by_for_columns(&pk_cols);
    let select_sql = select_all_query(table, order_by.as_str());
    let read = src.query_raw_named(select_sql.as_str());
    proof {
        let l = src.log@;
        assert(l.drop_last() == s1);
        assert(l.subrange(0, a) =~= s0);
        assert(l[a] == s1[a]);
        assert(s1[a] == s1.last());
    }
    let (name_cells, rows) = read?;
    let names = names_or_unknown(&name_cells);
    if names.len() == usize::MAX {
        return Err(DbError::InvalidColumnType);
    }
    let insert = build_insert_sql(table, &names);
    assert(extends(*old(src), *src));
    let mut k: usize = 0;
    while k < rows.len()
        invariant
            k <= rows.len(),
            dest.conn == old(dest).conn,
            extends(*old(src), *src),
            b == d0.len(),
            d0 == old(dest).log@,
            dest.log@.len() == b + k,
            dest.log@.subrange(0, b) == d0,
            forall|j: int| 0 <= j < k ==> (#[trigger] dest.log@[b + j]).0 == insert@,
            forall|j: int| 0 <= j < k ==> (#[trigger] dest.log@[b + j]).4 == seq![rows@[j]],
        decreases rows.len() - k,
    {
        let ghost before = dest.log@;
        let done = dest.execute_raw(insert.as_str(), &rows[k]);
        proof {
            assert(dest.log@.drop_last() == before);
            assert(dest.log@.subrange(0, b) =~= d0) by {
                assert(before.subrange(0, b) == d0);
            }
            assert forall|j: int| 0 <= j < k + 1 implies (#[trigger] dest.log@[b + j]).0 == insert@
                && dest.log@[b + j].4 == seq![rows@[j]] by {
                if j < k {
                    assert(dest.log@[b + j] == before[b + j]);
                }
            }
        }
        match done {
            Ok(_) => {},
            Err(e) => {
                assert(extends(*old(dest), *dest));
                return Err(e);
            },
        }
        k += 1;
    }
    proof {
        let ls = src.log@;
        let ld = dest.log@;
        assert(ls[a + 1] == ls.last());
        assert(ls[a + 1].4 == rows@);
        assert(ls[a + 1].2 == seq![name_cells]);
        assert(insert@ == insert_sql(table@, result_column_names(name_cells)));
        let s2 = ls.subrange(a, a + 2);
        let d2 = ld.subrange(b, ld.len() as int);
        assert(s2[0] == ls[a]);
        assert(s2[1] == ls[a + 1]);
        assert forall|j: int| 0 <= j < d2.len() implies (#[trigger] d2[j]).0 == insert_sql(
            table@,
            result_column_names(s2[1].2[0]),
        ) by {
            assert(d2[j] == ld[b + j]);
        }
        assert forall|j: int| 0 <= j < d2.len() implies (#[trigger] d2[j]).4 == seq![s2[1].4[j]] by {
            assert(d2[j] == ld[b + j]);
        }
        assert(table_copied(s2, d2, table@));
    }
    Ok(())
}

/// A schema object row `(type, name, sql)`: two texts and a text or `NULL`.
pub open spec fn object_entry(row: Vec<SqlCell>) -> Option<(Seq<char>, Seq<char>, Option<Seq<char>>)> {
    if row@.len() >= 3 {
        match (row@[0], row@[1], row@[2]) {
            (SqlCell::Text(k), SqlCell::Text(n), SqlCell::Text(q)) => Some((k@, n@, Some(q@))),
            (SqlCell::Text(k), SqlCell::Text(n), SqlCell::Null) => Some((k@, n@, None)),
            _ => None,
        }
    } else {
        None
    }
}

/// `table`
pub open spec fn table_kind() -> Seq<char> {
    seq!['t', 'a', 'b', 'l', 'e']
}

/// What the schema object rows call for: the DDL statements to replay
/// (each present `sql`, in row order) and the tables whose rows are copied
/// (the names of the rows of type `table`, in row order).
pub open spec fn copy_plan(rows: Seq<Vec<SqlCell>>) -> Option<(Seq<Seq<char>>, Seq<Seq<char>>)>
    decreases rows.len(),
{
    if rows.len() == 0 {
        Some((seq![], seq![]))
    } else {
        match (copy_plan(rows.drop_last()), object_entry(rows.last())) {
            (Some((d, t)), Some((k, n, q))) => Some(
                (
                    match q {
                        Some(x) => d.push(x),
                        None => d,
                    },
                    if k == table_kind() {
                        t.push(n)
                    } else {
                        t
                    },
                ),
            ),
            _ => None,
        }
    }
}

proof fn lemma_copy_plan_none_extends(rows: Seq<Vec<SqlCell>>, n: nat)
    requires
        n <= rows.len(),
        copy_plan(rows.take(n as int)) is None,
    ensures
        copy_plan(rows) is None,
    decreases rows.len() - n,
{
    if n < rows.len() {
        assert(rows.take((n + 1) as int).drop_last() =~= rows.take(n as int));
        lemma_copy_plan_none_extends(rows, n + 1);
    } else {
        assert(rows.take(n as int) =~= rows);
    }
}

/// Reads the schema object rows into the DDL to replay and the tables to
/// copy (`copy_plan`).
pub fn copy_plan_from(rows: &Vec<Vec<SqlCell>>) -> (r: Result<(Vec<String>, Vec<String>), DbError>)
    ensures
        match r {
            Ok((d, t)) => copy_plan(rows@) == Some((views(d@), views(t@))),
            Err(e) => copy_plan(rows@) is None && e is InvalidColumnType,
        },
{
    let mut ddls: Vec<String> = Vec::new();
    let mut tables: Vec<String> = Vec::new();
    let mut i: usize = 0;
    while i < rows.len()
        invariant
            i <= rows.len(),
            copy_plan(rows@.take(i as int)) == Some((views(ddls@), views(tables@))),
        decreases rows.len() - i,
    {
        proof {
            assert(rows@.take(i + 1).drop_last() =~= rows@.take(i as int));
            assert(rows@.take(i + 1).last() == rows@[i as int]);
            reveal_strlit("table");
            assert("table"@ =~= table_kind());
        }
        let kind = text_at(&rows[i], 0);
        let name = text_at(&rows[i], 1);
        let sql = optional_text_at(&rows[i], 2);
        match (kind, name, sql) {
            (Ok(kind), Ok(name), Ok(sql)) => {
                let ghost d0 = views(ddls@);
                let ghost t0 = views(tables@);
                match sql {
                    Some(q) => {
                        let ghost qv = q@;
                        ddls.push(q);
                        assert(views(ddls@) =~= d0.push(qv));
                    },
                    None => {},
                }
                if crate::text::str_eq(kind.as_str(), "table") {
                    let ghost nv = name@;
                    tables.push(name);
                    assert(views(tables@) =~= t0.push(nv));
                }
            },
            _ => {
                proof {
                    assert(object_entry(rows@[i as int]) is None);
                    lemma_copy_plan_none_extends(rows@, (i + 1) as nat);
                }
                return Err(DbError::InvalidColumnType);
            },
        }
        i += 1;
    }
    assert(rows@.take(rows.len() as int) =~= rows@);
    Ok((ddls, tables))
}

/// How many of `rows` are schema objects that store SQL, whatever their
/// type.
pub open spec fn rows_with_sql(rows: Seq<Vec<SqlCell>>) -> nat
    decreases rows.len(),
{
    if rows.len() == 0 {
        0
    } else {
        rows_with_sql(rows.drop_last()) + if object_entry(rows.last()) matches Some((_, _, Some(_))) {
            1nat
        } else {
            0nat
        }
    }
}

/// Every schema object that stores SQL is replayed, tables and indexes
/// alike: the plan holds one DDL statement per such row, the SQL of each
/// such row among them, and one table per row of type `table`.
pub proof fn law_every_stored_ddl_is_replayed(rows: Seq<Vec<SqlCell>>)
    ensures
        copy_plan(rows) matches Some((d, t)) ==> {
            &&& d.len() == rows_with_sql(rows)
            &&& forall|j: int|
                0 <= j < rows.len() ==> (object_entry(#[trigger] rows[j]) matches Some((_, _, Some(q)))
                    ==> d.contains(q))
            &&& forall|j: int|
                0 <= j < rows.len() ==> (object_entry(#[trigger] rows[j]) matches Some((k, n, _))
                    ==> (k == table_kind() ==> t.contains(n)))
        },
    decreases rows.len(),
{
    if rows.len() > 0 {
        let prev = rows.drop_last();
        law_every_stored_ddl_is_replayed(prev);
        if let Some((d, t)) = copy_plan(rows) {
            let (d0, t0) = copy_plan(prev)->0;
            assert forall|j: int| 0 <= j < rows.len() implies (object_entry(#[trigger] rows[j]) matches Some(
                (_, _, Some(q)),
            ) ==> d.contains(q)) by {
                match object_entry(rows[j]) {
                    Some((_, _, Some(q))) => {
                        if j < rows.len() - 1 {
                            assert(rows[j] == prev[j]);
                            let i = choose|i: int| 0 <= i < d0.len() && d0[i] == q;
                            assert(d[i] == q);
                        } else {
                            assert(d[d.len() - 1] == q);
                        }
                    },
                    _ => {},
                }
            }
            assert forall|j: int| 0 <= j < rows.len() implies (object_entry(#[trigger] rows[j]) matches Some(
                (k, n, _),
            ) ==> (k == table_kind() ==> t.contains(n))) by {
                match object_entry(rows[j]) {
                    Some((k, n, _)) => {
                        if k == table_kind() {
                            if j < rows.len() - 1 {
                                assert(rows[j] == prev[j]);
                                let i = choose|i: int| 0 <= i < t0.len() && t0[i] == n;
                                assert(t[i] == n);
                            } else {
                                assert(t[t.len() - 1] == n);
                            }
                        }
                    },
                    _ => {},
                }
            }
        }
    }
}

/// The DDL statements of the plan that `rows` give (none without a plan).
pub open spec fn plan_ddls(rows: Seq<Vec<SqlCell>>) -> Seq<Seq<char>> {
    match copy_plan(rows) {
        Some((d, _)) => d,
        None => seq![],
    }
}

/// The tables of the plan that `rows` give (none without a plan).
pub open spec fn plan_tables(rows: Seq<Vec<SqlCell>>) -> Seq<Seq<char>> {
    match copy_plan(rows) {
        Some((_, t)) => t,
        None => seq![],
    }
}

/// `ls` (of the source) and `ld` (of the destination) copy `tables`, in
/// order: one `table_copied` per table.
pub open spec fn tables_copied(ls: Seq<Record>, ld: Seq<Record>, tables: Seq<Seq<char>>) -> bool
    decreases tables.len(),
{
    if tables.len() == 0 {
        ls.len() == 0 && ld.len() == 0
    } else {
        let n = ls.len() as int;
        let c = ls.last().4.len() as int;
        &&& n >= 2
        &&& ld.len() >= c
        &&& table_copied(ls.subrange(n - 2, n), ld.subrange(ld.len() - c, ld.len() as int), tables.last())
        &&& tables_copied(ls.subrange(0, n - 2), ld.subrange(0, ld.len() - c), tables.drop_last())
    }
}

/// The query of the tables and indexes to replay, tables first.
pub open spec fn objects_query() -> Seq<char> {
    "SELECT type, name, sql FROM sqlite_master WHERE type IN ('table', 'index') AND sql IS NOT NULL AND name NOT LIKE 'sqlite_%' ORDER BY CASE type WHEN 'table' THEN 0 ELSE 1 END, rowid"@
}

/// Replays the sanitised tables and indexes of `src` into `dest` and
/// copies every user table's rows, in one transaction.
///
/// On success `src`'s record holds the object query, whose answer gives
/// the plan (`copy_plan`), then the copy of each table of the plan;
/// `dest`'s record holds `BEGIN`, each DDL statement of the plan in order
/// (tables before indexes), the rows of each table of the plan
/// (`tables_copied`), and `COMMIT`.
pub fn copy_rows(src: &mut Db, dest: &mut Db) -> (r: Result<(), DbError>)
    ensures
        extends(*old(src), *final(src)),
        extends(*old(dest), *final(dest)),
        r matches Err(e) ==> e is Sqlite || e is InvalidColumnType,
        r is Ok ==> {
            let a = old(src).log@.len() as int;
            let ls = final(src).log@;
            let b = old(dest).log@.len() as int;
            let ld = final(dest).log@;
            &&& ls.len() > a
            &&& ls[a].0 == objects_query()
            &&& copy_plan(ls[a].2) is Some
            &&& ld.len() >= b + 2 + plan_ddls(ls[a].2).len()
            &&& ld[b] == entry(begin_sql(), seq![], seq![], 0)
            &&& forall|j: int|
                0 <= j < plan_ddls(ls[a].2).len() ==> #[trigger] ld[b + 1 + j] == entry(
                    plan_ddls(ls[a].2)[j],
                    seq![],
                    seq![],
                    0,
                )
            &&& ls.len() == a + 1 + 2 * plan_tables(ls[a].2).len()
            &&& tables_copied(
                ls.subrange(a + 1, ls.len() as int),
                ld.subrange(b + 1 + plan_ddls(ls[a].2).len(), ld.len() - 1),
                plan_tables(ls[a].2),
            )
            &&& ld.last() == entry(commit_sql(), seq![], seq![], 0)
        },
{
    let ghost s0 = src.log@;
    let ghost d0 = dest.log@;
    let ghost a = s0.len() as int;
    let ghost b = d0.len() as int;
    assert(dest.log@.subrange(0, b) =~= d0);
    let args: Vec<SqlArg> = Vec::new();
    assert(args@ =~= seq![]);
    let objects = src.query(
        "SELECT type, name, sql FROM sqlite_master WHERE type IN ('table', 'index') AND sql IS NOT NULL AND name NOT LIKE 'sqlite_%' ORDER BY CASE type WHEN 'table' THEN 0 ELSE 1 END, rowid",
        &args,
    );
    let ghost s1 = src.log@;
    assert(s1.subrange(0, a) =~= s0);
    let objects = objects?;
    let (ddls, tables) = copy_plan_from(&objects)?;
    assert(s1[a] == s1.last());
    let began = dest.run_batch("BEGIN");
    assert(dest.log@.subrange(0, b) =~= d0);
    began?;
    let ghost d1 = dest.log@;
    assert(d1[b] == d1.last());
    let mut i: usize = 0;
    while i < ddls.len()
        invariant
            i <= ddls.len(),
            views(ddls@) == plan_ddls(s1[a].2),
            dest.conn == old(dest).conn,
            b == d0.len(),
            d0 == old(dest).log@,
            d1.len() == b + 1,
            d1.subrange(0, b) == d0,
            d1[b] == entry(begin_sql(), seq![], seq![], 0),
            dest.log@.len() == b + 1 + i,
            dest.log@.subrange(0, b + 1) == d1,
            forall|j: int| 0 <= j < i ==> #[trigger] dest.log@[b + 1 + j] == entry(ddls@[j]@, seq![], seq![], 0),
            src.log@ == s1,
            s1.subrange(0, a) == s0,
            s1.len() > a,
            a == s0.len(),
            s0 == old(src).log@,
            src.conn == old(src).conn,
        decreases ddls.len() - i,
    {
        let ghost before = dest.log@;
        let done = dest.run_batch(ddls[i].as_str());
        proof {
            assert(dest.log@.drop_last() == before);
            assert(dest.log@.subrange(0, b + 1) =~= d1) by {
                assert(before.subrange(0, b + 1) == d1);
            }
            assert forall|j: int| 0 <= j < i + 1 implies #[trigger] dest.log@[b + 1 + j] == entry(
                ddls@[j]@,
                seq![],
                seq![],
                0,
            ) by {
                if j < i {
                    assert(dest.log@[b + 1 + j] == before[b + 1 + j]);
                }
            }
        }
        if let Err(e) = done {
            assert(dest.log@.subrange(0, b) =~= d0) by {
                assert(dest.log@.subrange(0, b + 1).subrange(0, b) =~= dest.log@.subrange(0, b));
            }
            return Err(e);
        }
        i += 1;
    }
    let ghost d2 = dest.log@;
    let ghost m = d2.len() as int;
    assert(src.log@.subrange(0, s1.len() as int) =~= s1);
    assert(dest.log@.subrange(0, m) =~= d2);
    let ghost sl1 = s1.len() as int;
    proof {
        assert(src.log@.subrange(sl1, sl1) =~= Seq::<Record>::empty());
        assert(dest.log@.subrange(m, m) =~= Seq::<Record>::empty());
        assert(views(tables@).take(0) =~= Seq::<Seq<char>>::empty());
        assert(views(tables@) == plan_tables(s1[a].2));
    }
    let mut j: usize = 0;
    while j < tables.len()
        invariant
            j <= tables.len(),
            views(tables@) == plan_tables(s1[a].2),
            src.conn == old(src).conn,
            src.log@.len() == sl1 + 2 * j,
            sl1 == s1.len(),
            src.log@.subrange(0, s1.len() as int) == s1,
            s1.subrange(0, a) == s0,
            s1.len() > a,
            a == s0.len(),
            s0 == old(src).log@,
            dest.conn == old(dest).conn,
            dest.log@.len() >= m,
            dest.log@.subrange(0, m) == d2,
            d2.len() == m,
            d2.subrange(0, b) == d0,
            m >= b,
            b == d0.len(),
            d0 == old(dest).log@,
            tables_copied(
                src.log@.subrange(sl1, src.log@.len() as int),
                dest.log@.subrange(m, dest.log@.len() as int),
                views(tables@).take(j as int),
            ),
        decreases tables.len() - j,
    {
        let ghost sb = src.log@;
        let ghost db0 = dest.log@;
        let copied = copy_table(src, dest, tables[j].as_str());
        proof {
            assert(src.log@.subrange(0, s1.len() as int) =~= s1) by {
                assert(src.log@.subrange(0, sb.len() as int) == sb);
                assert(src.log@.subrange(0, sb.len() as int).subrange(0, s1.len() as int)
                    =~= src.log@.subrange(0, s1.len() as int));
            }
            assert(dest.log@.subrange(0, m) =~= d2) by {
                assert(dest.log@.subrange(0, db0.len() as int) == db0);
                assert(dest.log@.subrange(0, db0.len() as int).subrange(0, m) =~= dest.log@.subrange(0, m));
            }
        }
        if let Err(e) = copied {
            proof {
                assert(src.log@.subrange(0, a) =~= s0) by {
                    assert(src.log@.subrange(0, s1.len() as int).subrange(0, a) =~= src.log@.subrange(0, a));
                }
                assert(dest.log@.subrange(0, b) =~= d0) by {
                    assert(dest.log@.subrange(0, m).subrange(0, b) =~= dest.log@.subrange(0, b));
                }
            }
            return Err(e);
        }
        proof {
            let sl = src.log@;
            let dl = dest.log@;
            let p = sb.len() as int;
            let q = db0.len() as int;
            let ls_old = sb.subrange(sl1, p);
            let ld_old = db0.subrange(m, q);
            let ls_new = sl.subrange(sl1, sl.len() as int);
            let ld_new = dl.subrange(m, dl.len() as int);
            let c = ls_new.last().4.len() as int;
            assert(ls_new.subrange(0, ls_new.len() - 2) =~= ls_old) by {
                lemma_slice_within(sl, sb, sl1, p);
            }
            assert(ls_new.subrange(ls_new.len() - 2, ls_new.len() as int) =~= sl.subrange(p, p + 2));
            assert(ls_new.last() == sl[p + 1]);
            assert(dl.len() == q + c);
            assert(ld_new.subrange(0, ld_new.len() - c) =~= ld_old) by {
                lemma_slice_within(dl, db0, m, q);
            }
            assert(ld_new.subrange(ld_new.len() - c, ld_new.len() as int) =~= dl.subrange(
                q,
                dl.len() as int,
            ));
            assert(views(tables@).take(j + 1).drop_last() =~= views(tables@).take(j as int));
            assert(views(tables@).take(j + 1).last() == tables@[j as int]@);
        }
        j += 1;
    }
    assert(views(tables@).take(tables.len() as int) =~= views(tables@));
    let ghost d3 = dest.log@;
    let committed = dest.run_batch("COMMIT");
    proof {
        let ld = dest.log@;
        let ls = src.log@;
        assert(ld.drop_last() == d3);
        assert(ld.subrange(0, b) =~= d0) by {
            assert(d3.subrange(0, m).subrange(0, b) =~= d3.subrange(0, b));
        }
        assert(ls.subrange(0, a) =~= s0) by {
            assert(ls.subrange(0, s1.len() as int).subrange(0, a) =~= ls.subrange(0, a));
        }
        assert(ls[a] == s1[a]) by {
            assert(ls.subrange(0, s1.len() as int)[a] == ls[a]);
        }
        assert(ld[b] == d1[b]) by {
            assert(d3.subrange(0, m)[b] == d3[b]);
            assert(d2.subrange(0, b + 1)[b] == d2[b]);
        }
        assert forall|q: int|
            0 <= q < plan_ddls(ls[a].2).len() implies #[trigger] ld[b + 1 + q] == entry(
            plan_ddls(ls[a].2)[q],
            seq![],
            seq![],
            0,
        ) by {
            assert(d3.subrange(0, m)[b + 1 + q] == d3[b + 1 + q]);
            assert(ld[b + 1 + q] == d2[b + 1 + q]);
        }
        assert(ls == src.log@);
        assert(ls.subrange(a + 1, ls.len() as int) == ls.subrange(sl1, ls.len() as int));
        assert(ld.subrange(b + 1 + plan_ddls(ls[a].2).len(), ld.len() - 1) =~= d3.subrange(m, d3.len() as int));
    }
    committed?;
    Ok(())
}

/// `BEGIN`
pub open spec fn begin_sql() -> Seq<char> {
    "BEGIN"@
}

/// `COMMIT`
pub open spec fn commit_sql() -> Seq<char> {
    "COMMIT"@
}

} // verus!
