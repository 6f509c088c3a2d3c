//! One-shot copy of a legacy SQLite collection into a fresh Doltlite
//! database: the stored DDL is sanitised in place, tables are replayed and
//! their rows copied in primary-key order, then indexes, triggers and views
//! are replayed and the header fields are stamped.

use vstd::prelude::*;
use crate::ddl::{sanitize_ddl, spec_sanitize_ddl};
use crate::sql::{
    column_names_or_unknown, result_column_names, pragma_entry_sql, integer_at, lemma_slice_within, lemma_extends_trans, lemma_prefix_index,
    lemma_prefix_trans,
    binds_text, entry, extends, first_column_texts, param_entry, raw_entry, Record, first_text_is, last_rows, sent, text_at, three_texts,
    two_texts, Db, DbError, SqlArg, SqlCell,
};
use crate::sql_text::{
    pk_columns_from_table_info, placeholder_list, placeholders, quote_ident, quoted_ident, sort_by_key_position,
    sort_by_position, table_info_keys, key_views,
};
use crate::text::{concat, join_seq, join_str, views};

verus! {

/// The Doltlite `application_id` stamped into a migrated database
/// (`0xA0C1D01D` read as a signed 32-bit integer). Lets the storage layer
/// skip the migration on later opens.
pub const DOLTLITE_APPLICATION_ID: i32 = -1597911011i32;

/// What a migration copied.
#[derive(Debug, Default, Clone, Copy)]
pub struct Stats {
    pub tables: usize,
    pub rows: usize,
}

// ---------------------------------------------------------------------
// ORDER BY for a table scan
// ---------------------------------------------------------------------

/// ` ORDER BY rowid`
pub open spec fn order_by_rowid() -> Seq<char> {
    seq![' ', 'O', 'R', 'D', 'E', 'R', ' ', 'B', 'Y', ' ', 'r', 'o', 'w', 'i', 'd']
}

/// ` ORDER BY `
pub open spec fn order_by_prefix() -> Seq<char> {
    seq![' ', 'O', 'R', 'D', 'E', 'R', ' ', 'B', 'Y', ' ']
}

/// The names of the columns, each quoted as an identifier.
pub open spec fn quoted_names(cols: Seq<(i64, String)>) -> Seq<Seq<char>> {
    cols.map_values(|c: (i64, String)| quoted_ident(c.1@))
}

/// The `ORDER BY` clause that walks a table by its declared primary key
/// (columns in key order, comma-separated), or by `rowid` when it has none.
pub open spec fn order_by_for_key(pk_cols: Seq<(i64, String)>) -> Seq<char> {
    if pk_cols.len() == 0 {
        order_by_rowid()
    } else {
        order_by_prefix() + join_seq(quoted_names(sort_by_position(pk_cols)), seq![','])
    }
}

/// The `ORDER BY` clause for the primary-key columns `(position, name)`.
pub fn order_by_from_pk_columns(pk_cols: &Vec<(i64, String)>) -> (r: String)
    ensures
        r@ == order_by_for_key(pk_cols@),
{
    if pk_cols.len() == 0 {
        proof {
            reveal_strlit(" ORDER BY rowid");
            assert(" ORDER BY rowid"@ =~= order_by_rowid());
        }
        return " ORDER BY rowid".to_owned();
    }
    let sorted = sort_by_key_position(pk_cols);
    let mut names: Vec<String> = Vec::new();
    let mut i: usize = 0;
    while i < sorted.len()
        invariant
            i <= sorted.len(),
            views(names@) == quoted_names(sorted@.take(i as int)),
        decreases sorted.len() - i,
    {
        let q = quote_ident(sorted[i].1.as_str());
        let ghost before = views(names@);
        let ghost qv = q@;
        names.push(q);
        proof {
            let target = quoted_names(sorted@.take(i + 1));
            assert(views(names@) =~= before.push(qv));
            assert forall|x: int| 0 <= x < i + 1 implies #[trigger] views(names@)[x] == target[x] by {
                if x < i {
                    assert(before[x] == quoted_names(sorted@.take(i as int))[x]);
                    assert(sorted@.take(i as int)[x] == sorted@.take(i + 1)[x]);
                }
            }
            assert(views(names@) =~= target);
        }
        i += 1;
    }
    assert(sorted@.take(sorted.len() as int) =~= sorted@);
    proof {
        reveal_strlit(",");
        reveal_strlit(" ORDER BY ");
        assert(","@ =~= seq![',']);
        assert(" ORDER BY "@ =~= order_by_prefix());
    }
    let cols = join_str(&names, ",");
    concat(" ORDER BY ", cols.as_str())
}

/// `PRAGMA table_info(` + quoted table + `)`.
pub open spec fn table_info_sql(table: Seq<char>) -> Seq<char> {
    seq!['P', 'R', 'A', 'G', 'M', 'A', ' ', 't', 'a', 'b', 'l', 'e', '_', 'i', 'n', 'f', 'o', '(']
        + quoted_ident(table) + seq![')']
}

/// The `PRAGMA table_info` statement for `table` (`table_info_sql`).
pub fn table_info_query(table: &str) -> (r: String)
    ensures
        r@ == table_info_sql(table@),
{
    proof {
        reveal_strlit("PRAGMA table_info(");
        reveal_strlit(")");
    }
    let quoted = quote_ident(table);
    let head = concat("PRAGMA table_info(", quoted.as_str());
    let r = concat(head.as_str(), ")");
    assert(r@ =~= table_info_sql(table@));
    r
}

/// `SELECT * FROM "<table>"` followed by an order clause.
pub open spec fn select_all_sql(table: Seq<char>, order: Seq<char>) -> Seq<char> {
    seq!['S', 'E', 'L', 'E', 'C', 'T', ' ', '*', ' ', 'F', 'R', 'O', 'M', ' '] + quoted_ident(table)
        + order
}

/// The statement that reads every row of `table` in the given order
/// (`select_all_sql`).
pub fn select_all_query(table: &str, order: &str) -> (r: String)
    ensures
        r@ == select_all_sql(table@, order@),
{
    proof {
        reveal_strlit("SELECT * FROM ");
    }
    let t = quote_ident(table);
    let head = concat("SELECT * FROM ", t.as_str());
    let r = concat(head.as_str(), order);
    assert(r@ =~= select_all_sql(table@, order@));
    r
}

/// The clause that gives Doltlite-prolly's planner a concrete walk order
/// for `SELECT * FROM "<table>"`: the declared primary key, or `rowid`.
/// Sends `table_info_sql` and reads its answer with
/// `pk_columns_from_table_info` and `order_by_from_pk_columns`.
pub fn order_by_clause(db: &mut Db, table: &str) -> (r: Result<String, DbError>)
    ensures
        sent(*old(db), *final(db), table_info_sql(table@), seq![]),
        r matches Ok(s) ==> exists|pk: Seq<(i64, String)>|
            table_info_keys(last_rows(*final(db)), true) == Some(key_views(pk)) && s@
                == order_by_for_key(pk),
        r matches Err(e) ==> e is Sqlite || e is InvalidColumnType,
{
    let pragma = table_info_query(table);
    let args: Vec<SqlArg> = Vec::new();
    assert(args@ =~= seq![]);
    let rows = db.query(pragma.as_str(), &args);
    assert(db.log@.drop_last() =~= old(db).log@);
    let rows = rows?;
    let pk_cols = pk_columns_from_table_info(&rows, true)?;
    let clause = order_by_from_pk_columns(&pk_cols);
    assert(table_info_keys(last_rows(*db), true) == Some(key_views(pk_cols@)) && clause@
        == order_by_for_key(pk_cols@));
    Ok(clause)
}

// ---------------------------------------------------------------------
// Rewriting the stored schema
// ---------------------------------------------------------------------

/// One `sqlite_master` entry: type, name and SQL text.
pub struct SchemaRow {
    pub kind: String,
    pub name: String,
    pub sql: String,
}

/// The replacement SQL for a schema row, when sanitising changes it.
pub open spec fn schema_rewrite(r: (Seq<char>, Seq<char>, Seq<char>)) -> Option<(Seq<char>, Seq<char>, Seq<char>)> {
    let s = spec_sanitize_ddl(r.2);
    if s != r.2 {
        Some((r.0, r.1, s))
    } else {
        None
    }
}

/// The rewrites as character sequences.
pub open spec fn rewrites_view(v: Seq<SchemaRow>) -> Seq<(Seq<char>, Seq<char>, Seq<char>)> {
    v.map_values(|r: SchemaRow| (r.kind@, r.name@, r.sql@))
}

/// The schema rows whose SQL sanitising changes, with the sanitised SQL,
/// in order.
pub fn schema_rewrites(rows: &Vec<SchemaRow>) -> (r: Vec<SchemaRow>)
    ensures
        rewrites_view(r@) == rewrites_view(rows@).filter_map(
            |x: (Seq<char>, Seq<char>, Seq<char>)| schema_rewrite(x),
        ),
{
    let mut out: Vec<SchemaRow> = Vec::new();
    let mut i: usize = 0;
    while i < rows.len()
        invariant
            i <= rows.len(),
            rewrites_view(out@) == rewrites_view(rows@.take(i as int)).filter_map(
                |x: (Seq<char>, Seq<char>, Seq<char>)| schema_rewrite(x),
            ),
        decreases rows.len() - i,
    {
        let row = &rows[i];
        let sanitized = sanitize_ddl(row.sql.as_str());
        proof {
            assert(rewrites_view(rows@.take(i + 1)).drop_last() =~= rewrites_view(rows@.take(i as int)));
            assert(rewrites_view(rows@.take(i + 1)).last() == (row.kind@, row.name@, row.sql@));
        }
        if !(sanitized == row.sql) {
            let ghost before = rewrites_view(out@);
            out.push(SchemaRow { kind: row.kind.clone(), name: row.name.clone(), sql: sanitized });
            assert(rewrites_view(out@) =~= before.push((row.kind@, row.name@, spec_sanitize_ddl(row.sql@))));
        }
        i += 1;
    }
    assert(rows@.take(rows.len() as int) =~= rows@);
    out
}

/// The `(type, name, sql)` of every row of a schema query, when each row
/// holds three texts.
pub open spec fn schema_entries(rows: Seq<Vec<SqlCell>>) -> Option<Seq<(Seq<char>, Seq<char>, Seq<char>)>>
    decreases rows.len(),
{
    if rows.len() == 0 {
        Some(seq![])
    } else {
        match (schema_entries(rows.drop_last()), three_texts(rows.last())) {
            (Some(p), Some(t)) => Some(p.push(t)),
            _ => None,
        }
    }
}

proof fn lemma_schema_entries_none_extends(rows: Seq<Vec<SqlCell>>, n: nat)
    requires
        n <= rows.len(),
        schema_entries(rows.take(n as int)) is None,
    ensures
        schema_entries(rows) is None,
    decreases rows.len() - n,
{
    if n < rows.len() {
        assert(rows.take((n + 1) as int).drop_last() =~= rows.take(n as int));
        lemma_schema_entries_none_extends(rows, n + 1);
    } else {
        assert(rows.take(n as int) =~= rows);
    }
}

/// Reads the rows of a `SELECT type, name, sql` schema query
/// (`schema_entries`).
pub fn schema_rows_from(rows: &Vec<Vec<SqlCell>>) -> (r: Result<Vec<SchemaRow>, DbError>)
    ensures
        match r {
            Ok(v) => schema_entries(rows@) == Some(rewrites_view(v@)),
            Err(e) => schema_entries(rows@) is None && e is InvalidColumnType,
        },
{
    let mut out: Vec<SchemaRow> = Vec::new();
    let mut i: usize = 0;
    while i < rows.len()
        invariant
            i <= rows.len(),
            schema_entries(rows@.take(i as int)) == Some(rewrites_view(out@)),
        decreases rows.len() - i,
    {
        proof {
            assert(rows@.take(i + 1).drop_last() =~= rows@.take(i as int));
            assert(rows@.take(i + 1).last() == rows@[i as int]);
        }
        let kind = text_at(&rows[i], 0);
        let name = text_at(&rows[i], 1);
        let sql = text_at(&rows[i], 2);
        match (kind, name, sql) {
            (Ok(kind), Ok(name), Ok(sql)) => {
                let ghost before = rewrites_view(out@);
                out.push(SchemaRow { kind, name, sql });
                assert(rewrites_view(out@) =~= before.push(three_texts(rows@[i as int])->0));
            },
            _ => {
                proof {
                    assert(three_texts(rows@[i as int]) is None);
                    lemma_schema_entries_none_extends(rows@, (i + 1) as nat);
                }
                return Err(DbError::InvalidColumnType);
            },
        }
        i += 1;
    }
    assert(rows@.take(rows.len() as int) =~= rows@);
    Ok(out)
}

/// The parameters of the `UPDATE` that stores a rewrite: the new SQL, the
/// type and the name.
pub fn rewrite_params(r: &SchemaRow) -> (p: Vec<SqlArg>)
    ensures
        p.len() == 3,
        p@[0] matches SqlArg::Text(x) && x@ == r.sql@,
        p@[1] matches SqlArg::Text(x) && x@ == r.kind@,
        p@[2] matches SqlArg::Text(x) && x@ == r.name@,
{
    let mut params: Vec<SqlArg> = Vec::new();
    params.push(SqlArg::Text(r.sql.clone()));
    params.push(SqlArg::Text(r.kind.clone()));
    params.push(SqlArg::Text(r.name.clone()));
    params
}

/// `PRAGMA writable_schema = ON`
pub open spec fn writable_on_sql() -> Seq<char> {
    "PRAGMA writable_schema = ON"@
}

/// `PRAGMA writable_schema = RESET`
pub open spec fn writable_reset_sql() -> Seq<char> {
    "PRAGMA writable_schema = RESET"@
}

/// The query of the stored schema that sanitising may rewrite.
pub open spec fn schema_query() -> Seq<char> {
    "SELECT type, name, sql FROM sqlite_master WHERE sql IS NOT NULL AND name NOT LIKE 'sqlite_%'"@
}

/// The statement that stores one rewrite.
pub open spec fn schema_update_sql() -> Seq<char> {
    "UPDATE sqlite_master SET sql = ?1 WHERE type = ?2 AND name = ?3"@
}

/// `e` records the `UPDATE` that stores rewrite `w = (type, name, sql)`.
pub open spec fn stores_rewrite(
    e: Record,
    w: (Seq<char>, Seq<char>, Seq<char>),
) -> bool {
    &&& e.0 == schema_update_sql()
    &&& e.1.len() == 3
    &&& binds_text(e.1[0], w.2)
    &&& binds_text(e.1[1], w.0)
    &&& binds_text(e.1[2], w.1)
}

/// The rewrites that the schema rows `rows` call for.
pub open spec fn rewrites_of(rows: Seq<Vec<SqlCell>>) -> Seq<(Seq<char>, Seq<char>, Seq<char>)> {
    match schema_entries(rows) {
        Some(es) => es.filter_map(|x: (Seq<char>, Seq<char>, Seq<char>)| schema_rewrite(x)),
        None => seq![],
    }
}

/// `l` records an in-place rewrite of the stored schema, in order:
/// `writable_schema = ON`, the schema query with its answer, one `UPDATE`
/// per rewrite that answer calls for (`rewrites_of`), and
/// `writable_schema = RESET`.
pub open spec fn schema_sanitized(l: Seq<Record>) -> bool {
    let rows = l[1].2;
    &&& schema_entries(rows) is Some
    &&& l.len() == 3 + rewrites_of(rows).len()
    &&& l[0] == entry(writable_on_sql(), seq![], seq![], 0)
    &&& l[1].0 == schema_query()
    &&& l[1].1 == Seq::<SqlArg>::empty()
    &&& forall|j: int|
        0 <= j < rewrites_of(rows).len() ==> stores_rewrite(#[trigger] l[2 + j], rewrites_of(rows)[j])
    &&& l.last() == entry(writable_reset_sql(), seq![], seq![], 0)
}

/// Rewrites the source's stored DDL in place (`PRAGMA writable_schema`)
/// to drop `COLLATE unicase` and `-- line comments`, so that statements
/// against its tables can be prepared without the `unicase` collation,
/// then reloads the schema on this connection.
///
/// On success what it adds to the record is that rewrite
/// (`schema_sanitized`).
pub fn sanitize_source_schema_in_place(db: &mut Db) -> (r: Result<(), DbError>)
    ensures
        extends(*old(db), *final(db)),
        r matches Err(e) ==> e is Sqlite || e is InvalidColumnType,
        r is Ok ==> schema_sanitized(
            final(db).log@.subrange(old(db).log@.len() as int, final(db).log@.len() as int),
        ),
{
    let ghost l0 = db.log@;
    let ghost n = l0.len() as int;
    let on = db.run_batch("PRAGMA writable_schema = ON");
    assert(db.log@.subrange(0, n) =~= l0);
    on?;
    let args: Vec<SqlArg> = Vec::new();
    assert(args@ =~= seq![]);
    let rows = db.query(
        "SELECT type, name, sql FROM sqlite_master WHERE sql IS NOT NULL AND name NOT LIKE 'sqlite_%'",
        &args,
    );
    let ghost l1 = db.log@;
    assert(l1.subrange(0, n) =~= l0);
    assert(l1[n] == l1.drop_last()[n]);
    let rows = rows?;
    let entries = schema_rows_from(&rows)?;
    let to_rewrite = schema_rewrites(&entries);
    proof {
        assert(l1[n + 1] == l1.last());
        assert(rewrites_view(to_rewrite@) == rewrites_of(rows@));
    }
    let mut j: usize = 0;
    while j < to_rewrite.len()
        invariant
            j <= to_rewrite.len(),
            rewrites_view(to_rewrite@) == rewrites_of(l1[n + 1].2),
            db.conn == old(db).conn,
            db.log@.len() == n + 2 + j,
            db.log@.subrange(0, n + 2) == l1,
            l1.len() == n + 2,
            l1.subrange(0, n) == l0,
            n == l0.len(),
            l0 == old(db).log@,
            forall|q: int|
                0 <= q < j ==> stores_rewrite(#[trigger] db.log@[n + 2 + q], rewrites_of(l1[n + 1].2)[q]),
        decreases to_rewrite.len() - j,
    {
        let params = rewrite_params(&to_rewrite[j]);
        let ghost before = db.log@;
        let done = db.run("UPDATE sqlite_master SET sql = ?1 WHERE type = ?2 AND name = ?3", &params);
        proof {
            assert(db.log@.drop_last() == before);
            assert(db.log@.subrange(0, n + 2) =~= l1) by {
                assert(before.subrange(0, n + 2) == l1);
            }
            assert forall|q: int| 0 <= q < j + 1 implies stores_rewrite(
                #[trigger] db.log@[n + 2 + q],
                rewrites_of(l1[n + 1].2)[q],
            ) by {
                if q < j {
                    assert(db.log@[n + 2 + q] == before[n + 2 + q]);
                } else {
                    assert(rewrites_view(to_rewrite@)[q] == (
                        to_rewrite@[q].kind@,
                        to_rewrite@[q].name@,
                        to_rewrite@[q].sql@,
                    ));
                }
            }
        }
        if let Err(e) = done {
            proof {
                assert(db.log@.subrange(0, n) =~= l0) by {
                    assert(db.log@.subrange(0, n + 2).subrange(0, n) =~= db.log@.subrange(0, n));
                    assert(l1.subrange(0, n) == l0);
                }
            }
            return Err(e);
        }
        j += 1;
    }
    // Reload the rewritten schema on this connection, so that the SELECTs
    // that follow are prepared against it rather than the schema cached before the rewrite.
    let ghost l2 = db.log@;
    let reset = db.run_batch("PRAGMA writable_schema = RESET");
    proof {
        let l = db.log@;
        assert(l.drop_last() == l2);
        assert(l.subrange(0, n) =~= l0) by {
            assert(l2.subrange(0, n + 2).subrange(0, n) =~= l2.subrange(0, n));
            assert(l.subrange(0, n) =~= l2.subrange(0, n));
        }
        assert(l[n] == l1[n]) by {
            assert(l2.subrange(0, n + 2)[n] == l2[n]);
        }
        assert(l[n + 1] == l1[n + 1]) by {
            assert(l2.subrange(0, n + 2)[n + 1] == l2[n + 1]);
        }
        assert(l1[n] == l1.drop_last()[n]);
        assert forall|q: int|
            0 <= q < rewrites_of(l[n + 1].2).len() implies stores_rewrite(
            #[trigger] l[n + 2 + q],
            rewrites_of(l[n + 1].2)[q],
        ) by {
            assert(l[n + 2 + q] == l2[n + 2 + q]);
        }
        let seg = l.subrange(n, l.len() as int);
        assert(seg[1] == l[n + 1]);
        assert forall|q: int|
            0 <= q < rewrites_of(seg[1].2).len() implies stores_rewrite(
            #[trigger] seg[2 + q],
            rewrites_of(seg[1].2)[q],
        ) by {
            assert(seg[2 + q] == l[n + 2 + q]);
        }
    }
    reset?;
    Ok(())
}

/// The `(name, sql)` of every row of a `SELECT name, sql` query, when
/// each row holds two texts.
pub open spec fn ddl_pairs(rows: Seq<Vec<SqlCell>>) -> Option<Seq<(Seq<char>, Seq<char>)>>
    decreases rows.len(),
{
    if rows.len() == 0 {
        Some(seq![])
    } else {
        match (ddl_pairs(rows.drop_last()), two_texts(rows.last())) {
            (Some(p), Some(t)) => Some(p.push(t)),
            _ => None,
        }
    }
}

/// Pairs of strings as character sequences.
pub open spec fn pair_views(v: Seq<(String, String)>) -> Seq<(Seq<char>, Seq<char>)> {
    v.map_values(|p: (String, String)| (p.0@, p.1@))
}

proof fn lemma_ddl_pairs_none_extends(rows: Seq<Vec<SqlCell>>, n: nat)
    requires
        n <= rows.len(),
        ddl_pairs(rows.take(n as int)) is None,
    ensures
        ddl_pairs(rows) is None,
    decreases rows.len() - n,
{
    if n < rows.len() {
        assert(rows.take((n + 1) as int).drop_last() =~= rows.take(n as int));
        lemma_ddl_pairs_none_extends(rows, n + 1);
    } else {
        assert(rows.take(n as int) =~= rows);
    }
}

/// Reads the rows of a `SELECT name, sql` schema query (`ddl_pairs`).
pub fn ddl_pairs_from(rows: &Vec<Vec<SqlCell>>) -> (r: Result<Vec<(String, String)>, DbError>)
    ensures
        match r {
            Ok(v) => ddl_pairs(rows@) == Some(pair_views(v@)),
            Err(e) => ddl_pairs(rows@) is None && e is InvalidColumnType,
        },
{
    let mut out: Vec<(String, String)> = Vec::new();
    let mut i: usize = 0;
    while i < rows.len()
        invariant
            i <= rows.len(),
            ddl_pairs(rows@.take(i as int)) == Some(pair_views(out@)),
        decreases rows.len() - i,
    {
        proof {
            assert(rows@.take(i + 1).drop_last() =~= rows@.take(i as int));
            assert(rows@.take(i + 1).last() == rows@[i as int]);
        }
        let name = text_at(&rows[i], 0);
        let sql = text_at(&rows[i], 1);
        match (name, sql) {
            (Ok(name), Ok(sql)) => {
                let ghost before = pair_views(out@);
                out.push((name, sql));
                assert(pair_views(out@) =~= before.push(two_texts(rows@[i as int])->0));
            },
            _ => {
                proof {
                    assert(two_texts(rows@[i as int]) is None);
                    lemma_ddl_pairs_none_extends(rows@, (i + 1) as nat);
                }
                return Err(DbError::InvalidColumnType);
            },
        }
        i += 1;
    }
    assert(rows@.take(rows.len() as int) =~= rows@);
    Ok(out)
}

/// The query of the stored DDL of one type of schema object.
pub open spec fn ddl_query() -> Seq<char> {
    "SELECT name, sql FROM sqlite_master WHERE type = ?1 AND sql IS NOT NULL AND name NOT LIKE 'sqlite_%' ORDER BY rowid"@
}

/// `(name, sql)` of the schema objects of one type, in creation order:
/// sends `ddl_query` with the type and reads its answer (`ddl_pairs`).
pub fn read_ddls(db: &mut Db, kind: &str) -> (r: Result<Vec<(String, String)>, DbError>)
    ensures
        final(db).conn == old(db).conn,
        final(db).log@.len() == old(db).log@.len() + 1,
        final(db).log@.drop_last() == old(db).log@,
        final(db).log@.last().0 == ddl_query(),
        final(db).log@.last().1.len() == 1,
        binds_text(final(db).log@.last().1[0], kind@),
        r matches Ok(v) ==> ddl_pairs(last_rows(*final(db))) == Some(pair_views(v@)),
        r matches Err(e) ==> e is Sqlite || e is InvalidColumnType,
{
    let mut args: Vec<SqlArg> = Vec::new();
    args.push(SqlArg::Text(kind.to_owned()));
    let rows = db.query(
        "SELECT name, sql FROM sqlite_master WHERE type = ?1 AND sql IS NOT NULL AND name NOT LIKE 'sqlite_%' ORDER BY rowid",
        &args,
    );
    assert(db.log@.drop_last() =~= old(db).log@);
    let rows = rows?;
    ddl_pairs_from(&rows)
}

// ---------------------------------------------------------------------
// Copying rows
// ---------------------------------------------------------------------

/// `INSERT INTO "<table>" ("<c1>",...) VALUES (?1,...)`, identifiers quoted
/// with inner quotes doubled.
pub open spec fn insert_sql(table: Seq<char>, cols: Seq<Seq<char>>) -> Seq<char> {
    seq!['I', 'N', 'S', 'E', 'R', 'T', ' ', 'I', 'N', 'T', 'O', ' '] + quoted_ident(table) + seq![
        ' ',
        '(',
    ] + join_seq(cols.map_values(|c: Seq<char>| quoted_ident(c)), seq![',']) + seq![
        ')',
        ' ',
        'V',
        'A',
        'L',
        'U',
        'E',
        'S',
        ' ',
        '(',
    ] + join_seq(placeholder_list(cols.len()), seq![',']) + seq![')']
}

/// The statement that inserts one row into `table`, binding one numbered
/// parameter per column.
pub fn build_insert_sql(table: &str, cols: &Vec<String>) -> (r: String)
    requires
        cols.len() < usize::MAX,
    ensures
        r@ == insert_sql(table@, views(cols@)),
{
    let mut quoted: Vec<String> = Vec::new();
    let mut i: usize = 0;
    while i < cols.len()
        invariant
            i <= cols.len(),
            views(quoted@) == views(cols@.take(i as int)).map_values(
                |c: Seq<char>| quoted_ident(c),
            ),
        decreases cols.len() - i,
    {
        let q = quote_ident(cols[i].as_str());
        let ghost before = views(quoted@);
        let ghost qv = q@;
        quoted.push(q);
        proof {
            let target = views(cols@.take(i + 1)).map_values(|c: Seq<char>| quoted_ident(c));
            let prev = views(cols@.take(i as int)).map_values(|c: Seq<char>| quoted_ident(c));
            assert(views(quoted@) =~= before.push(qv));
            assert forall|x: int| 0 <= x < i + 1 implies #[trigger] views(quoted@)[x] == target[x] by {
                if x < i {
                    assert(before[x] == prev[x]);
                    assert(cols@.take(i as int)[x] == cols@.take(i + 1)[x]);
                }
            }
            assert(views(quoted@) =~= target);
        }
        i += 1;
    }
    assert(cols@.take(cols.len() as int) =~= cols@);
    proof {
        reveal_strlit("INSERT INTO ");
        reveal_strlit(" (");
        reveal_strlit(") VALUES (");
        reveal_strlit(")");
        reveal_strlit(",");
        assert(","@ =~= seq![',']);
    }
    let col_list = join_str(&quoted, ",");
    let marks = placeholders(cols.len(), ",");
    let t = quote_ident(table);
    let s1 = concat("INSERT INTO ", t.as_str());
    let s2 = concat(s1.as_str(), " (");
    let s3 = concat(s2.as_str(), col_list.as_str());
    let s4 = concat(s3.as_str(), ") VALUES (");
    let s5 = concat(s4.as_str(), marks.as_str());
    let s6 = concat(s5.as_str(), ")");
    assert(s6@ =~= insert_sql(table@, views(cols@)));
    s6
}

/// The records `ls` (of the source) and `ld` (of the destination) copy
/// `table`: the source answered the `table_info` query and then the
/// `SELECT * FROM` the table ordered by the key that answer gives, which
/// reported its result columns; the destination ran one insert into the
/// table per row the select answered, naming exactly those result columns
/// in order, the `k`-th binding the `k`-th row's values.
pub open spec fn table_copied(ls: Seq<Record>, ld: Seq<Record>, table: Seq<char>) -> bool {
    &&& ls.len() == 2
    &&& ls[0].0 == table_info_sql(table)
    &&& exists|pk: Seq<(i64, String)>|
        table_info_keys(ls[0].2, true) == Some(key_views(pk)) && ls[1].0 == select_all_sql(
            table,
            order_by_for_key(pk),
        )
    &&& ls[1].3 == ls[1].4.len()
    &&& ls[1].2.len() == 1
    &&& ld.len() == ls[1].4.len()
    &&& forall|j: int|
        0 <= j < ld.len() ==> (#[trigger] ld[j]).0 == insert_sql(table, result_column_names(ls[1].2[0]))
    &&& forall|j: int| 0 <= j < ld.len() ==> (#[trigger] ld[j]).4 == seq![ls[1].4[j]]
}

/// A table copy writes every value to the column it was read from: each
/// insert names the select's result columns, all of them and in their
/// order, and binds the row the select answered at the same position, so
/// value `k` of a row lands in result column `k` (the `?k` placeholder of
/// the `k`-th named column).
pub proof fn law_copied_values_keep_their_columns(ls: Seq<Record>, ld: Seq<Record>, table: Seq<char>)
    requires
        table_copied(ls, ld, table),
    ensures
        ld.len() == ls[1].4.len(),
        forall|j: int|
            0 <= j < ld.len() ==> (#[trigger] ld[j]).0 == insert_sql(table, result_column_names(ls[1].2[0]))
                && ld[j].4 == seq![ls[1].4[j]],
        result_column_names(ls[1].2[0]).len() == ls[1].2[0]@.len(),
        forall|k: int|
            0 <= k < ls[1].2[0]@.len() ==> (ls[1].2[0]@[k] matches SqlCell::Text(n) ==> (
            #[trigger] result_column_names(ls[1].2[0])[k]) == n@),
{
}

/// Copies every row of `table` from `src` into the same table of `dst`,
/// walking the source in primary-key order. Returns the number of rows.
///
/// On success the two records it adds to `src` and all it adds to `dst`
/// are the copy of `table` (`table_copied`), and the count is the number
/// of rows the select answered.
pub fn copy_table(src: &mut Db, dst: &mut Db, table: &str) -> (r: Result<usize, DbError>)
    ensures
        extends(*old(src), *final(src)),
        extends(*old(dst), *final(dst)),
        r matches Err(e) ==> e is Sqlite || e is InvalidColumnType,
        r matches Ok(n) ==> {
            let a = old(src).log@.len() as int;
            let ls = final(src).log@;
            let b = old(dst).log@.len() as int;
            let ld = final(dst).log@;
            &&& ls.len() == a + 2
            &&& table_copied(ls.subrange(a, a + 2), ld.subrange(b, ld.len() as int), table@)
            &&& n == ls[a + 1].4.len()
            &&& ld.len() == b + n
        },
{
    let ghost s0 = src.log@;
    let ghost d0 = dst.log@;
    let ghost a = s0.len() as int;
    let ghost b = d0.len() as int;
    assert(dst.log@.subrange(0, b) =~= d0);
    let order = order_by_clause(src, table);
    assert(src.log@.subrange(0, a) =~= s0);
    let order = order?;
    let ghost s1 = src.log@;
    assert(s1.len() == a + 1);
    assert(s1.subrange(0, a) == s0);
    let select_sql = select_all_query(table, order.as_str());
    let read = src.query_raw_named(select_sql.as_str());
    proof {
        let l = src.log@;
        assert(l.drop_last() == s1);
        assert(l.subrange(0, a) =~= s0);
        assert(l[a] == s1[a]);
        assert(s1[a] == s1.last());
    }
    let (name_cells, rows) = read?;
    let names = column_names_or_unknown(&name_cells);
    if names.len() == usize::MAX {
        return Err(DbError::InvalidColumnType);
    }
    let insert = build_insert_sql(table, &names);
    assert(extends(*old(src), *src));
    let mut n: usize = 0;
    let mut k: usize = 0;
    while k < rows.len()
        invariant
            k <= rows.len(),
            n == k,
            dst.conn == old(dst).conn,
            extends(*old(src), *src),
            b == d0.len(),
            d0 == old(dst).log@,
            dst.log@.len() == b + k,
            dst.log@.subrange(0, b) == d0,
            forall|j: int| 0 <= j < k ==> (#[trigger] dst.log@[b + j]).0 == insert@,
            forall|j: int| 0 <= j < k ==> (#[trigger] dst.log@[b + j]).4 == seq![rows@[j]],
        decreases rows.len() - k,
    {
        let ghost before = dst.log@;
        let done = dst.execute_raw(insert.as_str(), &rows[k]);
        proof {
            assert(dst.log@.drop_last() == before);
            assert(dst.log@.subrange(0, b) =~= d0) by {
                assert(before.subrange(0, b) == d0);
            }
            assert forall|j: int| 0 <= j < k + 1 implies (#[trigger] dst.log@[b + j]).0 == insert@
                && dst.log@[b + j].4 == seq![rows@[j]] by {
                if j < k {
                    assert(dst.log@[b + j] == before[b + j]);
                }
            }
        }
        match done {
            Ok(_) => {},
            Err(e) => {
                assert(extends(*old(dst), *dst));
                return Err(e);
            },
        }
        n += 1;
        k += 1;
    }
    proof {
        let ls = src.log@;
        let ld = dst.log@;
        assert(ls[a + 1] == ls.last());
        assert(ls[a + 1].4 == rows@);
        assert(ls[a + 1].2 == seq![name_cells]);
        assert(insert@ == insert_sql(table@, result_column_names(name_cells)));
        let s2 = ls.subrange(a, a + 2);
        let d2 = ld.subrange(b, ld.len() as int);
        assert(s2[0] == ls[a]);
        assert(s2[1] == ls[a + 1]);
        assert forall|j: int| 0 <= j < d2.len() implies (#[trigger] d2[j]).0 == insert_sql(
            table@,
            result_column_names(s2[1].2[0]),
        ) by {
            assert(d2[j] == ld[b + j]);
        }
        assert forall|j: int| 0 <= j < d2.len() implies (#[trigger] d2[j]).4 == seq![s2[1].4[j]] by {
            assert(d2[j] == ld[b + j]);
        }
        assert(table_copied(s2, d2, table@));
    }
    Ok(n)
}

/// `BEGIN`
pub open spec fn begin_sql() -> Seq<char> {
    "BEGIN"@
}

/// `COMMIT`
pub open spec fn commit_sql() -> Seq<char> {
    "COMMIT"@
}

/// The names of `(name, sql)` pairs.
pub open spec fn pair_names(p: Seq<(Seq<char>, Seq<char>)>) -> Seq<Seq<char>> {
    p.map_values(|x: (Seq<char>, Seq<char>)| x.0)
}

/// `ld` is one batch per pair of `pairs`, in order: the pair's DDL as
/// `sanitize_ddl` leaves it.
pub open spec fn replays(ld: Seq<Record>, pairs: Seq<(Seq<char>, Seq<char>)>) -> bool {
    &&& ld.len() == pairs.len()
    &&& forall|i: int|
        0 <= i < ld.len() ==> #[trigger] ld[i] == entry(spec_sanitize_ddl(pairs[i].1), seq![], seq![], 0)
}

proof fn lemma_replays_append(
    x: Seq<Record>,
    p: Seq<(Seq<char>, Seq<char>)>,
    y: Seq<Record>,
    q: Seq<(Seq<char>, Seq<char>)>,
)
    requires
        replays(x, p),
        replays(y, q),
    ensures
        replays(x + y, p + q),
{
    assert forall|i: int| 0 <= i < (x + y).len() implies #[trigger] (x + y)[i] == entry(
        spec_sanitize_ddl((p + q)[i].1),
        seq![],
        seq![],
        0,
    ) by {
        if i < x.len() {
            assert(x[i] == entry(spec_sanitize_ddl(p[i].1), seq![], seq![], 0));
        } else {
            assert(y[i - x.len()] == entry(spec_sanitize_ddl(q[i - x.len()].1), seq![], seq![], 0));
        }
    }
}

/// `e` is the query of the stored DDL of `kind`, and its answer reads as
/// `(name, sql)` pairs.
pub open spec fn ddls_read(e: Record, kind: Seq<char>) -> bool {
    &&& e.0 == ddl_query()
    &&& e.1.len() == 1
    &&& binds_text(e.1[0], kind)
    &&& ddl_pairs(e.2) is Some
}

/// The `(name, sql)` pairs that the answer recorded in `e` reads as (none
/// where it does not).
pub open spec fn answered_pairs(e: Record) -> Seq<(Seq<char>, Seq<char>)> {
    match ddl_pairs(e.2) {
        Some(p) => p,
        None => seq![],
    }
}

/// The pairs answered by the records of `ls`, one record after another.
pub open spec fn pairs_read(ls: Seq<Record>) -> Seq<(Seq<char>, Seq<char>)>
    decreases ls.len(),
{
    if ls.len() == 0 {
        seq![]
    } else {
        pairs_read(ls.drop_last()) + answered_pairs(ls.last())
    }
}

/// The rows read by the table copies recorded in `ls` (two records each,
/// the second the select): the rows each select answered, summed.
pub open spec fn copied_rows(ls: Seq<Record>) -> nat
    decreases ls.len(),
{
    if ls.len() < 2 {
        0
    } else {
        copied_rows(ls.subrange(0, ls.len() - 2)) + ls.last().4.len()
    }
}

/// `n`, or `usize::MAX` where `n` is larger.
pub open spec fn capped(n: nat) -> nat {
    if n > usize::MAX {
        usize::MAX as nat
    } else {
        n
    }
}

/// `ls` (of the source) and `ld` (of the destination) copy `tables`, in
/// order: one `table_copied` per table.
pub open spec fn tables_copied(ls: Seq<Record>, ld: Seq<Record>, tables: Seq<Seq<char>>) -> bool
    decreases tables.len(),
{
    if tables.len() == 0 {
        ls.len() == 0 && ld.len() == 0
    } else {
        let n = ls.len() as int;
        let c = ls.last().4.len() as int;
        &&& n >= 2
        &&& ld.len() >= c
        &&& table_copied(ls.subrange(n - 2, n), ld.subrange(ld.len() - c, ld.len() as int), tables.last())
        &&& tables_copied(ls.subrange(0, n - 2), ld.subrange(0, ld.len() - c), tables.drop_last())
    }
}

/// Copies the rows of each table of `tables` in order (`copy_table`) and
/// returns how many rows were copied, at most `usize::MAX`.
fn copy_tables(source: &mut Db, dest: &mut Db, tables: &Vec<(String, String)>) -> (r: Result<
    usize,
    DbError,
>)
    ensures
        extends(*old(source), *final(source)),
        extends(*old(dest), *final(dest)),
        r matches Err(e) ==> e is Sqlite || e is InvalidColumnType,
        r matches Ok(n) ==> {
            let ls = final(source).log@.subrange(
                old(source).log@.len() as int,
                final(source).log@.len() as int,
            );
            let ld = final(dest).log@.subrange(old(dest).log@.len() as int, final(dest).log@.len() as int);
            &&& ls.len() == 2 * tables.len()
            &&& ld.len() == copied_rows(ls)
            &&& tables_copied(ls, ld, pair_names(pair_views(tables@)))
            &&& n == capped(copied_rows(ls))
        },
{
    let ghost s0 = source.log@;
    let ghost d0 = dest.log@;
    let ghost a = s0.len() as int;
    let ghost b = d0.len() as int;
    let ghost names = pair_names(pair_views(tables@));
    proof {
        assert(source.log@.subrange(0, a) =~= s0);
        assert(dest.log@.subrange(0, b) =~= d0);
        assert(source.log@.subrange(a, a) =~= Seq::<Record>::empty());
        assert(dest.log@.subrange(b, b) =~= Seq::<Record>::empty());
        assert(names.take(0) =~= Seq::<Seq<char>>::empty());
    }
    let mut rows: usize = 0;
    let mut j: usize = 0;
    while j < tables.len()
        invariant
            j <= tables.len(),
            names == pair_names(pair_views(tables@)),
            a == s0.len(),
            b == d0.len(),
            s0 == old(source).log@,
            d0 == old(dest).log@,
            extends(*old(source), *source),
            extends(*old(dest), *dest),
            source.log@.len() == a + 2 * j,
            dest.log@.len() == b + copied_rows(source.log@.subrange(a, source.log@.len() as int)),
            tables_copied(
                source.log@.subrange(a, source.log@.len() as int),
                dest.log@.subrange(b, dest.log@.len() as int),
                names.take(j as int),
            ),
            rows == capped(copied_rows(source.log@.subrange(a, source.log@.len() as int))),
        decreases tables.len() - j,
    {
        let ghost sb = *source;
        let ghost db0 = *dest;
        let copied = copy_table(source, dest, tables[j].0.as_str());
        proof {
            lemma_extends_trans(*old(source), sb, *source);
            lemma_extends_trans(*old(dest), db0, *dest);
        }
        let c = match copied {
            Ok(c) => c,
            Err(e) => return Err(e),
        };
        proof {
            let sl = source.log@;
            let dl = dest.log@;
            let p = sb.log@.len() as int;
            let q = db0.log@.len() as int;
            let ls_old = sb.log@.subrange(a, p);
            let ld_old = db0.log@.subrange(b, q);
            let ls_new = sl.subrange(a, sl.len() as int);
            let ld_new = dl.subrange(b, dl.len() as int);
            assert(ls_new.subrange(0, ls_new.len() - 2) =~= ls_old) by {
                lemma_slice_within(sl, sb.log@, a, p);
            }
            assert(ls_new.subrange(ls_new.len() - 2, ls_new.len() as int) =~= sl.subrange(p, p + 2));
            assert(ls_new.last() == sl[p + 1]);
            assert(ld_new.subrange(0, ld_new.len() - c) =~= ld_old) by {
                lemma_slice_within(dl, db0.log@, b, q);
            }
            assert(ld_new.subrange(ld_new.len() - c, ld_new.len() as int) =~= dl.subrange(
                q,
                dl.len() as int,
            ));
            assert(names.take(j + 1).drop_last() =~= names.take(j as int));
            assert(names.take(j + 1).last() == tables@[j as int].0@);
            assert(copied_rows(ls_new) == copied_rows(ls_old) + c);
        }
        rows = rows.saturating_add(c);
        j += 1;
    }
    assert(names.take(tables.len() as int) =~= names);
    Ok(rows)
}

/// Replays the DDL of each pair of `ddls` on `dest`, in order, as
/// `sanitize_ddl` leaves it.
fn replay_ddls(dest: &mut Db, ddls: &Vec<(String, String)>) -> (r: Result<(), DbError>)
    ensures
        extends(*old(dest), *final(dest)),
        r matches Err(e) ==> e is Sqlite,
        r is Ok ==> replays(
            final(dest).log@.subrange(old(dest).log@.len() as int, final(dest).log@.len() as int),
            pair_views(ddls@),
        ),
{
    let ghost d0 = dest.log@;
    let ghost b = d0.len() as int;
    assert(dest.log@.subrange(0, b) =~= d0);
    let mut i: usize = 0;
    while i < ddls.len()
        invariant
            i <= ddls.len(),
            b == d0.len(),
            d0 == old(dest).log@,
            dest.conn == old(dest).conn,
            dest.log@.len() == b + i,
            dest.log@.subrange(0, b) == d0,
            forall|q: int|
                0 <= q < i ==> #[trigger] dest.log@[b + q] == entry(
                    spec_sanitize_ddl(ddls@[q].1@),
                    seq![],
                    seq![],
                    0,
                ),
        decreases ddls.len() - i,
    {
        let sanitized = sanitize_ddl(ddls[i].1.as_str());
        let ghost before = dest.log@;
        let done = dest.run_batch(sanitized.as_str());
        proof {
            assert(dest.log@.drop_last() == before);
            assert(dest.log@.subrange(0, b) =~= d0) by {
                assert(before.subrange(0, b) == d0);
            }
            assert forall|q: int| 0 <= q < i + 1 implies #[trigger] dest.log@[b + q] == entry(
                spec_sanitize_ddl(ddls@[q].1@),
                seq![],
                seq![],
                0,
            ) by {
                if q < i {
                    assert(dest.log@[b + q] == before[b + q]);
                }
            }
        }
        if let Err(e) = done {
            return Err(e);
        }
        i += 1;
    }
    proof {
        let seg = dest.log@.subrange(b, dest.log@.len() as int);
        assert forall|q: int| 0 <= q < seg.len() implies #[trigger] seg[q] == entry(
            spec_sanitize_ddl(pair_views(ddls@)[q].1),
            seq![],
            seq![],
            0,
        ) by {
            assert(seg[q] == dest.log@[b + q]);
        }
    }
    Ok(())
}

/// The kinds of schema object replayed after the rows are copied, in
/// order.
pub open spec fn later_kinds() -> Seq<Seq<char>> {
    seq!["index"@, "trigger"@, "view"@]
}

/// Reads the stored DDL of indexes, then triggers, then views
/// (`read_ddls`), replaying each list on `dest` as it is read
/// (`replay_ddls`).
fn replay_later_ddls(source: &mut Db, dest: &mut Db) -> (r: Result<(), DbError>)
    ensures
        extends(*old(source), *final(source)),
        extends(*old(dest), *final(dest)),
        r matches Err(e) ==> e is Sqlite || e is InvalidColumnType,
        r is Ok ==> {
            let ls = final(source).log@.subrange(
                old(source).log@.len() as int,
                final(source).log@.len() as int,
            );
            let ld = final(dest).log@.subrange(old(dest).log@.len() as int, final(dest).log@.len() as int);
            &&& ls.len() == 3
            &&& forall|q: int| 0 <= q < 3 ==> ddls_read(#[trigger] ls[q], later_kinds()[q])
            &&& replays(ld, pairs_read(ls))
        },
{
    let ghost a = source.log@.len() as int;
    let ghost b = dest.log@.len() as int;
    proof {
        assert(source.log@.subrange(0, a) =~= source.log@);
        assert(dest.log@.subrange(0, b) =~= dest.log@);
        assert(source.log@.subrange(a, a) =~= Seq::<Record>::empty());
        assert(dest.log@.subrange(b, b) =~= Seq::<Record>::empty());
    }
    let mut q: usize = 0;
    while q < 3
        invariant
            q <= 3,
            a == old(source).log@.len(),
            b == old(dest).log@.len(),
            extends(*old(source), *source),
            extends(*old(dest), *dest),
            source.log@.len() == a + q,
            forall|i: int| 0 <= i < q ==> ddls_read(#[trigger] source.log@[a + i], later_kinds()[i]),
            replays(
                dest.log@.subrange(b, dest.log@.len() as int),
                pairs_read(source.log@.subrange(a, source.log@.len() as int)),
            ),
        decreases 3 - q,
    {
        let kind = if q == 0 {
            "index"
        } else if q == 1 {
            "trigger"
        } else {
            "view"
        };
        let ghost sb = *source;
        let ghost db0 = *dest;
        let ddls = read_ddls(source, kind);
        proof {
            assert(source.log@.subrange(0, sb.log@.len() as int) =~= sb.log@);
            lemma_extends_trans(*old(source), sb, *source);
        }
        let ddls = match ddls {
            Ok(d) => d,
            Err(e) => return Err(e),
        };
        let ghost s1 = *source;
        let done = replay_ddls(dest, &ddls);
        proof {
            lemma_extends_trans(*old(dest), db0, *dest);
        }
        if let Err(e) = done {
            return Err(e);
        }
        proof {
            let sl = source.log@;
            let dl = dest.log@;
            let p = sb.log@.len() as int;
            let d = db0.log@.len() as int;
            assert(sl[a + q] == sl.last());
            assert(answered_pairs(sl.last()) == pair_views(ddls@));
            assert(ddls_read(sl[a + q], later_kinds()[q as int]));
            assert forall|i: int| 0 <= i < q + 1 implies ddls_read(
                #[trigger] sl[a + i],
                later_kinds()[i],
            ) by {
                if i < q {
                    assert(sl[a + i] == sb.log@[a + i]);
                }
            }
            let ls_new = sl.subrange(a, sl.len() as int);
            assert(ls_new.drop_last() =~= sb.log@.subrange(a, p));
            assert(ls_new.last() == sl.last());
            let ld_old = db0.log@.subrange(b, d);
            let ld_add = dl.subrange(d, dl.len() as int);
            assert(dl.subrange(b, dl.len() as int) =~= ld_old + ld_add) by {
                lemma_slice_within(dl, db0.log@, b, d);
            }
            lemma_replays_append(
                ld_old,
                pairs_read(sb.log@.subrange(a, p)),
                ld_add,
                pair_views(ddls@),
            );
        }
        q += 1;
    }
    proof {
        let ls = source.log@.subrange(a, source.log@.len() as int);
        assert forall|q: int| 0 <= q < 3 implies ddls_read(#[trigger] ls[q], later_kinds()[q]) by {
            assert(ls[q] == source.log@[a + q]);
        }
    }
    Ok(())
}

/// The `user_version` that a pragma's answer gives: the first column of
/// the first row, an integer that fits in 32 bits.
pub open spec fn user_version_value(rows: Seq<Vec<SqlCell>>) -> Option<i32> {
    if rows.len() > 0 && rows[0]@.len() > 0 {
        match rows[0]@[0] {
            SqlCell::Integer(v) => if -2147483648 <= v <= 2147483647 {
                Some(v as i32)
            } else {
                None
            },
            _ => None,
        }
    } else {
        None
    }
}

/// Reads the `user_version` pragma's answer (`user_version_value`); no row
/// is `QueryReturnedNoRows`, another value `InvalidColumnType`.
pub fn user_version_i32(rows: &Vec<Vec<SqlCell>>) -> (r: Result<i32, DbError>)
    ensures
        match r {
            Ok(v) => user_version_value(rows@) == Some(v),
            Err(e) => user_version_value(rows@) is None && (if rows.len() == 0 {
                e is QueryReturnedNoRows
            } else {
                e is InvalidColumnType
            }),
        },
{
    if rows.len() == 0 {
        return Err(DbError::QueryReturnedNoRows);
    }
    let v = integer_at(&rows[0], 0)?;
    if v < -2147483648 || v > 2147483647 {
        return Err(DbError::InvalidColumnType);
    }
    Ok(v as i32)
}

/// What a migration that returned `s` added to the records: `ls` to the
/// source's, `ld` to the destination's.
///
/// The source: the schema rewrite (`schema_sanitized`), the query of its
/// table DDL answering one pair per table counted, one table copy per
/// table, the queries of its index, trigger and view DDL, and the read of
/// `user_version`. The destination: `BEGIN`, the sanitised table DDL,
/// the rows of each table (`tables_copied`, as many as the selects read,
/// which `s.rows` counts up to `usize::MAX`), the sanitised index, trigger
/// and view DDL, `user_version` set to the value read, `application_id`
/// set to `DOLTLITE_APPLICATION_ID`, and `COMMIT`.
pub open spec fn migration_sent(ls: Seq<Record>, ld: Seq<Record>, s: Stats) -> bool {
    let t = s.tables as int;
    let k = ls.len() - 5 - 2 * t;
    let m = k + 1 + 2 * t;
    let copies = ls.subrange(k + 1, m);
    let c = copied_rows(copies) as int;
    let tables = answered_pairs(ls[k]);
    let later = pairs_read(ls.subrange(m, m + 3));
    &&& 3 <= k
    &&& schema_sanitized(ls.subrange(0, k))
    &&& ddls_read(ls[k], "table"@)
    &&& tables.len() == t
    &&& s.rows == capped(copied_rows(copies))
    &&& ld.len() == 1 + t + c + later.len() + 3
    &&& ld[0] == entry(begin_sql(), seq![], seq![], 0)
    &&& replays(ld.subrange(1, 1 + t), tables)
    &&& tables_copied(copies, ld.subrange(1 + t, 1 + t + c), pair_names(tables))
    &&& forall|q: int| 0 <= q < 3 ==> ddls_read(#[trigger] ls[m + q], later_kinds()[q])
    &&& replays(ld.subrange(1 + t + c, ld.len() - 3), later)
    &&& ls.last().0 == pragma_entry_sql("user_version"@)
    &&& ls.last().1 == Seq::<SqlArg>::empty()
    &&& user_version_value(ls.last().2) matches Some(v) && ld[ld.len() - 3] == entry(
        pragma_entry_sql("user_version"@),
        seq![SqlArg::Integer(v as i64)],
        seq![],
        0,
    )
    &&& ld[ld.len() - 2] == entry(
        pragma_entry_sql("application_id"@),
        seq![SqlArg::Integer(DOLTLITE_APPLICATION_ID as i64)],
        seq![],
        0,
    )
    &&& ld.last() == entry(commit_sql(), seq![], seq![], 0)
}

/// Copies a legacy SQLite database (`source`) into a fresh Doltlite one
/// (`dest`): sanitises the source schema in place, replays the sanitised
/// table DDL, copies all rows in one transaction, replays indexes, triggers
/// and views, keeps `user_version` and stamps `application_id`.
///
/// On success what it added to the two records is that migration
/// (`migration_sent`), with the tables and rows it counted.
pub fn migrate_databases(source: &mut Db, dest: &mut Db) -> (r: Result<Stats, DbError>)
    ensures
        extends(*old(source), *final(source)),
        extends(*old(dest), *final(dest)),
        r matches Err(e) ==> e is Sqlite || e is InvalidColumnType || e is QueryReturnedNoRows,
        r matches Ok(s) ==> migration_sent(
            final(source).log@.subrange(old(source).log@.len() as int, final(source).log@.len() as int),
            final(dest).log@.subrange(old(dest).log@.len() as int, final(dest).log@.len() as int),
            s,
        ),
{
    let ghost a = source.log@.len() as int;
    let ghost b = dest.log@.len() as int;
    assert(dest.log@.subrange(0, b) =~= dest.log@);
    sanitize_source_schema_in_place(source)?;
    let ghost src1 = *source;
    let began = dest.run_batch("BEGIN");
    let ghost dst1 = *dest;
    assert(extends(*old(dest), *dest)) by {
        assert(dest.log@.subrange(0, b) =~= old(dest).log@);
    }
    began?;
    let table_ddls = read_ddls(source, "table");
    let ghost src2 = *source;
    assert(extends(src1, src2)) by {
        assert(src2.log@.subrange(0, src1.log@.len() as int) =~= src1.log@);
    }
    proof {
        lemma_extends_trans(*old(source), src1, src2);
    }
    let table_ddls = table_ddls?;
    let replayed = replay_ddls(dest, &table_ddls);
    let ghost dst2 = *dest;
    proof {
        lemma_extends_trans(*old(dest), dst1, dst2);
    }
    replayed?;
    let copied = copy_tables(source, dest, &table_ddls);
    let ghost src3 = *source;
    let ghost dst3 = *dest;
    proof {
        lemma_extends_trans(*old(source), src2, src3);
        lemma_extends_trans(*old(dest), dst2, dst3);
    }
    let rows = copied?;
    let stats = Stats { tables: table_ddls.len(), rows };
    let later = replay_later_ddls(source, dest);
    let ghost src4 = *source;
    let ghost dst4 = *dest;
    proof {
        lemma_extends_trans(*old(source), src3, src4);
        lemma_extends_trans(*old(dest), dst3, dst4);
    }
    later?;
    let uv_rows = source.read_pragma("user_version");
    let ghost src5 = *source;
    assert(extends(src4, src5)) by {
        assert(src5.log@.subrange(0, src4.log@.len() as int) =~= src4.log@);
    }
    proof {
        lemma_extends_trans(*old(source), src4, src5);
    }
    let uv_rows = uv_rows?;
    let user_version = user_version_i32(&uv_rows)?;
    let set_uv = dest.set_pragma("user_version", &SqlArg::Integer(user_version as i64));
    let ghost dst5 = *dest;
    assert(extends(dst4, dst5)) by {
        assert(dst5.log@.subrange(0, dst4.log@.len() as int) =~= dst4.log@);
    }
    proof {
        lemma_extends_trans(*old(dest), dst4, dst5);
    }
    set_uv?;
    let set_id = dest.set_pragma("application_id", &SqlArg::Integer(DOLTLITE_APPLICATION_ID as i64));
    let ghost dst6 = *dest;
    assert(extends(dst5, dst6)) by {
        assert(dst6.log@.subrange(0, dst5.log@.len() as int) =~= dst5.log@);
    }
    proof {
        lemma_extends_trans(*old(dest), dst5, dst6);
    }
    set_id?;
    let committed = dest.run_batch("COMMIT");
    let ghost dst7 = *dest;
    assert(extends(dst6, dst7)) by {
        assert(dst7.log@.subrange(0, dst6.log@.len() as int) =~= dst6.log@);
    }
    proof {
        lemma_extends_trans(*old(dest), dst6, dst7);
    }
    committed?;
    proof {
        lemma_migration_sent(
            old(source).log@, src1.log@, src2.log@, src3.log@, src4.log@, src5.log@,
            old(dest).log@, dst1.log@, dst2.log@, dst3.log@, dst4.log@, dst5.log@, dst6.log@, dst7.log@,
            stats, user_version,
        );
    }
    Ok(stats)
}

#[verifier::rlimit(50)]
proof fn lemma_migration_sent(
    s0: Seq<Record>,
    s1: Seq<Record>,
    s2: Seq<Record>,
    s3: Seq<Record>,
    s4: Seq<Record>,
    s5: Seq<Record>,
    d0: Seq<Record>,
    d1: Seq<Record>,
    d2: Seq<Record>,
    d3: Seq<Record>,
    d4: Seq<Record>,
    d5: Seq<Record>,
    d6: Seq<Record>,
    d7: Seq<Record>,
    st: Stats,
    uv: i32,
)
    requires
        s0.len() <= s1.len() <= s2.len() <= s3.len() <= s4.len() <= s5.len(),
        s1.subrange(0, s0.len() as int) == s0,
        s2.subrange(0, s1.len() as int) == s1,
        s3.subrange(0, s2.len() as int) == s2,
        s4.subrange(0, s3.len() as int) == s3,
        s5.subrange(0, s4.len() as int) == s4,
        d0.len() <= d1.len() <= d2.len() <= d3.len() <= d4.len(),
        d2.subrange(0, d1.len() as int) == d1,
        d3.subrange(0, d2.len() as int) == d2,
        d4.subrange(0, d3.len() as int) == d3,
        schema_sanitized(s1.subrange(s0.len() as int, s1.len() as int)),
        s2.len() == s1.len() + 1,
        ddls_read(s2.last(), "table"@),
        answered_pairs(s2.last()).len() == st.tables,
        d1 == d0.push(entry(begin_sql(), seq![], seq![], 0)),
        replays(d2.subrange(d1.len() as int, d2.len() as int), answered_pairs(s2.last())),
        ({
            let ls = s3.subrange(s2.len() as int, s3.len() as int);
            let ld = d3.subrange(d2.len() as int, d3.len() as int);
            &&& ls.len() == 2 * st.tables
            &&& ld.len() == copied_rows(ls)
            &&& tables_copied(ls, ld, pair_names(answered_pairs(s2.last())))
            &&& st.rows == capped(copied_rows(ls))
        }),
        ({
            let ls = s4.subrange(s3.len() as int, s4.len() as int);
            let ld = d4.subrange(d3.len() as int, d4.len() as int);
            &&& ls.len() == 3
            &&& forall|q: int| 0 <= q < 3 ==> ddls_read(#[trigger] ls[q], later_kinds()[q])
            &&& replays(ld, pairs_read(ls))
        }),
        s5.len() == s4.len() + 1,
        s5.last().0 == pragma_entry_sql("user_version"@),
        s5.last().1 == Seq::<SqlArg>::empty(),
        user_version_value(s5.last().2) == Some(uv),
        d5 == d4.push(entry(pragma_entry_sql("user_version"@), seq![SqlArg::Integer(uv as i64)], seq![], 0)),
        d6 == d5.push(
            entry(
                pragma_entry_sql("application_id"@),
                seq![SqlArg::Integer(DOLTLITE_APPLICATION_ID as i64)],
                seq![],
                0,
            ),
        ),
        d7 == d6.push(entry(commit_sql(), seq![], seq![], 0)),
    ensures
        migration_sent(
            s5.subrange(s0.len() as int, s5.len() as int),
            d7.subrange(d0.len() as int, d7.len() as int),
            st,
        ),
{
    let a = s0.len() as int;
    let b = d0.len() as int;
    let ls = s5.subrange(a, s5.len() as int);
    let ld = d7.subrange(b, d7.len() as int);
    let t = st.tables as int;
    let k = s1.len() - a;
    let m = k + 1 + 2 * t;
    // the source's record, piece by piece
    lemma_prefix_trans(s5, s4, s3);
    lemma_prefix_trans(s5, s3, s2);
    lemma_prefix_trans(s5, s2, s1);
    assert(ls.len() == k + 5 + 2 * t);
    assert(ls.subrange(0, k) == s1.subrange(a, s1.len() as int)) by {
        lemma_slice_within(s5, s1, a, s1.len() as int);
        assert(ls.subrange(0, k) =~= s5.subrange(a, s1.len() as int));
    }
    assert(ls[k] == s2.last()) by {
        lemma_prefix_index(s5, s2, s1.len() as int);
    }
    let copies = ls.subrange(k + 1, m);
    assert(copies == s3.subrange(s2.len() as int, s3.len() as int)) by {
        lemma_slice_within(s5, s3, s2.len() as int, s3.len() as int);
        assert(copies =~= s5.subrange(s2.len() as int, s3.len() as int));
    }
    let later_ls = ls.subrange(m, m + 3);
    assert(later_ls == s4.subrange(s3.len() as int, s4.len() as int)) by {
        lemma_slice_within(s5, s4, s3.len() as int, s4.len() as int);
        assert(later_ls =~= s5.subrange(s3.len() as int, s4.len() as int));
    }
    assert forall|q: int| 0 <= q < 3 implies ddls_read(#[trigger] ls[m + q], later_kinds()[q]) by {
        assert(ls[m + q] == later_ls[q]);
    }
    assert(ls.last() == s5.last());
    // the destination's record, piece by piece
    let c = copied_rows(copies) as int;
    let later = pairs_read(later_ls);
    assert(d7.subrange(0, d4.len() as int) == d4) by {
        assert(d7.subrange(0, d4.len() as int) =~= d4);
    }
    lemma_prefix_trans(d7, d4, d3);
    lemma_prefix_trans(d7, d3, d2);
    assert(d2.len() == b + 1 + t);
    assert(d3.len() == b + 1 + t + c);
    assert(d4.len() == b + 1 + t + c + later.len());
    assert(ld.len() == 1 + t + c + later.len() + 3);
    assert(ld[0] == entry(begin_sql(), seq![], seq![], 0)) by {
        lemma_prefix_index(d7, d2, b);
        lemma_prefix_index(d2, d1, b);
    }
    assert(ld.subrange(1, 1 + t) == d2.subrange(d1.len() as int, d2.len() as int)) by {
        lemma_slice_within(d7, d2, b + 1, d2.len() as int);
        assert(ld.subrange(1, 1 + t) =~= d7.subrange(b + 1, d2.len() as int));
    }
    assert(ld.subrange(1 + t, 1 + t + c) == d3.subrange(d2.len() as int, d3.len() as int)) by {
        lemma_slice_within(d7, d3, d2.len() as int, d3.len() as int);
        assert(ld.subrange(1 + t, 1 + t + c) =~= d7.subrange(d2.len() as int, d3.len() as int));
    }
    assert(ld.subrange(1 + t + c, ld.len() - 3) == d4.subrange(d3.len() as int, d4.len() as int)) by {
        lemma_slice_within(d7, d4, d3.len() as int, d4.len() as int);
        assert(ld.subrange(1 + t + c, ld.len() - 3) =~= d7.subrange(d3.len() as int, d4.len() as int));
    }
    assert(ld[ld.len() - 3] == d5.last());
    assert(ld[ld.len() - 2] == d6.last());
    assert(ld.last() == d7.last());
}

/// The query of every stored DDL statement, tables first, then indexes,
/// then the rest.
pub open spec fn all_ddl_query() -> Seq<char> {
    "SELECT sql FROM sqlite_master WHERE sql IS NOT NULL AND name NOT LIKE 'sqlite_%' ORDER BY CASE type WHEN 'table' THEN 1 WHEN 'index' THEN 2 ELSE 3 END"@
}

/// The schema-only copy of the command-line tool: replays every stored
/// DDL statement of `source` (tables first, then indexes, then the rest)
/// into `dest` as it is, stamps `application_id` and compacts `dest`.
///
/// On success `dest` records exactly: each statement that the source's
/// DDL query answered, in order, then the `application_id` pragma with
/// `DOLTLITE_APPLICATION_ID`, then `VACUUM`.
pub fn replay_schema_and_stamp(source: &mut Db, dest: &mut Db) -> (r: Result<(), DbError>)
    ensures
        sent(*old(source), *final(source), all_ddl_query(), seq![]),
        extends(*old(dest), *final(dest)),
        r matches Err(e) ==> e is Sqlite || e is InvalidColumnType,
        r is Ok ==> {
            let answer = last_rows(*final(source));
            let b = old(dest).log@.len() as int;
            let ld = final(dest).log@;
            &&& ld.len() == b + answer.len() + 2
            &&& forall|j: int|
                0 <= j < answer.len() ==> exists|t: Seq<char>|
                    first_text_is(answer[j], t) && (#[trigger] ld[b + j]) == entry(t, seq![], seq![], 0)
            &&& ld[ld.len() - 2] == entry(
                pragma_entry_sql("application_id"@),
                seq![SqlArg::Integer(DOLTLITE_APPLICATION_ID as i64)],
                seq![],
                0,
            )
            &&& ld.last() == entry("VACUUM"@, seq![], seq![], 0)
        },
{
    let ghost d0 = dest.log@;
    let ghost b = d0.len() as int;
    let args: Vec<SqlArg> = Vec::new();
    assert(args@ =~= seq![]);
    let rows = source.query(
        "SELECT sql FROM sqlite_master WHERE sql IS NOT NULL AND name NOT LIKE 'sqlite_%' ORDER BY CASE type WHEN 'table' THEN 1 WHEN 'index' THEN 2 ELSE 3 END",
        &args,
    );
    assert(source.log@.drop_last() =~= old(source).log@);
    assert(dest.log@.subrange(0, b) =~= d0);
    let rows = rows?;
    let ddls = first_column_texts(&rows)?;
    assert(sent(*old(source), *source, all_ddl_query(), seq![]));
    let mut j: usize = 0;
    while j < ddls.len()
        invariant
            j <= ddls.len(),
            dest.conn == old(dest).conn,
            b == d0.len(),
            d0 == old(dest).log@,
            sent(*old(source), *source, all_ddl_query(), seq![]),
            dest.log@.len() == b + j,
            dest.log@.subrange(0, b) == d0,
            forall|q: int| 0 <= q < j ==> #[trigger] dest.log@[b + q] == entry(ddls@[q]@, seq![], seq![], 0),
        decreases ddls.len() - j,
    {
        let ghost before = dest.log@;
        let done = dest.run_batch(ddls[j].as_str());
        proof {
            assert(dest.log@.drop_last() == before);
            assert(dest.log@.subrange(0, b) =~= d0) by {
                assert(before.subrange(0, b) == d0);
            }
            assert forall|q: int| 0 <= q < j + 1 implies #[trigger] dest.log@[b + q] == entry(
                ddls@[q]@,
                seq![],
                seq![],
                0,
            ) by {
                if q < j {
                    assert(dest.log@[b + q] == before[b + q]);
                }
            }
        }
        done?;
        j += 1;
    }
    let ghost d1 = dest.log@;
    let set_id = dest.set_pragma("application_id", &SqlArg::Integer(DOLTLITE_APPLICATION_ID as i64));
    assert(dest.log@.subrange(0, b) =~= d0) by {
        assert(dest.log@.drop_last() == d1);
    }
    set_id?;
    let ghost d2 = dest.log@;
    let vac = dest.run_batch("VACUUM");
    proof {
        let ld = dest.log@;
        assert(ld.drop_last() == d2);
        assert(d2.drop_last() == d1);
        assert(ld.subrange(0, b) =~= d0);
        assert(ld[ld.len() - 2] == d2.last());
        assert forall|q: int| 0 <= q < rows@.len() implies exists|t: Seq<char>|
            first_text_is(rows@[q], t) && (#[trigger] ld[b + q]) == entry(t, seq![], seq![], 0) by {
            assert(ld[b + q] == d1[b + q]);
            assert(first_text_is(rows@[q], ddls@[q]@));
        }
    }
    vac?;
    Ok(())
}

} // verus!
