//! The server-side media database: opening it, configuring the engine and
//! bringing its schema up to date.

use vstd::prelude::*;
use crate::sql::{
    appended, binds_text, busy_timeout_entry, entry, Record, extends, first_text_cell, integer_at, last_rows,
    pragma_entry_sql, sent, Db, DbError, SqlArg, SqlCell,
};
use crate::text::{push_char, str_eq, views};

verus! {

/// The media database of a sync server.
pub struct ServerMediaDatabase {
    pub db: rusqlite::Connection,
    /// The record of the statements sent to open and upgrade it.
    pub setup: Ghost<Seq<Record>>,
}

/// `s` with every occurrence of `from` (scanning left to right, not
/// overlapping) replaced by `to` (`str::replace`); `from` is non-empty.
pub open spec fn replace_all(s: Seq<char>, from: Seq<char>, to: Seq<char>) -> Seq<char>
    decreases s.len(),
{
    if from.len() == 0 || s.len() < from.len() {
        s
    } else if s.subrange(0, from.len() as int) == from {
        to + replace_all(s.subrange(from.len() as int, s.len() as int), from, to)
    } else {
        seq![s[0]] + replace_all(s.subrange(1, s.len() as int), from, to)
    }
}

/// `s` has `from` at offset `i`.
pub open spec fn occurs_at(s: Seq<char>, from: Seq<char>, i: int) -> bool {
    0 <= i && i + from.len() <= s.len() && s.subrange(i, i + from.len()) == from
}

fn occurs_at_exec(s: &Vec<char>, from: &Vec<char>, i: usize) -> (r: bool)
    requires
        i <= s.len(),
    ensures
        r == occurs_at(s@, from@, i as int),
{
    if from.len() > s.len() - i {
        return false;
    }
    let mut k: usize = 0;
    while k < from.len()
        invariant
            k <= from.len(),
            i + from.len() <= s.len(),
            forall|q: int| 0 <= q < k ==> s@[i + q] == from@[q],
        decreases from.len() - k,
    {
        if s[i + k] != from[k] {
            assert(s@.subrange(i as int, i + from.len())[k as int] != from@[k as int]);
            return false;
        }
        k += 1;
    }
    assert(s@.subrange(i as int, i + from.len()) =~= from@);
    true
}

/// Replaces every occurrence of `from` (non-empty) by `to`.
pub fn replace_str(s: &str, from: &str, to: &str) -> (r: String)
    requires
        from@.len() > 0,
    ensures
        r@ == replace_all(s@, from@, to@),
{
    let cs = crate::text::chars_of(s);
    let fs = crate::text::chars_of(from);
    let mut out = String::new();
    let mut i: usize = 0;
    assert(cs@.subrange(0, cs@.len() as int) =~= cs@);
    assert(out@ + replace_all(cs@, fs@, to@) =~= replace_all(cs@, fs@, to@));
    while i < cs.len()
        invariant
            i <= cs.len(),
            fs@.len() > 0,
            out@ + replace_all(cs@.subrange(i as int, cs@.len() as int), fs@, to@) == replace_all(
                cs@,
                fs@,
                to@,
            ),
        decreases cs.len() - i,
    {
        let ghost rest = cs@.subrange(i as int, cs@.len() as int);
        if occurs_at_exec(&cs, &fs, i) {
            proof {
                assert(rest.subrange(0, fs@.len() as int) =~= cs@.subrange(i as int, i + fs@.len()));
                assert(rest.subrange(fs@.len() as int, rest.len() as int) =~= cs@.subrange(
                    i + fs@.len(),
                    cs@.len() as int,
                ));
            }
            let ghost before = out@;
            out.append(to);
            assert(out@ =~= before + to@);
            i = i + fs.len();
        } else {
            proof {
                if rest.len() >= fs@.len() {
                    assert(rest.subrange(0, fs@.len() as int) =~= cs@.subrange(
                        i as int,
                        i + fs@.len(),
                    ));
                }
                assert(rest.subrange(1, rest.len() as int) =~= cs@.subrange(
                    i + 1,
                    cs@.len() as int,
                ));
                if rest.len() < fs@.len() {
                    assert(rest =~= seq![rest[0]] + rest.subrange(1, rest.len() as int));
                    assert(replace_all(rest.subrange(1, rest.len() as int), fs@, to@)
                        == rest.subrange(1, rest.len() as int));
                }
            }
            let ghost before = out@;
            push_char(&mut out, cs[i]);
            assert(out@ =~= before.push(cs@[i as int]));
            i = i + 1;
        }
    }
    proof {
        assert(cs@.subrange(cs@.len() as int, cs@.len() as int) =~= Seq::<char>::empty());
        assert(cs@ == s@);
    }
    out
}

/// `BEGIN exclusive`
pub open spec fn begin_exclusive() -> Seq<char> {
    seq!['B', 'E', 'G', 'I', 'N', ' ', 'e', 'x', 'c', 'l', 'u', 's', 'i', 'v', 'e']
}

/// `vacuum;`
pub open spec fn vacuum_stmt() -> Seq<char> {
    seq!['v', 'a', 'c', 'u', 'u', 'm', ';']
}

/// The schema script as run on an engine: on Doltlite, exclusive
/// transactions become plain ones and `vacuum;` is dropped.
pub open spec fn schema_sql_for_engine(sql: Seq<char>, doltlite: bool) -> Seq<char> {
    if doltlite {
        replace_all(
            replace_all(sql, begin_exclusive(), seq!['B', 'E', 'G', 'I', 'N']),
            vacuum_stmt(),
            Seq::<char>::empty(),
        )
    } else {
        sql
    }
}

/// Adapts a schema script to the engine it runs on.
pub fn adapt_schema_sql(sql: &str, doltlite: bool) -> (r: String)
    ensures
        r@ == schema_sql_for_engine(sql@, doltlite),
{
    if doltlite {
        proof {
            reveal_strlit("BEGIN exclusive");
            reveal_strlit("BEGIN");
            reveal_strlit("vacuum;");
            reveal_strlit("");
            assert("BEGIN exclusive"@ =~= begin_exclusive());
            assert("BEGIN"@ =~= seq!['B', 'E', 'G', 'I', 'N']);
            assert("vacuum;"@ =~= vacuum_stmt());
            assert(""@ =~= Seq::<char>::empty());
        }
        let s = replace_str(sql, "BEGIN exclusive", "BEGIN");
        replace_str(s.as_str(), "vacuum;", "")
    } else {
        sql.to_owned()
    }
}

/// Runs a schema script, adapted to the engine.
pub fn execute_schema_sql(db: &mut Db, sql: &str, doltlite: bool) -> (r: Result<(), DbError>)
    ensures
        appended(*old(db), *final(db), entry(schema_sql_for_engine(sql@, doltlite), seq![], seq![], 0)),
        r matches Err(e) ==> e is Sqlite,
{
    let adapted = adapt_schema_sql(sql, doltlite);
    db.run_batch(adapted.as_str())
}

/// `prolly`
pub open spec fn prolly() -> Seq<char> {
    seq!['p', 'r', 'o', 'l', 'l', 'y']
}

/// Whether `select doltlite_engine()` answered `prolly` as text.
pub open spec fn engine_is_prolly(rows: Seq<Vec<SqlCell>>) -> bool {
    first_text_cell(rows) == Some(prolly())
}

/// Reads the answer of `select doltlite_engine()` (`engine_is_prolly`).
pub fn engine_rows_are_prolly(rows: &Vec<Vec<SqlCell>>) -> (r: bool)
    ensures
        r == engine_is_prolly(rows@),
{
    if rows.len() == 0 || rows[0].len() == 0 {
        return false;
    }
    match &rows[0][0] {
        SqlCell::Text(t) => {
            proof {
                reveal_strlit("prolly");
                assert("prolly"@ =~= prolly());
            }
            str_eq(t.as_str(), "prolly")
        },
        _ => false,
    }
}

/// Whether the connection runs Doltlite's prolly engine: `doltlite_engine()`
/// answers `prolly`. Any failure counts as no.
pub fn is_doltlite_db(db: &mut Db) -> (r: bool)
    ensures
        sent(*old(db), *final(db), engine_query(), seq![]),
        r == engine_is_prolly(last_rows(*final(db))),
{
    let args: Vec<SqlArg> = Vec::new();
    assert(args@ =~= seq![]);
    let rows = db.query("select doltlite_engine()", &args);
    assert(db.log@.drop_last() =~= old(db).log@);
    match rows {
        Ok(rows) => engine_rows_are_prolly(&rows),
        Err(_) => false,
    }
}

/// The query that names the storage engine.
pub open spec fn engine_query() -> Seq<char> {
    "select doltlite_engine()"@
}

/// The query of the schema version.
pub open spec fn user_version_query() -> Seq<char> {
    "select user_version from pragma_user_version"@
}

/// The schema version in the answer of `select user_version ...`: the
/// first cell as an integer that fits in `u32`.
pub open spec fn user_version_of(rows: Seq<Vec<SqlCell>>) -> Option<u32> {
    if rows.len() > 0 && rows[0]@.len() > 0 {
        match rows[0]@[0] {
            SqlCell::Integer(v) => if 0 <= v <= u32::MAX {
                Some(v as u32)
            } else {
                None
            },
            _ => None,
        }
    } else {
        None
    }
}

/// Reads the schema version (`user_version_of`); no row is
/// `QueryReturnedNoRows`, another value `InvalidColumnType`.
pub fn user_version_from_rows(rows: &Vec<Vec<SqlCell>>) -> (r: Result<u32, DbError>)
    ensures
        match r {
            Ok(v) => user_version_of(rows@) == Some(v),
            Err(e) => user_version_of(rows@) is None && (if rows.len() == 0 {
                e is QueryReturnedNoRows
            } else {
                e is InvalidColumnType
            }),
        },
{
    if rows.len() == 0 {
        return Err(DbError::QueryReturnedNoRows);
    }
    let v = integer_at(&rows[0], 0)?;
    if v < 0 || v > 4294967295 {
        return Err(DbError::InvalidColumnType);
    }
    Ok(v as u32)
}

/// The schema scripts that a database at `version` still needs, in order:
/// the version-3 script below 3, then the version-4 script below 4.
pub open spec fn upgrade_scripts(version: u32, v3: Seq<char>, v4: Seq<char>) -> Seq<Seq<char>> {
    (if version < 3 {
        seq![v3]
    } else {
        seq![]
    }) + (if version < 4 {
        seq![v4]
    } else {
        seq![]
    })
}

/// Every database below version 4 is brought to version 4: its plan ends
/// with the version-4 script; one below version 3 runs exactly the
/// version-3 script and then the version-4 script; one at version 3 runs
/// the version-4 script alone; one at version 4 or above runs nothing.
pub proof fn law_upgrade_reaches_version_4(version: u32, v3: Seq<char>, v4: Seq<char>)
    ensures
        version < 4 ==> upgrade_scripts(version, v3, v4).len() >= 1
            && upgrade_scripts(version, v3, v4).last() == v4,
        version < 3 ==> upgrade_scripts(version, v3, v4) == seq![v3, v4],
        version == 3 ==> upgrade_scripts(version, v3, v4) == seq![v4],
        version >= 4 ==> upgrade_scripts(version, v3, v4).len() == 0,
{
    if version < 3 {
        assert(upgrade_scripts(version, v3, v4) =~= seq![v3, v4]);
    } else if version < 4 {
        assert(upgrade_scripts(version, v3, v4) =~= seq![v4]);
    } else {
        assert(upgrade_scripts(version, v3, v4) =~= Seq::<Seq<char>>::empty());
    }
}

/// The scripts to run for a database at `version` (`upgrade_scripts`).
pub fn upgrade_plan(version: u32, schema_v3: &str, schema_v4: &str) -> (r: Vec<String>)
    ensures
        views(r@) == upgrade_scripts(version, schema_v3@, schema_v4@),
{
    let mut out: Vec<String> = Vec::new();
    if version < 3 {
        out.push(schema_v3.to_owned());
    }
    if version < 4 {
        out.push(schema_v4.to_owned());
    }
    assert(views(out@) =~= upgrade_scripts(version, schema_v3@, schema_v4@));
    out
}

/// `e` records pragma `name` set to the text `value`.
pub open spec fn sets_pragma(e: Record, name: Seq<char>, value: Seq<char>) -> bool {
    &&& e.0 == pragma_entry_sql(name)
    &&& e.1.len() == 1
    &&& binds_text(e.1[0], value)
}

/// The record `l`, from index `n` on, is the upgrade of a media database
/// (`setup_media_db`): the engine query; unless it answered `prolly`,
/// `locking_mode` set to `exclusive` and `journal_mode` set to `wal`; the
/// schema-version query; the engine query again; and the scripts of
/// `upgrade_scripts` for that version, each adapted to the engine that the
/// second engine query reported.
pub open spec fn media_upgrade(l: Seq<Record>, n: int, schema_v3: Seq<char>, schema_v4: Seq<char>) -> bool {
    let e1 = engine_is_prolly(l[n].2);
    let p: int = if e1 { 0 } else { 2 };
    &&& l.len() >= n + 3 + p
    &&& l[n].0 == engine_query()
    &&& !e1 ==> sets_pragma(l[n + 1], "locking_mode"@, "exclusive"@) && sets_pragma(
        l[n + 2],
        "journal_mode"@,
        "wal"@,
    )
    &&& l[n + 1 + p].0 == user_version_query()
    &&& user_version_of(l[n + 1 + p].2) is Some
    &&& l[n + 2 + p].0 == engine_query()
    &&& l.len() == n + 3 + p + upgrade_scripts(
        user_version_of(l[n + 1 + p].2)->0,
        schema_v3,
        schema_v4,
    ).len()
    &&& forall|j: int|
        0 <= j < l.len() - (n + 3 + p) ==> #[trigger] l[n + 3 + p + j] == entry(
            schema_sql_for_engine(
                upgrade_scripts(user_version_of(l[n + 1 + p].2)->0, schema_v3, schema_v4)[j],
                engine_is_prolly(l[n + 2 + p].2),
            ),
            seq![],
            seq![],
            0,
        )
}

/// The record `l`, from index `n` on, is the opening of a media database
/// (`open_or_create_db`): a busy timeout of zero, then its upgrade.
pub open spec fn media_setup(l: Seq<Record>, n: int, schema_v3: Seq<char>, schema_v4: Seq<char>) -> bool {
    &&& 0 <= n < l.len()
    &&& l[n] == busy_timeout_entry(0)
    &&& media_upgrade(l, n + 1, schema_v3, schema_v4)
}

/// Configures a media database and brings its schema to version 4.
///
/// On success the record holds, in order: the engine query; unless it
/// answered `prolly`, `locking_mode` set to `exclusive` and
/// `journal_mode` set to `wal`; the schema-version query; the engine
/// query again; and the scripts of `upgrade_scripts` for that version,
/// each adapted to the engine that the second engine query reported.
pub fn setup_media_db(d: &mut Db, schema_v3: &str, schema_v4: &str) -> (r: Result<(), DbError>)
    ensures
        extends(*old(d), *final(d)),
        r is Ok ==> media_upgrade(final(d).log@, old(d).log@.len() as int, schema_v3@, schema_v4@),
{
    let ghost l0 = d.log@;
    let ghost n = l0.len() as int;
    assert(d.log@.subrange(0, n) =~= l0);
    let first = is_doltlite_db(d);
    let ghost l1 = d.log@;
    assert(l1.subrange(0, n) =~= l0);
    assert(l1[n] == l1.last());
    if !first {
        let lock = d.set_pragma("locking_mode", &SqlArg::Text("exclusive".to_owned()));
        assert(d.log@.subrange(0, n) =~= l0);
        lock?;
        let ghost la = d.log@;
        let wal = d.set_pragma("journal_mode", &SqlArg::Text("wal".to_owned()));
        assert(d.log@.subrange(0, n) =~= l0);
        wal?;
        proof {
            let l = d.log@;
            assert(l[n + 1] == la.last());
            assert(sets_pragma(l[n + 1], "locking_mode"@, "exclusive"@));
            assert(sets_pragma(l[n + 2], "journal_mode"@, "wal"@));
        }
    }
    let ghost l2 = d.log@;
    let ghost p: int = if first { 0 } else { 2 };
    assert(l2.len() == n + 1 + p);
    assert(l2.subrange(0, n + 1) == l1);
    let args: Vec<SqlArg> = Vec::new();
    assert(args@ =~= seq![]);
    let rows = d.query("select user_version from pragma_user_version", &args);
    assert(d.log@.subrange(0, n) =~= l0);
    let rows = rows?;
    let ver = user_version_from_rows(&rows)?;
    let ghost l3 = d.log@;
    assert(l3[n + 1 + p] == l3.last());
    assert(user_version_of(l3[n + 1 + p].2) == Some(ver));
    let doltlite = is_doltlite_db(d);
    let ghost l4 = d.log@;
    assert(l4.subrange(0, n) =~= l0);
    assert(l4[n + 2 + p] == l4.last());
    assert(l4[n + 1 + p] == l3[n + 1 + p]);
    assert(l2[n] == l1[n]) by {
        assert(l2.subrange(0, n + 1)[n] == l2[n]);
    }
    assert(l3[n] == l2[n]);
    assert(l4[n] == l3[n]);
    assert(doltlite == engine_is_prolly(l4[n + 2 + p].2));
    assert(!first ==> l4[n + 1] == l2[n + 1] && l4[n + 2] == l2[n + 2]) by {
        if !first {
            assert(l3[n + 1] == l2[n + 1]);
            assert(l3[n + 2] == l2[n + 2]);
        }
    }
    let scripts = upgrade_plan(ver, schema_v3, schema_v4);
    let mut i: usize = 0;
    while i < scripts.len()
        invariant
            i <= scripts.len(),
            views(scripts@) == upgrade_scripts(ver, schema_v3@, schema_v4@),
            d.conn == old(d).conn,
            l0 == old(d).log@,
            n == l0.len(),
            l4.len() == n + 3 + p,
            0 <= p <= 2,
            l4.subrange(0, n) == l0,
            d.log@.len() == n + 3 + p + i,
            d.log@.subrange(0, n + 3 + p) == l4,
            forall|j: int|
                0 <= j < i ==> #[trigger] d.log@[n + 3 + p + j] == entry(
                    schema_sql_for_engine(scripts@[j]@, doltlite),
                    seq![],
                    seq![],
                    0,
                ),
        decreases scripts.len() - i,
    {
        let ghost before = d.log@;
        let done = execute_schema_sql(d, scripts[i].as_str(), doltlite);
        proof {
            assert(d.log@.drop_last() == before);
            assert(d.log@.subrange(0, n + 3 + p) =~= l4) by {
                assert(before.subrange(0, n + 3 + p) == l4);
            }
            assert forall|j: int| 0 <= j < i + 1 implies #[trigger] d.log@[n + 3 + p + j] == entry(
                schema_sql_for_engine(scripts@[j]@, doltlite),
                seq![],
                seq![],
                0,
            ) by {
                if j < i {
                    assert(d.log@[n + 3 + p + j] == before[n + 3 + p + j]);
                }
            }
        }
        if let Err(e) = done {
            assert(d.log@.subrange(0, n) =~= l0) by {
                assert(d.log@.subrange(0, n + 3 + p).subrange(0, n) =~= d.log@.subrange(0, n));
            }
            return Err(e);
        }
        i += 1;
    }
    proof {
        let l = d.log@;
        assert(l.subrange(0, n) =~= l0) by {
            assert(l.subrange(0, n + 3 + p).subrange(0, n) =~= l.subrange(0, n));
        }
        assert(l[n] == l4[n]) by {
            assert(l.subrange(0, n + 3 + p)[n] == l[n]);
        }
        assert(l[n + 1 + p] == l4[n + 1 + p]) by {
            assert(l.subrange(0, n + 3 + p)[n + 1 + p] == l[n + 1 + p]);
        }
        assert(l[n + 2 + p] == l4[n + 2 + p]) by {
            assert(l.subrange(0, n + 3 + p)[n + 2 + p] == l[n + 2 + p]);
        }
        if !first {
            assert(l[n + 1] == l4[n + 1]) by {
                assert(l.subrange(0, n + 3 + p)[n + 1] == l[n + 1]);
            }
            assert(l[n + 2] == l4[n + 2]) by {
                assert(l.subrange(0, n + 3 + p)[n + 2] == l[n + 2]);
            }
        }
        assert(user_version_of(l[n + 1 + p].2) == Some(ver));
        assert(doltlite == engine_is_prolly(l[n + 2 + p].2));
        assert forall|j: int| 0 <= j < l.len() - (n + 3 + p) implies #[trigger] l[n + 3 + p + j] == entry(
            schema_sql_for_engine(
                upgrade_scripts(user_version_of(l[n + 1 + p].2)->0, schema_v3@, schema_v4@)[j],
                engine_is_prolly(l[n + 2 + p].2),
            ),
            seq![],
            seq![],
            0,
        ) by {
            assert(views(scripts@)[j] == scripts@[j]@);
        }
    }
    Ok(())
}

/// Configures a freshly opened media database and brings its schema to
/// version 4: a busy timeout of zero, then `setup_media_db`
/// (`media_setup`).
pub fn open_or_create_db(d: &mut Db, schema_v3: &str, schema_v4: &str) -> (r: Result<(), DbError>)
    ensures
        extends(*old(d), *final(d)),
        r is Ok ==> media_setup(final(d).log@, old(d).log@.len() as int, schema_v3@, schema_v4@),
{
    let ghost l0 = d.log@;
    let busy = d.set_busy_timeout(0);
    assert(d.log@.subrange(0, l0.len() as int) =~= l0);
    busy?;
    let ghost l1 = d.log@;
    let r = setup_media_db(d, schema_v3, schema_v4);
    proof {
        let l = d.log@;
        assert(l.subrange(0, l0.len() as int) =~= l0) by {
            assert(l.subrange(0, l1.len() as int).subrange(0, l0.len() as int) =~= l.subrange(
                0,
                l0.len() as int,
            ));
        }
        assert(l[l0.len() as int] == l1[l0.len() as int]) by {
            assert(l.subrange(0, l1.len() as int)[l0.len() as int] == l[l0.len() as int]);
        }
    }
    r
}

impl ServerMediaDatabase {
    /// Opens the media database over a connection, configuring and
    /// upgrading it with the given schema scripts (`open_or_create_db`);
    /// `setup` is the record of the statements sent.
    pub fn new(db: rusqlite::Connection, schema_v3: &str, schema_v4: &str) -> (r: Result<Self, DbError>)
        ensures
            r matches Ok(m) ==> m.db == db && media_setup(m.setup@, 0, schema_v3@, schema_v4@),
    {
        let mut d = Db::new(&db);
        let opened = open_or_create_db(&mut d, schema_v3, schema_v4);
        let ghost setup = d.log@;
        match opened {
            Ok(()) => Ok(ServerMediaDatabase { db, setup: Ghost(setup) }),
            Err(e) => Err(e),
        }
    }
}

} // verus!
