//! The calls into `rusqlite` that the library makes, and the plain values
//! that cross that boundary.
//!
//! What a query returns depends on the database on disk, so nothing is
//! promised of it here; the verified code that reads the rows states what
//! holds for every outcome.

use vstd::prelude::*;

verus! {

#[verifier::external_type_specification]
#[verifier::external_body]
pub struct ExConnection(rusqlite::Connection);

#[verifier::external_type_specification]
#[verifier::external_body]
pub struct ExSqliteError(rusqlite::Error);

#[verifier::external_type_specification]
#[verifier::external_body]
pub struct ExSqlValue(rusqlite::types::Value);

/// A parameter bound to a statement.
#[derive(Debug)]
pub enum SqlArg {
    Integer(i64),
    Text(String),
}

/// One column value of a result row. A floating-point value is only
/// recorded as such; the library never reads one.
#[derive(Debug)]
pub enum SqlCell {
    Null,
    Integer(i64),
    Real,
    Text(String),
    Blob(Vec<u8>),
}

/// Errors of the database layer.
#[derive(Debug)]
pub enum DbError {
    /// An error reported by SQLite through `rusqlite`.
    Sqlite(rusqlite::Error),
    /// A column did not hold the type that was asked for.
    InvalidColumnType,
    /// A statement that must return a row returned none.
    QueryReturnedNoRows,
}

// ---------------------------------------------------------------------
// Trusted calls into rusqlite
// ---------------------------------------------------------------------

/// `rusqlite::types::Value::from(i64)`: an integer SQL value.
#[verifier::external_body]
pub(crate) fn integer_value(i: i64) -> rusqlite::types::Value {
    rusqlite::types::Value::from(i)
}

/// `rusqlite::types::Value::from(String)`: a text SQL value.
#[verifier::external_body]
pub(crate) fn text_value(s: String) -> rusqlite::types::Value {
    rusqlite::types::Value::from(s)
}

/// Tells the variants of a `rusqlite::types::Value` apart, moving the
/// payload into the matching `SqlCell` variant.
#[verifier::external_body]
pub(crate) fn cell_of(v: rusqlite::types::Value) -> SqlCell {
    match v {
        rusqlite::types::Value::Null => SqlCell::Null,
        rusqlite::types::Value::Integer(i) => SqlCell::Integer(i),
        rusqlite::types::Value::Real(_) => SqlCell::Real,
        rusqlite::types::Value::Text(s) => SqlCell::Text(s),
        rusqlite::types::Value::Blob(b) => SqlCell::Blob(b),
    }
}

/// Prepares `sql` (`Connection::prepare_cached`), runs it with the given
/// parameters (`Statement::query_map`, `params_from_iter`) and collects
/// every column of every row (`Row::get`). Nothing is promised of the rows:
/// they come from the database.
#[verifier::external_body]
pub(crate) fn query_values(
    db: &rusqlite::Connection,
    sql: &str,
    params: &Vec<rusqlite::types::Value>,
) -> Result<Vec<Vec<rusqlite::types::Value>>, rusqlite::Error> {
    let mut stmt = db.prepare_cached(sql)?;
    let n = stmt.column_count();
    let rows = stmt.query_map(
        rusqlite::params_from_iter(params.iter()),
        |row| (0..n).map(|i| row.get(i)).collect::<rusqlite::Result<Vec<_>>>(),
    )?;
    rows.collect()
}

/// The names of the result columns of `sql` (`Connection::prepare`,
/// `Statement::column_name`), `None` where a name cannot be read.
#[verifier::external_body]
pub(crate) fn column_names(db: &rusqlite::Connection, sql: &str) -> Result<
    Vec<Option<String>>,
    rusqlite::Error,
> {
    let stmt = db.prepare(sql)?;
    Ok((0..stmt.column_count()).map(|i| stmt.column_name(i).ok().map(|s| s.to_string())).collect())
}

/// `Connection::execute` with the given parameters: the number of rows
/// changed, as SQLite reports it.
#[verifier::external_body]
pub(crate) fn execute(db: &rusqlite::Connection, sql: &str, params: &Vec<rusqlite::types::Value>) -> Result<
    usize,
    rusqlite::Error,
> {
    db.execute(sql, rusqlite::params_from_iter(params.iter()))
}

/// `Connection::execute_batch`: runs every statement of `sql`.
#[verifier::external_body]
pub(crate) fn execute_batch(db: &rusqlite::Connection, sql: &str) -> Result<(), rusqlite::Error> {
    db.execute_batch(sql)
}

/// `Connection::pragma_update` on the main schema.
#[verifier::external_body]
pub(crate) fn pragma_update(db: &rusqlite::Connection, name: &str, value: &rusqlite::types::Value) -> Result<
    (),
    rusqlite::Error,
> {
    db.pragma_update(None, name, value)
}

/// `Connection::pragma_query_value` on the main schema, reading the first
/// column.
#[verifier::external_body]
pub(crate) fn pragma_query_value(db: &rusqlite::Connection, name: &str) -> Result<
    rusqlite::types::Value,
    rusqlite::Error,
> {
    db.pragma_query_value(None, name, |r| r.get(0))
}

/// `Connection::busy_timeout` with a whole number of seconds
/// (`Duration::from_secs`). rusqlite converts the timeout to milliseconds
/// in an `i32` and panics when it does not fit, so `secs` is bounded.
#[verifier::external_body]
pub(crate) fn busy_timeout_secs(db: &rusqlite::Connection, secs: u64) -> Result<(), rusqlite::Error>
    requires
        secs <= 2147483,
{
    db.busy_timeout(std::time::Duration::from_secs(secs))
}

// ---------------------------------------------------------------------
// Verified plumbing
// ---------------------------------------------------------------------

/// The SQL value of a parameter.
pub fn arg_value(a: &SqlArg) -> rusqlite::types::Value {
    match a {
        SqlArg::Integer(i) => integer_value(*i),
        SqlArg::Text(s) => text_value(s.clone()),
    }
}

/// The SQL values of a parameter list, in order.
pub fn arg_values(args: &Vec<SqlArg>) -> (r: Vec<rusqlite::types::Value>)
    ensures
        r.len() == args.len(),
{
    let mut out: Vec<rusqlite::types::Value> = Vec::new();
    let mut i: usize = 0;
    while i < args.len()
        invariant
            i <= args.len(),
            out.len() == i,
        decreases args.len() - i,
    {
        out.push(arg_value(&args[i]));
        i += 1;
    }
    out
}

/// Runs a query and reads every row as a list of cells.
pub fn query(db: &rusqlite::Connection, sql: &str, args: &Vec<SqlArg>) -> (r: Result<
    Vec<Vec<SqlCell>>,
    DbError,
>)
    ensures
        r matches Err(e) ==> e is Sqlite,
{
    let params = arg_values(args);
    let raw = match query_values(db, sql, &params) {
        Ok(rows) => rows,
        Err(e) => return Err(DbError::Sqlite(e)),
    };
    let mut out: Vec<Vec<SqlCell>> = Vec::new();
    for row in raw {
        let mut cells: Vec<SqlCell> = Vec::new();
        for v in row {
            cells.push(cell_of(v));
        }
        out.push(cells);
    }
    Ok(out)
}

/// Runs a statement that changes rows.
pub fn run(db: &rusqlite::Connection, sql: &str, args: &Vec<SqlArg>) -> (r: Result<usize, DbError>)
    ensures
        r matches Err(e) ==> e is Sqlite,
{
    let params = arg_values(args);
    match execute(db, sql, &params) {
        Ok(n) => Ok(n),
        Err(e) => Err(DbError::Sqlite(e)),
    }
}

/// Runs every statement of a batch.
pub fn run_batch(db: &rusqlite::Connection, sql: &str) -> (r: Result<(), DbError>)
    ensures
        r matches Err(e) ==> e is Sqlite,
{
    match execute_batch(db, sql) {
        Ok(()) => Ok(()),
        Err(e) => Err(DbError::Sqlite(e)),
    }
}

/// The first column of the first row, when it is text.
pub open spec fn first_text_cell(rows: Seq<Vec<SqlCell>>) -> Option<Seq<char>> {
    if rows.len() > 0 && rows[0]@.len() > 0 {
        match rows[0]@[0] {
            SqlCell::Text(t) => Some(t@),
            _ => None,
        }
    } else {
        None
    }
}

/// The first two columns of a row when both are text.
pub open spec fn two_texts(row: Vec<SqlCell>) -> Option<(Seq<char>, Seq<char>)> {
    if row@.len() >= 2 {
        match (row@[0], row@[1]) {
            (SqlCell::Text(a), SqlCell::Text(b)) => Some((a@, b@)),
            _ => None,
        }
    } else {
        None
    }
}

/// The first three columns of a row when all three are text.
pub open spec fn three_texts(row: Vec<SqlCell>) -> Option<(Seq<char>, Seq<char>, Seq<char>)> {
    if row@.len() >= 3 {
        match (row@[0], row@[1], row@[2]) {
            (SqlCell::Text(a), SqlCell::Text(b), SqlCell::Text(c)) => Some((a@, b@, c@)),
            _ => None,
        }
    } else {
        None
    }
}

/// `cell` is the text `t`.
pub open spec fn is_text(cell: SqlCell, t: Seq<char>) -> bool {
    cell matches SqlCell::Text(x) && x@ == t
}

/// The first cell of `row` is the text `t`.
pub open spec fn first_text_is(row: Vec<SqlCell>, t: Seq<char>) -> bool {
    row@.len() > 0 && is_text(row@[0], t)
}

/// A column read as text: only a text value is accepted.
pub fn text_at(row: &Vec<SqlCell>, i: usize) -> (r: Result<String, DbError>)
    ensures
        match r {
            Ok(s) => i < row.len() && (row@[i as int] matches SqlCell::Text(t) && s@ == t@),
            Err(e) => e is InvalidColumnType && !(i < row.len() && row@[i as int] is Text),
        },
{
    if i < row.len() {
        match &row[i] {
            SqlCell::Text(s) => Ok(s.clone()),
            _ => Err(DbError::InvalidColumnType),
        }
    } else {
        Err(DbError::InvalidColumnType)
    }
}

/// A column read as text that may be `NULL`.
pub fn optional_text_at(row: &Vec<SqlCell>, i: usize) -> (r: Result<Option<String>, DbError>)
    ensures
        match r {
            Ok(Some(s)) => i < row.len() && (row@[i as int] matches SqlCell::Text(t) && s@ == t@),
            Ok(None) => i < row.len() && row@[i as int] is Null,
            Err(e) => e is InvalidColumnType && !(i < row.len() && (row@[i as int] is Text
                || row@[i as int] is Null)),
        },
{
    if i < row.len() {
        match &row[i] {
            SqlCell::Text(s) => Ok(Some(s.clone())),
            SqlCell::Null => Ok(None),
            _ => Err(DbError::InvalidColumnType),
        }
    } else {
        Err(DbError::InvalidColumnType)
    }
}

/// A column read as a 64-bit integer: only an integer value is accepted.
pub fn integer_at(row: &Vec<SqlCell>, i: usize) -> (r: Result<i64, DbError>)
    ensures
        match r {
            Ok(v) => i < row.len() && row@[i as int] == SqlCell::Integer(v),
            Err(e) => e is InvalidColumnType && !(i < row.len() && row@[i as int] is Integer),
        },
{
    if i < row.len() {
        match &row[i] {
            SqlCell::Integer(v) => Ok(*v),
            _ => Err(DbError::InvalidColumnType),
        }
    } else {
        Err(DbError::InvalidColumnType)
    }
}


/// The first column of every row, each read as text.
pub fn first_column_texts(rows: &Vec<Vec<SqlCell>>) -> (r: Result<Vec<String>, DbError>)
    ensures
        r matches Ok(ns) ==> ns.len() == rows.len() && forall|k: int|
            0 <= k < ns.len() ==> first_text_is(#[trigger] rows@[k], ns@[k]@),
        r matches Err(e) ==> e is InvalidColumnType,
{
    let mut names: Vec<String> = Vec::new();
    let mut i: usize = 0;
    while i < rows.len()
        invariant
            i <= rows.len(),
            names.len() == i,
            forall|k: int|
                0 <= k < i ==> first_text_is(#[trigger] rows@[k], names@[k]@),
        decreases rows.len() - i,
    {
        match text_at(&rows[i], 0) {
            Ok(v) => {
                names.push(v);
                assert(first_text_is(rows@[i as int], names@[i as int]@));
            },
            Err(e) => return Err(e),
        }
        i += 1;
    }
    Ok(names)
}

// ---------------------------------------------------------------------
// A connection with the record of what was sent through it
// ---------------------------------------------------------------------

/// What the record keeps of one statement: its text, its parameters, the
/// rows it answered (none for a failure or a statement that changes rows)
/// and how many opaque rows a raw read answered.
pub open spec fn entry(sql: Seq<char>, args: Seq<SqlArg>, rows: Seq<Vec<SqlCell>>, raw: nat) -> Record {
    (sql, args, rows, raw, seq![])
}

/// What the record keeps of one statement: its text, its parameters, the
/// rows it answered, how many opaque rows a raw read answered, and the
/// opaque rows themselves (for a raw read, the rows answered; for a
/// statement run with opaque parameters, that one row of parameters).
pub type Record = (Seq<char>, Seq<SqlArg>, Seq<Vec<SqlCell>>, nat, Seq<Vec<rusqlite::types::Value>>);

/// The record of a raw read of `sql` that answered `rows`.
pub open spec fn raw_entry(sql: Seq<char>, rows: Seq<Vec<rusqlite::types::Value>>) -> Record {
    (sql, seq![], seq![], rows.len(), rows)
}

/// The record of `sql` run with the opaque parameters `params`.
pub open spec fn param_entry(sql: Seq<char>, params: Vec<rusqlite::types::Value>) -> Record {
    (sql, seq![], seq![], 0, seq![params])
}

/// The opaque rows a raw read answered; none for a failure.
pub open spec fn raw_rows(r: Result<Vec<Vec<rusqlite::types::Value>>, DbError>) -> Seq<Vec<rusqlite::types::Value>> {
    match r {
        Ok(rows) => rows@,
        Err(_) => seq![],
    }
}

/// The rows a query answered; none for a failure.
pub open spec fn answer_rows(r: Result<Vec<Vec<SqlCell>>, DbError>) -> Seq<Vec<SqlCell>> {
    match r {
        Ok(rows) => rows@,
        Err(_) => seq![],
    }
}

/// The cell that records one result-column name: the name, or `NULL`
/// where it could not be read.
pub open spec fn name_cell(n: Option<String>) -> SqlCell {
    match n {
        Some(s) => SqlCell::Text(s),
        None => SqlCell::Null,
    }
}

/// The record of a raw read of `sql` that reported its result columns
/// `names` and answered `rows`: the names as one row of cells, the rows as
/// opaque values; nothing but the text for a failure.
pub open spec fn named_raw_record(
    sql: Seq<char>,
    r: Result<(Vec<SqlCell>, Vec<Vec<rusqlite::types::Value>>), DbError>,
) -> Record {
    match r {
        Ok((names, rows)) => (sql, seq![], seq![names], rows@.len(), rows@),
        Err(_) => raw_entry(sql, seq![]),
    }
}

/// The names of a row of result-column name cells, `?` where a name could
/// not be read.
pub open spec fn result_column_names(names: Vec<SqlCell>) -> Seq<Seq<char>> {
    names@.map_values(|c: SqlCell| match c {
        SqlCell::Text(t) => t@,
        _ => "?"@,
    })
}

/// The names of a row of result-column name cells (`result_column_names`).
pub fn column_names_or_unknown(names: &Vec<SqlCell>) -> (r: Vec<String>)
    ensures
        crate::text::views(r@) == result_column_names(*names),
{
    let mut out: Vec<String> = Vec::new();
    let mut i: usize = 0;
    while i < names.len()
        invariant
            i <= names.len(),
            crate::text::views(out@) == result_column_names(*names).take(i as int),
        decreases names.len() - i,
    {
        let ghost before = crate::text::views(out@);
        match &names[i] {
            SqlCell::Text(t) => out.push(t.clone()),
            _ => out.push("?".to_owned()),
        }
        assert(crate::text::views(out@) =~= result_column_names(*names).take(i + 1)) by {
            assert(crate::text::views(out@) =~= before.push(out@[i as int]@));
        }
        i += 1;
    }
    assert(result_column_names(*names).take(names.len() as int) =~= result_column_names(*names));
    out
}

/// How a busy timeout of `secs` seconds is recorded.
pub open spec fn busy_timeout_entry(secs: u64) -> Record {
    entry("busy_timeout"@, seq![SqlArg::Integer(secs as i64)], seq![], 0)
}

/// `PRAGMA <name>`: how a pragma read or write is recorded.
pub open spec fn pragma_entry_sql(name: Seq<char>) -> Seq<char> {
    "PRAGMA "@ + name
}

/// A connection borrowed for a task, with the record of the statements
/// sent through it.
pub struct Db<'a> {
    pub conn: &'a rusqlite::Connection,
    pub log: Ghost<Seq<Record>>,
}

/// `after` is `before` with `e` appended.
pub open spec fn appended<'a>(before: Db<'a>, after: Db<'a>, e: Record) -> bool {
    after.conn == before.conn && after.log@ == before.log@.push(e)
}

/// `after` is `before` with one more statement, `sql` with `args`,
/// recorded.
pub open spec fn sent<'a>(before: Db<'a>, after: Db<'a>, sql: Seq<char>, args: Seq<SqlArg>) -> bool {
    &&& after.conn == before.conn
    &&& after.log@.len() == before.log@.len() + 1
    &&& after.log@.drop_last() == before.log@
    &&& after.log@.last().0 == sql
    &&& after.log@.last().1 == args
}

/// The rows that the last recorded statement answered.
pub open spec fn last_rows<'a>(d: Db<'a>) -> Seq<Vec<SqlCell>> {
    d.log@.last().2
}

/// `after`'s record extends `before`'s, over the same connection.
pub open spec fn extends<'a>(before: Db<'a>, after: Db<'a>) -> bool {
    &&& after.conn == before.conn
    &&& after.log@.len() >= before.log@.len()
    &&& after.log@.subrange(0, before.log@.len() as int) == before.log@
}

/// `a` binds the text `t`.
pub open spec fn binds_text(a: SqlArg, t: Seq<char>) -> bool {
    a matches SqlArg::Text(x) && x@ == t
}

/// A slice inside a prefix is the same slice of the prefix.
pub(crate) proof fn lemma_slice_within<T>(x: Seq<T>, y: Seq<T>, i: int, j: int)
    requires
        y.len() <= x.len(),
        x.subrange(0, y.len() as int) == y,
        0 <= i <= j <= y.len(),
    ensures
        x.subrange(i, j) == y.subrange(i, j),
{
    assert forall|q: int| 0 <= q < j - i implies x.subrange(i, j)[q] == y.subrange(i, j)[q] by {
        assert(x.subrange(0, y.len() as int)[i + q] == x[i + q]);
    }
    assert(x.subrange(i, j) =~= y.subrange(i, j));
}

/// `extends` is transitive.
pub(crate) proof fn lemma_extends_trans<'a>(x: Db<'a>, y: Db<'a>, z: Db<'a>)
    requires
        extends(x, y),
        extends(y, z),
    ensures
        extends(x, z),
{
    assert(z.log@.subrange(0, x.log@.len() as int) =~= z.log@.subrange(0, y.log@.len() as int).subrange(
        0,
        x.log@.len() as int,
    ));
}

/// An index inside a prefix reads the same element.
pub(crate) proof fn lemma_prefix_index<T>(x: Seq<T>, y: Seq<T>, i: int)
    requires
        y.len() <= x.len(),
        x.subrange(0, y.len() as int) == y,
        0 <= i < y.len(),
    ensures
        x[i] == y[i],
{
    assert(x.subrange(0, y.len() as int)[i] == x[i]);
}

/// A prefix of a prefix is a prefix.
pub(crate) proof fn lemma_prefix_trans<T>(x: Seq<T>, y: Seq<T>, z: Seq<T>)
    requires
        y.len() <= x.len(),
        x.subrange(0, y.len() as int) == y,
        z.len() <= y.len(),
        y.subrange(0, z.len() as int) == z,
    ensures
        x.subrange(0, z.len() as int) == z,
{
    lemma_slice_within(x, y, 0, z.len() as int);
}

impl<'a> Db<'a> {
    /// A connection with an empty record.
    pub fn new(conn: &'a rusqlite::Connection) -> (d: Db<'a>)
        ensures
            d.conn == conn,
            d.log@ == Seq::<Record>::empty(),
    {
        Db { conn, log: Ghost(Seq::empty()) }
    }

    /// Runs a query (`query`) and records it with its answer.
    pub fn query(&mut self, sql: &str, args: &Vec<SqlArg>) -> (r: Result<Vec<Vec<SqlCell>>, DbError>)
        ensures
            appended(*old(self), *final(self), entry(sql@, args@, answer_rows(r), 0)),
            r matches Err(e) ==> e is Sqlite,
    {
        let r = query(self.conn, sql, args);
        self.log = Ghost(self.log@.push(entry(sql@, args@, answer_rows(r), 0)));
        r
    }

    /// Runs a statement that changes rows (`run`) and records it.
    pub fn run(&mut self, sql: &str, args: &Vec<SqlArg>) -> (r: Result<usize, DbError>)
        ensures
            appended(*old(self), *final(self), entry(sql@, args@, seq![], 0)),
            r matches Err(e) ==> e is Sqlite,
    {
        let r = run(self.conn, sql, args);
        self.log = Ghost(self.log@.push(entry(sql@, args@, seq![], 0)));
        r
    }

    /// Runs every statement of a batch (`run_batch`) and records it.
    pub fn run_batch(&mut self, sql: &str) -> (r: Result<(), DbError>)
        ensures
            appended(*old(self), *final(self), entry(sql@, seq![], seq![], 0)),
            r matches Err(e) ==> e is Sqlite,
    {
        let r = run_batch(self.conn, sql);
        self.log = Ghost(self.log@.push(entry(sql@, seq![], seq![], 0)));
        r
    }

    /// Reads every row of `sql` as opaque values and records how many
    /// rows came back.
    pub fn query_raw(&mut self, sql: &str) -> (r: Result<Vec<Vec<rusqlite::types::Value>>, DbError>)
        ensures
            appended(*old(self), *final(self), raw_entry(sql@, raw_rows(r))),
            r matches Err(e) ==> e is Sqlite,
    {
        let no_params: Vec<rusqlite::types::Value> = Vec::new();
        let r = match query_values(self.conn, sql, &no_params) {
            Ok(rows) => Ok(rows),
            Err(e) => Err(DbError::Sqlite(e)),
        };
        self.log = Ghost(self.log@.push(raw_entry(sql@, raw_rows(r))));
        r
    }

    /// Reads the result-column names of `sql` (`column_names`), then every
    /// row of it as opaque values, and records both (`named_raw_record`).
    pub fn query_raw_named(&mut self, sql: &str) -> (r: Result<
        (Vec<SqlCell>, Vec<Vec<rusqlite::types::Value>>),
        DbError,
    >)
        ensures
            appended(*old(self), *final(self), named_raw_record(sql@, r)),
            r matches Err(e) ==> e is Sqlite,
    {
        let r = match column_names(self.conn, sql) {
            Ok(raw) => {
                let mut cells: Vec<SqlCell> = Vec::new();
                let mut i: usize = 0;
                while i < raw.len()
                    invariant
                        i <= raw.len(),
                        cells@ == raw@.take(i as int).map_values(|n: Option<String>| name_cell(n)),
                    decreases raw.len() - i,
                {
                    match &raw[i] {
                        Some(n) => cells.push(SqlCell::Text(n.clone())),
                        None => cells.push(SqlCell::Null),
                    }
                    i += 1;
                }
                let no_params: Vec<rusqlite::types::Value> = Vec::new();
                match query_values(self.conn, sql, &no_params) {
                    Ok(rows) => Ok((cells, rows)),
                    Err(e) => Err(DbError::Sqlite(e)),
                }
            },
            Err(e) => Err(DbError::Sqlite(e)),
        };
        self.log = Ghost(self.log@.push(named_raw_record(sql@, r)));
        r
    }

    /// Runs `sql` with one row of opaque values as its parameters and
    /// records it.
    pub fn execute_raw(&mut self, sql: &str, params: &Vec<rusqlite::types::Value>) -> (r: Result<
        usize,
        DbError,
    >)
        ensures
            appended(*old(self), *final(self), param_entry(sql@, *params)),
            r matches Err(e) ==> e is Sqlite,
    {
        let r = match execute(self.conn, sql, params) {
            Ok(n) => Ok(n),
            Err(e) => Err(DbError::Sqlite(e)),
        };
        self.log = Ghost(self.log@.push(param_entry(sql@, *params)));
        r
    }

    /// Sets the busy timeout to `secs` seconds (`busy_timeout_secs`) and
    /// records it (`busy_timeout_entry`).
    pub fn set_busy_timeout(&mut self, secs: u64) -> (r: Result<(), DbError>)
        requires
            secs <= 2147483,
        ensures
            appended(*old(self), *final(self), busy_timeout_entry(secs)),
            r matches Err(e) ==> e is Sqlite,
    {
        let r = match busy_timeout_secs(self.conn, secs) {
            Ok(()) => Ok(()),
            Err(e) => Err(DbError::Sqlite(e)),
        };
        self.log = Ghost(self.log@.push(busy_timeout_entry(secs)));
        r
    }

    /// Sets pragma `name` to `value` and records it as `PRAGMA <name>` with
    /// the value as its parameter.
    pub fn set_pragma(&mut self, name: &str, value: &SqlArg) -> (r: Result<(), DbError>)
        ensures
            appended(*old(self), *final(self), entry(pragma_entry_sql(name@), seq![*value], seq![], 0)),
            r matches Err(e) ==> e is Sqlite,
    {
        let v = arg_value(value);
        let r = match pragma_update(self.conn, name, &v) {
            Ok(()) => Ok(()),
            Err(e) => Err(DbError::Sqlite(e)),
        };
        self.log = Ghost(self.log@.push(entry(pragma_entry_sql(name@), seq![*value], seq![], 0)));
        r
    }

    /// Reads pragma `name` (`pragma_query_value`) and records it as
    /// `PRAGMA <name>` with its answer: one row of one column.
    pub fn read_pragma(&mut self, name: &str) -> (r: Result<Vec<Vec<SqlCell>>, DbError>)
        ensures
            appended(*old(self), *final(self), entry(pragma_entry_sql(name@), seq![], answer_rows(r), 0)),
            r matches Ok(rows) ==> rows.len() == 1 && rows@[0].len() == 1,
            r matches Err(e) ==> e is Sqlite,
    {
        let r = match pragma_query_value(self.conn, name) {
            Ok(v) => {
                let mut row: Vec<SqlCell> = Vec::new();
                row.push(cell_of(v));
                let mut rows: Vec<Vec<SqlCell>> = Vec::new();
                rows.push(row);
                Ok(rows)
            },
            Err(e) => Err(DbError::Sqlite(e)),
        };
        self.log = Ghost(self.log@.push(entry(pragma_entry_sql(name@), seq![], answer_rows(r), 0)));
        r
    }
}

} // verus!
