//! The collection handle that the versioning operations work on: the
//! database connection and the in-memory session state.

use vstd::prelude::*;
use crate::sql::{query, run, DbError, SqlArg, SqlCell};
use super::session::VersioningState;

verus! {

/// One statement sent to the database as the library sees it: its text,
/// its parameters and the rows it answered (none when it failed or
/// changes rows).
pub open spec fn exchange(sql: Seq<char>, args: Seq<SqlArg>, rows: Seq<Vec<SqlCell>>) -> (
    Seq<char>,
    Seq<SqlArg>,
    Seq<Vec<SqlCell>>,
) {
    (sql, args, rows)
}

/// The rows of a query's result, none for a failure.
pub open spec fn answered(r: Result<Vec<Vec<SqlCell>>, DbError>) -> Seq<Vec<SqlCell>> {
    match r {
        Ok(rows) => rows@,
        Err(_) => seq![],
    }
}

/// The storage layer: one SQLite / Doltlite connection, with the record of
/// the statements that the library sent through it.
pub struct SqliteStorage {
    pub db: rusqlite::Connection,
    pub log: Ghost<Seq<(Seq<char>, Seq<SqlArg>, Seq<Vec<SqlCell>>)>>,
}

impl SqliteStorage {
    /// Runs a query and records it with what it answered.
    pub fn query_logged(&mut self, sql: &str, args: &Vec<SqlArg>) -> (r: Result<
        Vec<Vec<SqlCell>>,
        DbError,
    >)
        ensures
            final(self).db == old(self).db,
            final(self).log@ == old(self).log@.push(exchange(sql@, args@, answered(r))),
            r matches Err(e) ==> e is Sqlite,
    {
        let r = query(&self.db, sql, args);
        self.log = Ghost(self.log@.push(exchange(sql@, args@, answered(r))));
        r
    }

    /// Runs a statement that changes rows and records it.
    pub fn run_logged(&mut self, sql: &str, args: &Vec<SqlArg>) -> (r: Result<usize, DbError>)
        ensures
            final(self).db == old(self).db,
            final(self).log@ == old(self).log@.push(exchange(sql@, args@, seq![])),
            r matches Err(e) ==> e is Sqlite,
    {
        let r = run(&self.db, sql, args);
        self.log = Ghost(self.log@.push(exchange(sql@, args@, seq![])));
        r
    }
}

/// In-memory state kept beside the connection.
pub struct CollectionState {
    pub versioning: VersioningState,
}

/// An open collection.
pub struct Collection {
    pub storage: SqliteStorage,
    pub state: CollectionState,
}

/// Why a collection operation failed.
#[derive(Debug)]
pub enum AnkiError {
    /// The database layer failed.
    Db(DbError),
    /// A looked-up item does not exist.
    NotFound { kind: String, identifier: String },
}

/// `after` is `before` with one more statement, `sql` with `args`, sent
/// to the database and recorded; the session state and connection are
/// unchanged.
pub open spec fn sent_one(before: Collection, after: Collection, sql: Seq<char>, args: Seq<SqlArg>) -> bool {
    &&& after.state == before.state
    &&& after.storage.db == before.storage.db
    &&& after.storage.log@.len() == before.storage.log@.len() + 1
    &&& after.storage.log@.drop_last() == before.storage.log@
    &&& after.storage.log@.last().0 == sql
    &&& after.storage.log@.last().1 == args
}

/// The rows that the last recorded statement answered.
pub open spec fn last_answer(c: Collection) -> Seq<Vec<SqlCell>> {
    c.storage.log@.last().2
}

impl Collection {
    /// Sends a query and records it (`sent_one`).
    pub fn query_db(&mut self, sql: &str, args: &Vec<SqlArg>) -> (r: Result<
        Vec<Vec<SqlCell>>,
        DbError,
    >)
        ensures
            sent_one(*old(self), *final(self), sql@, args@),
            last_answer(*final(self)) == answered(r),
            r matches Err(e) ==> e is Sqlite,
    {
        let r = self.storage.query_logged(sql, args);
        assert(self.storage.log@.drop_last() =~= old(self).storage.log@);
        r
    }

    /// Sends a statement that changes rows and records it (`sent_one`).
    pub fn run_db(&mut self, sql: &str, args: &Vec<SqlArg>) -> (r: Result<usize, DbError>)
        ensures
            sent_one(*old(self), *final(self), sql@, args@),
            last_answer(*final(self)) == Seq::<Vec<SqlCell>>::empty(),
            r matches Err(e) ==> e is Sqlite,
    {
        let r = self.storage.run_logged(sql, args);
        assert(self.storage.log@.drop_last() =~= old(self).storage.log@);
        r
    }

    /// A collection over an open connection, with no session state.
    pub fn new(db: rusqlite::Connection) -> (c: Self)
        ensures
            c.storage.db == db,
            c.storage.log@ == Seq::<(Seq<char>, Seq<SqlArg>, Seq<Vec<SqlCell>>)>::empty(),
            c.state.versioning@ == Map::<Seq<char>, super::session::NoteSnapshot>::empty(),
    {
        Collection {
            storage: SqliteStorage { db, log: Ghost(Seq::empty()) },
            state: CollectionState { versioning: VersioningState::new() },
        }
    }
}

} // verus!
