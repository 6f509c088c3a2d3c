//! Doltlite commits for versioning sessions.
//!
//! `dolt_commit('-m', ?, '--author', 'Name <email>')` records the author in
//! `dolt_log.committer`; the session metadata travels as one JSON line in
//! the commit message.
//!
//! Whether a session commits is decided by comparing the note row stored at
//! session start with the row at session end; without a snapshot, by
//! whether Doltlite reports the `notes` table as changed.

use vstd::prelude::*;
use crate::sql::{first_text_cell, text_at, two_texts, DbError, SqlArg, SqlCell};
use crate::text::concat;
use super::collection::{last_answer, sent_one, AnkiError, Collection};
use super::session::{kind_name, NoteId, NoteSnapshot, SessionHandle, SessionInfo, VersioningState};

verus! {

/// ` <local>`: the placeholder e-mail part of a Doltlite author.
pub open spec fn local_suffix() -> Seq<char> {
    seq![' ', '<', 'l', 'o', 'c', 'a', 'l', '>']
}

/// The Doltlite author string of a session: `<author> <local>`.
pub open spec fn author_line(author: Seq<char>) -> Seq<char> {
    author + local_suffix()
}

/// A lower-case hexadecimal digit.
pub open spec fn hex_digit(d: int) -> char {
    if d == 0 {
        '0'
    } else if d == 1 {
        '1'
    } else if d == 2 {
        '2'
    } else if d == 3 {
        '3'
    } else if d == 4 {
        '4'
    } else if d == 5 {
        '5'
    } else if d == 6 {
        '6'
    } else if d == 7 {
        '7'
    } else if d == 8 {
        '8'
    } else if d == 9 {
        '9'
    } else if d == 10 {
        'a'
    } else if d == 11 {
        'b'
    } else if d == 12 {
        'c'
    } else if d == 13 {
        'd'
    } else if d == 14 {
        'e'
    } else {
        'f'
    }
}

/// How JSON writes one character inside a string literal: `"` and `\`
/// and the control characters below U+0020 are escaped (short forms for
/// backspace, tab, line feed, form feed and carriage return, `\u00XX`
/// for the others); every other character stands for itself.
pub open spec fn json_escape_char(c: char) -> Seq<char> {
    if c == '"' {
        seq!['\\', '"']
    } else if c == '\\' {
        seq!['\\', '\\']
    } else if c == '\x08' {
        seq!['\\', 'b']
    } else if c == '\t' {
        seq!['\\', 't']
    } else if c == '\n' {
        seq!['\\', 'n']
    } else if c == '\x0C' {
        seq!['\\', 'f']
    } else if c == '\r' {
        seq!['\\', 'r']
    } else if (c as int) < 32 {
        seq!['\\', 'u', '0', '0', hex_digit((c as int) / 16), hex_digit((c as int) % 16)]
    } else {
        seq![c]
    }
}

/// The escaped characters of a string, in order.
pub open spec fn json_escape(s: Seq<char>) -> Seq<char>
    decreases s.len(),
{
    if s.len() == 0 {
        seq![]
    } else {
        json_escape(s.drop_last()) + json_escape_char(s.last())
    }
}

/// The JSON string literal of `s`: the escaped characters in double quotes.
pub open spec fn json_string_literal(s: Seq<char>) -> Seq<char> {
    seq!['"'] + json_escape(s) + seq!['"']
}

/// `serde_json::to_string` of a `&str`: the JSON string literal that
/// encodes it, written with the escape table of `format_escaped_str`.
/// Serialising a `str` into the in-memory buffer that `to_string` uses
/// cannot fail, so the result is always `Some`.
#[verifier::external_body]
fn json_quote(s: &str) -> (r: Option<String>)
    ensures
        r is Some,
        r matches Some(q) ==> q@ == json_string_literal(s@),
{
    match serde_json::to_string(s) {
        Ok(q) => Some(q),
        Err(_) => None,
    }
}

/// `{"session":`
pub open spec fn session_key() -> Seq<char> {
    seq!['{', '"', 's', 'e', 's', 's', 'i', 'o', 'n', '"', ':']
}

/// `,"kind":`
pub open spec fn kind_key() -> Seq<char> {
    seq![',', '"', 'k', 'i', 'n', 'd', '"', ':']
}

/// `,"actor":`
pub open spec fn actor_key() -> Seq<char> {
    seq![',', '"', 'a', 'c', 't', 'o', 'r', '"', ':']
}

/// The commit message of a session: a compact JSON object with the
/// members `session`, `kind` and `actor`, in that order.
pub open spec fn commit_message(id: Seq<char>, kind: Seq<char>, actor: Seq<char>) -> Seq<char> {
    session_key() + json_string_literal(id) + kind_key() + json_string_literal(kind) + actor_key()
        + json_string_literal(actor) + seq!['}']
}

/// `<author> <local>`: Doltlite parses `Name <email>` and there is no real
/// e-mail address.
pub fn format_author(info: &SessionInfo) -> (r: String)
    ensures
        r@ == author_line(info.author@),
{
    proof {
        reveal_strlit(" <local>");
    }
    concat(info.author.as_str(), " <local>")
}

/// The JSON metadata line of a session.
pub fn format_message(info: &SessionInfo) -> (r: String)
    ensures
        r@ == commit_message(info.id@, kind_name(info.kind), info.author@),
{
    let id = json_quote(info.id.as_str()).unwrap();
    let kind = json_quote(info.kind.as_str()).unwrap();
    let actor = json_quote(info.author.as_str()).unwrap();
    proof {
        reveal_strlit("{\"session\":");
        reveal_strlit(",\"kind\":");
        reveal_strlit(",\"actor\":");
        reveal_strlit("}");
    }
    let m1 = concat("{\"session\":", id.as_str());
    let m2 = concat(m1.as_str(), ",\"kind\":");
    let m3 = concat(m2.as_str(), kind.as_str());
    let m4 = concat(m3.as_str(), ",\"actor\":");
    let m5 = concat(m4.as_str(), actor.as_str());
    let m6 = concat(m5.as_str(), "}");
    assert(m6@ =~= session_key() + id@ + kind_key() + kind@ + actor_key() + actor@ + seq!['}']);
    m6
}

proof fn lemma_escape_has_no_newline(s: Seq<char>)
    ensures
        !json_escape(s).contains('\n'),
    decreases s.len(),
{
    if s.len() > 0 {
        lemma_escape_has_no_newline(s.drop_last());
        let c = s.last();
        let e = json_escape_char(c);
        assert(!e.contains('\n')) by {
            if (c as int) < 32 && c != '\x08' && c != '\t' && c != '\n' && c != '\x0C' && c
                != '\r' {
                assert(hex_digit((c as int) / 16) != '\n');
                assert(hex_digit((c as int) % 16) != '\n');
            }
            if e.contains('\n') {
                let k = choose|k: int| 0 <= k < e.len() && e[k] == '\n';
                assert(e[k] == '\n');
            }
        }
        let a = json_escape(s.drop_last());
        assert(json_escape(s) == a + e);
        if json_escape(s).contains('\n') {
            let k = choose|k: int| 0 <= k < (a + e).len() && (a + e)[k] == '\n';
            if k < a.len() {
                assert(a[k] == '\n');
            } else {
                assert(e[k - a.len()] == '\n');
            }
        }
    }
}

/// A commit message is a single line: it holds no line feed, whatever
/// the session id, kind and author hold.
pub proof fn law_commit_message_is_one_line(id: Seq<char>, kind: Seq<char>, actor: Seq<char>)
    ensures
        !commit_message(id, kind, actor).contains('\n'),
{
    lemma_escape_has_no_newline(id);
    lemma_escape_has_no_newline(kind);
    lemma_escape_has_no_newline(actor);
    let m = commit_message(id, kind, actor);
    let parts = seq![
        session_key(),
        json_string_literal(id),
        kind_key(),
        json_string_literal(kind),
        actor_key(),
        json_string_literal(actor),
        seq!['}'],
    ];
    if m.contains('\n') {
        let k = choose|k: int| 0 <= k < m.len() && m[k] == '\n';
        let l1 = session_key().len() as int;
        let l2 = l1 + json_string_literal(id).len();
        let l3 = l2 + kind_key().len();
        let l4 = l3 + json_string_literal(kind).len();
        let l5 = l4 + actor_key().len();
        let l6 = l5 + json_string_literal(actor).len();
        if k < l1 {
            assert(m[k] == session_key()[k]);
        } else if k < l2 {
            assert(m[k] == json_string_literal(id)[k - l1]);
            let j = k - l1;
            if 0 < j < json_string_literal(id).len() - 1 {
                assert(json_escape(id)[j - 1] == '\n');
            }
        } else if k < l3 {
            assert(m[k] == kind_key()[k - l2]);
        } else if k < l4 {
            assert(m[k] == json_string_literal(kind)[k - l3]);
            let j = k - l3;
            if 0 < j < json_string_literal(kind).len() - 1 {
                assert(json_escape(kind)[j - 1] == '\n');
            }
        } else if k < l5 {
            assert(m[k] == actor_key()[k - l4]);
        } else if k < l6 {
            assert(m[k] == json_string_literal(actor)[k - l5]);
            let j = k - l5;
            if 0 < j < json_string_literal(actor).len() - 1 {
                assert(json_escape(actor)[j - 1] == '\n');
            }
        } else {
            assert(m[k] == '}');
        }
    }
}

/// The stored `(flds, tags)` of a note, as character sequences.
pub open spec fn row_view(r: Option<(String, String)>) -> Option<(Seq<char>, Seq<char>)> {
    match r {
        Some((f, t)) => Some((f@, t@)),
        None => None,
    }
}

/// A snapshot differs from the current row when the note is gone or its
/// fields or tags changed.
pub open spec fn content_differs(snap: NoteSnapshot, current: Option<(Seq<char>, Seq<char>)>) -> bool {
    match current {
        None => true,
        Some((f, t)) => f != snap.flds@ || t != snap.tags@,
    }
}

/// Compares a snapshot with the note row read now.
pub fn snapshot_differs(snap: &NoteSnapshot, current: &Option<(String, String)>) -> (r: bool)
    ensures
        r == content_differs(*snap, row_view(*current)),
{
    match current {
        None => true,
        Some((flds, tags)) => !(*flds == snap.flds) || !(*tags == snap.tags),
    }
}

/// The snapshot to record for a note whose row reads `row`: none when the
/// note does not exist.
pub fn snapshot_from_row(nid: NoteId, row: Option<(String, String)>) -> (r: Option<NoteSnapshot>)
    ensures
        match row {
            Some((f, t)) => r == Some(NoteSnapshot { nid, flds: f, tags: t }),
            None => r is None,
        },
{
    match row {
        Some((flds, tags)) => Some(NoteSnapshot { nid, flds, tags }),
        None => None,
    }
}

/// The session of a snapshot whose content is still the stored content
/// makes no commit.
pub proof fn law_unchanged_snapshot_does_not_commit(snap: NoteSnapshot)
    ensures
        !content_differs(snap, Some((snap.flds@, snap.tags@))),
{
}

/// A session whose note changed or disappeared commits.
pub proof fn law_changed_snapshot_commits(snap: NoteSnapshot, flds: Seq<char>, tags: Seq<char>)
    ensures
        (flds != snap.flds@ || tags != snap.tags@) ==> content_differs(snap, Some((flds, tags))),
        content_differs(snap, None),
{
}

/// The `(flds, tags)` that the rows of `SELECT flds, tags ...` give:
/// `Some(None)` for no row, `Some(Some(..))` for the two texts of the
/// first row, `None` when that row does not hold two texts.
pub open spec fn note_content_of(rows: Seq<Vec<SqlCell>>) -> Option<Option<(Seq<char>, Seq<char>)>> {
    if rows.len() == 0 {
        Some(None)
    } else {
        match two_texts(rows[0]) {
            Some(p) => Some(Some(p)),
            None => None,
        }
    }
}

/// Reads the rows of `SELECT flds, tags ...` (`note_content_of`).
pub fn note_content_from_rows(rows: &Vec<Vec<SqlCell>>) -> (r: Result<
    Option<(String, String)>,
    DbError,
>)
    ensures
        match r {
            Ok(c) => note_content_of(rows@) == Some(row_view(c)),
            Err(e) => note_content_of(rows@) is None && e is InvalidColumnType,
        },
        rows.len() == 0 ==> r matches Ok(None),
        rows.len() > 0 ==> match two_texts(rows@[0]) {
            Some(p) => r matches Ok(Some((f, t))) && (f@, t@) == p,
            None => r matches Err(e) && e is InvalidColumnType,
        },
{
    if rows.len() == 0 {
        return Ok(None);
    }
    let flds = text_at(&rows[0], 0)?;
    let tags = text_at(&rows[0], 1)?;
    Ok(Some((flds, tags)))
}

/// The query that reads a note's current content.
pub open spec fn note_query() -> Seq<char> {
    "SELECT flds, tags FROM notes WHERE id = ?"@
}

/// The query that tells whether the `notes` table has uncommitted changes.
pub open spec fn dirty_query() -> Seq<char> {
    "SELECT 1 FROM dolt_status WHERE table_name='notes' LIMIT 1"@
}

/// The statement that stages every change.
pub open spec fn stage_query() -> Seq<char> {
    "SELECT dolt_add('-A')"@
}

/// The statement that makes a commit with a message and an author.
pub open spec fn commit_query() -> Seq<char> {
    "SELECT dolt_commit('-m', ?, '--author', ?)"@
}

/// Reads `flds` and `tags` of a note (`note_query` with the note id):
/// `None` when no such note exists.
pub fn read_note_content(col: &mut Collection, nid: NoteId) -> (r: Result<
    Option<(String, String)>,
    AnkiError,
>)
    ensures
        sent_one(*old(col), *final(col), note_query(), seq![SqlArg::Integer(nid.0)]),
        r matches Ok(c) ==> note_content_of(last_answer(*final(col))) == Some(row_view(c)),
        r matches Err(e) ==> e is Db,
{
    let mut args: Vec<SqlArg> = Vec::new();
    args.push(SqlArg::Integer(nid.0));
    assert(args@ =~= seq![SqlArg::Integer(nid.0)]);
    let rows = match col.query_db("SELECT flds, tags FROM notes WHERE id = ?", &args) {
        Ok(rows) => rows,
        Err(e) => return Err(AnkiError::Db(e)),
    };
    match note_content_from_rows(&rows) {
        Ok(c) => Ok(c),
        Err(e) => Err(AnkiError::Db(e)),
    }
}

/// Whether the note's current row differs from the snapshot.
pub fn snapshot_differs_from_current(col: &mut Collection, snap: &NoteSnapshot) -> (r: Result<
    bool,
    AnkiError,
>)
    ensures
        sent_one(*old(col), *final(col), note_query(), seq![SqlArg::Integer(snap.nid.0)]),
        r matches Ok(b) ==> exists|c: Option<(Seq<char>, Seq<char>)>|
            note_content_of(last_answer(*final(col))) == Some(c) && b == content_differs(*snap, c),
        r matches Err(e) ==> e is Db,
{
    let current = read_note_content(col, snap.nid)?;
    Ok(snapshot_differs(snap, &current))
}

/// Whether Doltlite reports uncommitted changes to the `notes` table: the
/// status query answered a row.
pub fn notes_dirty(col: &mut Collection) -> (r: Result<bool, AnkiError>)
    ensures
        sent_one(*old(col), *final(col), dirty_query(), seq![]),
        r matches Ok(b) ==> b == (last_answer(*final(col)).len() > 0),
        r matches Err(e) ==> e matches AnkiError::Db(d) && d is Sqlite,
{
    let args: Vec<SqlArg> = Vec::new();
    assert(args@ =~= seq![]);
    match col.query_db("SELECT 1 FROM dolt_status WHERE table_name='notes' LIMIT 1", &args) {
        Ok(rows) => Ok(rows.len() > 0),
        Err(e) => Err(AnkiError::Db(e)),
    }
}

/// Stages every change (`dolt_add('-A')`); an empty answer is an error.
pub fn stage_all(col: &mut Collection) -> (r: Result<(), AnkiError>)
    ensures
        sent_one(*old(col), *final(col), stage_query(), seq![]),
        r is Ok ==> last_answer(*final(col)).len() > 0,
        r matches Err(e) ==> e is Db,
{
    let args: Vec<SqlArg> = Vec::new();
    assert(args@ =~= seq![]);
    match col.query_db("SELECT dolt_add('-A')", &args) {
        Ok(rows) => if rows.len() == 0 {
            Err(AnkiError::Db(DbError::QueryReturnedNoRows))
        } else {
            Ok(())
        },
        Err(e) => Err(AnkiError::Db(e)),
    }
}

/// The `(message, author)` arguments of the commit of a session.
pub fn commit_args(info: &SessionInfo) -> (r: (String, String))
    ensures
        r.0@ == commit_message(info.id@, kind_name(info.kind), info.author@),
        r.1@ == author_line(info.author@),
{
    (format_message(info), format_author(info))
}

/// The commit hash in the answer of `dolt_commit`: the text of its first
/// cell; no row is `QueryReturnedNoRows`, another value
/// `InvalidColumnType`.
pub fn commit_hash_from_rows(rows: &Vec<Vec<SqlCell>>) -> (r: Result<String, DbError>)
    ensures
        match r {
            Ok(h) => first_text_cell(rows@) == Some(h@),
            Err(e) => first_text_cell(rows@) is None && (if rows.len() == 0 {
                e is QueryReturnedNoRows
            } else {
                e is InvalidColumnType
            }),
        },
{
    if rows.len() == 0 {
        return Err(DbError::QueryReturnedNoRows);
    }
    text_at(&rows[0], 0)
}

/// `e` records the commit statement of a session: `commit_query` with
/// the session's commit message and author line as its two parameters.
pub open spec fn is_commit_of(e: (Seq<char>, Seq<SqlArg>, Seq<Vec<SqlCell>>), info: SessionInfo) -> bool {
    &&& e.0 == commit_query()
    &&& e.1.len() == 2
    &&& e.1[0] matches SqlArg::Text(m) && m@ == commit_message(info.id@, kind_name(info.kind), info.author@)
    &&& e.1[1] matches SqlArg::Text(a) && a@ == author_line(info.author@)
}

/// Makes a Doltlite commit with the session's message and author
/// (`commit_args`) and returns its hash (`commit_hash_from_rows` of the
/// answer).
pub fn make_commit(col: &mut Collection, info: &SessionInfo) -> (r: Result<String, AnkiError>)
    ensures
        final(col).state == old(col).state,
        final(col).storage.db == old(col).storage.db,
        final(col).storage.log@.drop_last() == old(col).storage.log@,
        final(col).storage.log@.len() == old(col).storage.log@.len() + 1,
        is_commit_of(final(col).storage.log@.last(), *info),
        r matches Ok(h) ==> first_text_cell(last_answer(*final(col))) == Some(h@),
        r matches Err(e) ==> e is Db,
{
    let (message, author) = commit_args(info);
    let mut args: Vec<SqlArg> = Vec::new();
    let ghost mv = message@;
    let ghost av = author@;
    args.push(SqlArg::Text(message));
    args.push(SqlArg::Text(author));
    let rows = col.query_db("SELECT dolt_commit('-m', ?, '--author', ?)", &args);
    assert(is_commit_of(col.storage.log@.last(), *info));
    let rows = match rows {
        Ok(rows) => rows,
        Err(e) => return Err(AnkiError::Db(e)),
    };
    match commit_hash_from_rows(&rows) {
        Ok(h) => Ok(h),
        Err(e) => Err(AnkiError::Db(e)),
    }
}

/// The session map after recording the note row read at session start:
/// a snapshot of it under `session_id`, or no change when the note does
/// not exist.
pub open spec fn snapshot_step(
    m: Map<Seq<char>, NoteSnapshot>,
    session_id: Seq<char>,
    nid: NoteId,
    row: Option<(String, String)>,
) -> Map<Seq<char>, NoteSnapshot> {
    match row {
        Some((f, t)) => m.insert(session_id, NoteSnapshot { nid, flds: f, tags: t }),
        None => m,
    }
}

/// Records the row read for `nid` under `session_id` (`snapshot_step`).
pub fn record_snapshot(
    state: &mut VersioningState,
    session_id: &str,
    nid: NoteId,
    row: Option<(String, String)>,
)
    ensures
        final(state)@ == snapshot_step(old(state)@, session_id@, nid, row),
{
    match snapshot_from_row(nid, row) {
        None => {},
        Some(snap) => {
            state.store(session_id.to_owned(), snap);
        },
    }
}

/// Whether a session commits: with a snapshot, when the current row
/// differs from it; without one, when the `notes` table is dirty.
pub open spec fn commit_decision(
    snapshot: Option<NoteSnapshot>,
    current: Option<(Seq<char>, Seq<char>)>,
    dirty: bool,
) -> bool {
    match snapshot {
        Some(s) => content_differs(s, current),
        None => dirty,
    }
}

/// The snapshot recorded under `session_id`, if any.
pub open spec fn recorded_snapshot(m: Map<Seq<char>, NoteSnapshot>, session_id: Seq<char>) -> Option<
    NoteSnapshot,
> {
    if m.contains_key(session_id) {
        Some(m[session_id])
    } else {
        None
    }
}

/// Decides whether a session commits (`commit_decision`).
pub fn decide_commit(snapshot: &Option<NoteSnapshot>, current: &Option<(String, String)>, dirty: bool) -> (r: bool)
    ensures
        r == commit_decision(*snapshot, row_view(*current), dirty),
{
    match snapshot {
        Some(s) => snapshot_differs(s, current),
        None => dirty,
    }
}

impl Collection {
    /// Begins a versioning session. No state is kept beyond the handle; the
    /// change-detection snapshot is taken by `snapshot_note_for_session`.
    pub fn begin_versioning_session(&mut self, info: SessionInfo) -> (h: SessionHandle)
        ensures
            h.info == info,
            *final(self) == *old(self),
    {
        SessionHandle { info }
    }

    /// Records the note's current `flds` and `tags` under `session_id`, for
    /// the next `commit_versioning_session` of that session to compare
    /// against: reads the note (`note_query`) and records what it answered
    /// (`snapshot_step`); nothing when the note does not exist.
    pub fn snapshot_note_for_session(&mut self, session_id: &str, nid: NoteId) -> (r: Result<
        (),
        AnkiError,
    >)
        ensures
            final(self).storage.db == old(self).storage.db,
            final(self).storage.log@.len() == old(self).storage.log@.len() + 1,
            final(self).storage.log@.drop_last() == old(self).storage.log@,
            final(self).storage.log@.last().0 == note_query(),
            final(self).storage.log@.last().1 == seq![SqlArg::Integer(nid.0)],
            r matches Err(e) ==> e is Db,
            r is Err ==> final(self).state.versioning@ == old(self).state.versioning@,
            r is Ok ==> exists|row: Option<(String, String)>|
                note_content_of(last_answer(*final(self))) == Some(row_view(row))
                    && final(self).state.versioning@ == snapshot_step(
                    old(self).state.versioning@,
                    session_id@,
                    nid,
                    row,
                ),
    {
        let row = read_note_content(self, nid)?;
        record_snapshot(&mut self.state.versioning, session_id, nid, row);
        Ok(())
    }

    /// Makes a commit when the snapshotted note changed (or, without a
    /// snapshot, when the `notes` table has uncommitted changes) and returns
    /// its hash; `None` when nothing was committed. The session's snapshot
    /// is consumed in every case.
    ///
    /// The first statement sent decides: with a snapshot, the note query
    /// for its note, whose answer is compared with the snapshot; without
    /// one, the status query, which decides by answering a row. A commit
    /// then sends the staging statement and the commit statement of the
    /// session, whose answer holds the hash.
    pub fn commit_versioning_session(&mut self, handle: SessionHandle) -> (r: Result<
        Option<String>,
        AnkiError,
    >)
        ensures
            final(self).storage.db == old(self).storage.db,
            final(self).state.versioning@ == old(self).state.versioning@.remove(handle.info.id@),
            r matches Err(e) ==> e is Db,
            r is Ok ==> final(self).storage.log@.len() > old(self).storage.log@.len()
                && final(self).storage.log@.subrange(0, old(self).storage.log@.len() as int)
                == old(self).storage.log@,
            r matches Ok(opt) ==> match recorded_snapshot(old(self).state.versioning@, handle.info.id@) {
                Some(s) => {
                    &&& final(self).storage.log@[old(self).storage.log@.len() as int].0 == note_query()
                    &&& final(self).storage.log@[old(self).storage.log@.len() as int].1 == seq![
                        SqlArg::Integer(s.nid.0),
                    ]
                    &&& exists|c: Option<(Seq<char>, Seq<char>)>|
                        note_content_of(
                            final(self).storage.log@[old(self).storage.log@.len() as int].2,
                        ) == Some(c) && (opt is Some) == content_differs(s, c)
                },
                None => {
                    &&& final(self).storage.log@[old(self).storage.log@.len() as int].0 == dirty_query()
                    &&& final(self).storage.log@[old(self).storage.log@.len() as int].1 == Seq::<
                        SqlArg,
                    >::empty()
                    &&& (opt is Some) == (final(self).storage.log@[old(
                        self,
                    ).storage.log@.len() as int].2.len() > 0)
                },
            },
            r matches Ok(None) ==> final(self).storage.log@.len() == old(self).storage.log@.len() + 1,
            r matches Ok(Some(h)) ==> {
                &&& final(self).storage.log@.len() == old(self).storage.log@.len() + 3
                &&& final(self).storage.log@[old(self).storage.log@.len() + 1int].0 == stage_query()
                &&& is_commit_of(final(self).storage.log@.last(), handle.info)
                &&& first_text_cell(last_answer(*final(self))) == Some(h@)
            },
    {
        let ghost before = self.state.versioning@;
        let ghost log0 = self.storage.log@;
        let session_id = handle.info.id.clone();
        let snapshot = self.state.versioning.take(session_id.as_str());
        assert(snapshot == recorded_snapshot(before, handle.info.id@));
        let current = match &snapshot {
            Some(snap) => read_note_content(self, snap.nid)?,
            None => None,
        };
        let dirty = match &snapshot {
            Some(_) => false,
            None => notes_dirty(self)?,
        };
        let ghost log1 = self.storage.log@;
        proof {
            assert(log1.len() == log0.len() + 1);
            assert(log1.subrange(0, log0.len() as int) =~= log0);
            assert(log1[log0.len() as int] == log1.last());
        }
        let should_commit = decide_commit(&snapshot, &current, dirty);
        assert(should_commit == commit_decision(snapshot, row_view(current), dirty));
        if !should_commit {
            return Ok(None);
        }
        stage_all(self)?;
        let ghost log2 = self.storage.log@;
        let hash = make_commit(self, &handle.info)?;
        proof {
            let log3 = self.storage.log@;
            assert(log3.subrange(0, log0.len() as int) =~= log0);
            assert(log3[log0.len() as int] == log1[log0.len() as int]);
            assert(log3[log0.len() + 1int] == log2.last());
        }
        Ok(Some(hash))
    }
}

} // verus!
