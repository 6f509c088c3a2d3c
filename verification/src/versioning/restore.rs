//! Restoring a note's fields and tags to those of an earlier commit.
//!
//! The historical row is read from `dolt_history_notes`; the restored
//! content is written as the note's current content and then committed as
//! a new commit, so the versions in between stay in history.

use vstd::prelude::*;
use crate::sql::{two_texts, SqlArg, SqlCell};
use crate::text::{concat, decimal_i64, push_char, signed_decimal};
use super::collection::{last_answer, AnkiError, Collection};
use super::commit::{
    content_differs, dirty_query, is_commit_of, recorded_snapshot, row_view, snapshot_step,
};
use crate::sql::first_text_cell;
use super::commit::{note_content_from_rows, note_content_of, note_query, read_note_content};
use crate::text::{join_strings, join_with, views};
use super::history::{field_separator, law_join_split_roundtrip, split_fields, split_on};
use super::session::{NoteId, NoteSnapshot, SessionInfo};

verus! {

// ---------------------------------------------------------------------
// Tags
// ---------------------------------------------------------------------

/// A character that separates tags: space or ideographic space.
pub open spec fn is_tag_separator(c: char) -> bool {
    c == ' ' || c == '\u{3000}'
}

/// The pieces of a tag string between separators (empty pieces included).
pub open spec fn tag_pieces(s: Seq<char>) -> Seq<Seq<char>>
    decreases s.len(),
{
    if s.len() == 0 {
        seq![Seq::<char>::empty()]
    } else {
        let rest = tag_pieces(s.drop_last());
        if is_tag_separator(s.last()) {
            rest.push(Seq::<char>::empty())
        } else {
            rest.update(rest.len() - 1, rest.last().push(s.last()))
        }
    }
}

/// The non-empty pieces, in order.
pub open spec fn keep_nonempty(s: Seq<Seq<char>>) -> Seq<Seq<char>> {
    s.filter(|w: Seq<char>| w.len() > 0)
}

/// The tags of a tag string: its non-empty pieces, in order.
pub open spec fn spec_split_tags(s: Seq<char>) -> Seq<Seq<char>> {
    keep_nonempty(tag_pieces(s))
}

proof fn lemma_keep_nonempty_push(s: Seq<Seq<char>>, x: Seq<char>)
    ensures
        keep_nonempty(s.push(x)) == (if x.len() > 0 {
            keep_nonempty(s).push(x)
        } else {
            keep_nonempty(s)
        }),
{
    reveal_with_fuel(Seq::filter, 1);
    assert(s.push(x).drop_last() =~= s);
    assert(s.push(x).last() == x);
}

/// The stored form of a tag list: empty for no tags, else the tags joined
/// with single spaces and surrounded by one space on each side.
pub open spec fn spec_join_tags(tags: Seq<Seq<char>>) -> Seq<char> {
    if tags.len() == 0 {
        Seq::<char>::empty()
    } else {
        seq![' '] + join_with(tags, ' ') + seq![' ']
    }
}

proof fn lemma_tag_pieces_nonempty(s: Seq<char>)
    ensures
        tag_pieces(s).len() >= 1,
    decreases s.len(),
{
    if s.len() > 0 {
        lemma_tag_pieces_nonempty(s.drop_last());
    }
}

/// Splits a tag string on spaces (and ideographic spaces), dropping empty
/// pieces.
pub fn split_tags(tags: &str) -> (r: Vec<String>)
    ensures
        views(r@) == spec_split_tags(tags@),
{
    let mut out: Vec<String> = Vec::new();
    let mut current = String::new();
    let ghost mut idx: int = 0;
    for c in it: tags.chars()
        invariant
            idx == it.index(),
            it.seq() == tags@,
            tag_pieces(tags@.take(idx)).len() >= 1,
            current@ == tag_pieces(tags@.take(idx)).last(),
            views(out@) == keep_nonempty(tag_pieces(tags@.take(idx)).drop_last()),
    {
        let ghost prefix = tags@.take(idx);
        let ghost pieces = tag_pieces(prefix);
        proof {
            assert(tags@.take(idx + 1).drop_last() =~= prefix);
            assert(tags@.take(idx + 1).last() == c);
            lemma_tag_pieces_nonempty(tags@.take(idx + 1));
        }
        if c == ' ' || c == '\u{3000}' {
            let ghost before = views(out@);
            let done = current;
            current = String::new();
            proof {
                lemma_tag_pieces_nonempty(prefix);
                assert(done@ == pieces.last());
                assert(pieces.drop_last().push(pieces.last()) =~= pieces);
            }
            if done.as_str().is_empty() {
                proof {
                    assert(pieces.drop_last().push(pieces.last()) =~= pieces);
                    lemma_keep_nonempty_push(pieces.drop_last(), pieces.last());
                    assert(keep_nonempty(pieces) == keep_nonempty(pieces.drop_last()));
                    assert(tag_pieces(tags@.take(idx + 1)).drop_last() =~= pieces);
                }
            } else {
                out.push(done);
                proof {
                    assert(pieces.drop_last().push(pieces.last()) =~= pieces);
                    lemma_keep_nonempty_push(pieces.drop_last(), pieces.last());
                    assert(keep_nonempty(pieces) == keep_nonempty(pieces.drop_last()).push(
                        pieces.last(),
                    ));
                    assert(tag_pieces(tags@.take(idx + 1)).drop_last() =~= pieces);
                    assert(views(out@) =~= before.push(done@));
                }
            }
        } else {
            push_char(&mut current, c);
            proof {
                let np = tag_pieces(tags@.take(idx + 1));
                assert(np.drop_last() =~= pieces.drop_last());
            }
        }
        proof {
            idx = idx + 1;
        }
    }
    proof {
        assert(tags@.take(tags@.len() as int) =~= tags@);
    }
    let ghost pieces = tag_pieces(tags@);
    proof {
        lemma_tag_pieces_nonempty(tags@);
        assert(pieces.drop_last().push(pieces.last()) =~= pieces);
        assert(current@ == pieces.last());
        assert(views(out@) == keep_nonempty(pieces.drop_last()));
        lemma_keep_nonempty_push(pieces.drop_last(), pieces.last());
    }
    if !current.as_str().is_empty() {
        let ghost before = views(out@);
        out.push(current);
        assert(views(out@) =~= before.push(pieces.last()));
    }
    out
}

/// The stored form of a tag list.
pub fn join_tags(tags: &Vec<String>) -> (r: String)
    ensures
        r@ == spec_join_tags(views(tags@)),
{
    if tags.len() == 0 {
        return String::new();
    }
    let inner = join_strings(tags, ' ');
    proof {
        reveal_strlit(" ");
    }
    let left = concat(" ", inner.as_str());
    concat(left.as_str(), " ")
}

// ---------------------------------------------------------------------
// Restore
// ---------------------------------------------------------------------

/// What a restore changed in the collection.
#[derive(Debug, Clone, Copy)]
pub struct OpChanges {
    /// The note's stored content was rewritten.
    pub note: bool,
}

/// Result of a restore: the new commit (none when the historical content
/// already matched the current one) and what changed.
pub struct RestoreOutcome {
    pub commit_hash: Option<String>,
    pub changes: OpChanges,
}

/// The content a restore writes for a historical `(flds, tags)` row: the
/// fields exactly as they were, the tags in their stored form.
pub open spec fn restored_content(flds: Seq<char>, tags: Seq<char>) -> (Seq<char>, Seq<char>) {
    (flds, spec_join_tags(spec_split_tags(tags)))
}

/// Splits a historical row into fields and tags and puts it back into
/// stored form.
pub fn restore_content(flds: &str, tags: &str) -> (r: (String, String))
    ensures
        (r.0@, r.1@) == restored_content(flds@, tags@),
{
    let fields = split_fields(flds);
    let tag_list = split_tags(tags);
    let new_flds = join_strings(&fields, '\x1f');
    proof {
        law_join_split_roundtrip(flds@, field_separator());
    }
    let new_tags = join_tags(&tag_list);
    (new_flds, new_tags)
}

/// The current time in Unix seconds (`chrono::Utc::now().timestamp()`).
/// Nothing is promised of its value.
#[verifier::external_body]
fn now_secs() -> i64 {
    chrono::Utc::now().timestamp()
}

/// `note`
pub open spec fn note_kind() -> Seq<char> {
    seq!['n', 'o', 't', 'e']
}

/// Whether `e` is the error of missing note `nid`: kind `note`, identified
/// by the note id in decimal.
pub open spec fn is_note_not_found(e: AnkiError, nid: NoteId) -> bool {
    e matches AnkiError::NotFound { kind, identifier } && kind@ == note_kind() && identifier@
        == signed_decimal(nid.0 as int)
}

/// The error of a missing note.
fn note_not_found(nid: NoteId) -> (e: AnkiError)
    ensures
        is_note_not_found(e, nid),
{
    proof {
        reveal_strlit("note");
        assert("note"@ =~= note_kind());
    }
    AnkiError::NotFound { kind: "note".to_owned(), identifier: decimal_i64(nid.0) }
}

/// `note version`
pub open spec fn note_version_kind() -> Seq<char> {
    seq!['n', 'o', 't', 'e', ' ', 'v', 'e', 'r', 's', 'i', 'o', 'n']
}

/// `nid=<nid> commit=<hash>`: how a missing note version is identified.
pub open spec fn note_version_identifier(nid: i64, commit_hash: Seq<char>) -> Seq<char> {
    seq!['n', 'i', 'd', '='] + signed_decimal(nid as int) + seq![' ', 'c', 'o', 'm', 'm', 'i', 't', '=']
        + commit_hash
}

/// Whether `e` is the error of a missing version of note `nid` at commit
/// `commit_hash`.
pub open spec fn is_version_not_found(e: AnkiError, nid: NoteId, commit_hash: Seq<char>) -> bool {
    e matches AnkiError::NotFound { kind, identifier } && kind@ == note_version_kind() && identifier@
        == note_version_identifier(nid.0, commit_hash)
}

/// The error of a missing version of note `nid` at `commit_hash`.
fn version_not_found(nid: NoteId, commit_hash: &str) -> (e: AnkiError)
    ensures
        is_version_not_found(e, nid, commit_hash@),
{
    proof {
        reveal_strlit("nid=");
        reveal_strlit(" commit=");
        reveal_strlit("note version");
    }
    let id1 = concat("nid=", decimal_i64(nid.0).as_str());
    let id2 = concat(id1.as_str(), " commit=");
    let identifier = concat(id2.as_str(), commit_hash);
    assert(identifier@ =~= note_version_identifier(nid.0, commit_hash@));
    let kind = "note version".to_owned();
    assert(kind@ =~= note_version_kind());
    AnkiError::NotFound { kind, identifier }
}

/// The historical `(flds, tags)` in the rows that the history query
/// answered: not found for no row, the first row's two texts otherwise.
pub fn historical_from_rows(rows: &Vec<Vec<SqlCell>>, nid: NoteId, commit_hash: &str) -> (r: Result<
    (String, String),
    AnkiError,
>)
    ensures
        rows.len() == 0 <==> (r matches Err(e) && is_version_not_found(e, nid, commit_hash@)),
        rows.len() > 0 ==> match two_texts(rows@[0]) {
            Some(p) => r matches Ok((f, t)) && (f@, t@) == p,
            None => r matches Err(AnkiError::Db(d)) && d is InvalidColumnType,
        },
{
    match note_content_from_rows(rows) {
        Ok(Some(p)) => Ok(p),
        Ok(None) => Err(version_not_found(nid, commit_hash)),
        Err(e) => Err(AnkiError::Db(e)),
    }
}

/// The query that reads a note's content as of a commit.
pub open spec fn history_query() -> Seq<char> {
    "SELECT flds, tags
             FROM dolt_history_notes
             WHERE id = ? AND commit_hash = ?"@
}

/// `args` are the note id and the commit hash, in that order.
pub open spec fn version_args(args: Seq<SqlArg>, nid: NoteId, commit_hash: Seq<char>) -> bool {
    &&& args.len() == 2
    &&& args[0] == SqlArg::Integer(nid.0)
    &&& args[1] matches SqlArg::Text(h) && h@ == commit_hash
}

/// What a history query's answer `rows` gives for note `nid` at
/// `commit_hash`, when the query itself succeeded: the first row's texts,
/// not found for no row, `InvalidColumnType` for another first row.
pub open spec fn version_outcome(
    r: Result<(String, String), AnkiError>,
    rows: Seq<Vec<SqlCell>>,
    nid: NoteId,
    commit_hash: Seq<char>,
) -> bool {
    match r {
        Ok((f, t)) => rows.len() > 0 && two_texts(rows[0]) == Some((f@, t@)),
        Err(e) => if rows.len() == 0 {
            is_version_not_found(e, nid, commit_hash) || (e matches AnkiError::Db(d) && d is Sqlite)
        } else {
            two_texts(rows[0]) is None && (e matches AnkiError::Db(d) && d is InvalidColumnType)
        },
    }
}

/// Reads `flds` and `tags` of a note as of commit `commit_hash`: sends
/// `history_query` with the note id and the hash, and reads its answer
/// with `historical_from_rows` (not found when it has no row).
pub fn load_historical_fields_and_tags(col: &mut Collection, nid: NoteId, commit_hash: &str) -> (r: Result<
    (String, String),
    AnkiError,
>)
    ensures
        final(col).state == old(col).state,
        final(col).storage.db == old(col).storage.db,
        final(col).storage.log@.len() == old(col).storage.log@.len() + 1,
        final(col).storage.log@.drop_last() == old(col).storage.log@,
        final(col).storage.log@.last().0 == history_query(),
        version_args(final(col).storage.log@.last().1, nid, commit_hash@),
        version_outcome(r, last_answer(*final(col)), nid, commit_hash@),
        r matches Err(e) ==> e is Db || is_version_not_found(e, nid, commit_hash@),
{
    let mut args: Vec<SqlArg> = Vec::new();
    args.push(SqlArg::Integer(nid.0));
    args.push(SqlArg::Text(commit_hash.to_owned()));
    let rows = col.query_db(
        "SELECT flds, tags
             FROM dolt_history_notes
             WHERE id = ? AND commit_hash = ?",
        &args,
    );
    let rows = match rows {
        Ok(rows) => rows,
        Err(e) => return Err(AnkiError::Db(e)),
    };
    historical_from_rows(&rows, nid, commit_hash)
}

/// The statement that writes a note's content.
pub open spec fn update_query() -> Seq<char> {
    "UPDATE notes SET flds = ?, tags = ?, mod = ?, usn = -1 WHERE id = ?"@
}

/// `args` write `flds` and `tags` into note `nid` (with some stamp).
pub open spec fn update_args(args: Seq<SqlArg>, nid: NoteId, flds: Seq<char>, tags: Seq<char>) -> bool {
    &&& args.len() == 4
    &&& args[0] matches SqlArg::Text(f) && f@ == flds
    &&& args[1] matches SqlArg::Text(t) && t@ == tags
    &&& args[2] is Integer
    &&& args[3] == SqlArg::Integer(nid.0)
}

/// The record `l`, from index `n` on, restores note `nid` from the
/// history row that the query at `n` answered: the note's content is read
/// (at `n + 3`), and the restored content (`restored_content` of that row)
/// is written with the update statement exactly when it differs from the
/// content read, `note_written` telling which.
pub open spec fn restore_written(
    l: Seq<(Seq<char>, Seq<SqlArg>, Seq<Vec<SqlCell>>)>,
    n: int,
    nid: NoteId,
    note_written: bool,
) -> bool {
    &&& 0 <= n
    &&& n + 3 < l.len()
    &&& l[n].2.len() > 0
    &&& two_texts(l[n].2[0]) matches Some(p) && {
        let w = restored_content(p.0, p.1);
        &&& l[n + 3].0 == note_query()
        &&& l[n + 3].1 == seq![SqlArg::Integer(nid.0)]
        &&& (note_content_of(l[n + 3].2) matches Some(Some(cur)) && note_written == (cur != w))
        &&& note_written ==> (n + 4 < l.len() && l[n + 4].0 == update_query() && update_args(
            l[n + 4].1,
            nid,
            w.0,
            w.1,
        ))
    }
}

/// How the restore recorded in `l` from `n` on decided its commit. The
/// session's snapshot is the note row read at `n + 1`, recorded into the
/// sessions `m` held before (`snapshot_step`); right after the write (at
/// `p`) the commit reads that note again and commits exactly when the two
/// differ (`content_differs`). Without a snapshot it asks whether `notes`
/// has uncommitted changes and commits exactly when it has.
pub open spec fn restore_commit_decided(
    m: Map<Seq<char>, NoteSnapshot>,
    id: Seq<char>,
    nid: NoteId,
    l: Seq<(Seq<char>, Seq<SqlArg>, Seq<Vec<SqlCell>>)>,
    n: int,
    note_written: bool,
    committed: bool,
) -> bool {
    let p = if note_written {
        n + 5
    } else {
        n + 4
    };
    &&& 0 <= n
    &&& p < l.len()
    &&& exists|row: Option<(String, String)>|
        #![trigger snapshot_step(m, id, nid, row)]
        {
            &&& note_content_of(l[n + 1].2) == Some(row_view(row))
            &&& match recorded_snapshot(snapshot_step(m, id, nid, row), id) {
                Some(s) => {
                    &&& l[p].0 == note_query()
                    &&& l[p].1 == seq![SqlArg::Integer(s.nid.0)]
                    &&& exists|c: Option<(Seq<char>, Seq<char>)>|
                        note_content_of(l[p].2) == Some(c) && committed == content_differs(s, c)
                },
                None => {
                    &&& l[p].0 == dirty_query()
                    &&& l[p].1 == Seq::<SqlArg>::empty()
                    &&& committed == (l[p].2.len() > 0)
                },
            }
        }
}

impl Collection {
    /// Writes `flds` and `tags` as the note's current content, stamping its
    /// modification time and marking it unsynced; nothing is written when
    /// the stored content already equals them.
    ///
    /// Reads the note first (`note_query`): not found when it answers no
    /// row; otherwise the update statement is sent exactly when the stored
    /// content differs, and `note` reports whether it was.
    pub fn update_note_content(&mut self, nid: NoteId, flds: &str, tags: &str) -> (r: Result<
        OpChanges,
        AnkiError,
    >)
        ensures
            final(self).state == old(self).state,
            final(self).storage.db == old(self).storage.db,
            final(self).storage.log@.len() > old(self).storage.log@.len(),
            final(self).storage.log@.subrange(0, old(self).storage.log@.len() as int)
                == old(self).storage.log@,
            final(self).storage.log@[old(self).storage.log@.len() as int].0 == note_query(),
            final(self).storage.log@[old(self).storage.log@.len() as int].1 == seq![
                SqlArg::Integer(nid.0),
            ],
            r matches Err(e) ==> e is Db || is_note_not_found(e, nid),
            r matches Err(e) && is_note_not_found(e, nid) ==> note_content_of(
                final(self).storage.log@[old(self).storage.log@.len() as int].2,
            ) == Some(None::<(Seq<char>, Seq<char>)>),
            r matches Ok(c) ==> (note_content_of(
                final(self).storage.log@[old(self).storage.log@.len() as int].2,
            ) matches Some(Some(cur)) && c.note == (cur != (flds@, tags@))),
            r matches Ok(c) ==> if c.note {
                &&& final(self).storage.log@.len() == old(self).storage.log@.len() + 2
                &&& final(self).storage.log@.last().0 == update_query()
                &&& update_args(final(self).storage.log@.last().1, nid, flds@, tags@)
            } else {
                final(self).storage.log@.len() == old(self).storage.log@.len() + 1
            },
    {
        let ghost log0 = self.storage.log@;
        let current = match read_note_content(self, nid)? {
            Some(c) => c,
            None => return Err(note_not_found(nid)),
        };
        let ghost log1 = self.storage.log@;
        assert(log1.subrange(0, log0.len() as int) =~= log0);
        assert(log1[log0.len() as int] == log1.last());
        if crate::text::str_eq(current.0.as_str(), flds) && crate::text::str_eq(
            current.1.as_str(),
            tags,
        ) {
            return Ok(OpChanges { note: false });
        }
        let mut args: Vec<SqlArg> = Vec::new();
        args.push(SqlArg::Text(flds.to_owned()));
        args.push(SqlArg::Text(tags.to_owned()));
        args.push(SqlArg::Integer(now_secs()));
        args.push(SqlArg::Integer(nid.0));
        let done = self.run_db("UPDATE notes SET flds = ?, tags = ?, mod = ?, usn = -1 WHERE id = ?", &args);
        proof {
            let log2 = self.storage.log@;
            assert(log2.subrange(0, log0.len() as int) =~= log0);
            assert(log2[log0.len() as int] == log1[log0.len() as int]);
        }
        match done {
            Ok(_) => Ok(OpChanges { note: true }),
            Err(e) => Err(AnkiError::Db(e)),
        }
    }

    /// Replaces the note's fields and tags with their values at
    /// `commit_hash` and commits that as a new commit. Returns the new hash,
    /// or `None` when the historical content already matched.
    ///
    /// On success the record shows the historical row read, the content
    /// written from it (`restore_written`), how the commit was decided
    /// (`restore_commit_decided`) and, when a commit was made, the commit of
    /// `session` that answered its hash. A missing version is
    /// reported as not found after the history query alone, with nothing
    /// else sent and the session state unchanged.
    pub fn restore_note_version(
        &mut self,
        nid: NoteId,
        commit_hash: &str,
        session: SessionInfo,
    ) -> (r: Result<RestoreOutcome, AnkiError>)
        ensures
            final(self).storage.db == old(self).storage.db,
            r is Ok ==> final(self).state.versioning@ == old(self).state.versioning@.remove(
                session.id@,
            ),
            r matches Err(e) ==> e is Db || is_note_not_found(e, nid)
                || is_version_not_found(e, nid, commit_hash@),
            r is Ok ==> {
                &&& final(self).storage.log@.len() > old(self).storage.log@.len()
                &&& final(self).storage.log@[old(self).storage.log@.len() as int].0 == history_query()
                &&& version_args(
                    final(self).storage.log@[old(self).storage.log@.len() as int].1,
                    nid,
                    commit_hash@,
                )
                &&& final(self).storage.log@[old(self).storage.log@.len() as int].2.len() > 0
            },
            r matches Ok(out) ==> restore_written(
                final(self).storage.log@,
                old(self).storage.log@.len() as int,
                nid,
                out.changes.note,
            ),
            r matches Ok(out) ==> restore_commit_decided(
                old(self).state.versioning@,
                session.id@,
                nid,
                final(self).storage.log@,
                old(self).storage.log@.len() as int,
                out.changes.note,
                out.commit_hash is Some,
            ),
            r matches Ok(out) ==> (out.commit_hash matches Some(h) ==> is_commit_of(
                final(self).storage.log@.last(),
                session,
            ) && first_text_cell(last_answer(*final(self))) == Some(h@)),
            r matches Err(e) && is_version_not_found(e, nid, commit_hash@) ==> {
                &&& final(self).state == old(self).state
                &&& final(self).storage.log@.len() == old(self).storage.log@.len() + 1
                &&& last_answer(*final(self)).len() == 0
            },
    {
        let ghost log0 = self.storage.log@;
        let loaded = load_historical_fields_and_tags(self, nid, commit_hash);
        let ghost log1 = self.storage.log@;
        proof {
            assert(log1[log0.len() as int] == log1.last());
        }
        let (flds, tags) = loaded?;
        // Snapshot before overwriting, so that the commit below compares
        // the restored content against the content it replaced.
        let snapped = self.snapshot_note_for_session(session.id.as_str(), nid);
        proof {
            let l = self.storage.log@;
            assert(l[log0.len() as int] == log1[log0.len() as int]) by {
                assert(l.drop_last() == log1);
            }
        }
        snapped?;
        let ghost log2 = self.storage.log@;
        let ghost snap_state = self.state.versioning@;
        let read = read_note_content(self, nid);
        proof {
            let l = self.storage.log@;
            assert(l[log0.len() as int] == log1[log0.len() as int]) by {
                assert(l.drop_last() == log2);
                assert(log2[log0.len() as int] == log1[log0.len() as int]);
            }
        }
        match read? {
            Some(_) => {},
            None => return Err(note_not_found(nid)),
        }
        let ghost log3 = self.storage.log@;
        let (new_flds, new_tags) = restore_content(flds.as_str(), tags.as_str());
        let updated = self.update_note_content(nid, new_flds.as_str(), new_tags.as_str());
        proof {
            let l = self.storage.log@;
            assert(l[log0.len() as int] == log3[log0.len() as int]) by {
                assert(l.subrange(0, log3.len() as int) == log3);
                assert(l.subrange(0, log3.len() as int)[log0.len() as int] == l[log0.len() as int]);
            }
        }
        let changes = updated?;
        let ghost log4 = self.storage.log@;
        let handle = self.begin_versioning_session(session);
        let committed = self.commit_versioning_session(handle);
        proof {
            let l = self.storage.log@;
            if committed is Ok {
                assert(l[log0.len() as int] == log4[log0.len() as int]) by {
                    assert(l.subrange(0, log4.len() as int) == log4);
                    assert(l.subrange(0, log4.len() as int)[log0.len() as int] == l[log0.len() as int]);
                }
            }
        }
        let ghost info = handle.info;
        let commit_hash = committed?;
        proof {
            assert(self.state.versioning@ =~= old(self).state.versioning@.remove(session.id@));
            let l = self.storage.log@;
            let n = log0.len() as int;
            assert(l.subrange(0, log4.len() as int) == log4);
            assert(log4.subrange(0, log3.len() as int) == log3);
            assert(l[n + 3] == log4[n + 3]) by {
                assert(l.subrange(0, log4.len() as int)[n + 3] == l[n + 3]);
            }
            assert(log3.len() == n + 3);
            assert(two_texts(log1[n].2[0]) == Some((flds@, tags@)));
            assert((new_flds@, new_tags@) == restored_content(flds@, tags@));
            if changes.note {
                assert(l[n + 4] == log4[n + 4]) by {
                    assert(l.subrange(0, log4.len() as int)[n + 4] == l[n + 4]);
                }
                assert(log4[n + 4] == log4.last());
            }
            assert(restore_written(l, n, nid, changes.note));
            assert(l[n + 1] == log2[n + 1]) by {
                assert(l.subrange(0, log4.len() as int)[n + 1] == l[n + 1]);
                assert(log4.subrange(0, log3.len() as int)[n + 1] == log4[n + 1]);
                assert(log3.drop_last() == log2);
            }
            assert(log2[n + 1] == log2.last());
            let row = choose|row: Option<(String, String)>|
                note_content_of(log2.last().2) == Some(row_view(row)) && snap_state == snapshot_step(
                    old(self).state.versioning@,
                    session.id@,
                    nid,
                    row,
                );
            assert(snap_state == snapshot_step(old(self).state.versioning@, session.id@, nid, row));
            assert(restore_commit_decided(
                old(self).state.versioning@,
                session.id@,
                nid,
                l,
                n,
                changes.note,
                commit_hash is Some,
            ));
        }
        Ok(RestoreOutcome { commit_hash, changes })
    }

    /// The fields and tags of a note as of commit `commit_hash`: the
    /// historical row (`load_historical_fields_and_tags`) split into fields
    /// and tags.
    pub fn get_note_at_version(&mut self, nid: NoteId, commit_hash: &str) -> (r: Result<
        (Vec<String>, Vec<String>),
        AnkiError,
    >)
        ensures
            final(self).state == old(self).state,
            final(self).storage.db == old(self).storage.db,
            final(self).storage.log@.len() == old(self).storage.log@.len() + 1,
            final(self).storage.log@.drop_last() == old(self).storage.log@,
            final(self).storage.log@.last().0 == history_query(),
            version_args(final(self).storage.log@.last().1, nid, commit_hash@),
            r matches Ok((fs, ts)) ==> last_answer(*final(self)).len() > 0 && exists|flds: Seq<char>, tags: Seq<char>|
                two_texts(last_answer(*final(self))[0]) == Some((flds, tags))
                    && views(fs@) == split_on(flds, field_separator()) && views(ts@)
                    == spec_split_tags(tags),
            r matches Err(e) ==> e is Db || is_version_not_found(e, nid, commit_hash@),
    {
        let (flds, tags) = load_historical_fields_and_tags(self, nid, commit_hash)?;
        let fields = split_fields(flds.as_str());
        let tag_list = split_tags(tags.as_str());
        Ok((fields, tag_list))
    }
}

// ---------------------------------------------------------------------
// Tag round trip
// ---------------------------------------------------------------------

/// A tag that survives storage: non-empty, without separators.
pub open spec fn is_plain_tag(t: Seq<char>) -> bool {
    t.len() > 0 && forall|i: int| 0 <= i < t.len() ==> !is_tag_separator(#[trigger] t[i])
}

proof fn lemma_pieces_of_word(w: Seq<char>)
    requires
        forall|i: int| 0 <= i < w.len() ==> !is_tag_separator(#[trigger] w[i]),
    ensures
        tag_pieces(w) == seq![w],
    decreases w.len(),
{
    if w.len() > 0 {
        lemma_pieces_of_word(w.drop_last());
        assert(!is_tag_separator(w[w.len() - 1]));
        assert(w.drop_last().push(w.last()) =~= w);
        assert(seq![w.drop_last()].update(0, w.drop_last().push(w.last())) =~= seq![w]);
    } else {
        assert(w =~= Seq::<char>::empty());
    }
}

proof fn lemma_pieces_concat(a: Seq<char>, b: Seq<char>)
    ensures
        tag_pieces(a + seq![' '] + b) == tag_pieces(a) + tag_pieces(b),
    decreases b.len(),
{
    let s = a + seq![' '] + b;
    if b.len() == 0 {
        assert(s.drop_last() =~= a);
        assert(s.last() == ' ');
        assert(tag_pieces(a).push(Seq::<char>::empty()) =~= tag_pieces(a) + seq![
            Seq::<char>::empty(),
        ]);
    } else {
        let b2 = b.drop_last();
        lemma_pieces_concat(a, b2);
        lemma_tag_pieces_nonempty(b2);
        assert(s.drop_last() =~= a + seq![' '] + b2);
        assert(s.last() == b.last());
        let x = tag_pieces(a);
        let y = tag_pieces(b2);
        if is_tag_separator(b.last()) {
            assert((x + y).push(Seq::<char>::empty()) =~= x + y.push(Seq::<char>::empty()));
        } else {
            assert((x + y).update((x + y).len() - 1, (x + y).last().push(b.last())) =~= x
                + y.update(y.len() - 1, y.last().push(b.last())));
        }
    }
}

proof fn lemma_pieces_of_join(tags: Seq<Seq<char>>)
    requires
        tags.len() > 0,
        forall|k: int| 0 <= k < tags.len() ==> is_plain_tag(#[trigger] tags[k]),
    ensures
        tag_pieces(join_with(tags, ' ')) == tags,
    decreases tags.len(),
{
    if tags.len() == 1 {
        assert(is_plain_tag(tags[0]));
        lemma_pieces_of_word(tags[0]);
        assert(seq![tags[0]] =~= tags);
    } else {
        let front = tags.drop_last();
        assert forall|k: int| 0 <= k < front.len() implies is_plain_tag(#[trigger] front[k]) by {
            assert(front[k] == tags[k]);
        }
        lemma_pieces_of_join(front);
        assert(is_plain_tag(tags[tags.len() - 1]));
        lemma_pieces_of_word(tags.last());
        lemma_pieces_concat(join_with(front, ' '), tags.last());
        assert(join_with(tags, ' ') =~= join_with(front, ' ') + seq![' '] + tags.last());
        assert(front + seq![tags.last()] =~= tags);
    }
}

proof fn lemma_keep_nonempty_all(tags: Seq<Seq<char>>)
    requires
        forall|k: int| 0 <= k < tags.len() ==> (#[trigger] tags[k]).len() > 0,
    ensures
        keep_nonempty(tags) == tags,
    decreases tags.len(),
{
    if tags.len() > 0 {
        let front = tags.drop_last();
        assert forall|k: int| 0 <= k < front.len() implies (#[trigger] front[k]).len() > 0 by {
            assert(front[k] == tags[k]);
        }
        lemma_keep_nonempty_all(front);
        lemma_keep_nonempty_push(front, tags.last());
        assert(tags[tags.len() - 1].len() > 0);
        assert(front.push(tags.last()) =~= tags);
    } else {
        reveal_with_fuel(Seq::filter, 1);
    }
}

/// Tags written in their stored form are read back unchanged: splitting
/// the joined form of non-empty tags without separators gives the same
/// tags in the same order.
pub proof fn law_split_tags_inverts_join_tags(tags: Seq<Seq<char>>)
    requires
        forall|k: int| 0 <= k < tags.len() ==> is_plain_tag(#[trigger] tags[k]),
    ensures
        spec_split_tags(spec_join_tags(tags)) == tags,
{
    if tags.len() == 0 {
        reveal_with_fuel(Seq::filter, 2);
        assert(tag_pieces(Seq::<char>::empty()) == seq![Seq::<char>::empty()]);
    } else {
        let j = join_with(tags, ' ');
        lemma_pieces_of_join(tags);
        let e = Seq::<char>::empty();
        lemma_pieces_concat(e, j + seq![' ']);
        lemma_pieces_concat(j, e);
        assert(j + seq![' '] + e =~= j + seq![' ']);
        assert(e + seq![' '] + (j + seq![' ']) =~= seq![' '] + j + seq![' ']);
        assert(tag_pieces(e) == seq![e]);
        let pieces = seq![e] + (tags + seq![e]);
        assert(tag_pieces(spec_join_tags(tags)) == pieces);
        lemma_keep_nonempty_push(seq![e], e);
        reveal_with_fuel(Seq::filter, 2);
        assert(keep_nonempty(seq![e]) =~= Seq::<Seq<char>>::empty());
        assert forall|k: int| 0 <= k < tags.len() implies (#[trigger] tags[k]).len() > 0 by {
            assert(is_plain_tag(tags[k]));
        }
        lemma_keep_nonempty_all(tags);
        Seq::filter_distributes_over_add(seq![e], tags + seq![e], |w: Seq<char>| w.len() > 0);
        Seq::filter_distributes_over_add(tags, seq![e], |w: Seq<char>| w.len() > 0);
        assert(keep_nonempty(seq![e]) =~= Seq::<Seq<char>>::empty());
        assert(keep_nonempty(tags + seq![e]) == tags + keep_nonempty(seq![e]));
        assert(keep_nonempty(pieces) =~= tags);
    }
}

} // verus!
