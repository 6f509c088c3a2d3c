//! The request-level operations of the versioning service, over plain
//! values: empty strings stand for "none" as in the wire messages.

use vstd::prelude::*;
use super::collection::{AnkiError, Collection};
use super::collection::last_answer;
use super::commit::{note_content_of, note_query, row_view, snapshot_step};
use crate::sql::{first_text_cell, SqlArg};
use super::history::{
    clamp_limit, filter_view, recent_args, recent_query, recent_rows_are, recent_versions, CollectionVersion, RecentRow,
};
use super::session::{NoteId, SessionHandle, SessionInfo, SessionKind};

verus! {

/// `None` for an empty string, else the string.
pub fn non_empty(s: &str) -> (r: Option<&str>)
    ensures
        match r {
            Some(x) => x@ == s@ && s@.len() > 0,
            None => s@.len() == 0,
        },
{
    if s.is_empty() {
        None
    } else {
        Some(s)
    }
}

impl Collection {
    /// Starts tracking a note for a session: records its current content.
    pub fn begin_session(&mut self, session_id: &str, nid: NoteId) -> (r: Result<(), AnkiError>)
        ensures
            final(self).storage.db == old(self).storage.db,
            final(self).storage.log@.len() == old(self).storage.log@.len() + 1,
            final(self).storage.log@.drop_last() == old(self).storage.log@,
            final(self).storage.log@.last().0 == note_query(),
            final(self).storage.log@.last().1 == seq![SqlArg::Integer(nid.0)],
            r matches Err(e) ==> e is Db,
            r is Err ==> final(self).state.versioning@ == old(self).state.versioning@,
            r is Ok ==> exists|row: Option<(String, String)>|
                note_content_of(last_answer(*final(self))) == Some(row_view(row))
                    && final(self).state.versioning@ == snapshot_step(
                    old(self).state.versioning@,
                    session_id@,
                    nid,
                    row,
                ),
    {
        self.snapshot_note_for_session(session_id, nid)
    }

    /// Ends a session: commits when its note changed. The new commit's hash,
    /// or the empty string when nothing was committed.
    pub fn commit_session(&mut self, session_id: String, kind: SessionKind, author: String) -> (r: Result<
        String,
        AnkiError,
    >)
        ensures
            final(self).storage.db == old(self).storage.db,
            final(self).state.versioning@ == old(self).state.versioning@.remove(session_id@),
            r matches Err(e) ==> e is Db,
            r matches Ok(h) ==> {
                ||| final(self).storage.log@.len() == old(self).storage.log@.len() + 1 && h@.len()
                    == 0
                ||| final(self).storage.log@.len() == old(self).storage.log@.len() + 3
                    && first_text_cell(last_answer(*final(self))) == Some(h@)
            },
    {
        let info = SessionInfo { id: session_id, kind, author };
        let handle: SessionHandle = self.begin_versioning_session(info);
        match self.commit_versioning_session(handle)? {
            Some(hash) => Ok(hash),
            None => Ok(String::new()),
        }
    }

    /// Recent commits for a request whose empty `author` or `session_id`
    /// mean "no filter".
    pub fn recent_versions_request(&mut self, author: &str, session_id: &str, limit: u32) -> (r: Result<
        Vec<CollectionVersion>,
        AnkiError,
    >)
        ensures
            final(self).state == old(self).state,
            final(self).storage.db == old(self).storage.db,
            final(self).storage.log@.len() == old(self).storage.log@.len() + 1,
            final(self).storage.log@.drop_last() == old(self).storage.log@,
            final(self).storage.log@.last().0 == recent_query(),
            recent_args(final(self).storage.log@.last().1, author@, clamp_limit(limit)),
            r matches Ok(vs) ==> exists|rows: Seq<RecentRow>|
                recent_rows_are(rows, last_answer(*final(self)))
                    && vs@.map_values(|v: CollectionVersion| v@) == recent_versions(
                    rows,
                    session_id@,
                ),
            r matches Ok(vs) ==> forall|k: int|
                0 <= k < vs.len() && session_id@.len() != 0 ==> (#[trigger] vs@[k]).session_id@
                    == session_id@,
            r matches Err(e) ==> e is Db,
    {
        let a = non_empty(author);
        let s = non_empty(session_id);
        assert(filter_view(a) == author@);
        assert(filter_view(s) == session_id@);
        self.list_recent_versions(a, s, limit)
    }
}

} // verus!
