//! Versioning sessions against a stand-in for Doltlite: plain SQLite
//! tables named like Doltlite's system tables, kept up to date by
//! triggers and by SQL functions registered on the connection.

use anki_doltlite::versioning::collection::Collection;
use anki_doltlite::versioning::session::{NoteId, SessionInfo, SessionKind};
use rusqlite::functions::FunctionFlags;
use rusqlite::Connection;
use std::path::{Path, PathBuf};
use std::sync::atomic::{AtomicUsize, Ordering};
use std::sync::Arc;
use tempfile::TempDir;

const SCHEMA: &str = "
    PRAGMA journal_mode = WAL;
    CREATE TABLE notetypes (id integer PRIMARY KEY, name text);
    CREATE TABLE fields (ntid integer, ord integer, name text);
    CREATE TABLE notes (id integer PRIMARY KEY, mid integer, mod integer, usn integer, tags text, flds text);
    CREATE TABLE dolt_status (table_name text);
    CREATE TABLE dolt_log (commit_hash text, committer text, date text, message text);
    CREATE TABLE dolt_branches (name text, hash text);
    CREATE TABLE dolt_commit_ancestors (commit_hash text, parent_hash text, parent_index integer);
    CREATE TABLE dolt_history_notes (id integer, mid integer, flds text, tags text, commit_hash text, committer text);
    CREATE TRIGGER notes_ins AFTER INSERT ON notes BEGIN INSERT INTO dolt_status VALUES ('notes'); END;
    CREATE TRIGGER notes_upd AFTER UPDATE ON notes BEGIN INSERT INTO dolt_status VALUES ('notes'); END;
    CREATE TRIGGER notes_del AFTER DELETE ON notes BEGIN INSERT INTO dolt_status VALUES ('notes'); END;
    INSERT INTO dolt_branches VALUES ('main', 'root');
    INSERT INTO dolt_log VALUES ('root', 'doltlite', '2024-01-01 00:00:00', 'Initialize data repository');
    INSERT INTO notetypes VALUES (1, 'Basic');
    INSERT INTO fields VALUES (1, 0, 'Front');
    INSERT INTO fields VALUES (1, 1, 'Back');
";

fn record_commit(path: &Path, n: usize, message: &str, author: &str) -> rusqlite::Result<String> {
    let db = Connection::open(path)?;
    let hash = format!("{n:032x}");
    let committer = author.split(" <").next().unwrap_or("").to_string();
    let parent: String =
        db.query_row("SELECT hash FROM dolt_branches WHERE name = 'main'", [], |r| r.get(0))?;
    let date = format!("2024-01-01 00:{:02}:{:02}", n / 60, n % 60);
    db.execute(
        "INSERT INTO dolt_log VALUES (?1, ?2, ?3, ?4)",
        [&hash, &committer, &date, &message.to_string()],
    )?;
    db.execute("INSERT INTO dolt_commit_ancestors VALUES (?1, ?2, 0)", [&hash, &parent])?;
    db.execute("UPDATE dolt_branches SET hash = ?1 WHERE name = 'main'", [&hash])?;
    db.execute(
        "INSERT INTO dolt_history_notes SELECT id, mid, flds, tags, ?1, ?2 FROM notes",
        [&hash, &committer],
    )?;
    db.execute("DELETE FROM dolt_status", [])?;
    Ok(hash)
}

struct Fixture {
    _dir: TempDir,
    col: Collection,
}

fn fixture() -> Fixture {
    let dir = TempDir::new().unwrap();
    let path: PathBuf = dir.path().join("collection.anki2");
    {
        let setup = Connection::open(&path).unwrap();
        setup.execute_batch(SCHEMA).unwrap();
    }
    let db = Connection::open(&path).unwrap();
    db.create_scalar_function("dolt_default_branch", 0, FunctionFlags::SQLITE_UTF8, |_| {
        Ok("main".to_string())
    })
    .unwrap();
    db.create_scalar_function("dolt_add", 1, FunctionFlags::SQLITE_UTF8, |_| Ok(0i64))
        .unwrap();
    let counter = Arc::new(AtomicUsize::new(1));
    let commit_path = path.clone();
    db.create_scalar_function("dolt_commit", 4, FunctionFlags::SQLITE_UTF8, move |ctx| {
        let message: String = ctx.get(1)?;
        let author: String = ctx.get(3)?;
        let n = counter.fetch_add(1, Ordering::SeqCst);
        record_commit(&commit_path, n, &message, &author)
            .map_err(|e| rusqlite::Error::UserFunctionError(Box::new(e)))
    })
    .unwrap();
    Fixture { _dir: dir, col: Collection::new(db) }
}

fn add_note(col: &Collection, id: i64, flds: &str) {
    col.storage
        .db
        .execute(
            "INSERT INTO notes (id, mid, mod, usn, tags, flds) VALUES (?1, 1, 0, 0, '', ?2)",
            (id, flds),
        )
        .unwrap();
}

fn set_fields(col: &mut Collection, id: i64, flds: &str) {
    col.update_note_content(NoteId(id), flds, "").ok().unwrap();
}

fn dolt_log_len(col: &Collection) -> usize {
    col.storage
        .db
        .query_row("SELECT COUNT(*) FROM dolt_log", [], |r| r.get::<_, i64>(0))
        .unwrap() as usize
}

fn newest_commit(col: &Collection) -> (String, String, String) {
    col.storage
        .db
        .query_row(
            "SELECT commit_hash, committer, message FROM dolt_log ORDER BY date DESC LIMIT 1",
            [],
            |r| Ok((r.get(0)?, r.get(1)?, r.get(2)?)),
        )
        .unwrap()
}

fn session(author: &str) -> SessionInfo {
    SessionInfo {
        id: "deadbeefdeadbeefdeadbeefdeadbeef".to_string(),
        kind: SessionKind::Editor,
        author: author.to_string(),
    }
}

fn commit(col: &mut Collection, info: SessionInfo) -> Option<String> {
    let h = col.begin_versioning_session(info);
    col.commit_versioning_session(h).ok().unwrap()
}

#[test]
fn commit_records_edits() {
    let mut f = fixture();
    add_note(&f.col, 1, "front\x1fback");

    let before = dolt_log_len(&f.col);
    let hash = commit(&mut f.col, session("human"));
    assert!(hash.is_some(), "expected a commit hash after note add");
    assert_eq!(dolt_log_len(&f.col), before + 1);

    let (commit_hash, committer, message) = newest_commit(&f.col);
    assert_eq!(commit_hash, hash.unwrap());
    assert_eq!(committer, "human");
    assert!(
        message.contains("\"session\":\"deadbeef"),
        "commit message should carry session metadata: {message}"
    );
    assert!(message.contains("\"kind\":\"editor\""));
    assert!(message.contains("\"actor\":\"human\""));
}

#[test]
fn snapshot_skips_commit_when_content_unchanged() {
    let mut f = fixture();
    add_note(&f.col, 1, "unchanged\x1fback");
    commit(&mut f.col, session("human")).unwrap();

    let before = dolt_log_len(&f.col);
    for _ in 0..3 {
        let sid = "0000000000000000000000000000000a".to_string();
        f.col.snapshot_note_for_session(&sid, NoteId(1)).ok().unwrap();
        // The row is rewritten with the same content, as the editor's save
        // path may do.
        set_fields(&mut f.col, 1, "unchanged\x1fback");
        let info = SessionInfo { id: sid, kind: SessionKind::Editor, author: "human".to_string() };
        let hash = commit(&mut f.col, info);
        assert!(hash.is_none(), "no-op editor session must not produce a commit");
    }
    assert_eq!(dolt_log_len(&f.col), before, "expected no new commits");
}

#[test]
fn snapshot_commits_when_content_changes() {
    let mut f = fixture();
    add_note(&f.col, 1, "before\x1fback");
    commit(&mut f.col, session("human")).unwrap();

    let before = dolt_log_len(&f.col);
    let sid = "ffffffffffffffffffffffffffffffff".to_string();
    f.col.snapshot_note_for_session(&sid, NoteId(1)).ok().unwrap();
    set_fields(&mut f.col, 1, "after\x1fback");
    let info = SessionInfo { id: sid, kind: SessionKind::Editor, author: "human".to_string() };
    let hash = commit(&mut f.col, info);
    assert!(hash.is_some(), "real edit should produce a commit");
    assert_eq!(dolt_log_len(&f.col), before + 1);
}

#[test]
fn clean_session_makes_no_commit() {
    let mut f = fixture();
    add_note(&f.col, 1, "front\x1fback");
    commit(&mut f.col, session("human"));

    let before = dolt_log_len(&f.col);
    let hash = commit(&mut f.col, session("human"));
    assert!(hash.is_none(), "expected no commit when notes are clean");
    assert_eq!(dolt_log_len(&f.col), before);
}

#[test]
fn list_note_versions_returns_newest_first() {
    let mut f = fixture();
    add_note(&f.col, 1, "one\x1fback");
    commit(&mut f.col, session("human")).unwrap();

    set_fields(&mut f.col, 1, "two\x1fback");
    commit(&mut f.col, session("human")).unwrap();

    set_fields(&mut f.col, 1, "two\x1fback2");
    commit(&mut f.col, session("agent:bot")).unwrap();

    let versions = f.col.list_note_versions(NoteId(1)).ok().unwrap();
    assert_eq!(versions.len(), 3, "expected 3 commits in history");
    assert_eq!(versions[0].author, "agent:bot");
    assert_eq!(versions[0].changed_fields, vec!["Back".to_string()]);
    assert_eq!(versions[1].author, "human");
    assert_eq!(versions[1].changed_fields, vec!["Front".to_string()]);
    assert!(versions[2].changed_fields.is_empty());
    assert!(versions[0].timestamp_secs >= versions[1].timestamp_secs);
}

#[test]
fn restore_writes_a_new_commit_and_keeps_in_betweens() {
    let mut f = fixture();
    add_note(&f.col, 1, "v1\x1fback");
    commit(&mut f.col, session("human")).unwrap();

    set_fields(&mut f.col, 1, "v2\x1fback");
    commit(&mut f.col, session("agent:rogue")).unwrap();

    let versions_before = f.col.list_note_versions(NoteId(1)).ok().unwrap();
    assert_eq!(versions_before.len(), 2);
    let v1_hash = versions_before[1].commit_hash.clone();

    let new_hash = f
        .col
        .restore_note_version(NoteId(1), &v1_hash, session("human"))
        .ok()
        .unwrap()
        .commit_hash
        .expect("restore should produce a new commit");

    let flds: String = f
        .col
        .storage
        .db
        .query_row("SELECT flds FROM notes WHERE id = 1", [], |r| r.get(0))
        .unwrap();
    assert_eq!(flds.split('\x1f').next(), Some("v1"));

    let versions_after = f.col.list_note_versions(NoteId(1)).ok().unwrap();
    assert_eq!(versions_after.len(), 3, "expected revert to append, not reset");
    assert_eq!(versions_after[0].commit_hash, new_hash);
    let hashes: Vec<_> = versions_after.iter().map(|v| v.commit_hash.as_str()).collect();
    assert!(hashes.contains(&versions_before[0].commit_hash.as_str()));
    assert!(hashes.contains(&v1_hash.as_str()));
}

#[test]
fn agent_author_round_trips() {
    let mut f = fixture();
    add_note(&f.col, 1, "f\x1fb");
    commit(&mut f.col, session("agent:test-bot")).unwrap();
    let (_, committer, _) = newest_commit(&f.col);
    assert_eq!(committer, "agent:test-bot");
}

#[test]
fn recent_versions_listing_filters_and_orders() {
    let mut f = fixture();
    add_note(&f.col, 1, "a\x1fb");
    commit(&mut f.col, session("human")).unwrap();
    set_fields(&mut f.col, 1, "c\x1fb");
    let mut other = session("agent:bot");
    other.id = "0000000000000000000000000000000b".to_string();
    commit(&mut f.col, other).unwrap();

    let all = f.col.list_recent_versions(None, None, 0).ok().unwrap();
    assert_eq!(all.len(), 3);
    assert_eq!(all[0].author, "agent:bot");
    assert_eq!(all[2].session_id, "");
    let by_author = f.col.list_recent_versions(Some("human"), None, 10).ok().unwrap();
    assert_eq!(by_author.len(), 1);
    let by_session = f
        .col
        .list_recent_versions(None, Some("0000000000000000000000000000000b"), 10)
        .ok()
        .unwrap();
    assert_eq!(by_session.len(), 1);
    assert_eq!(by_session[0].session_kind, "editor");
    let limited = f.col.list_recent_versions(None, None, 1).ok().unwrap();
    assert_eq!(limited.len(), 1);
    let hash = f.col.commit_session("s".to_string(), SessionKind::App, "x".to_string()).ok().unwrap();
    assert_eq!(hash, "");
}
