use anki_doltlite::versioning::collection::{AnkiError, Collection};
use anki_doltlite::versioning::commit::{format_author, format_message, snapshot_differs};
use anki_doltlite::versioning::history::{
    build_versions, changed_field_names, clamped_limit, diff_field_names, filter_and_build,
    parse_dolt_date, parse_meta, split_fields, HistoryRow, RecentRow,
};
use anki_doltlite::versioning::restore::{join_tags, restore_content, split_tags};
use anki_doltlite::versioning::session::{
    hex_lower, new_session_id, session_id_from_bytes, NoteId, NoteSnapshot, SessionHandle,
    SessionInfo, SessionKind, VersioningState,
};

fn session(author: &str) -> SessionInfo {
    SessionInfo {
        id: "deadbeefdeadbeefdeadbeefdeadbeef".to_string(),
        kind: SessionKind::Editor,
        author: author.to_string(),
    }
}

fn snap(nid: i64, flds: &str, tags: &str) -> NoteSnapshot {
    NoteSnapshot { nid: NoteId(nid), flds: flds.to_string(), tags: tags.to_string() }
}

fn strings(v: &[&str]) -> Vec<String> {
    v.iter().map(|s| s.to_string()).collect()
}

#[test]
fn session_kind_names() {
    assert_eq!(SessionKind::Editor.as_str(), "editor");
    assert_eq!(SessionKind::Agent.as_str(), "agent");
    assert_eq!(SessionKind::App.as_str(), "app");
}

#[test]
fn editor_human_session() {
    let s = SessionInfo::editor_human();
    assert_eq!(s.kind, SessionKind::Editor);
    assert_eq!(s.author, "human");
    assert_eq!(s.id.len(), 32);
    assert!(s.id.chars().all(|c| c.is_ascii_hexdigit() && !c.is_ascii_uppercase()));
    assert_ne!(new_session_id(), new_session_id());
}

#[test]
fn session_id_is_hex_of_bytes() {
    let bytes = [0u8, 1, 0x0f, 0x10, 0xab, 0xff, 2, 3, 4, 5, 6, 7, 8, 9, 10, 11];
    assert_eq!(session_id_from_bytes(bytes), "00010f10abff02030405060708090a0b");
    assert_eq!(hex_lower(&[0xde, 0xad]), "dead");
}

#[test]
fn author_has_local_placeholder_email() {
    assert_eq!(format_author(&session("agent:bot")), "agent:bot <local>");
}

#[test]
fn commit_message_carries_session_metadata() {
    let message = format_message(&session("human"));
    assert_eq!(
        message,
        "{\"session\":\"deadbeefdeadbeefdeadbeefdeadbeef\",\"kind\":\"editor\",\"actor\":\"human\"}"
    );
    assert!(message.contains("\"session\":\"deadbeef"));
    assert!(message.contains("\"kind\":\"editor\""));
    assert!(message.contains("\"actor\":\"human\""));
}

#[test]
fn commit_message_escapes_quotes() {
    let mut info = session("a\"b");
    info.kind = SessionKind::Agent;
    let message = format_message(&info);
    assert!(message.ends_with("\"kind\":\"agent\",\"actor\":\"a\\\"b\"}"));
}

#[test]
fn commit_message_escapes_control_characters() {
    let info = session("line\nbreak\u{1}\t");
    let message = format_message(&info);
    assert!(!message.contains('\n'));
    assert!(message.ends_with("\"actor\":\"line\\nbreak\\u0001\\t\"}"));
}

#[test]
fn commit_message_metadata_round_trips() {
    let mut info = session("human");
    info.kind = SessionKind::App;
    let meta = parse_meta(&format_message(&info));
    assert_eq!(meta.session, info.id);
    assert_eq!(meta.kind, "app");
}

#[test]
fn non_json_message_has_empty_metadata() {
    let meta = parse_meta("Initialize data repository");
    assert_eq!(meta.session, "");
    assert_eq!(meta.kind, "");
    let meta = parse_meta("{\"kind\":\"agent\"}");
    assert_eq!(meta.session, "");
    assert_eq!(meta.kind, "agent");
    let meta = parse_meta("{\"session\":1,\"kind\":\"agent\"}");
    assert_eq!(meta.kind, "");
}

#[test]
fn dolt_dates() {
    assert_eq!(parse_dolt_date("1970-01-01 00:00:00"), 0);
    assert_eq!(parse_dolt_date("2024-01-02 03:04:05"), 1704164645);
    assert_eq!(parse_dolt_date("not a date"), 0);
}

#[test]
fn snapshot_comparison() {
    let s = snap(1, "a\x1fb", " t ");
    assert!(!snapshot_differs(&s, &Some(("a\x1fb".to_string(), " t ".to_string()))));
    assert!(snapshot_differs(&s, &Some(("a\x1fc".to_string(), " t ".to_string()))));
    assert!(snapshot_differs(&s, &Some(("a\x1fb".to_string(), "".to_string()))));
    assert!(snapshot_differs(&s, &None));
}

#[test]
fn store_then_take_returns_snapshot_once() {
    let mut state = VersioningState::new();
    state.store("s1".to_string(), snap(1, "x", ""));
    state.store("s2".to_string(), snap(2, "y", ""));
    state.store("s1".to_string(), snap(3, "z", ""));
    assert_eq!(state.take("s1"), Some(snap(3, "z", "")));
    assert_eq!(state.take("s1"), None);
    assert_eq!(state.take("s2"), Some(snap(2, "y", "")));
    assert_eq!(state.take("nope"), None);
}

#[test]
fn fields_split_on_unit_separator() {
    assert_eq!(split_fields("front\x1fback"), strings(&["front", "back"]));
    assert_eq!(split_fields(""), strings(&[""]));
    assert_eq!(split_fields("a\x1f"), strings(&["a", ""]));
}

#[test]
fn diff_names_fields() {
    let names = strings(&["Front", "Back"]);
    assert_eq!(diff_field_names("one\x1fback", "two\x1fback", Some(&names)), strings(&["Front"]));
    assert_eq!(diff_field_names("two\x1fback2", "two\x1fback", Some(&names)), strings(&["Back"]));
    assert_eq!(diff_field_names("a\x1fb\x1fc", "a\x1fb", Some(&names)), strings(&["Field 2"]));
    assert_eq!(diff_field_names("x", "y", None), strings(&["Field 0"]));
    assert!(diff_field_names("same", "same", Some(&names)).is_empty());
}

#[test]
fn oldest_version_has_no_changes() {
    assert!(changed_field_names("a\x1fb", None, None).is_empty());
}

fn hrow(hash: &str, committer: &str, message: &str, flds: &str) -> HistoryRow {
    HistoryRow {
        commit_hash: hash.to_string(),
        date: "2024-01-02 03:04:05".to_string(),
        committer: committer.to_string(),
        message: message.to_string(),
        mid: 1,
        flds: flds.to_string(),
    }
}

#[test]
fn versions_are_built_newest_first_with_diffs() {
    let msg = format_message(&session("human"));
    let rows = vec![
        hrow("c3", "agent:bot", &msg, "two\x1fback2"),
        hrow("c2", "human", &msg, "two\x1fback"),
        hrow("c1", "human", "Initialize data repository", "one\x1fback"),
    ];
    let names = strings(&["Front", "Back"]);
    let versions = build_versions(&rows, Some(&names));
    assert_eq!(versions.len(), 3);
    assert_eq!(versions[0].author, "agent:bot");
    assert_eq!(versions[0].changed_fields, strings(&["Back"]));
    assert_eq!(versions[1].changed_fields, strings(&["Front"]));
    assert!(versions[2].changed_fields.is_empty());
    assert_eq!(versions[0].session_id, "deadbeefdeadbeefdeadbeefdeadbeef");
    assert_eq!(versions[0].session_kind, "editor");
    assert_eq!(versions[2].session_id, "");
    assert_eq!(versions[0].timestamp_secs, 1704164645);
}

fn rrow(hash: &str, message: &str) -> RecentRow {
    RecentRow {
        commit_hash: hash.to_string(),
        date: "bad".to_string(),
        committer: "human".to_string(),
        message: message.to_string(),
    }
}

#[test]
fn recent_versions_filter_by_session() {
    let m1 = format_message(&session("human"));
    let mut other = session("human");
    other.id = "0000000000000000000000000000000a".to_string();
    let m2 = format_message(&other);
    let rows = vec![rrow("a", &m1), rrow("b", &m2), rrow("c", "init")];
    let all = filter_and_build(
        vec![rrow("a", &m1), rrow("b", &m2), rrow("c", "init")],
        None,
    );
    assert_eq!(all.len(), 3);
    assert_eq!(all[2].session_id, "");
    assert_eq!(all[0].timestamp_secs, 0);
    let only = filter_and_build(rows, Some("0000000000000000000000000000000a"));
    assert_eq!(only.len(), 1);
    assert_eq!(only[0].commit_hash, "b");
    let empty_filter = filter_and_build(vec![rrow("a", &m1)], Some(""));
    assert_eq!(empty_filter.len(), 1);
}

#[test]
fn limit_is_clamped() {
    assert_eq!(clamped_limit(0), 50);
    assert_eq!(clamped_limit(1), 1);
    assert_eq!(clamped_limit(1000), 1000);
    assert_eq!(clamped_limit(5000), 1000);
}

#[test]
fn tags_split_and_join() {
    assert_eq!(split_tags(" a  b\u{3000}c "), strings(&["a", "b", "c"]));
    assert!(split_tags("   ").is_empty());
    assert_eq!(join_tags(&strings(&["a", "b"])), " a b ");
    assert_eq!(join_tags(&Vec::new()), "");
}

#[test]
fn restored_content_keeps_fields_and_normalises_tags() {
    let (flds, tags) = restore_content("v1\x1f\x1fback", "b  a");
    assert_eq!(flds, "v1\x1f\x1fback");
    assert_eq!(tags, " b a ");
}

// ---------------------------------------------------------------------
// Against a plain SQLite database holding a `notes` table
// ---------------------------------------------------------------------

fn collection_with_note(flds: &str, tags: &str) -> Collection {
    let db = rusqlite::Connection::open_in_memory().unwrap();
    db.execute_batch(
        "CREATE TABLE notes (id integer PRIMARY KEY, mod integer, usn integer, tags text, flds text);
         CREATE TABLE dolt_status (table_name text);
         CREATE TABLE dolt_history_notes (id integer, commit_hash text, flds text, tags text);",
    )
    .unwrap();
    db.execute(
        "INSERT INTO notes (id, mod, usn, tags, flds) VALUES (10, 0, 0, ?1, ?2)",
        [tags, flds],
    )
    .unwrap();
    Collection::new(db)
}

#[test]
fn unchanged_snapshot_session_makes_no_commit() {
    let mut col = collection_with_note("unchanged\x1fback", "");
    let sid = "0000000000000000000000000000000a".to_string();
    col.snapshot_note_for_session(&sid, NoteId(10)).ok().unwrap();
    let mut info = session("human");
    info.id = sid;
    let h = col.begin_versioning_session(info);
    let hash = col.commit_versioning_session(h).ok().unwrap();
    assert!(hash.is_none(), "no-op editor session must not produce a commit");
}

#[test]
fn clean_session_without_snapshot_makes_no_commit() {
    let mut col = collection_with_note("front\x1fback", "");
    let h: SessionHandle = col.begin_versioning_session(session("human"));
    let hash = col.commit_versioning_session(h).ok().unwrap();
    assert!(hash.is_none(), "expected no commit when notes are clean");
}

#[test]
fn snapshot_of_missing_note_records_nothing() {
    let mut col = collection_with_note("a", "");
    col.snapshot_note_for_session("s", NoteId(99)).ok().unwrap();
    assert_eq!(col.state.versioning.take("s"), None);
    col.snapshot_note_for_session("s", NoteId(10)).ok().unwrap();
    assert_eq!(col.state.versioning.take("s"), Some(snap(10, "a", "")));
}

#[test]
fn note_at_version_reads_history_row() {
    let mut col = collection_with_note("now", "");
    col.storage
        .db
        .execute_batch("INSERT INTO dolt_history_notes VALUES (10, 'abc', 'f1\x1ff2', ' x y ')")
        .unwrap();
    let (fields, tags) = col.get_note_at_version(NoteId(10), "abc").ok().unwrap();
    assert_eq!(fields, strings(&["f1", "f2"]));
    assert_eq!(tags, strings(&["x", "y"]));
    match col.get_note_at_version(NoteId(10), "zzz") {
        Err(AnkiError::NotFound { kind, identifier }) => {
            assert_eq!(kind, "note version");
            assert_eq!(identifier, "nid=10 commit=zzz");
        }
        _ => panic!("expected not found"),
    }
}

#[test]
fn update_note_content_rewrites_only_on_change() {
    let mut col = collection_with_note("a\x1fb", " t ");
    let same = col.update_note_content(NoteId(10), "a\x1fb", " t ").ok().unwrap();
    assert!(!same.note);
    let changed = col.update_note_content(NoteId(10), "c\x1fb", " t ").ok().unwrap();
    assert!(changed.note);
    let (flds, usn): (String, i64) = col
        .storage
        .db
        .query_row("SELECT flds, usn FROM notes WHERE id = 10", [], |r| Ok((r.get(0)?, r.get(1)?)))
        .unwrap();
    assert_eq!(flds, "c\x1fb");
    assert_eq!(usn, -1);
}
