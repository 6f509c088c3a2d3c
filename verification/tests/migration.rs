use anki_doltlite::migrate::{migrate_databases, user_version_i32, DOLTLITE_APPLICATION_ID};
use anki_doltlite::sql::{Db, DbError, SqlCell};
use anki_doltlite::storage_migration::{copy_rows, sanitize_sqlite_master};
use rusqlite::Connection;
use tempfile::TempDir;

#[test]
fn migrates_schema_rows_and_indexes() {
    let tmp = TempDir::new().unwrap();
    let src = tmp.path().join("legacy.anki2");
    let dst = tmp.path().join("migrated.anki2");

    {
        let conn = Connection::open(&src).unwrap();
        conn.execute_batch(
            r#"
            CREATE TABLE col (id INTEGER PRIMARY KEY, crt INTEGER, mod INTEGER, conf TEXT);
            CREATE TABLE notes (id INTEGER PRIMARY KEY, guid TEXT, flds TEXT);
            CREATE TABLE cards (id INTEGER PRIMARY KEY, nid INTEGER, did INTEGER, ord INTEGER);
            CREATE TABLE revlog (id INTEGER PRIMARY KEY, cid INTEGER, ease INTEGER);
            CREATE INDEX ix_cards_nid ON cards (nid);
            CREATE INDEX ix_revlog_cid ON revlog (cid);
            PRAGMA user_version = 18;
            INSERT INTO col VALUES (1, 1700000000, 1700000001, '{"key":"value"}');
            INSERT INTO notes VALUES (100, 'guid-abc', 'front' || char(0x1f) || 'back');
            INSERT INTO notes VALUES (101, 'guid-def', 'hello' || char(0x1f) || 'world');
            INSERT INTO cards VALUES (200, 100, 1, 0);
            INSERT INTO cards VALUES (201, 100, 1, 1);
            INSERT INTO cards VALUES (202, 101, 1, 0);
            INSERT INTO revlog VALUES (300, 200, 3);
            INSERT INTO revlog VALUES (301, 201, 2);
            "#,
        )
        .unwrap();
    }

    let stats = {
        let source = Connection::open(&src).unwrap();
        let dest = Connection::open(&dst).unwrap();
        migrate_databases(&mut Db::new(&source), &mut Db::new(&dest)).ok().expect("migration succeeds")
    };
    assert_eq!(stats.tables, 4, "all 4 user tables visited");
    assert_eq!(stats.rows, 8, "8 rows copied (1+2+3+2)");

    let dest = Connection::open(&dst).unwrap();

    for (table, expected) in [("col", 1), ("notes", 2), ("cards", 3), ("revlog", 2)] {
        let actual: i64 = dest
            .query_row(&format!("SELECT count(*) FROM {table}"), [], |r| r.get(0))
            .unwrap();
        assert_eq!(actual, expected, "row count for {table}");
    }

    let flds: String = dest
        .query_row("SELECT flds FROM notes WHERE id = 100", [], |r| r.get(0))
        .unwrap();
    assert_eq!(flds, "front\x1fback");

    let idx_count: i64 = dest
        .query_row(
            "SELECT count(*) FROM sqlite_master WHERE type='index' AND name LIKE 'ix_%'",
            [],
            |r| r.get(0),
        )
        .unwrap();
    assert_eq!(idx_count, 2, "both user indexes recreated");

    let uv: i32 = dest
        .pragma_query_value(None, "user_version", |r| r.get(0))
        .unwrap();
    assert_eq!(uv, 18);

    let app_id: i32 = dest
        .pragma_query_value(None, "application_id", |r| r.get(0))
        .unwrap();
    assert_eq!(app_id, DOLTLITE_APPLICATION_ID);
}

#[test]
fn handles_blobs() {
    let tmp = TempDir::new().unwrap();
    let src = tmp.path().join("blob.anki2");
    let dst = tmp.path().join("blob-out.anki2");
    {
        let conn = Connection::open(&src).unwrap();
        conn.execute_batch("CREATE TABLE media (id INTEGER PRIMARY KEY, data BLOB);")
            .unwrap();
        conn.execute(
            "INSERT INTO media VALUES (1, ?1)",
            [&[0u8, 1, 2, 255, 128, 64] as &[u8]],
        )
        .unwrap();
    }

    {
        let source = Connection::open(&src).unwrap();
        let dest = Connection::open(&dst).unwrap();
        assert!(migrate_databases(&mut Db::new(&source), &mut Db::new(&dest)).is_ok());
    }

    let dest = Connection::open(&dst).unwrap();
    let blob: Vec<u8> = dest
        .query_row("SELECT data FROM media WHERE id = 1", [], |r| r.get(0))
        .unwrap();
    assert_eq!(blob, vec![0u8, 1, 2, 255, 128, 64]);
}

#[test]
fn handles_without_rowid_collated_table() {
    let tmp = TempDir::new().unwrap();
    let src = tmp.path().join("fields.anki2");
    let dst = tmp.path().join("fields-out.anki2");
    {
        let conn = Connection::open(&src).unwrap();
        conn.create_collation("unicase", |a: &str, b: &str| a.cmp(b))
            .unwrap();
        conn.execute_batch(
            "CREATE TABLE fields (
                ntid INTEGER NOT NULL,
                ord INTEGER NOT NULL,
                name TEXT NOT NULL COLLATE unicase,
                config BLOB NOT NULL,
                PRIMARY KEY (ntid, ord)
             ) WITHOUT ROWID;
             CREATE UNIQUE INDEX idx_fields_name_ntid ON fields (name, ntid);
             INSERT INTO fields VALUES (1, 0, 'Front', x'00');
             INSERT INTO fields VALUES (1, 1, 'Back', x'00');",
        )
        .unwrap();
    }

    {
        let source = Connection::open(&src).unwrap();
        let dest = Connection::open(&dst).unwrap();
        assert!(
            migrate_databases(&mut Db::new(&source), &mut Db::new(&dest)).is_ok(),
            "migration of WITHOUT ROWID + COLLATE succeeds"
        );
    }

    let dest = Connection::open(&dst).unwrap();
    dest.create_collation("unicase", |a: &str, b: &str| a.cmp(b))
        .unwrap();
    let count: i64 = dest
        .query_row("SELECT count(*) FROM fields", [], |r| r.get(0))
        .unwrap();
    assert_eq!(count, 2);
}

#[test]
fn handles_custom_collation_in_schema() {
    let tmp = TempDir::new().unwrap();
    let src = tmp.path().join("with-collate.anki2");
    let dst = tmp.path().join("with-collate-out.anki2");
    {
        let conn = Connection::open(&src).unwrap();
        conn.create_collation("unicase", |a: &str, b: &str| a.cmp(b))
            .unwrap();
        conn.execute_batch(
            "CREATE TABLE deck_config (
                id INTEGER PRIMARY KEY,
                name TEXT NOT NULL COLLATE unicase,
                conf BLOB NOT NULL
             );
             INSERT INTO deck_config VALUES (1, 'Default', x'00');",
        )
        .unwrap();
    }

    {
        let source = Connection::open(&src).unwrap();
        let dest = Connection::open(&dst).unwrap();
        assert!(
            migrate_databases(&mut Db::new(&source), &mut Db::new(&dest)).is_ok(),
            "migration with COLLATE unicase succeeds"
        );
    }

    let dest = Connection::open(&dst).unwrap();
    dest.create_collation("unicase", |a: &str, b: &str| a.cmp(b))
        .unwrap();
    let name: String = dest
        .query_row("SELECT name FROM deck_config WHERE id = 1", [], |r| r.get(0))
        .unwrap();
    assert_eq!(name, "Default");
}

#[test]
fn handles_null_values() {
    let tmp = TempDir::new().unwrap();
    let src = tmp.path().join("null.anki2");
    let dst = tmp.path().join("null-out.anki2");
    {
        let conn = Connection::open(&src).unwrap();
        conn.execute_batch(
            "CREATE TABLE t (id INTEGER PRIMARY KEY, a TEXT, b INTEGER, c REAL);",
        )
        .unwrap();
        conn.execute_batch("INSERT INTO t VALUES (1, NULL, NULL, NULL);")
            .unwrap();
        conn.execute_batch("INSERT INTO t VALUES (2, 'x', 42, 3.14);")
            .unwrap();
    }
    {
        let source = Connection::open(&src).unwrap();
        let dest = Connection::open(&dst).unwrap();
        assert!(migrate_databases(&mut Db::new(&source), &mut Db::new(&dest)).is_ok());
    }
    let dest = Connection::open(&dst).unwrap();
    let nulls: i64 = dest
        .query_row("SELECT count(*) FROM t WHERE a IS NULL AND b IS NULL AND c IS NULL", [], |r| r.get(0))
        .unwrap();
    assert_eq!(nulls, 1);
}

#[test]
fn scratch_schema_is_sanitised_and_rows_copied() {
    let tmp = TempDir::new().unwrap();
    let src = tmp.path().join("scratch.anki2");
    let dst = tmp.path().join("dest.anki2");
    {
        let conn = Connection::open(&src).unwrap();
        conn.create_collation("unicase", |a: &str, b: &str| a.cmp(b))
            .unwrap();
        conn.execute_batch(
            "CREATE TABLE decks (
                id integer PRIMARY KEY,
                name text NOT NULL COLLATE unicase,
                -- inline note
                usn integer NOT NULL
             );
             INSERT INTO decks VALUES (1, 'Default', 0);
             INSERT INTO decks VALUES (2, 'Other', 0);",
        )
        .unwrap();
    }
    {
        let scratch = Connection::open(&src).unwrap();
        assert!(sanitize_sqlite_master(&mut Db::new(&scratch)).is_ok());
    }
    {
        let scratch = Connection::open(&src).unwrap();
        let sql: String = scratch
            .query_row("SELECT sql FROM sqlite_master WHERE name = 'decks'", [], |r| r.get(0))
            .unwrap();
        assert!(!sql.contains("COLLATE"));
        assert!(!sql.contains("--"));
    }
    {
        let source = Connection::open(&src).unwrap();
        let dest = Connection::open(&dst).unwrap();
        assert!(copy_rows(&mut Db::new(&source), &mut Db::new(&dest)).is_ok());
    }
    let dest = Connection::open(&dst).unwrap();
    let n: i64 = dest.query_row("SELECT count(*) FROM decks", [], |r| r.get(0)).unwrap();
    assert_eq!(n, 2);
}

#[test]
fn user_version_reads_a_32_bit_integer() {
    let ok = vec![vec![SqlCell::Integer(18)]];
    assert_eq!(user_version_i32(&ok).ok(), Some(18));
    let negative = vec![vec![SqlCell::Integer(-5)]];
    assert_eq!(user_version_i32(&negative).ok(), Some(-5));
    let too_big = vec![vec![SqlCell::Integer(1i64 << 40)]];
    assert!(matches!(user_version_i32(&too_big), Err(DbError::InvalidColumnType)));
    let text = vec![vec![SqlCell::Text("18".to_string())]];
    assert!(matches!(user_version_i32(&text), Err(DbError::InvalidColumnType)));
    let no_rows: Vec<Vec<SqlCell>> = vec![];
    assert!(matches!(user_version_i32(&no_rows), Err(DbError::QueryReturnedNoRows)));
}
