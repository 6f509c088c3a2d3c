use anki_doltlite::link_args::force_load_directives;
use anki_doltlite::storage_migration::{classify_header, with_suffix, Format, UnknownFormat};
use anki_doltlite::sql_text::{placeholders, quote_ident, quote_plain, sort_by_key_position};
use anki_doltlite::text::{decimal_i64, decimal_usize, join_str};
use anki_doltlite::media_db::{adapt_schema_sql, replace_str};
use anki_doltlite::migrate::{build_insert_sql, order_by_from_pk_columns, DOLTLITE_APPLICATION_ID};

#[test]
fn empty_file_is_empty_format() {
    assert_eq!(classify_header(&[]), Ok(Format::Empty));
}

#[test]
fn ctld_magic_is_prolly() {
    assert_eq!(classify_header(b"CTLD\x00\x01rest"), Ok(Format::Prolly));
}

#[test]
fn sqlite_magic_is_sqlite() {
    assert_eq!(classify_header(b"SQLite format 3\0more bytes"), Ok(Format::Sqlite));
}

#[test]
fn truncated_sqlite_magic_is_unknown() {
    assert_eq!(classify_header(b"SQLite format 3"), Err(UnknownFormat));
    assert_eq!(classify_header(b"garbage"), Err(UnknownFormat));
}

#[test]
fn side_file_paths() {
    assert_eq!(with_suffix("/x/collection.anki2", ".scratch"), "/x/collection.anki2.scratch");
}

#[test]
fn identifiers_are_quoted_and_escaped() {
    assert_eq!(quote_ident("notes"), "\"notes\"");
    assert_eq!(quote_ident("a\"b"), "\"a\"\"b\"");
    assert_eq!(quote_plain("a\"b"), "\"a\"b\"");
}

#[test]
fn placeholder_lists() {
    assert_eq!(placeholders(0, ","), "");
    assert_eq!(placeholders(3, ","), "?1,?2,?3");
    assert_eq!(placeholders(2, ", "), "?1, ?2");
    assert_eq!(placeholders(11, ",").split(',').last(), Some("?11"));
}

#[test]
fn decimal_formatting() {
    assert_eq!(decimal_usize(0), "0");
    assert_eq!(decimal_usize(1234567890), "1234567890");
    assert_eq!(decimal_i64(-42), "-42");
    assert_eq!(decimal_i64(i64::MIN), i64::MIN.to_string());
    assert_eq!(decimal_i64(DOLTLITE_APPLICATION_ID as i64), "-1597911011");
}

#[test]
fn application_id_is_the_doltlite_sentinel() {
    assert_eq!(DOLTLITE_APPLICATION_ID, 0xA0C1_D01D_u32 as i32);
}

#[test]
fn joining() {
    let parts = vec!["a".to_string(), "b".to_string(), "c".to_string()];
    assert_eq!(join_str(&parts, ", "), "a, b, c");
    assert_eq!(join_str(&Vec::new(), ","), "");
}

#[test]
fn pk_order_is_stable_by_position() {
    let cols = vec![(2i64, "ord".to_string()), (1, "ntid".to_string()), (2, "x".to_string())];
    let sorted = sort_by_key_position(&cols);
    let names: Vec<&str> = sorted.iter().map(|c| c.1.as_str()).collect();
    assert_eq!(names, vec!["ntid", "ord", "x"]);
}

#[test]
fn order_by_clause_text() {
    assert_eq!(order_by_from_pk_columns(&Vec::new()), " ORDER BY rowid");
    let cols = vec![(2i64, "ord".to_string()), (1, "ntid".to_string())];
    assert_eq!(order_by_from_pk_columns(&cols), " ORDER BY \"ntid\",\"ord\"");
}

#[test]
fn insert_statement_text() {
    let cols = vec!["id".to_string(), "flds".to_string()];
    assert_eq!(
        build_insert_sql("notes", &cols),
        "INSERT INTO \"notes\" (\"id\",\"flds\") VALUES (?1,?2)"
    );
}

#[test]
fn schema_sql_adapted_for_doltlite() {
    let sql = "BEGIN exclusive;\ncreate table t (x);\nvacuum;\ncommit;";
    assert_eq!(adapt_schema_sql(sql, true), "BEGIN;\ncreate table t (x);\n\ncommit;");
    assert_eq!(adapt_schema_sql(sql, false), sql);
}

#[test]
fn replace_is_left_to_right_without_overlap() {
    assert_eq!(replace_str("aaaa", "aa", "b"), "bb");
    assert_eq!(replace_str("abcabc", "c", ""), "abab");
    assert_eq!(replace_str("xyz", "q", "r"), "xyz");
}

#[test]
fn force_load_directives_per_platform() {
    assert_eq!(
        force_load_directives("/x/libdoltlite.a", "macos"),
        vec![
            "cargo:rerun-if-changed=/x/libdoltlite.a".to_string(),
            "cargo:rustc-link-arg=-Wl,-force_load,/x/libdoltlite.a".to_string(),
        ]
    );
    assert_eq!(
        force_load_directives("/x/libdoltlite.a", "linux"),
        vec![
            "cargo:rerun-if-changed=/x/libdoltlite.a".to_string(),
            "cargo:rustc-link-arg=-Wl,--whole-archive".to_string(),
            "cargo:rustc-link-arg=/x/libdoltlite.a".to_string(),
            "cargo:rustc-link-arg=-Wl,--no-whole-archive".to_string(),
        ]
    );
    assert_eq!(
        force_load_directives("C:\\a.lib", "windows"),
        vec![
            "cargo:rerun-if-changed=C:\\a.lib".to_string(),
            "cargo:rustc-link-arg=/WHOLEARCHIVE:C:\\a.lib".to_string(),
        ]
    );
    assert_eq!(
        force_load_directives("/x/libdoltlite.a", "freebsd"),
        vec!["cargo:rerun-if-changed=/x/libdoltlite.a".to_string()]
    );
}
