use anki_doltlite::ddl::{sanitize_ddl, strip_collate_unicase, strip_line_comments, try_match_collate_unicase};
use anki_doltlite::storage_migration;

#[test]
fn sanitize_strips_collate_and_comments() {
    let ddl = "CREATE TABLE t (\n  id INTEGER, -- comment\n  name TEXT COLLATE unicase\n);";
    let out = sanitize_ddl(ddl);
    assert!(!out.to_lowercase().contains("collate"));
    assert!(!out.contains("--"));
    assert!(out.contains("CREATE TABLE t"));
}

#[test]
fn strip_line_comments_leaves_block_comments() {
    assert_eq!(
        strip_line_comments("a -- gone\nb /* kept */ c"),
        "a \nb /* kept */ c"
    );
}

#[test]
fn strips_lowercase() {
    assert_eq!(
        strip_collate_unicase("name text COLLATE unicase NOT NULL"),
        "name text  NOT NULL"
    );
}

#[test]
fn strips_mixed_case() {
    assert_eq!(
        strip_collate_unicase("Name TEXT collate UNICASE,"),
        "Name TEXT ,"
    );
}

#[test]
fn strips_multiline() {
    assert_eq!(
        strip_collate_unicase("name text NOT NULL COLLATE\n   unicase\n,"),
        "name text NOT NULL \n,"
    );
}

#[test]
fn leaves_other_collations_alone() {
    let ddl = "name text COLLATE nocase NOT NULL";
    assert_eq!(strip_collate_unicase(ddl), ddl);
}

#[test]
fn leaves_unicase_substring_alone() {
    let ddl = "comment text -- contains the word collate unicase_v2 here";
    assert_eq!(strip_collate_unicase(ddl), ddl);
}

#[test]
fn sanitize_strips_collate_and_line_comments() {
    let input = "CREATE TABLE decks (\
        \n  id integer PRIMARY KEY,\
        \n  name text NOT NULL COLLATE unicase,\
        \n  -- inline note\
        \n  usn integer NOT NULL\
        \n)";
    let out = storage_migration::sanitize_ddl(input);
    assert!(!out.contains("COLLATE"), "COLLATE not stripped: {out}");
    assert!(
        !out.contains("-- inline"),
        "line comment not stripped: {out}"
    );
    assert!(out.contains("name text NOT NULL"));
}

// ---------------------------------------------------------------------
// Further cases
// ---------------------------------------------------------------------

#[test]
fn collate_at_end_of_input_is_stripped() {
    assert_eq!(
        strip_collate_unicase("tag text NOT NULL PRIMARY KEY COLLATE unicase"),
        "tag text NOT NULL PRIMARY KEY "
    );
}

#[test]
fn collate_needs_whitespace_before_name() {
    let ddl = "x COLLATEunicase";
    assert_eq!(strip_collate_unicase(ddl), ddl);
}

#[test]
fn collate_with_tabs_is_stripped() {
    assert_eq!(strip_collate_unicase("a COLLATE\t\tUniCase)"), "a )");
}

#[test]
fn line_comment_at_end_without_newline() {
    assert_eq!(strip_line_comments("select 1 -- trailing"), "select 1 ");
}

#[test]
fn single_dash_is_kept() {
    assert_eq!(strip_line_comments("a - b -\n-c"), "a - b -\n-c");
}

#[test]
fn comment_only_lines_keep_their_newlines() {
    let out = strip_line_comments("-- one\n-- two\nx");
    assert_eq!(out, "\n\nx");
    assert_eq!(out.matches('\n').count(), 2);
}

#[test]
fn sanitize_is_identity_on_clean_ddl() {
    let ddl = "CREATE TABLE notes (id integer PRIMARY KEY, flds text NOT NULL)";
    assert_eq!(sanitize_ddl(ddl), ddl);
}

#[test]
fn sanitize_never_leaves_double_dash() {
    for ddl in ["a---b", "x--\n--y", "----", "a - - b", "q -- c\n-"] {
        assert!(!sanitize_ddl(ddl).contains("--"), "{ddl}");
    }
}

#[test]
fn regex_sanitize_takes_whitespace_before_collate() {
    assert_eq!(
        storage_migration::sanitize_ddl("name text COLLATE unicase,"),
        "name text,"
    );
}

#[test]
fn regex_sanitize_replaces_comment_and_newline_with_newline() {
    assert_eq!(
        storage_migration::sanitize_ddl("a -- c\nb"),
        "a \nb"
    );
}

#[test]
fn non_ascii_text_is_kept_around_a_comment() {
    assert_eq!(strip_line_comments("é -- c\nd"), "é \nd");
    assert_eq!(strip_collate_unicase("naïve TEXT COLLATE unicase, ü"), "naïve TEXT , ü");
}

#[test]
fn any_ascii_whitespace_separates_collate_from_unicase() {
    assert_eq!(try_match_collate_unicase(b"collate\r\nunicase"), Some(16));
    assert_eq!(try_match_collate_unicase(b"COLLATE\x0cunicase x"), Some(15));
    assert_eq!(try_match_collate_unicase(b"collateunicase"), None);
    assert_eq!(try_match_collate_unicase(b"collate unicase_v2"), None);
    assert_eq!(strip_collate_unicase("a COLLATE\r\n unicase b"), "a  b");
}
