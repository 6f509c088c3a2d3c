# anki_doltlite

The verified core of an Anki collection store kept in Doltlite (a SQLite
build with versioned, prolly-tree storage).

- `src/` is the library, verified with Verus:
  - `ddl`: the sanitiser that strips `COLLATE unicase` and `--` comments
    from stored schema DDL.
  - `migrate`, `storage_migration`: copying a legacy SQLite collection into
    Doltlite (rewriting the schema, walking every table in key order and
    stamping `user_version`/`application_id`), and detecting a file's format
    from its header.
  - `versioning`: editing sessions, change detection by snapshot, commit
    messages with session metadata, note history and diffs, recent commits
    and restoring an old version of a note.
  - `media_db`: opening and upgrading the server media database.
  - `link_args`: the build-script directives that link `libdoltlite.a`
    as a whole archive.
  - `sql`, `sql_text`, `text`: the calls into `rusqlite` (with `Db`, a
    connection that keeps a ghost record of the statements sent through
    it, which the contracts speak of), SQL text building, and string
    helpers.
- `tests/` runs the library against real SQLite databases.
- `app/` holds the command-line migrator and the file-system steps.
