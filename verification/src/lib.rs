//! Verified core of an Anki collection store kept in Doltlite: schema
//! migration from SQLite, note versioning sessions and history, and the
//! server media database.

pub mod text;
pub mod ddl;
pub mod sql;
pub mod versioning;
pub mod sql_text;
pub mod migrate;
pub mod storage_migration;
pub mod media_db;
pub mod link_args;
