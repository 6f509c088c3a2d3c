//! Per-note version history on top of Doltlite.
//!
//! Every editor session that changes a note produces one Doltlite commit
//! tagged with an author and a JSON metadata line carrying the session id.
//! History is read back from `dolt_history_notes`; a restore writes the old
//! content as a new commit (revert semantics, not reset).

pub mod collection;
pub mod commit;
pub mod history;
pub mod restore;
pub mod session;
pub mod service;
