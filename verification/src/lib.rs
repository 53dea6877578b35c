//! A tamper-evident, append-only audit ledger: actions are recorded as
//! immutable, hash-chained entries behind a reader-writer lock, guarded by a
//! pre-commit governance check, with snapshotting and bounded-growth pruning.

pub mod archivist;
pub mod chain;
pub mod codec;
pub mod digest;
pub mod envelope;
pub mod engram;
pub mod errors;
pub mod governance;
pub mod ledger;
pub mod numeral;
