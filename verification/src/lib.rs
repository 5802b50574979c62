//! Blind target-selection engine: content-addressed identifiers, a hash
//! cache, a completion ledger, and weighted pool selection.
//!
//! The cache and ledger files are rewritten whole at the end of a run; the
//! design assumes a single active process per cache/ledger file pair, and
//! two concurrent writers can clobber each other's output (last writer
//! wins).

pub mod cache;
pub mod config;
pub mod draw;
pub mod error;
pub mod rvuid;
pub mod target;
pub mod text;
pub mod wiki;
