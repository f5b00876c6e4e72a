//! Core of a rotating file log sink.
//!
//! The crate verifies the decision logic of the sink: path derivation,
//! rotation policy, the rename protocol with its naming schemes, and
//! retention of rotated files.  The sink's view of its slice of the
//! filesystem is modelled by [`directory::Directory`], a verified structure
//! of named byte files over which the state engine runs; an unverified
//! executor may mirror the same steps onto a real disk.

pub mod deferred_now;
pub mod parameters;
pub mod cleanup;
pub mod config;
pub mod directory;
pub mod file_log_writer;
pub mod filespec;
pub mod siblings;
pub mod state;
pub mod strutil;
pub mod util;
pub mod validate;
