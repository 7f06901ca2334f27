//! A content-addressed file archiver.
//!
//! Source files selected by extension are deduplicated by content digest into
//! a sharded store, while each run writes a timestamped snapshot tree of
//! pointer records mirroring the source layout.  This crate holds the
//! archiver's logic — path manipulation, filtering, digests, store and
//! snapshot planning, and the per-run semantics — on plain strings and bytes;
//! the thin binary around it performs the actual filesystem traffic.

pub mod config;
pub mod digest;
pub mod filter;
pub mod paths;
pub mod run;
pub mod snapshot;
pub mod store;
pub mod text;
