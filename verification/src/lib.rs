//! A local file-organizer engine.
//!
//! The library models the engine's state — file records, content chunks,
//! tags, rules, planned actions, the dirty queue and the audit log — as
//! verified in-memory structures, and proves the engine's invariants:
//! content-addressed chunk identity, idempotent embedding planning,
//! suggestion exclusion, apply safety gates, conflict resolution, undo
//! round-trips and deletion coherence.  Outside crates do the hashing,
//! glob matching and content sniffing behind trusted wrappers; all
//! decisions are verified here.

pub mod apply;
pub mod classifier;
pub mod config;
pub mod db;
pub mod embeddings;
pub mod extractor;
pub mod fsmodel;
pub mod hashing;
pub mod keyword_index;
pub mod laws;
pub mod paths;
pub mod rules;
pub mod scanner;
pub mod search;

pub mod strutil;
pub mod undo;
pub mod watch;
pub mod suggester;
