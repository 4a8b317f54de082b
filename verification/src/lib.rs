//! A read-mostly database of rhythm-game chart statistics.
//!
//! The crate holds the part of the song database that is proved: the owned
//! text handle, the record schema, the per-record derivation that groups a
//! song's difficulties by characteristic, the hash index with its queries,
//! and the run-once, retry-on-failure cache slot.
pub mod archive;
pub mod cache;
pub mod data;
pub mod database;
pub mod error;
pub mod hashing;
pub mod ingest;
pub mod maps;
pub mod metrics;
pub mod numstuff;
pub mod order;
pub mod records;
pub mod text;
pub mod time;
pub mod views;
