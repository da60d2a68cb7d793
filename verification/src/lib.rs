//! A focus-time tracker core: a small boolean rule language over activity
//! snapshots, a first-match tagger, a segment-merging tick state machine,
//! and an in-memory store with range queries and per-executable totals.

pub mod activity;
pub mod config;
pub mod entry;
pub mod matcher;
pub mod parser;
pub mod rex;
pub mod roundtrip;
pub mod storage;
pub mod tagger;
pub mod text;
pub mod tracker;

pub use activity::Activity;
pub use config::{Config, StorageDescription};
pub use entry::Entry;
pub use matcher::{Field, Matcher};
pub use tagger::{Tag, Tagger};
pub use tracker::Tracker;
