//! Proof-carrying database recovery engine.
//!
//! The library reads an append-only transaction journal, verifies hash-linked
//! snapshots, tracks the provenance of every cell, checks integrity constraints
//! and synthesizes recovery plans whose outcome can be re-verified.

pub mod hashing;
pub mod snapshot;
pub mod journal;
pub mod reader;
pub mod state;
pub mod provenance;
pub mod constraints;
pub mod recovery;
pub mod formdb;
pub mod postgres;
pub mod ui;
