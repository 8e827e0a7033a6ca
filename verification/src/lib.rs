//! A single-writer, file-per-document JSON persistence layer for a moodboard
//! application: a board store (one document per board, with metadata
//! projection and rename-driven file relocation) and a shared asset library
//! (one document, with content-based dedup insertion).
//!
//! The verified core works on an in-memory snapshot of the documents; the
//! surrounding application performs the actual file reads and writes and
//! mirrors the transitions this library computes.
pub mod assets;
pub mod boards;
pub mod clock;
pub mod filename;
pub mod laws;
pub mod scan;
pub mod types;
