//! Synchronizes flashcards authored in a typeset document with a flashcard
//! application's note database: notes are extracted from the document,
//! validated against the remote schemas, deduplicated against what was
//! already submitted, their rendered pages turned into embedded image
//! references, and submitted in batches per deck.
//!
//! This crate holds the verified logic: the note model and its notion of
//! equality, the response-envelope rules of the remote service client, the
//! synchronization engine's decisions, deck-path decomposition, path
//! filtering and the renderer's output handling. Network transport, the
//! compiler subprocess, the filesystem watcher and configuration loading
//! live with the binary built on top of this crate and hand it plain values.

pub mod api;
pub mod assoc;
pub mod config;
pub mod deck;
pub mod engine;
pub mod interface;
pub mod metadata;
pub mod text;
