//! A spaced-repetition flashcard manager.
//!
//! The library holds the verified core: the in-memory relational store of
//! decks, cards and review log entries, the scheduling commit logic, the
//! interactive session state machine, and the authored-card validation.
//! Terminal rendering, the sqlite mirror of the store, the external editor
//! round-trip and the memory-model computation live outside the library and
//! exchange plain values with it.

pub mod error;
pub mod frontmatter;
pub mod laws;
pub mod schedule;
pub mod session;
pub mod store;
pub mod strutil;
pub mod usecase;
pub mod utils;
