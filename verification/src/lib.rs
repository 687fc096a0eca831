//! A structural outline (nested symbol index) builder for source files.
//!
//! The crate turns the flat stream of named structural matches that a
//! per-language parser produces into a nested containment forest of
//! symbols, renders that forest, and keeps a set of such indexes fresh
//! under file-system change through an incremental re-indexing engine.

pub mod adapter;
pub mod cli;
pub mod detector;
pub mod extractor;
pub mod forest;
pub mod markdown;
pub mod output;
pub mod queries;
pub mod scanner;
pub mod symbol;
pub mod text;
pub mod watch;
