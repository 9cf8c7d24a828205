//! Source-location subsystem of a compiler frontend.
//!
//! The crate turns loaded source text into a single addressable offset space:
//! a [`tracking::file::FileManager`] resolves paths and caches file content,
//! and a [`tracking::source::SourceManager`] appends one entry per loaded file
//! or macro expansion, assigns each a contiguous offset range, and resolves an
//! opaque position token back to its entry, local offset, line and column.

pub mod error;
pub mod tracking;
