//! A small library for serving org-mode outline documents.
//!
//! Documents come from a *source* (an in-memory registry, a filesystem
//! directory, or a null source); the *extractor* turns raw document text into
//! an ordered sequence of keyword-tagged headline records; the aggregation
//! functions collect matching records across all of a source's documents.

pub mod doc;
pub mod empty_doc;
pub mod fs_doc;
pub mod page;
pub mod parser;
pub mod render;
pub mod server;
pub mod text;
