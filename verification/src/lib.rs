//! Core of a personal portfolio and blog site: a verified content index.
//!
//! Post files carry a frontmatter block (line-delimited key/value metadata)
//! followed by a Markdown body. The library parses post files, builds an
//! immutable snapshot of post metadata keyed by a stable identifier derived
//! from the filename, detects staleness against the directory's modification
//! timestamp, and filters/sorts posts by tag with deterministic ordering.
//! All I/O (reading the directory and files, serving HTTP) lives outside.

pub mod projects;
pub mod helpers;
pub mod order;
pub mod blog;
pub mod parser;
pub mod cache;
pub mod render;
