//! Pretty-printer for newline-delimited JSON access-log records.
//!
//! The crate decodes one JSON log line into a typed log record, gates it
//! through a glob-based host filter, and renders it as a human-readable,
//! optionally colorized block of text.

pub mod filters;
pub mod ip;
pub mod json;
pub mod level;
pub mod pipeline;
pub mod record;
pub mod render;
pub mod text;
