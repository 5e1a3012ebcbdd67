//! Template decoding, placeholder substitution, and materialization planning.
//!
//! The crate decodes a compact wire representation of a project template
//! (delimiter-separated path and content records, base64 payloads), resolves
//! named placeholders in content payloads against a substitution context, and
//! plans the creation of directories and files under a destination root.

pub mod codec;
pub mod engine;
pub mod materialize;
pub mod model;
pub mod path;
pub mod scan;
