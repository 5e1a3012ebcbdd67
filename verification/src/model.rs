//! The structured template model: path entries, content entries, argument
//! specifications, resolved arguments, and the error taxonomy.
//!
//! Paths, keys and values are held as byte vectors so that contracts can
//! speak of their exact contents; payloads are opaque byte blobs.

use vstd::prelude::*;

verus! {

/// Whether a path entry names a file or a directory.
#[derive(Clone, Copy, PartialEq, Eq, Structural, Debug)]
pub enum PathKind {
    File,
    Dir,
}

/// One path to create: a relative path and its kind.
#[derive(Clone, Debug)]
pub struct PathEntry {
    pub kind: PathKind,
    pub path: Vec<u8>,
}

/// One content record: the relative path of the target file and the decoded
/// payload bytes to write into it.
#[derive(Clone, Debug)]
pub struct ContentEntry {
    pub file_path: Vec<u8>,
    pub payload: Vec<u8>,
}

/// One declared template argument: the substitution key, the prompt shown to
/// the operator, and an optional default used when the operator answers with
/// an empty string.
#[derive(Clone, Debug)]
pub struct ArgSpec {
    pub key: Vec<u8>,
    pub prompt: Vec<u8>,
    pub default: Option<Vec<u8>>,
}

/// One resolved argument: the key together with the value every occurrence of
/// the key's placeholder token is replaced with.
#[derive(Clone, Debug)]
pub struct ResolvedArg {
    pub key: Vec<u8>,
    pub value: Vec<u8>,
}

/// A fully decoded template: ordered paths, ordered contents, and the
/// declared arguments, if any.
#[derive(Clone, Debug)]
pub struct Template {
    pub paths: Vec<PathEntry>,
    pub contents: Vec<ContentEntry>,
    pub args: Option<Vec<ArgSpec>>,
}

/// Decoding failures: a malformed path record (wrong field count or an
/// unrecognized kind literal), a malformed content record (wrong field
/// count), or a payload that is not valid base64.
#[derive(Clone, Copy, PartialEq, Eq, Structural, Debug)]
pub enum DecodeError {
    MalformedPath,
    MalformedContent,
    InvalidPayload,
}

/// Substitution failures: a placeholder token whose key is not present in
/// the resolved context.
#[derive(Clone, Copy, PartialEq, Eq, Structural, Debug)]
pub enum SubstitutionError {
    UnknownKey,
}

/// Path handling failures: a relative path that would escape the destination
/// root once joined, a path that does not start with the expected directory
/// prefix, or a directory string with invalid syntax.
#[derive(Clone, Copy, PartialEq, Eq, Structural, Debug)]
pub enum PathError {
    EscapesRoot,
    MissingPrefix,
    InvalidDirectory,
}

} // verus!
