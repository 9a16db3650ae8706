//! Indexes a directory tree of content assets by GUID, converts typed asset
//! handles to and from their on-disk reference records, and performs
//! read-modify-write updates of host documents that mix an opaque three-line
//! header, a well-known container key, and an open set of caller-defined
//! fields.
//!
//! The crate itself never touches the file system: callers hand it file paths
//! and file contents as plain strings and write back the strings it returns.
use vstd::prelude::*;

pub mod assoc;
pub mod data;
pub mod merge;
pub mod outside;
pub mod scope;
pub mod strutil;

verus! {

/// Every failure the library surfaces.
#[derive(Debug)]
pub enum ScopeError {
    /// An open, read or write operation failed.
    IOError(std::io::Error),
    /// A document could not be parsed or serialized as YAML.
    YamlError(serde_yaml_ng::Error),
    /// A sidecar declared a file format version other than 2.
    InvalidFormat(u8),
    /// No indexed asset carries this GUID.
    GuidNotFound(String),
    /// No indexed asset file name contains this fragment.
    NameNotFound(String),
    /// A document does not have the shape the typed projection needs.
    GenericInvalidFormat,
}

} // verus!
