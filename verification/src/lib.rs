//! Management of named, independently tracked sections inside text files.
//!
//! A file is split into contiguous sections delimited by marker comments.
//! Named sections carry a content hash and a target hash; comparing the two
//! detects local modification.  A reconciliation engine copies sections from
//! a source document into a target document when it is safe to do so.

pub mod comment;
pub mod commentmap;
pub mod digest;
pub mod files;
pub mod hashable;
pub mod laws;
pub mod metafile;
pub mod section;
pub mod strutil;

pub use hashable::{ChangeState, Hashable};
