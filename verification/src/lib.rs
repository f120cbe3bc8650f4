//! An in-memory hierarchical filesystem engine: an inode table, a directory
//! namespace, a file content store, and the request-dispatch operations a
//! kernel filesystem bridge invokes on them.

pub mod attr;
pub mod content;
pub mod directory;
pub mod engine;
pub mod inode;
pub mod namespace;
