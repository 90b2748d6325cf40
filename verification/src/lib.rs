//! A directory-backed, generational key/value cache.
//!
//! Keys are relative paths below a cache root; each key owns a directory
//! that holds a small manifest and up to a chosen number of generations of
//! the value. This crate holds the rules of the cache: which keys are safe,
//! what the manifest looks like, how generations age, when a value expires,
//! and which files an operation touches. It performs no file access itself:
//! operations hand out the file operations to carry out, and take back what
//! was read. Keys, paths and contents are byte strings throughout.
//!
//! The modules whose names end in `_laws` hold no code that runs: they state
//! what holds of the cache, each statement with its proof.

pub mod bytes;
pub mod cache;
pub mod cache_laws;
pub mod decimal;
pub mod disk;
pub mod disk_laws;
pub mod entry;
pub mod entry_laws;
pub mod error;
pub mod manifest;
pub mod manifest_laws;
pub mod opts;
pub mod path_laws;
pub mod path_util;
pub mod scan;
pub mod split;
pub mod store;
pub mod time;

pub use crate::cache::DirCache;
