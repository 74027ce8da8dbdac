//! Indexing of date-named photo folders and a disk-backed thumbnail cache.
//!
//! The library holds the decisions: which folders and files count as media,
//! how the index is laid out, how cache file names are derived and how a
//! thumbnail is cut. Reading directories and files is left to the caller,
//! which hands the library plain values.

pub mod date;
pub mod names;
pub mod folders;
pub mod items;
pub mod metadata;
pub mod thumbnail;
pub mod gallery;
