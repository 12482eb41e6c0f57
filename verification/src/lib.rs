//! A content-addressable snapshot engine.
//!
//! Given a value describing a directory tree, the library builds a
//! snapshot that maps every child name to either the hexadecimal
//! content hash of a file or a nested snapshot of a subdirectory,
//! honouring per-directory ignore rules.  A content store collects
//! each distinct blob exactly once, keyed by its hash.  On later runs
//! the engine reconciles a previous snapshot against the current tree,
//! reusing unchanged directory structure and dropping deleted names.

pub mod config;
pub mod diff;
pub mod fs_tree;
pub mod hash;
pub mod ignore;
pub mod snapshot;
pub mod store;
