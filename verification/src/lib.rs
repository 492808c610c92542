//! A minimal package-manager client library.
//!
//! Given a package name and an optional version range, this library resolves
//! the package's transitive dependency tree against a registry-supplied
//! version catalog, decides which archives must be fetched, deduplicates
//! repeated dependencies across the tree, and builds a lockfile-style record
//! of what was installed, backed by a local on-disk cache.
//!
//! The library itself performs no I/O: callers hand it registry metadata,
//! cache directory listings and fetch outcomes as plain values, and it hands
//! back decisions — resolve, fetch, reuse the cache, link, serialize — with
//! verified contracts.

#![verifier::loop_isolation(false)]

pub mod cache;
pub mod commands;
pub mod errors;
pub mod graph;
pub mod installer;
pub mod lockfile;
pub mod tasks;
pub mod text;
pub mod types;
pub mod versions;
