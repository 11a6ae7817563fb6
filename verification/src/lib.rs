//! Lockfile resolution for dependency manifests.
//!
//! A manifest declares a dependency with a version or a range; a lockfile pins
//! exact versions. This crate decides which pin answers a declaration, whether
//! that pin is older than what the manifest asks for, and what is written back
//! into the dependency.

pub mod text;
pub mod version;
pub mod precedence;
pub mod semver_api;
pub mod loose;
pub mod selection;
pub mod staleness;
pub mod file_types;
pub mod dependency;
pub mod lockfile_graph;
pub mod lockfile_resolver;
pub mod laws;
