//! Coordinated version bumping and dependency-ordered publishing for the
//! packages of a cargo workspace.
//!
//! The library computes which packages must be bumped when one package
//! changes (following declared dependency edges), by how much (semantic
//! versioning, with the pre-1.0 convention that a breaking change raises the
//! minor component), how each manifest is rewritten, and in which order
//! packages may be published so that every dependency is published before
//! its dependants.

pub mod commands;
pub mod errors;
pub mod graph;
pub mod interactive;
pub mod manifest;
pub mod package;
pub mod registry;
pub mod resolver;
pub mod version;
pub mod vmap;

pub use errors::Error;
pub use version::Version;
