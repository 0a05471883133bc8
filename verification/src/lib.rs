//! Release planning for a workspace of interdependent packages: ordering
//! packages along their local dependencies, deciding new versions, and
//! rewriting manifests without disturbing their formatting.

pub mod bump;
pub mod changes;
pub mod checks;
pub mod commands;
pub mod devdeps;
pub mod error;
pub mod git;
pub mod globs;
pub mod graph;
pub mod lines;
pub mod listing;
pub mod manifest;
pub mod ordered;
pub mod package;
pub mod paths;
pub mod pattern;
pub mod planner;
pub mod publish;
pub mod requirement;
pub mod tables;
pub mod text;
pub mod version;
pub mod versioning;
pub mod workspace;
