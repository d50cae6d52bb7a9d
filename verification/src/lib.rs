//! A taskfile runner library: the schema of taskfiles, the mapping of SYON
//! documents onto it, include resolution, dependency ordering, variable
//! substitution and the decisions taken while tasks run.
pub mod ordered_map;
pub mod schema;
pub mod text;
pub mod syon;
pub mod graph;
pub mod deps;
pub mod vars;
pub mod runner;
pub mod paths;
pub mod loader;
pub mod cli;
