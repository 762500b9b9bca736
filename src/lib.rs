//! Resolves a description of source code, a project on disk or a set of in-memory files,
//! into the crate roots that a compilation database works from.

pub mod config;
pub mod database;
pub mod directory;
pub mod file_set;
pub mod path;
pub mod project;
pub mod single_file;
pub mod wire;
