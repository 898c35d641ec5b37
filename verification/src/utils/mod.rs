//! Project metadata: versions, authors, package indexes, the `pyproject.toml`
//! document, file tracking for rollback, and `uv` command lines.
pub mod author;
pub mod build_system;
pub mod documents;
pub mod file_ops;
pub mod pip;
pub mod pyproject;
pub mod version;
pub mod toml;
pub mod uv;
