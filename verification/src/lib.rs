//! Migration of Python projects to the `uv` package manager: the parsers for
//! each project format and the decisions of a migration, with their contracts.
pub mod cli;
pub mod error;
pub mod text;
pub mod utils;
pub mod models;

pub use models::{Dependency, DependencyType};
pub mod migrators;
