//! The data that a migration reads from a project and hands to `uv`.
pub mod dependency;
pub mod project;

pub use dependency::{Dependency, DependencyType, DependencyView, DepTypeView, GitDependency};
pub use project::{PoetryProjectType, ProjectType};
