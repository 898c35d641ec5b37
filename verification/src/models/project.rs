use vstd::prelude::*;

verus! {

/// Whether a Poetry project builds a distributable package or is an application.
#[derive(Debug, Clone, Copy, PartialEq, Eq, Structural)]
pub enum PoetryProjectType {
    Application,
    Package,
}

/// The dependency manager that a project was found to use.
#[derive(Debug, Clone, Copy, PartialEq, Eq, Structural)]
pub enum ProjectType {
    Poetry(PoetryProjectType),
    Pipenv,
    Requirements,
    SetupPy,
    Conda,
}

} // verus!
