//! Which dependency manager a project uses.
use vstd::prelude::*;
use crate::error::{Error, ErrorView};
use crate::migrators::poetry::{poetry_project_type, PoetryMigrationSource};
use crate::models::{PoetryProjectType, ProjectType};
use crate::text::{chars_of, starts_with, starts_with_lit, strs_view};
use crate::utils::pyproject::{path2};
use crate::utils::toml::{get, get_path, get_path_node, Node, NodeV};

verus! {

/// What a project directory holds, as far as detection looks at it.
pub struct ProjectFiles {
    /// Whether `environment.yml` or `environment.yaml` exists.
    pub has_environment_file: bool,
    /// `pyproject.toml` as read and parsed, or the error of doing so; none
    /// where there is no such file.
    pub pyproject: Option<Result<Node, Error>>,
    /// Whether a package exists on disk (see `verify_real_package_structure`).
    pub real_package: bool,
    /// Whether `setup.py` exists.
    pub has_setup_py: bool,
    /// Whether `<name>/__init__.py` or `src/<name>/__init__.py` exists for the
    /// package directory name of `pyproject.toml`.
    pub name_package: bool,
    /// Whether both `Pipfile` and `Pipfile.lock` exist.
    pub has_pipenv: bool,
    /// The names of the files of the project directory.
    pub file_names: Vec<String>,
}

pub open spec fn pyproject_view(p: Option<Result<Node, Error>>) -> Option<Result<NodeV, ErrorView>> {
    match p {
        Some(Ok(n)) => Some(Ok(n@)),
        Some(Err(e)) => Some(Err(e@)),
        None => None,
    }
}

/// Whether a `pyproject.toml` is Poetry's: it has `[tool.poetry]` or
/// `[project].dependencies`.
pub open spec fn is_poetry_document(doc: NodeV) -> bool {
    get_path(doc, seq!["project"@, "dependencies"@]) is Some || get_path(doc, seq!["tool"@, "poetry"@]) is Some
}

pub open spec fn has_requirements_file(names: Seq<Seq<char>>) -> bool {
    exists|i: int| 0 <= i < names.len() && starts_with(#[trigger] names[i], "requirements"@)
}

pub open spec fn detection_message() -> Seq<char> {
    "Unable to detect project type. Ensure you have either a pyproject.toml with a [tool.poetry] section or a [project] section, a Pipfile, a setup.py file, requirements.txt file(s), or an environment.yml file for Conda projects."@
}

/// The project type of a directory, in order of precedence: Conda, Poetry,
/// Pipenv, setuptools, requirements files; an unreadable `pyproject.toml` is
/// an error, and so is a directory with none of these.
pub open spec fn detected_type(
    has_environment_file: bool,
    pyproject: Option<Result<NodeV, ErrorView>>,
    real_package: bool,
    has_setup_py: bool,
    name_package: bool,
    has_pipenv: bool,
    names: Seq<Seq<char>>,
) -> Result<ProjectType, ErrorView> {
    if has_environment_file {
        Ok(ProjectType::Conda)
    } else {
        match pyproject {
            Some(Err(e)) => Err(e),
            Some(Ok(doc)) if is_poetry_document(doc) => Ok(ProjectType::Poetry(
                poetry_project_type(doc, real_package, has_setup_py, name_package),
            )),
            _ => if has_pipenv {
                Ok(ProjectType::Pipenv)
            } else if has_setup_py {
                Ok(ProjectType::SetupPy)
            } else if has_requirements_file(names) {
                Ok(ProjectType::Requirements)
            } else {
                Err(ErrorView::ProjectDetection(detection_message()))
            },
        }
    }
}

/// Whether some file name starts with `requirements`.
pub fn find_requirements_files(file_names: &Vec<String>) -> (r: bool)
    ensures
        r == has_requirements_file(strs_view(file_names@)),
{
    let ghost names = strs_view(file_names@);
    let mut i: usize = 0;
    while i < file_names.len()
        invariant
            i <= file_names@.len(),
            names == strs_view(file_names@),
            forall|j: int| 0 <= j < i ==> !starts_with(#[trigger] names[j], "requirements"@),
        decreases file_names.len() - i,
    {
        let c = chars_of(file_names[i].as_str());
        if starts_with_lit(c.as_slice(), "requirements") {
            assert(starts_with(names[i as int], "requirements"@));
            return true;
        }
        i = i + 1;
    }
    false
}

/// Detects the type of a project from what its directory holds.
pub fn detect_project_type(files: &ProjectFiles) -> (r: Result<ProjectType, Error>)
    ensures
        match detected_type(files.has_environment_file, pyproject_view(files.pyproject), files.real_package,
            files.has_setup_py, files.name_package, files.has_pipenv, strs_view(files.file_names@)) {
            Ok(t) => r == Ok::<ProjectType, Error>(t),
            Err(e) => r matches Err(x) && x@ == e,
        },
{
    if files.has_environment_file {
        return Ok(ProjectType::Conda);
    }
    match &files.pyproject {
        Some(Err(e)) => {
            return Err(e.copy());
        },
        Some(Ok(doc)) => {
            let poetry = get_path_node(doc, path2("project", "dependencies").as_slice()).is_some()
                || get_path_node(doc, path2("tool", "poetry").as_slice()).is_some();
            if poetry {
                let t = PoetryMigrationSource::detect_project_type(doc, files.real_package, files.has_setup_py, files.name_package);
                return Ok(ProjectType::Poetry(t));
            }
        },
        None => {},
    }
    if files.has_pipenv {
        return Ok(ProjectType::Pipenv);
    }
    if files.has_setup_py {
        return Ok(ProjectType::SetupPy);
    }
    if find_requirements_files(&files.file_names) {
        return Ok(ProjectType::Requirements);
    }
    Err(Error::ProjectDetection("Unable to detect project type. Ensure you have either a pyproject.toml with a [tool.poetry] section or a [project] section, a Pipfile, a setup.py file, requirements.txt file(s), or an environment.yml file for Conda projects.".to_string()))
}

/// A Conda environment file decides before anything else; a Poetry
/// `pyproject.toml` decides before a Pipfile, a `setup.py` or requirements
/// files.
pub proof fn lemma_detection_precedence(
    has_environment_file: bool,
    pyproject: Option<Result<NodeV, ErrorView>>,
    real_package: bool,
    has_setup_py: bool,
    name_package: bool,
    has_pipenv: bool,
    names: Seq<Seq<char>>,
)
    ensures
        has_environment_file ==> detected_type(has_environment_file, pyproject, real_package, has_setup_py,
            name_package, has_pipenv, names) == Ok::<ProjectType, ErrorView>(ProjectType::Conda),
        !has_environment_file && (pyproject matches Some(Ok(doc)) && is_poetry_document(doc)) ==> detected_type(
            has_environment_file, pyproject, real_package, has_setup_py, name_package, has_pipenv, names,
        ) matches Ok(ProjectType::Poetry(_)),
{
}

/// Where there is no environment file, no Poetry `pyproject.toml` and no
/// Pipfile with its lock, a directory with `setup.py` is a setuptools project,
/// whatever requirements files it also holds; without `setup.py` it is a
/// requirements project exactly when one of its files is named
/// `requirements...`.
pub proof fn lemma_setup_py_before_requirements(
    pyproject: Option<Result<NodeV, ErrorView>>,
    real_package: bool,
    has_setup_py: bool,
    name_package: bool,
    names: Seq<Seq<char>>,
)
    requires
        match pyproject {
            Some(Ok(doc)) => !is_poetry_document(doc),
            Some(Err(_)) => false,
            None => true,
        },
    ensures
        has_setup_py ==> detected_type(false, pyproject, real_package, has_setup_py, name_package, false, names)
            == Ok::<ProjectType, ErrorView>(ProjectType::SetupPy),
        !has_setup_py ==> ((detected_type(false, pyproject, real_package, has_setup_py, name_package, false, names)
            == Ok::<ProjectType, ErrorView>(ProjectType::Requirements)) <==> (exists|i: int|
            0 <= i < names.len() && #[trigger] names[i].len() >= 12 && names[i].subrange(0, 12) == "requirements"@)),
{
    reveal_strlit("requirements");
}

} // verus!
