//! Reading dependencies out of each kind of project, and writing them as
//! arguments of `uv add`.
use vstd::prelude::*;

pub mod common;
pub mod conda;
pub mod detect;
pub mod pipenv;
pub mod poetry;
pub mod requirements;
pub mod setup_py;
pub use common::{merge_dependency_groups, perform_requirements_migration};
use crate::error::{error_text, Error, ErrorView};
use crate::models::{Dependency, DependencyType, DependencyView, DepTypeView, PoetryProjectType, ProjectType};
use crate::models::dependency::deps_view;
use crate::migrators::conda::{CondaEnvironment, CondaMigrationSource, environment_python_version};
use crate::migrators::poetry::{poetry_python_version, PoetryMigrationSource};
use crate::utils::pyproject::{extract_poetry_packages, hatch_packages_path, poetry_packages, str_nodes, update_hatch_packages};
use crate::utils::toml::{clean, set_path, settable, Node, NodeV, opt_str_view};
use crate::text::{contains_char, join, opt_view, push_char, push_chars, push_str, starts_with, starts_with_chars, string_of, str_eq, strs_view, chars_of, trim, trim_chars, join_strings};

verus! {

/// How a version constraint is written for `uv`: Poetry's `^x` becomes `>=x`,
/// a bare `~x` becomes `~=x`, and a bare version is pinned with `==`.
pub open spec fn uv_version_constraint(v: Seq<char>) -> Seq<char> {
    if v.contains(',') || starts_with(v, seq!['~', '=']) {
        v
    } else if starts_with(v, seq!['~']) {
        seq!['~', '='] + v.skip(1)
    } else if starts_with(v, seq!['^']) {
        seq!['>', '='] + v.skip(1)
    } else if v.len() > 0 && (v[0] == '>' || v[0] == '<' || v[0] == '=') {
        v
    } else {
        seq!['=', '='] + v
    }
}

/// The name of a dependency with its extras, e.g. `uvicorn[standard]`.
pub open spec fn name_with_extras(d: DependencyView) -> Seq<char> {
    match d.extras {
        Some(e) => if e.len() > 0 {
            d.name + seq!['['] + join(e, seq![',']) + seq![']']
        } else {
            d.name
        },
        None => d.name,
    }
}

/// The requirement string that `uv add` receives for a dependency.
pub open spec fn uv_requirement(d: DependencyView) -> Seq<char> {
    let base = name_with_extras(d);
    let with_version = match d.version {
        Some(v) => base + uv_version_constraint(trim(v)),
        None => base,
    };
    match d.environment_markers {
        Some(m) => with_version + seq![';', ' '] + m,
        None => with_version,
    }
}

fn uv_constraint_chars(v: &[char]) -> (r: String)
    ensures
        r@ == uv_version_constraint(v@),
{
    let tilde_eq = vec!['~', '='];
    let tilde = vec!['~'];
    let caret = vec!['^'];
    assert(tilde_eq@ =~= seq!['~', '=']);
    assert(tilde@ =~= seq!['~']);
    assert(caret@ =~= seq!['^']);
    if contains_char(v, ',') || starts_with_chars(v, tilde_eq.as_slice()) {
        string_of(v)
    } else if starts_with_chars(v, tilde.as_slice()) {
        let mut r = string_of(tilde_eq.as_slice());
        push_chars(&mut r, &v[1..v.len()]);
        assert(v@.subrange(1, v@.len() as int) =~= v@.skip(1));
        r
    } else if starts_with_chars(v, caret.as_slice()) {
        let ge = vec!['>', '='];
        assert(ge@ =~= seq!['>', '=']);
        let mut r = string_of(ge.as_slice());
        push_chars(&mut r, &v[1..v.len()]);
        assert(v@.subrange(1, v@.len() as int) =~= v@.skip(1));
        r
    } else if v.len() > 0 && (v[0] == '>' || v[0] == '<' || v[0] == '=') {
        string_of(v)
    } else {
        let eq = vec!['=', '='];
        assert(eq@ =~= seq!['=', '=']);
        let mut r = string_of(eq.as_slice());
        push_chars(&mut r, v);
        r
    }
}

/// Formats a dependency for use with UV command line
pub fn format_dependency(dep: &Dependency) -> (r: String)
    ensures
        r@ == uv_requirement(dep@),
{
    let mut r = dep.name.clone();
    if let Some(extras) = &dep.extras {
        if extras.len() > 0 {
            push_char(&mut r, '[');
            let comma = vec![','];
            assert(comma@ =~= seq![',']);
            let joined = join_strings(extras, comma.as_slice());
            push_str(&mut r, joined.as_str());
            push_char(&mut r, ']');
            assert(r@ =~= dep.name@ + seq!['['] + joined@ + seq![']']);
        }
    }
    assert(r@ == name_with_extras(dep@));
    if let Some(version) = &dep.version {
        let v = chars_of(version.as_str());
        let t = trim_chars(v.as_slice());
        let c = uv_constraint_chars(t);
        push_str(&mut r, c.as_str());
    }
    let ghost with_version = r@;
    if let Some(markers) = &dep.environment_markers {
        push_char(&mut r, ';');
        push_char(&mut r, ' ');
        push_str(&mut r, markers.as_str());
        assert(r@ =~= with_version + seq![';', ' '] + markers@);
    }
    r
}


// ----------------------------------------------------------------------
// The uv tool
// ----------------------------------------------------------------------

/// The UV migration tool.
pub struct UvTool;

/// Whether `uv init` makes a package: a Poetry package or a setuptools project.
pub open spec fn is_package_type(t: ProjectType) -> bool {
    t == ProjectType::Poetry(PoetryProjectType::Package) || t == ProjectType::SetupPy
}

/// The arguments of `uv init`.
pub open spec fn init_args(t: ProjectType, python: Option<Seq<char>>, bare: bool) -> Seq<Seq<char>> {
    seq!["init"@] + (if is_package_type(t) { seq!["--package"@] } else { seq![] }) + (match python {
        Some(v) => seq!["--python"@, v],
        None => seq![],
    }) + seq!["--vcs"@, "none"@, "--no-readme"@] + (if bare { seq!["--bare"@] } else { seq![] })
}

/// The Python version that `uv init` pins: that of the old Poetry
/// `pyproject.toml`, or of the Conda environment file; none for others.
pub open spec fn init_python_version(t: ProjectType, old_pyproject: Option<NodeV>, env_python: Option<Option<Seq<char>>>) -> Option<Seq<char>> {
    match t {
        ProjectType::Poetry(_) => match old_pyproject {
            Some(d) => poetry_python_version(d),
            None => None,
        },
        ProjectType::Conda => match env_python {
            Some(v) => v,
            None => None,
        },
        _ => None,
    }
}

/// The groups of dependencies for `uv add`: each dependency type once, in the
/// order of its first dependency, with the formatted dependencies of that type.
pub open spec fn type_position(acc: Seq<(DepTypeView, Seq<Seq<char>>)>, t: DepTypeView) -> Option<int>
    decreases acc.len(),
{
    if acc.len() == 0 {
        None
    } else if acc.last().0 == t {
        match type_position(acc.drop_last(), t) {
            Some(i) => Some(i),
            None => Some(acc.len() - 1),
        }
    } else {
        type_position(acc.drop_last(), t)
    }
}

pub open spec fn grouped(deps: Seq<DependencyView>) -> Seq<(DepTypeView, Seq<Seq<char>>)>
    decreases deps.len(),
{
    if deps.len() == 0 {
        seq![]
    } else {
        let acc = grouped(deps.drop_last());
        let d = deps.last();
        match type_position(acc, d.dep_type) {
            Some(i) => acc.update(i, (d.dep_type, acc[i].1.push(uv_requirement(d)))),
            None => acc.push((d.dep_type, seq![uv_requirement(d)])),
        }
    }
}

pub open spec fn groups_view(v: Seq<(DependencyType, Vec<String>)>) -> Seq<(DepTypeView, Seq<Seq<char>>)> {
    v.map_values(|g: (DependencyType, Vec<String>)| (g.0@, strs_view(g.1@)))
}

/// The arguments of `uv add` for dependencies of one type.
pub open spec fn add_args(t: DepTypeView, deps: Seq<Seq<char>>) -> Seq<Seq<char>> {
    seq!["add"@] + match t {
        DepTypeView::Dev => seq!["--dev"@],
        DepTypeView::Group(g) => seq!["--group"@, g],
        DepTypeView::Main => seq![],
    } + deps
}

pub proof fn lemma_type_position(acc: Seq<(DepTypeView, Seq<Seq<char>>)>, t: DepTypeView)
    ensures
        match type_position(acc, t) {
            Some(i) => 0 <= i < acc.len() && acc[i].0 == t && forall|j: int| 0 <= j < i ==> acc[j].0 != t,
            None => forall|j: int| 0 <= j < acc.len() ==> acc[j].0 != t,
        },
    decreases acc.len(),
{
    if acc.len() > 0 {
        lemma_type_position(acc.drop_last(), t);
        assert forall|j: int| 0 <= j < acc.len() - 1 implies acc.drop_last()[j] == acc[j] by {}
    }
}

/// Whether two dependency types are the same.
pub fn same_type(a: &DependencyType, b: &DependencyType) -> (r: bool)
    ensures
        r == (a@ == b@),
{
    match (a, b) {
        (DependencyType::Main, DependencyType::Main) => true,
        (DependencyType::Dev, DependencyType::Dev) => true,
        (DependencyType::Group(x), DependencyType::Group(y)) => str_eq(x.as_str(), y.as_str()),
        _ => false,
    }
}

impl UvTool {
    /// The arguments of `uv init` for a project type, with the Python version
    /// to pin and whether `uv` supports `--bare`.
    pub fn init_arguments(project_type: &ProjectType, python_version: Option<String>, supports_bare: bool) -> (r: Vec<String>)
        ensures
            strs_view(r@) == init_args(*project_type, opt_view(python_version), supports_bare),
    {
        let mut v: Vec<String> = Vec::new();
        v.push("init".to_string());
        let is_package = match project_type {
            ProjectType::Poetry(PoetryProjectType::Package) => true,
            ProjectType::SetupPy => true,
            _ => false,
        };
        if is_package {
            v.push("--package".to_string());
        }
        match python_version {
            Some(p) => {
                v.push("--python".to_string());
                v.push(p);
            },
            None => {},
        }
        v.push("--vcs".to_string());
        v.push("none".to_string());
        v.push("--no-readme".to_string());
        if supports_bare {
            v.push("--bare".to_string());
        }
        assert(strs_view(v@) =~= init_args(*project_type, opt_view(python_version), supports_bare));
        v
    }

    /// The Python version for `uv init`: from the old `pyproject.toml` of a
    /// Poetry project, or from the environment file of a Conda project.
    pub fn python_version(project_type: &ProjectType, old_pyproject: Option<&Node>, environment: Option<&CondaEnvironment>) -> (r: Option<String>)
        ensures
            opt_view(r) == init_python_version(*project_type,
                match old_pyproject { Some(d) => Some(d@), None => None },
                match environment {
                    Some(e) => Some(match e.dependencies { Some(d) => environment_python_version(d@), None => None }),
                    None => None,
                }),
    {
        match project_type {
            ProjectType::Poetry(_) => match old_pyproject {
                Some(d) => PoetryMigrationSource::extract_python_version(d),
                None => None,
            },
            ProjectType::Conda => match environment {
                Some(e) => CondaMigrationSource::extract_python_version_from_environment(e),
                None => None,
            },
            _ => None,
        }
    }

    /// Whether the existing `pyproject.toml` is to be renamed to
    /// `old.pyproject.toml` before `uv init`: it is where it exists, and a
    /// backup that exists already is an error.
    pub fn backup_needed(pyproject_exists: bool, backup_exists: bool, backup_path: &str) -> (r: Result<bool, Error>)
        ensures
            pyproject_exists && backup_exists ==> (r matches Err(e) && e@ == ErrorView::FileOperation {
                path: backup_path@,
                message: "Backup file 'old.pyproject.toml' already exists. Please remove or rename it before running the migration again."@,
            }),
            !(pyproject_exists && backup_exists) ==> r == Ok::<bool, Error>(pyproject_exists),
    {
        if pyproject_exists && backup_exists {
            return Err(Error::FileOperation {
                path: backup_path.to_string(),
                message: "Backup file 'old.pyproject.toml' already exists. Please remove or rename it before running the migration again.".to_string(),
            });
        }
        Ok(pyproject_exists)
    }

    /// The error of a failed `uv init`.
    pub fn init_error(message: &str) -> (r: Error)
        ensures
            r@ == ErrorView::UvCommand("uv init failed: "@ + message@),
    {
        let mut m = String::new();
        push_str(&mut m, "uv init failed: ");
        push_str(&mut m, message);
        Error::UvCommand(m)
    }

    /// The dependencies for `uv add`, grouped by type.
    pub fn dependency_groups(dependencies: &Vec<Dependency>) -> (r: Vec<(DependencyType, Vec<String>)>)
        ensures
            groups_view(r@) == grouped(deps_view(dependencies@)),
    {
        let ghost dv = deps_view(dependencies@);
        let mut out: Vec<(DependencyType, Vec<String>)> = Vec::new();
        let mut i: usize = 0;
        while i < dependencies.len()
            invariant
                i <= dependencies@.len(),
                dv == deps_view(dependencies@),
                groups_view(out@) == grouped(dv.take(i as int)),
            decreases dependencies.len() - i,
        {
            let d = &dependencies[i];
            let f = format_dependency(d);
            let ghost acc = groups_view(out@);
            proof {
                assert(dv.take(i + 1).drop_last() =~= dv.take(i as int));
                assert(dv.take(i + 1).last() == d@);
                lemma_type_position(acc, d.dep_type@);
            }
            let mut j: usize = 0;
            while j < out.len() && !same_type(&out[j].0, &d.dep_type)
                invariant
                    j <= out@.len(),
                    acc == groups_view(out@),
                    forall|k: int| 0 <= k < j ==> acc[k].0 != d.dep_type@,
                decreases out.len() - j,
            {
                j = j + 1;
            }
            let found = j < out.len();
            if found {
                proof {
                    assert(acc[j as int].0 == out@[j as int].0@);
                    assert(acc[j as int].0 == d.dep_type@);
                    match type_position(acc, d.dep_type@) {
                        Some(p) => {
                            assert(p == j as int);
                        },
                        None => {},
                    }
                }
                let ghost old_out = out@;
                let (t, mut list) = out.remove(j);
                let ghost old_list = list@;
                assert(old_list == old_out[j as int].1@);
                list.push(f);
                out.insert(j, (t, list));
                proof {
                    assert(out@ =~= old_out.update(j as int, out@[j as int]));
                    assert(strs_view(out@[j as int].1@) =~= strs_view(old_list).push(uv_requirement(d@)));
                    assert(out@[j as int].0@ == d.dep_type@);
                    assert(groups_view(out@) =~= acc.update(j as int, (d.dep_type@, acc[j as int].1.push(uv_requirement(d@)))));
                }
            } else {
                let mut list: Vec<String> = Vec::new();
                list.push(f);
                out.push((d.dep_type.duplicate(), list));
                proof {
                    assert(type_position(acc, d.dep_type@) is None);
                    assert(strs_view(list@) =~= seq![uv_requirement(d@)]);
                    assert(groups_view(out@) =~= acc.push((d.dep_type@, seq![uv_requirement(d@)])));
                }
            }
            i = i + 1;
        }
        assert(dv.take(dependencies@.len() as int) =~= dv);
        out
    }

    /// The `uv add` command lines of a migration, one per dependency type in
    /// order of first appearance, each with the dependencies of that type in
    /// their order.
    pub fn add_commands(dependencies: &Vec<Dependency>) -> (r: Vec<(DependencyType, Vec<String>)>)
        ensures
            r@.len() == grouped(deps_view(dependencies@)).len(),
            forall|i: int| 0 <= i < r@.len() ==> {
                let g = grouped(deps_view(dependencies@))[i];
                &&& (#[trigger] r@[i]).0@ == g.0
                &&& strs_view(r@[i].1@) == add_args(g.0, g.1)
            },
    {
        let groups = Self::dependency_groups(dependencies);
        let ghost gv = grouped(deps_view(dependencies@));
        let mut out: Vec<(DependencyType, Vec<String>)> = Vec::new();
        let mut i: usize = 0;
        while i < groups.len()
            invariant
                i <= groups@.len(),
                groups_view(groups@) == gv,
                out@.len() == i,
                forall|j: int| 0 <= j < i ==> {
                    &&& (#[trigger] out@[j]).0@ == gv[j].0
                    &&& strs_view(out@[j].1@) == add_args(gv[j].0, gv[j].1)
                },
            decreases groups.len() - i,
        {
            assert(groups_view(groups@)[i as int] == (groups@[i as int].0@, strs_view(groups@[i as int].1@)));
            let args = Self::add_arguments(&groups[i].0, &groups[i].1);
            let t = groups[i].0.duplicate();
            out.push((t, args));
            i = i + 1;
        }
        out
    }

    /// The arguments of `uv add` for the formatted dependencies of one type.
    pub fn add_arguments(dep_type: &DependencyType, dependencies: &Vec<String>) -> (r: Vec<String>)
        ensures
            strs_view(r@) == add_args(dep_type@, strs_view(dependencies@)),
    {
        let mut v: Vec<String> = Vec::new();
        v.push("add".to_string());
        match dep_type {
            DependencyType::Dev => {
                v.push("--dev".to_string());
            },
            DependencyType::Group(g) => {
                v.push("--group".to_string());
                v.push(g.clone());
            },
            DependencyType::Main => {},
        }
        let ghost head = strs_view(v@);
        let mut i: usize = 0;
        while i < dependencies.len()
            invariant
                i <= dependencies@.len(),
                strs_view(v@) == head + strs_view(dependencies@.take(i as int)),
            decreases dependencies.len() - i,
        {
            let ghost b = v@;
            v.push(dependencies[i].clone());
            proof {
                assert(strs_view(v@) =~= strs_view(b).push(dependencies@[i as int]@));
                assert(strs_view(dependencies@.take(i + 1)) =~= strs_view(dependencies@.take(i as int)).push(dependencies@[i as int]@));
            }
            i = i + 1;
        }
        assert(dependencies@.take(dependencies@.len() as int) =~= dependencies@);
        assert(strs_view(v@) =~= add_args(dep_type@, strs_view(dependencies@)));
        v
    }
}

// ----------------------------------------------------------------------
// The course of a migration
// ----------------------------------------------------------------------

/// A Poetry package without a package on disk is set up as an application.
pub open spec fn adjusted_type(t: ProjectType, real_package: bool) -> ProjectType {
    if t == ProjectType::Poetry(PoetryProjectType::Package) && !real_package {
        ProjectType::Poetry(PoetryProjectType::Application)
    } else {
        t
    }
}

/// The project type with which `uv init` runs: a Poetry package without a
/// package structure on disk (`real_package`) is treated as an application.
pub fn adjusted_project_type(project_type: ProjectType, real_package: bool) -> (r: ProjectType)
    ensures
        r == adjusted_type(project_type, real_package),
{
    match project_type {
        ProjectType::Poetry(PoetryProjectType::Package) => if real_package {
            project_type
        } else {
            ProjectType::Poetry(PoetryProjectType::Application)
        },
        _ => project_type,
    }
}

/// The Poetry type with which the package configuration migrates: the
/// detected one (not the adjusted one), or an application for other projects.
pub fn package_migration_type(project_type: ProjectType) -> (r: PoetryProjectType)
    ensures
        r == match project_type {
            ProjectType::Poetry(t) => t,
            _ => PoetryProjectType::Application,
        },
{
    match project_type {
        ProjectType::Poetry(t) => t,
        _ => PoetryProjectType::Application,
    }
}

/// The migration that follows `uv init` and `uv add`, chosen by the kind of
/// project.
#[derive(PartialEq, Eq, Structural, Clone, Copy, Debug)]
pub enum FollowUpStep {
    /// Poetry's sources, authors, scripts, packages and build system, with
    /// the type under which packages migrate.
    Poetry(PoetryProjectType),
    /// The description and URL of `setup.py`.
    SetupPy,
    /// The metadata of a Pipenv project.
    Pipenv,
    /// The metadata of a requirements project.
    Requirements,
    /// The Python version of a Conda environment.
    Conda,
    /// Nothing more.
    Nothing,
}

/// The step after `uv add`: where an old `pyproject.toml` was kept, the one of
/// the project's kind (Poetry with the detected type); else only Conda
/// projects have one.
pub open spec fn follow_up(project_type: ProjectType, old_pyproject_exists: bool) -> FollowUpStep {
    if old_pyproject_exists {
        match project_type {
            ProjectType::Poetry(t) => FollowUpStep::Poetry(t),
            ProjectType::SetupPy => FollowUpStep::SetupPy,
            ProjectType::Pipenv => FollowUpStep::Pipenv,
            ProjectType::Requirements => FollowUpStep::Requirements,
            ProjectType::Conda => FollowUpStep::Conda,
        }
    } else if project_type == ProjectType::Conda {
        FollowUpStep::Conda
    } else {
        FollowUpStep::Nothing
    }
}

/// Chooses the step after `uv add`.
pub fn follow_up_step(project_type: ProjectType, old_pyproject_exists: bool) -> (r: FollowUpStep)
    ensures
        r == follow_up(project_type, old_pyproject_exists),
{
    if old_pyproject_exists {
        match project_type {
            ProjectType::Poetry(_) => FollowUpStep::Poetry(package_migration_type(project_type)),
            ProjectType::SetupPy => FollowUpStep::SetupPy,
            ProjectType::Pipenv => FollowUpStep::Pipenv,
            ProjectType::Requirements => FollowUpStep::Requirements,
            ProjectType::Conda => FollowUpStep::Conda,
        }
    } else {
        match project_type {
            ProjectType::Conda => FollowUpStep::Conda,
            _ => FollowUpStep::Nothing,
        }
    }
}

/// The error of a failed migration after its rollback: the error, and whether
/// `pyproject.toml` is back.
pub fn rollback_error(error: &Error, pyproject_exists: bool) -> (r: Error)
    ensures
        r@ == ErrorView::General(error_text(error@) + if pyproject_exists {
            "\nNote: File changes have been rolled back to their original state."@
        } else {
            "\nError: Rollback failed - pyproject.toml was not restored."@
        }),
{
    let mut m = error.message();
    if pyproject_exists {
        push_str(&mut m, "\nNote: File changes have been rolled back to their original state.");
    } else {
        push_str(&mut m, "\nError: Rollback failed - pyproject.toml was not restored.");
    }
    Error::General(m)
}

/// Whether the packages of a Poetry package move to Hatchling's wheel target.
pub open spec fn moves_packages(old: NodeV, t: PoetryProjectType) -> bool {
    t == PoetryProjectType::Package && poetry_packages(old).len() > 0
}

/// The Poetry-specific step that follows the common ones for a Poetry package:
/// its `packages` become `[tool.hatch.build.targets.wheel].packages`. Returns
/// whether they did; the document stays as it was otherwise.
pub fn perform_poetry_migration_with_type(doc: &mut Node, old_doc: &Node, project_type: PoetryProjectType) -> (r: bool)
    requires
        moves_packages(old_doc@, project_type) ==> settable(old(doc)@, hatch_packages_path()),
    ensures
        r == moves_packages(old_doc@, project_type),
        final(doc)@ == (if r {
            clean(set_path(old(doc)@, hatch_packages_path(), NodeV::Array(str_nodes(poetry_packages(old_doc@)))))
        } else {
            old(doc)@
        }),
{
    match project_type {
        PoetryProjectType::Package => {
            let packages = extract_poetry_packages(old_doc);
            if packages.len() == 0 {
                return false;
            }
            update_hatch_packages(doc, &packages);
            true
        },
        PoetryProjectType::Application => false,
    }
}

/// A version constraint that starts with a comparison operator (`>`, `<` or
/// `=`) is given to `uv` as written, right after the name: no `==` is put in
/// front of it.
pub proof fn lemma_operator_version_kept(d: DependencyView)
    requires
        d.version matches Some(v) && trim(v).len() > 0 && (trim(v)[0] == '>' || trim(v)[0] == '<' || trim(v)[0] == '='),
        d.extras is None,
        d.environment_markers is None,
    ensures
        uv_requirement(d) == d.name + trim(d.version.unwrap()),
{
    let v = trim(d.version.unwrap());
    assert(!starts_with(v, seq!['~', '='])) by {
        if starts_with(v, seq!['~', '=']) {
            assert(v[0] == v.subrange(0, 2)[0]);
        }
    }
    assert(!starts_with(v, seq!['~'])) by {
        if starts_with(v, seq!['~']) {
            assert(v[0] == v.subrange(0, 1)[0]);
        }
    }
    assert(!starts_with(v, seq!['^'])) by {
        if starts_with(v, seq!['^']) {
            assert(v[0] == v.subrange(0, 1)[0]);
        }
    }
    assert(uv_version_constraint(v) == v);
}

/// `uv init` makes a package exactly for a Poetry package or a setuptools
/// project: its second argument is `--package` for those and for nothing
/// else (a Poetry application, Pipenv, requirements or Conda project).
pub proof fn lemma_package_flag(t: ProjectType, python: Option<Seq<char>>, bare: bool)
    ensures
        init_args(t, python, bare)[0] == "init"@,
        (init_args(t, python, bare)[1] == "--package"@) <==> (t == ProjectType::Poetry(PoetryProjectType::Package)
            || t == ProjectType::SetupPy),
        python != Some("--package"@) ==> (init_args(t, python, bare).contains("--package"@) <==> (t
            == ProjectType::Poetry(PoetryProjectType::Package) || t == ProjectType::SetupPy)),
{
    reveal_strlit("--package");
    reveal_strlit("--python");
    reveal_strlit("--vcs");
    let a = init_args(t, python, bare);
    assert("--python"@[3] != "--package"@[3]);
    assert("--vcs"@[3] != "--package"@[3]);
    reveal_strlit("init");
    reveal_strlit("none");
    reveal_strlit("--no-readme");
    reveal_strlit("--bare");
    if !is_package_type(t) {
        match python {
            Some(v) => assert(a[1] == "--python"@),
            None => assert(a[1] == "--vcs"@),
        }
        if python != Some("--package"@) {
            assert(!a.contains("--package"@)) by {
                if a.contains("--package"@) {
                    let i = choose|i: int| 0 <= i < a.len() && a[i] == "--package"@;
                    assert(a[i].len() == 9);
                }
            }
        }
    } else {
        assert(a[1] == "--package"@);
        assert(a.contains("--package"@));
    }
}

} // verus!

