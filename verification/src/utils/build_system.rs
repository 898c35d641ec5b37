//! The build system of a migrated project: Hatchling for a package, none for
//! an application.
use vstd::prelude::*;
use crate::utils::pyproject::{path2, path3};
use crate::utils::toml::{
    entries_view, get, get_path, get_path_node, lemma_entries_view, lemma_nodes_view, nodes_view,
    path_view, set_path, settable, update_section, Node, NodeV,
};

verus! {

/// Whether `[project]` has two or more of `urls`, `classifiers`, `keywords`.
pub open spec fn pep621_package_indicators(old: NodeV) -> bool {
    match get(old, "project"@) {
        Some(p) => {
            (if get(p, "urls"@) is Some { 1int } else { 0int })
                + (if get(p, "classifiers"@) is Some { 1int } else { 0int })
                + (if get(p, "keywords"@) is Some { 1int } else { 0int }) >= 2
        },
        None => false,
    }
}

/// Whether the old `pyproject.toml` and the project's files mark a package
/// (not an application): a `packages` setting of Poetry, a `setup.py` or
/// `setup.cfg`, a package under `src/`, PEP 621 package metadata, or a
/// build system already.
pub open spec fn is_package_project(old: NodeV, has_setup_file: bool, has_src_package: bool) -> bool {
    ||| get_path(old, seq!["tool"@, "poetry"@, "packages"@]) is Some
    ||| get_path(old, seq!["project"@, "packages"@]) is Some
    ||| has_setup_file
    ||| has_src_package
    ||| pep621_package_indicators(old)
    ||| get(old, "build-system"@) is Some
}

/// Determines if a project is a package (vs an application). `has_setup_file`
/// says whether `setup.py` or `setup.cfg` exists, `has_src_package` whether
/// `src/` holds a directory with an `__init__.py`.
///
/// Any `packages` entry of `[tool.poetry]` marks a package, whatever it holds
/// (a list of package tables, or a table of its own).
pub fn determine_if_package_project(old_doc: &Node, has_setup_file: bool, has_src_package: bool) -> (r: bool)
    ensures
        r == is_package_project(old_doc@, has_setup_file, has_src_package),
{
    if get_path_node(old_doc, path3("tool", "poetry", "packages").as_slice()).is_some() {
        return true;
    }
    if get_path_node(old_doc, path2("project", "packages").as_slice()).is_some() {
        return true;
    }
    if has_setup_file || has_src_package {
        return true;
    }
    match old_doc.get("project") {
        Some(p) => {
            let mut count: u8 = 0;
            if p.get("urls").is_some() {
                count = count + 1;
            }
            if p.get("classifiers").is_some() {
                count = count + 1;
            }
            if p.get("keywords").is_some() {
                count = count + 1;
            }
            if count >= 2 {
                return true;
            }
        },
        None => {},
    }
    old_doc.get("build-system").is_some()
}

/// The `[build-system]` table of Hatchling.
pub open spec fn hatchling_build_system() -> NodeV {
    NodeV::Table {
        implicit: false,
        entries: seq![
            ("requires"@, NodeV::Array(seq![NodeV::Str("hatchling"@)])),
            ("build-backend"@, NodeV::Str("hatchling.build"@)),
        ],
    }
}

/// Updates the build system configuration: a package gets Hatchling's
/// `[build-system]`, an application is left as it is. Returns whether the
/// document changed.
pub fn update_build_system(doc: &mut Node, old_doc: &Node, has_setup_file: bool, has_src_package: bool) -> (r: bool)
    requires
        old(doc)@ is Table,
    ensures
        r == is_package_project(old_doc@, has_setup_file, has_src_package),
        final(doc)@ == (if r {
            set_path(old(doc)@, seq!["build-system"@], hatchling_build_system())
        } else {
            old(doc)@
        }),
{
    if !determine_if_package_project(old_doc, has_setup_file, has_src_package) {
        return false;
    }
    let mut needed: Vec<Node> = Vec::new();
    needed.push(Node::Str("hatchling".to_string()));
    let mut es: Vec<(String, Node)> = Vec::new();
    es.push(("requires".to_string(), Node::Array(needed)));
    es.push(("build-backend".to_string(), Node::Str("hatchling.build".to_string())));
    proof {
        lemma_nodes_view(needed@);
        lemma_entries_view(es@);
        assert(nodes_view(needed@) =~= seq![NodeV::Str("hatchling"@)]);
        assert(entries_view(es@) =~= hatchling_build_system()->entries);
    }
    let mut p: Vec<&str> = Vec::new();
    p.push("build-system");
    assert(path_view(p@) =~= seq!["build-system"@]);
    update_section(doc, p.as_slice(), Node::Table { implicit: false, entries: es });
    true
}

} // verus!
