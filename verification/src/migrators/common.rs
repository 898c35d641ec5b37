//! Steps shared by the migrations of every kind of project.
use vstd::prelude::*;
use crate::models::{Dependency, DependencyType, DependencyView, DepTypeView};
use crate::models::dependency::deps_view;
use crate::text::{chars_of, eq_lit, starts_with, strip_prefix, strip_suffix, strs_view, strip_prefix_lit};

verus! {

/// A dependency with a named group moved into the development group.
pub open spec fn merged(d: DependencyView) -> DependencyView {
    match d.dep_type {
        DepTypeView::Group(_) => DependencyView { dep_type: DepTypeView::Dev, ..d },
        _ => d,
    }
}

pub open spec fn merged_all(v: Seq<DependencyView>) -> Seq<DependencyView> {
    v.map_values(|d: DependencyView| merged(d))
}

/// Merges all dependency groups into dev dependencies.
pub fn merge_dependency_groups(dependencies: Vec<Dependency>) -> (r: Vec<Dependency>)
    ensures
        deps_view(r@) == merged_all(deps_view(dependencies@)),
{
    let mut out: Vec<Dependency> = Vec::new();
    let mut rest = dependencies;
    let ghost orig = rest@;
    let n = rest.len();
    assert(orig.skip(0) =~= orig);
    let mut i: usize = 0;
    while i < n
        invariant
            i <= n == orig.len(),
            rest@ == orig.skip(i as int),
            deps_view(out@) == merged_all(deps_view(orig.take(i as int))),
        decreases n - i,
    {
        let mut d = rest.remove(0);
        assert(d == orig[i as int]);
        assert(rest@ =~= orig.skip(i + 1));
        if d.dep_type.is_group() {
            d.dep_type = DependencyType::Dev;
        }
        let ghost before = out@;
        out.push(d);
        proof {
            assert(orig.take(i + 1) =~= orig.take(i as int).push(orig[i as int]));
            assert(deps_view(orig.take(i + 1)) =~= deps_view(orig.take(i as int)).push(orig[i as int]@));
            assert(merged_all(deps_view(orig.take(i + 1))) =~= merged_all(deps_view(orig.take(i as int))).push(merged(orig[i as int]@)));
            assert(deps_view(out@) =~= deps_view(before).push(out@.last()@));
        }
        i = i + 1;
    }
    assert(orig.take(n as int) =~= orig);
    out
}

/// After merging, no dependency is in a named group; every dependency keeps
/// its place, name, version, markers and extras; merging again changes
/// nothing.
pub proof fn lemma_merge_dependency_groups(v: Seq<DependencyView>)
    ensures
        merged_all(v).len() == v.len(),
        forall|i: int| 0 <= i < v.len() ==> !(#[trigger] merged_all(v)[i].dep_type is Group),
        forall|i: int| 0 <= i < v.len() ==> {
            let m = #[trigger] merged_all(v)[i];
            &&& m.name == v[i].name
            &&& m.version == v[i].version
            &&& m.environment_markers == v[i].environment_markers
            &&& m.extras == v[i].extras
            &&& (v[i].dep_type is Group ==> m.dep_type == DepTypeView::Dev)
            &&& (!(v[i].dep_type is Group) ==> m.dep_type == v[i].dep_type)
        },
        merged_all(merged_all(v)) == merged_all(v),
{
    assert(merged_all(merged_all(v)) =~= merged_all(v));
}

/// A requirements file that configures a group of its own:
/// `requirements-<group>.txt` other than `requirements-dev.txt`.
pub open spec fn group_requirements_file(name: Seq<char>) -> bool {
    name != "requirements.txt"@ && name != "requirements-dev.txt"@ && match strip_prefix(name, "requirements-"@) {
        Some(rest) => strip_suffix(rest, ".txt"@) is Some,
        None => false,
    }
}

/// Whether the requirements files of a project (by file name) configure
/// groups, so that `pyproject.toml` is to be tracked for them.
pub open spec fn configures_groups(names: Seq<Seq<char>>) -> bool {
    exists|i: int| 0 <= i < names.len() && group_requirements_file(#[trigger] names[i])
}

/// Whether a requirements file configures a group of its own.
pub fn is_group_requirements_file(name: &str) -> (r: bool)
    ensures
        r == group_requirements_file(name@),
{
    let c = chars_of(name);
    if eq_lit(c.as_slice(), "requirements.txt") || eq_lit(c.as_slice(), "requirements-dev.txt") {
        return false;
    }
    match strip_prefix_lit(c.as_slice(), "requirements-") {
        Some(rest) => crate::text::ends_with_chars(rest, chars_of(".txt").as_slice()),
        None => false,
    }
}

/// The requirements-specific step of a migration: whether `pyproject.toml`
/// is to be tracked because some requirements file configures a group.
pub fn perform_requirements_migration(file_names: &Vec<String>) -> (r: bool)
    ensures
        r == configures_groups(strs_view(file_names@)),
{
    let ghost names = strs_view(file_names@);
    let mut i: usize = 0;
    while i < file_names.len()
        invariant
            i <= file_names@.len(),
            names == strs_view(file_names@),
            forall|j: int| 0 <= j < i ==> !group_requirements_file(#[trigger] names[j]),
        decreases file_names.len() - i,
    {
        if is_group_requirements_file(file_names[i].as_str()) {
            assert(group_requirements_file(names[i as int]));
            return true;
        }
        i = i + 1;
    }
    false
}

} // verus!
