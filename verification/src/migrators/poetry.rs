//! Poetry projects (`[tool.poetry]`, and Poetry 2's `[project]`): their
//! dependencies, Git sources, Python version and kind of project.
use vstd::prelude::*;
use crate::models::{Dependency, DependencyType, DependencyView, DepTypeView, GitDependency, PoetryProjectType};
use crate::models::dependency::{deps_view, opt_strs_view};
use crate::text::{
    before_first, before_first_chars, chars_of, find_char, find_char_chars, find_pred,
    in_set, lemma_find_char, lemma_find_pred_from, opt_view, push_chars, push_str, replace_char,
    replace_char_chars, set_pred, split_char, split_char_chars, str_eq, string_of, strip_prefix,
    strip_prefix_lit, strs_view, trim, trim_chars, trim_set, trim_set_chars, vecs_view, contains,
    contains_chars,
};
use crate::error::{Error, ErrorView};
use crate::utils::documents::{message_with, parse_toml, prefixed, toml_document};
use crate::utils::pyproject::{path2, path3};
use crate::utils::toml::{
    as_array, as_str, entries_view, get, get_path, get_path_node, lemma_entries_view,
    lemma_nodes_view, lookup, nodes_view, table_entries, Node, NodeV, opt_str_view,
};

verus! {

/// The migration source of Poetry projects.
pub struct PoetryMigrationSource;

// ----------------------------------------------------------------------
// Python version
// ----------------------------------------------------------------------

/// The text before the first character of a set (all of it when none occurs).
pub open spec fn before_any(s: Seq<char>, set: Seq<char>) -> Seq<char> {
    match find_pred(s, set_pred(set)) {
        Some(i) => s.take(i),
        None => s,
    }
}

/// The lowest Python version that a constraint allows, as written in it:
/// after `>=` up to a comma, after `^` or `~=`, or else up to a comma or a space.
pub open spec fn python_floor(v: Seq<char>) -> Seq<char> {
    match strip_prefix(v, ">="@) {
        Some(s) => before_first(s, ','),
        None => match strip_prefix(v, "^"@) {
            Some(s) => s,
            None => match strip_prefix(v, "~="@) {
                Some(s) => s,
                None => before_any(v, seq![',', ' ']),
            },
        },
    }
}

/// `major.minor` of a version: the first two parts, or the only one with `.0`.
pub open spec fn major_minor(v: Seq<char>) -> Seq<char> {
    match find_char(v, '.') {
        None => v + ".0"@,
        Some(i) => v.take(i) + "."@ + before_first(v.skip(i + 1), '.'),
    }
}

/// The Python version of an old `pyproject.toml`: `[project].requires-python`
/// where it is a string, else the string constraint of `python` among the
/// Poetry dependencies (trimmed); none where `python` is there but no string.
pub open spec fn poetry_python_version(old: NodeV) -> Option<Seq<char>> {
    match as_str(get_path(old, seq!["project"@, "requires-python"@])) {
        Some(v) => Some(major_minor(python_floor(v))),
        None => match get_path(old, seq!["tool"@, "poetry"@, "dependencies"@, "python"@]) {
            Some(NodeV::Str(v)) => Some(major_minor(python_floor(trim(v)))),
            _ => None,
        },
    }
}

fn before_any_chars<'a>(s: &'a [char], set: &[char]) -> (r: &'a [char])
    ensures
        r@ == before_any(s@, set@),
{
    proof { lemma_find_pred_from(s@, set_pred(set@), 0); }
    let mut i: usize = 0;
    while i < s.len()
        invariant
            i <= s@.len(),
            forall|j: int| 0 <= j < i ==> !set@.contains(#[trigger] s@[j]),
        decreases s.len() - i,
    {
        if in_set(s[i], set) {
            proof {
                lemma_find_pred_from(s@, set_pred(set@), 0);
                assert((set_pred(set@))(s@[i as int]));
                match find_pred(s@, set_pred(set@)) {
                    Some(k) => {
                        if k < i {
                            assert((set_pred(set@))(s@[k]));
                            assert(!set@.contains(s@[k]));
                        }
                        assert(k == i);
                    },
                    None => {},
                }
            }
            let r = &s[0..i];
            assert(r@ =~= s@.take(i as int));
            return r;
        }
        i = i + 1;
    }
    proof {
        lemma_find_pred_from(s@, set_pred(set@), 0);
        match find_pred(s@, set_pred(set@)) {
            Some(k) => {
                assert((set_pred(set@))(s@[k]));
                assert(!set@.contains(s@[k]));
            },
            None => {},
        }
    }
    s
}

fn python_floor_chars(v: &[char]) -> (r: Vec<char>)
    ensures
        r@ == python_floor(v@),
{
    match strip_prefix_lit(v, ">=") {
        Some(s) => crate::text::copy_chars(before_first_chars(s, ',')),
        None => match strip_prefix_lit(v, "^") {
            Some(s) => crate::text::copy_chars(s),
            None => match strip_prefix_lit(v, "~=") {
                Some(s) => crate::text::copy_chars(s),
                None => {
                    let mut set: Vec<char> = Vec::new();
                    set.push(',');
                    set.push(' ');
                    assert(set@ =~= seq![',', ' ']);
                    crate::text::copy_chars(before_any_chars(v, set.as_slice()))
                },
            },
        },
    }
}

fn major_minor_string(v: &[char]) -> (r: String)
    ensures
        r@ == major_minor(v@),
{
    let mut out = String::new();
    match find_char_chars(v, '.') {
        None => {
            push_chars(&mut out, v);
            push_str(&mut out, ".0");
        },
        Some(i) => {
            proof { lemma_find_char(v@, '.'); }
            let n = v.len();
            let head = &v[0..i];
            let tail = &v[i + 1..n];
            assert(head@ =~= v@.take(i as int));
            assert(tail@ =~= v@.skip(i + 1));
            push_chars(&mut out, head);
            push_str(&mut out, ".");
            push_chars(&mut out, before_first_chars(tail, '.'));
        },
    }
    out
}

impl PoetryMigrationSource {
    /// The Python version to pin, `major.minor`, from an old `pyproject.toml`.
    pub fn extract_python_version(old_doc: &Node) -> (r: Option<String>)
        ensures
            opt_str_view(r) == poetry_python_version(old_doc@),
    {
        match crate::utils::toml::str_at(old_doc, path2("project", "requires-python").as_slice()) {
            Some(v) => {
                let c = chars_of(v.as_str());
                let f = python_floor_chars(c.as_slice());
                Some(major_minor_string(f.as_slice()))
            },
            None => {
                let mut p: Vec<&str> = Vec::new();
                p.push("tool");
                p.push("poetry");
                p.push("dependencies");
                p.push("python");
                assert(crate::utils::toml::path_view(p@) =~= seq!["tool"@, "poetry"@, "dependencies"@, "python"@]);
                match get_path_node(old_doc, p.as_slice()) {
                    Some(Node::Str(v)) => {
                        let c = chars_of(v.as_str());
                        let t = trim_chars(c.as_slice());
                        let f = python_floor_chars(t);
                        Some(major_minor_string(f.as_slice()))
                    },
                    _ => None,
                }
            },
        }
    }
}


// ----------------------------------------------------------------------
// Dependencies
// ----------------------------------------------------------------------

/// The name part and the version constraint of a Poetry 2 requirement such as
/// `requests[socks] (>=2.0)`: the text before `(`, and what is inside the
/// parentheses.
pub open spec fn v2_base_version(s: Seq<char>) -> (Seq<char>, Option<Seq<char>>) {
    match find_char(s, '(') {
        Some(i) => (trim(s.take(i)), Some(trim(trim_set(s.skip(i), seq!['(', ')'])))),
        None => (trim(s), None),
    }
}

pub open spec fn trimmed_all(parts: Seq<Seq<char>>) -> Seq<Seq<char>> {
    parts.map_values(|p: Seq<char>| trim(p))
}

/// The name and the extras of the name part: the extras are the
/// comma-separated words between `[` and `]`.
pub open spec fn v2_name_extras(base: Seq<char>) -> (Seq<char>, Option<Seq<Seq<char>>>) {
    match (find_char(base, '['), find_char(base, ']')) {
        (Some(a), Some(b)) => (trim(base.take(a)), Some(trimmed_all(split_char(base.subrange(a + 1, b), ',')))),
        _ => (base, None),
    }
}

/// Whether a `]` of the name part, if any, comes after its `[` (else the name
/// part cannot be cut into name and extras).
pub open spec fn v2_brackets_ordered(s: Seq<char>) -> bool {
    let base = v2_base_version(s).0;
    match (find_char(base, '['), find_char(base, ']')) {
        (Some(a), Some(b)) => a < b,
        _ => true,
    }
}

/// A Poetry 2 requirement read as name, version constraint and extras.
pub open spec fn poetry_v2_dep(s: Seq<char>) -> (Seq<char>, Option<Seq<char>>, Option<Seq<Seq<char>>>) {
    let (base, version) = v2_base_version(s);
    let (name, extras) = v2_name_extras(base);
    (name, version, extras)
}

pub open spec fn v2_dependency(s: Seq<char>) -> DependencyView {
    let (name, version, extras) = poetry_v2_dep(s);
    DependencyView { name, version, dep_type: DepTypeView::Main, environment_markers: None, extras }
}

/// The main dependencies of a `[project].dependencies` array (its strings).
pub open spec fn v2_dependencies(v: Seq<NodeV>) -> Seq<DependencyView>
    decreases v.len(),
{
    if v.len() == 0 {
        seq![]
    } else {
        let rest = v2_dependencies(v.drop_last());
        match v.last() {
            NodeV::Str(s) => rest.push(v2_dependency(s)),
            _ => rest,
        }
    }
}

pub open spec fn v2_strings_ordered(v: Seq<NodeV>) -> bool {
    forall|i: int| 0 <= i < v.len() ==> (#[trigger] v[i] is Str ==> v2_brackets_ordered(v[i]->Str_0))
}

/// The version constraint of a string; `*` means none.
pub open spec fn version_of_str(v: Seq<char>) -> Option<Seq<char>> {
    let t = trim(v);
    if t == "*"@ {
        None
    } else {
        Some(t)
    }
}

/// The version constraint of a Poetry dependency: the string itself, or the
/// `version` string of its table.
pub open spec fn poetry_dep_version(value: NodeV) -> Option<Seq<char>> {
    match value {
        NodeV::Str(v) => version_of_str(v),
        NodeV::InlineTable(es) => match lookup(es, "version"@) {
            Some(NodeV::Str(v)) => version_of_str(v),
            _ => None,
        },
        NodeV::Table { entries, .. } => match lookup(entries, "version"@) {
            Some(NodeV::Str(v)) => version_of_str(v),
            _ => None,
        },
        _ => None,
    }
}

/// The strings among array elements.
pub open spec fn str_elements(v: Seq<NodeV>) -> Seq<Seq<char>>
    decreases v.len(),
{
    if v.len() == 0 {
        seq![]
    } else {
        let rest = str_elements(v.drop_last());
        match v.last() {
            NodeV::Str(s) => rest.push(s),
            _ => rest,
        }
    }
}

pub open spec fn extras_of(es: Seq<(Seq<char>, NodeV)>) -> Option<Seq<Seq<char>>> {
    match lookup(es, "extras"@) {
        Some(NodeV::Array(v)) => if str_elements(v).len() == 0 {
            None
        } else {
            Some(str_elements(v))
        },
        _ => None,
    }
}

/// The extras of a Poetry dependency table (none where the list is empty).
pub open spec fn poetry_dep_extras(value: NodeV) -> Option<Seq<Seq<char>>> {
    match value {
        NodeV::InlineTable(es) => extras_of(es),
        NodeV::Table { entries, .. } => extras_of(entries),
        _ => None,
    }
}

/// A dependency of a Poetry table; `python` is no dependency.
pub open spec fn poetry_dependency(name: Seq<char>, value: NodeV, t: DepTypeView) -> Option<DependencyView> {
    if name == "python"@ {
        None
    } else {
        Some(DependencyView {
            name,
            version: poetry_dep_version(value),
            dep_type: t,
            environment_markers: None,
            extras: poetry_dep_extras(value),
        })
    }
}

pub open spec fn has_name(acc: Seq<DependencyView>, n: Seq<char>) -> bool {
    exists|i: int| 0 <= i < acc.len() && #[trigger] acc[i].name == n
}

/// Main dependencies added after others, skipping names already there.
pub open spec fn add_main(acc: Seq<DependencyView>, es: Seq<(Seq<char>, NodeV)>) -> Seq<DependencyView>
    decreases es.len(),
{
    if es.len() == 0 {
        acc
    } else {
        let a = add_main(acc, es.drop_last());
        match poetry_dependency(es.last().0, es.last().1, DepTypeView::Main) {
            Some(d) => if has_name(a, d.name) {
                a
            } else {
                a.push(d)
            },
            None => a,
        }
    }
}

/// Dependencies of one group added after others.
pub open spec fn add_all(acc: Seq<DependencyView>, es: Seq<(Seq<char>, NodeV)>, t: DepTypeView) -> Seq<DependencyView>
    decreases es.len(),
{
    if es.len() == 0 {
        acc
    } else {
        let a = add_all(acc, es.drop_last(), t);
        match poetry_dependency(es.last().0, es.last().1, t) {
            Some(d) => a.push(d),
            None => a,
        }
    }
}

/// The group `dev` holds development dependencies; any other is a named group.
pub open spec fn group_type(g: Seq<char>) -> DepTypeView {
    if g == "dev"@ {
        DepTypeView::Dev
    } else {
        DepTypeView::Group(g)
    }
}

/// The `dependencies` table of a group table.
pub open spec fn group_dependencies(group: NodeV) -> Option<Seq<(Seq<char>, NodeV)>> {
    match table_entries(group) {
        Some(ges) => match lookup(ges, "dependencies"@) {
            Some(d) => table_entries(d),
            None => None,
        },
        None => None,
    }
}

pub open spec fn add_groups(acc: Seq<DependencyView>, groups: Seq<(Seq<char>, NodeV)>) -> Seq<DependencyView>
    decreases groups.len(),
{
    if groups.len() == 0 {
        acc
    } else {
        let a = add_groups(acc, groups.drop_last());
        match group_dependencies(groups.last().1) {
            Some(des) => add_all(a, des, group_type(groups.last().0)),
            None => a,
        }
    }
}

pub open spec fn table_at(doc: NodeV, path: Seq<Seq<char>>) -> Option<Seq<(Seq<char>, NodeV)>> {
    match get_path(doc, path) {
        Some(n) => table_entries(n),
        None => None,
    }
}

/// The dependencies of a Poetry `pyproject.toml`: those of `[project]`, then
/// the main ones of `[tool.poetry.dependencies]` whose names are new, then
/// those of each group of `[tool.poetry.group]`.
pub open spec fn poetry_dependencies(doc: NodeV) -> Seq<DependencyView> {
    let d1 = match as_array(get_path(doc, seq!["project"@, "dependencies"@])) {
        Some(v) => v2_dependencies(v),
        None => seq![],
    };
    let d2 = match table_at(doc, seq!["tool"@, "poetry"@, "dependencies"@]) {
        Some(es) => add_main(d1, es),
        None => d1,
    };
    match table_at(doc, seq!["tool"@, "poetry"@, "group"@]) {
        Some(gs) => add_groups(d2, gs),
        None => d2,
    }
}

/// Whether the requirement strings of `[project].dependencies` can all be read.
pub open spec fn poetry_requirements_readable(doc: NodeV) -> bool {
    match as_array(get_path(doc, seq!["project"@, "dependencies"@])) {
        Some(v) => v2_strings_ordered(v),
        None => true,
    }
}

fn brackets_ordered(dep_str: &str) -> (r: bool)
    ensures
        r == v2_brackets_ordered(dep_str@),
{
    let s = chars_of(dep_str);
    let n = s.len();
    let base: Vec<char> = match find_char_chars(s.as_slice(), '(') {
        Some(i) => {
            proof { lemma_find_char(s@, '('); }
            let head = &s[0..i];
            assert(head@ =~= s@.take(i as int));
            crate::text::copy_chars(trim_chars(head))
        },
        None => crate::text::copy_chars(trim_chars(s.as_slice())),
    };
    match (find_char_chars(base.as_slice(), '['), find_char_chars(base.as_slice(), ']')) {
        (Some(a), Some(e)) => a < e,
        _ => true,
    }
}

fn strs_of_parts(parts: &Vec<Vec<char>>) -> (r: Vec<String>)
    ensures
        strs_view(r@) == trimmed_all(vecs_view(parts@)),
{
    let mut out: Vec<String> = Vec::new();
    let mut i: usize = 0;
    while i < parts.len()
        invariant
            i <= parts@.len(),
            strs_view(out@) == trimmed_all(vecs_view(parts@.take(i as int))),
        decreases parts.len() - i,
    {
        let ghost before = out@;
        out.push(string_of(trim_chars(parts[i].as_slice())));
        proof {
            let a = vecs_view(parts@.take(i as int));
            assert(vecs_view(parts@.take(i + 1)) =~= a.push(parts@[i as int]@));
            assert(trimmed_all(a.push(parts@[i as int]@)) =~= trimmed_all(a).push(trim(parts@[i as int]@)));
            assert(strs_view(out@) =~= strs_view(before).push(out@.last()@));
        }
        i = i + 1;
    }
    assert(parts@.take(parts@.len() as int) =~= parts@);
    out
}

fn tables_entries<'a>(n: Option<&'a Node>, empty: &'a Vec<(String, Node)>) -> (r: (bool, &'a Vec<(String, Node)>))
    requires
        empty@.len() == 0,
    ensures
        r.0 == (match n { Some(x) => table_entries(x@) is Some, None => false }),
        r.0 ==> Some(entries_view(r.1@)) == (match n { Some(x) => table_entries(x@), None => None }),
{
    match n {
        Some(x) => match x.as_table() {
            Some(es) => (true, es),
            None => (false, empty),
        },
        None => (false, empty),
    }
}

impl PoetryMigrationSource {
    /// Reads a Poetry 2 requirement such as `requests[socks] (>=2.0)`.
    pub fn parse_poetry_v2_dep(&self, dep_str: &str) -> (r: (String, Option<String>, Option<Vec<String>>))
        requires
            v2_brackets_ordered(dep_str@),
        ensures
            (r.0@, opt_view(r.1), opt_strs_view(r.2)) == poetry_v2_dep(dep_str@),
    {
        let s = chars_of(dep_str);
        let n = s.len();
        let (base, version): (Vec<char>, Option<String>) = match find_char_chars(s.as_slice(), '(') {
            Some(i) => {
                proof { lemma_find_char(s@, '('); }
                let head = &s[0..i];
                let tail = &s[i..n];
                assert(head@ =~= s@.take(i as int));
                assert(tail@ =~= s@.skip(i as int));
                let mut parens: Vec<char> = Vec::new();
                parens.push('(');
                parens.push(')');
                assert(parens@ =~= seq!['(', ')']);
                let inner = trim_set_chars(tail, parens.as_slice());
                (crate::text::copy_chars(trim_chars(head)), Some(string_of(trim_chars(inner))))
            },
            None => (crate::text::copy_chars(trim_chars(s.as_slice())), None),
        };
        let b = base.len();
        match (find_char_chars(base.as_slice(), '['), find_char_chars(base.as_slice(), ']')) {
            (Some(a), Some(e)) => {
                proof {
                    lemma_find_char(base@, '[');
                    lemma_find_char(base@, ']');
                }
                let name_part = &base[0..a];
                assert(name_part@ =~= base@.take(a as int));
                let inner = &base[a + 1..e];
                let parts = split_char_chars(inner, ',');
                let extras = strs_of_parts(&parts);
                (string_of(trim_chars(name_part)), version, Some(extras))
            },
            _ => (string_of(base.as_slice()), version, None),
        }
    }

    /// Whether every requirement string of `[project].dependencies` can be
    /// read by `parse_poetry_v2_dep`.
    pub fn requirements_readable(doc: &Node) -> (r: bool)
        ensures
            r == poetry_requirements_readable(doc@),
    {
        match get_path_node(doc, path2("project", "dependencies").as_slice()) {
            Some(Node::Array(v)) => {
                let ghost vs = nodes_view(v@);
                proof { lemma_nodes_view(v@); }
                let mut i: usize = 0;
                while i < v.len()
                    invariant
                        i <= v@.len(),
                        vs == nodes_view(v@),
                        vs.len() == v@.len(),
                        forall|j: int| 0 <= j < v@.len() ==> #[trigger] vs[j] == v@[j]@,
                        forall|j: int| 0 <= j < i ==> (#[trigger] vs[j] is Str ==> v2_brackets_ordered(vs[j]->Str_0)),
                        as_array(get_path(doc@, seq!["project"@, "dependencies"@])) == Some(vs),
                    decreases v.len() - i,
                {
                    match &v[i] {
                        Node::Str(s) => {
                            if !brackets_ordered(s.as_str()) {
                                assert(vs[i as int] is Str);
                                return false;
                            }
                        },
                        _ => {},
                    }
                    i = i + 1;
                }
                true
            },
            _ => true,
        }
    }

    /// Reads one dependency of a Poetry table; `python` is skipped.
    pub fn format_dependency(&self, name: &str, value: &Node, dep_type: DependencyType) -> (r: Option<Dependency>)
        ensures
            match poetry_dependency(name@, value@, dep_type@) {
                Some(d) => r matches Some(x) && x@ == d,
                None => r is None,
            },
    {
        if str_eq(name, "python") {
            return None;
        }
        let empty: Vec<(String, Node)> = Vec::new();
        let (is_table, es): (bool, &Vec<(String, Node)>) = match value {
            Node::InlineTable(es) => (true, es),
            Node::Table { entries, .. } => (true, entries),
            _ => (false, &empty),
        };
        let version = match value {
            Node::Str(v) => version_string(v.as_str()),
            _ => {
                if is_table {
                    proof {
                        lemma_entries_view(es@);
                        crate::utils::toml::lemma_key_index_lookup(entries_view(es@), "version"@);
                    }
                    match crate::utils::toml::find_key(es, "version") {
                        Some(j) => match &es[j].1 {
                            Node::Str(v) => version_string(v.as_str()),
                            _ => None,
                        },
                        None => None,
                    }
                } else {
                    None
                }
            },
        };
        let extras = if is_table {
            proof {
                lemma_entries_view(es@);
                crate::utils::toml::lemma_key_index_lookup(entries_view(es@), "extras"@);
            }
            match crate::utils::toml::find_key(es, "extras") {
                Some(j) => match &es[j].1 {
                    Node::Array(v) => {
                        let x = str_elements_vec(v);
                        if x.len() == 0 {
                            None
                        } else {
                            Some(x)
                        }
                    },
                    _ => None,
                },
                None => None,
            }
        } else {
            None
        };
        Some(Dependency {
            name: name.to_string(),
            version,
            dep_type,
            environment_markers: None,
            extras,
        })
    }
}

fn version_string(v: &str) -> (r: Option<String>)
    ensures
        opt_view(r) == version_of_str(v@),
{
    let c = chars_of(v);
    let t = trim_chars(c.as_slice());
    if crate::text::eq_lit(t, "*") {
        None
    } else {
        Some(string_of(t))
    }
}

fn str_elements_vec(v: &Vec<Node>) -> (r: Vec<String>)
    ensures
        strs_view(r@) == str_elements(nodes_view(v@)),
{
    let ghost vs = nodes_view(v@);
    proof { lemma_nodes_view(v@); }
    let mut out: Vec<String> = Vec::new();
    let mut i: usize = 0;
    while i < v.len()
        invariant
            i <= v@.len(),
            vs == nodes_view(v@),
            vs.len() == v@.len(),
            forall|j: int| 0 <= j < v@.len() ==> #[trigger] vs[j] == v@[j]@,
            strs_view(out@) == str_elements(vs.take(i as int)),
        decreases v.len() - i,
    {
        proof {
            assert(vs.take(i + 1).drop_last() =~= vs.take(i as int));
            assert(vs.take(i + 1).last() == vs[i as int]);
        }
        match &v[i] {
            Node::Str(s) => {
                out.push(s.clone());
            },
            _ => {},
        }
        assert(strs_view(out@) =~= str_elements(vs.take(i + 1)));
        i = i + 1;
    }
    assert(vs.take(v@.len() as int) =~= vs);
    out
}


fn contains_name(acc: &Vec<Dependency>, name: &String) -> (r: bool)
    ensures
        r == has_name(deps_view(acc@), name@),
{
    let mut i: usize = 0;
    while i < acc.len()
        invariant
            i <= acc@.len(),
            forall|j: int| 0 <= j < i ==> acc@[j].name@ != name@,
        decreases acc.len() - i,
    {
        if str_eq(acc[i].name.as_str(), name.as_str()) {
            assert(deps_view(acc@)[i as int].name == name@);
            return true;
        }
        i = i + 1;
    }
    assert forall|j: int| 0 <= j < deps_view(acc@).len() implies #[trigger] deps_view(acc@)[j].name != name@ by {
        assert(deps_view(acc@)[j] == acc@[j]@);
    }
    false
}

impl PoetryMigrationSource {
    fn add_table(&self, out: &mut Vec<Dependency>, es: &Vec<(String, Node)>, t: &DependencyType, main: bool)
        ensures
            deps_view(final(out)@) == (if main {
                add_main(deps_view(old(out)@), entries_view(es@))
            } else {
                add_all(deps_view(old(out)@), entries_view(es@), t@)
            }),
    {
        let ghost ev = entries_view(es@);
        let ghost d0 = deps_view(out@);
        proof { lemma_entries_view(es@); }
        let mut i: usize = 0;
        while i < es.len()
            invariant
                i <= es@.len(),
                ev == entries_view(es@),
                ev.len() == es@.len(),
                forall|j: int| 0 <= j < es@.len() ==> #[trigger] ev[j] == (es@[j].0@, es@[j].1@),
                deps_view(out@) == (if main { add_main(d0, ev.take(i as int)) } else { add_all(d0, ev.take(i as int), t@) }),
            decreases es.len() - i,
        {
            proof {
                assert(ev.take(i + 1).drop_last() =~= ev.take(i as int));
                assert(ev.take(i + 1).last() == ev[i as int]);
            }
            let ty = if main { DependencyType::Main } else { t.duplicate() };
            match self.format_dependency(es[i].0.as_str(), &es[i].1, ty) {
                Some(d) => {
                    let skip = main && contains_name(out, &d.name);
                    if !skip {
                        let ghost before = out@;
                        out.push(d);
                        assert(deps_view(out@) =~= deps_view(before).push(out@.last()@));
                    }
                },
                None => {},
            }
            i = i + 1;
        }
        assert(ev.take(es@.len() as int) =~= ev);
    }

    fn v2_deps(&self, out: &mut Vec<Dependency>, v: &Vec<Node>)
        requires
            v2_strings_ordered(nodes_view(v@)),
            old(out)@.len() == 0,
        ensures
            deps_view(final(out)@) == v2_dependencies(nodes_view(v@)),
    {
        let ghost vs = nodes_view(v@);
        proof { lemma_nodes_view(v@); }
        assert(deps_view(out@) =~= seq![]);
        let mut i: usize = 0;
        while i < v.len()
            invariant
                i <= v@.len(),
                vs == nodes_view(v@),
                vs.len() == v@.len(),
                forall|j: int| 0 <= j < v@.len() ==> #[trigger] vs[j] == v@[j]@,
                v2_strings_ordered(vs),
                deps_view(out@) == v2_dependencies(vs.take(i as int)),
            decreases v.len() - i,
        {
            proof {
                assert(vs.take(i + 1).drop_last() =~= vs.take(i as int));
                assert(vs.take(i + 1).last() == vs[i as int]);
            }
            match &v[i] {
                Node::Str(s) => {
                    assert(vs[i as int] is Str);
                    let (name, version, extras) = self.parse_poetry_v2_dep(s.as_str());
                    let ghost before = out@;
                    out.push(Dependency {
                        name,
                        version,
                        dep_type: DependencyType::Main,
                        environment_markers: None,
                        extras,
                    });
                    assert(deps_view(out@) =~= deps_view(before).push(out@.last()@));
                },
                _ => {},
            }
            i = i + 1;
        }
        assert(vs.take(v@.len() as int) =~= vs);
    }

    /// Extracts the dependencies of a Poetry `pyproject.toml`.
    pub fn extract_dependencies(&self, doc: &Node) -> (r: Vec<Dependency>)
        requires
            poetry_requirements_readable(doc@),
        ensures
            deps_view(r@) == poetry_dependencies(doc@),
    {
        let mut out: Vec<Dependency> = Vec::new();
        match get_path_node(doc, path2("project", "dependencies").as_slice()) {
            Some(Node::Array(v)) => {
                self.v2_deps(&mut out, v);
            },
            _ => {
                assert(deps_view(out@) =~= seq![]);
            },
        }
        let empty: Vec<(String, Node)> = Vec::new();
        let (has_main, main) = tables_entries(get_path_node(doc, path3("tool", "poetry", "dependencies").as_slice()), &empty);
        if has_main {
            self.add_table(&mut out, main, &DependencyType::Main, true);
        }
        let (has_groups, groups) = tables_entries(get_path_node(doc, path3("tool", "poetry", "group").as_slice()), &empty);
        if has_groups {
            let ghost gv = entries_view(groups@);
            let ghost d2 = deps_view(out@);
            proof { lemma_entries_view(groups@); }
            let mut i: usize = 0;
            while i < groups.len()
                invariant
                    i <= groups@.len(),
                    gv == entries_view(groups@),
                    gv.len() == groups@.len(),
                    forall|j: int| 0 <= j < groups@.len() ==> #[trigger] gv[j] == (groups@[j].0@, groups@[j].1@),
                    deps_view(out@) == add_groups(d2, gv.take(i as int)),
                    empty@.len() == 0,
                decreases groups.len() - i,
            {
                proof {
                    assert(gv.take(i + 1).drop_last() =~= gv.take(i as int));
                    assert(gv.take(i + 1).last() == gv[i as int]);
                }
                let name = &groups[i].0;
                let t = if str_eq(name.as_str(), "dev") {
                    DependencyType::Dev
                } else {
                    DependencyType::Group(name.clone())
                };
                let (has_table, ges) = tables_entries(Some(&groups[i].1), &empty);
                if has_table {
                    proof {
                        lemma_entries_view(ges@);
                        crate::utils::toml::lemma_key_index_lookup(entries_view(ges@), "dependencies"@);
                    }
                    match crate::utils::toml::find_key(ges, "dependencies") {
                        Some(j) => {
                            let (has_deps, des) = tables_entries(Some(&ges[j].1), &empty);
                            if has_deps {
                                self.add_table(&mut out, des, &t, false);
                            }
                        },
                        None => {},
                    }
                }
                i = i + 1;
            }
            assert(gv.take(groups@.len() as int) =~= gv);
        }
        out
    }
}

// ----------------------------------------------------------------------
// Git dependencies
// ----------------------------------------------------------------------

pub open spec fn git_view(g: GitDependency) -> (Seq<char>, Seq<char>, Option<Seq<char>>, Option<Seq<char>>, Option<Seq<char>>) {
    (g.name@, g.git_url@, opt_view(g.branch), opt_view(g.tag), opt_view(g.rev))
}

pub open spec fn gits_view(v: Seq<GitDependency>) -> Seq<(Seq<char>, Seq<char>, Option<Seq<char>>, Option<Seq<char>>, Option<Seq<char>>)> {
    v.map_values(|g: GitDependency| git_view(g))
}

/// The Git source of a Poetry dependency: a table (inline or not) with a
/// `git` URL, and `branch`, `tag`, `rev` where they are strings.
pub open spec fn git_info(name: Seq<char>, value: NodeV) -> Option<(Seq<char>, Seq<char>, Option<Seq<char>>, Option<Seq<char>>, Option<Seq<char>>)> {
    if name == "python"@ {
        None
    } else {
        match crate::utils::toml::table_like(value) {
            Some(es) => match as_str(lookup(es, "git"@)) {
                Some(url) => Some((name, url, as_str(lookup(es, "branch"@)), as_str(lookup(es, "tag"@)), as_str(lookup(es, "rev"@)))),
                None => None,
            },
            None => None,
        }
    }
}

pub open spec fn gits_of(acc: Seq<(Seq<char>, Seq<char>, Option<Seq<char>>, Option<Seq<char>>, Option<Seq<char>>)>, es: Seq<(Seq<char>, NodeV)>) -> Seq<(Seq<char>, Seq<char>, Option<Seq<char>>, Option<Seq<char>>, Option<Seq<char>>)>
    decreases es.len(),
{
    if es.len() == 0 {
        acc
    } else {
        let a = gits_of(acc, es.drop_last());
        match git_info(es.last().0, es.last().1) {
            Some(g) => a.push(g),
            None => a,
        }
    }
}

pub open spec fn group_gits(acc: Seq<(Seq<char>, Seq<char>, Option<Seq<char>>, Option<Seq<char>>, Option<Seq<char>>)>, groups: Seq<(Seq<char>, NodeV)>) -> Seq<(Seq<char>, Seq<char>, Option<Seq<char>>, Option<Seq<char>>, Option<Seq<char>>)>
    decreases groups.len(),
{
    if groups.len() == 0 {
        acc
    } else {
        let a = group_gits(acc, groups.drop_last());
        match group_dependencies(groups.last().1) {
            Some(des) => gits_of(a, des),
            None => a,
        }
    }
}

/// The Git dependencies of an old `pyproject.toml`: main ones, then those of
/// each group.
pub open spec fn poetry_git_dependencies(old: NodeV) -> Seq<(Seq<char>, Seq<char>, Option<Seq<char>>, Option<Seq<char>>, Option<Seq<char>>)> {
    let g1 = match table_at(old, seq!["tool"@, "poetry"@, "dependencies"@]) {
        Some(es) => gits_of(seq![], es),
        None => seq![],
    };
    match table_at(old, seq!["tool"@, "poetry"@, "group"@]) {
        Some(gs) => group_gits(g1, gs),
        None => g1,
    }
}

fn str_of_key(es: &Vec<(String, Node)>, key: &str) -> (r: Option<String>)
    ensures
        opt_view(r) == as_str(lookup(entries_view(es@), key@)),
{
    proof {
        lemma_entries_view(es@);
        crate::utils::toml::lemma_key_index_lookup(entries_view(es@), key@);
    }
    match crate::utils::toml::find_key(es, key) {
        Some(j) => match &es[j].1 {
            Node::Str(s) => Some(s.clone()),
            _ => None,
        },
        None => None,
    }
}

impl PoetryMigrationSource {
    /// The Git source of one Poetry dependency, if it has one.
    pub fn extract_git_dependency_info(&self, name: &str, value: &Node) -> (r: Option<GitDependency>)
        ensures
            match git_info(name@, value@) {
                Some(g) => r matches Some(x) && git_view(x) == g,
                None => r is None,
            },
    {
        if str_eq(name, "python") {
            return None;
        }
        match value.table_like_entries() {
            Some(es) => match str_of_key(es, "git") {
                Some(git_url) => Some(GitDependency {
                    name: name.to_string(),
                    git_url,
                    branch: str_of_key(es, "branch"),
                    tag: str_of_key(es, "tag"),
                    rev: str_of_key(es, "rev"),
                }),
                None => None,
            },
            None => None,
        }
    }

    fn add_gits(&self, out: &mut Vec<GitDependency>, es: &Vec<(String, Node)>)
        ensures
            gits_view(final(out)@) == gits_of(gits_view(old(out)@), entries_view(es@)),
    {
        let ghost ev = entries_view(es@);
        let ghost g0 = gits_view(out@);
        proof { lemma_entries_view(es@); }
        let mut i: usize = 0;
        while i < es.len()
            invariant
                i <= es@.len(),
                ev == entries_view(es@),
                ev.len() == es@.len(),
                forall|j: int| 0 <= j < es@.len() ==> #[trigger] ev[j] == (es@[j].0@, es@[j].1@),
                gits_view(out@) == gits_of(g0, ev.take(i as int)),
            decreases es.len() - i,
        {
            proof {
                assert(ev.take(i + 1).drop_last() =~= ev.take(i as int));
                assert(ev.take(i + 1).last() == ev[i as int]);
            }
            match self.extract_git_dependency_info(es[i].0.as_str(), &es[i].1) {
                Some(g) => {
                    let ghost before = out@;
                    out.push(g);
                    assert(gits_view(out@) =~= gits_view(before).push(git_view(out@.last())));
                },
                None => {},
            }
            i = i + 1;
        }
        assert(ev.take(es@.len() as int) =~= ev);
    }

    /// Extracts the Git dependencies of an old Poetry `pyproject.toml`.
    pub fn extract_git_dependencies(&self, old_doc: &Node) -> (r: Vec<GitDependency>)
        ensures
            gits_view(r@) == poetry_git_dependencies(old_doc@),
    {
        let mut out: Vec<GitDependency> = Vec::new();
        assert(gits_view(out@) =~= seq![]);
        let empty: Vec<(String, Node)> = Vec::new();
        let (has_main, main) = tables_entries(get_path_node(old_doc, path3("tool", "poetry", "dependencies").as_slice()), &empty);
        if has_main {
            self.add_gits(&mut out, main);
        }
        let (has_groups, groups) = tables_entries(get_path_node(old_doc, path3("tool", "poetry", "group").as_slice()), &empty);
        if has_groups {
            let ghost gv = entries_view(groups@);
            let ghost g1 = gits_view(out@);
            proof { lemma_entries_view(groups@); }
            let mut i: usize = 0;
            while i < groups.len()
                invariant
                    i <= groups@.len(),
                    gv == entries_view(groups@),
                    gv.len() == groups@.len(),
                    forall|j: int| 0 <= j < groups@.len() ==> #[trigger] gv[j] == (groups@[j].0@, groups@[j].1@),
                    gits_view(out@) == group_gits(g1, gv.take(i as int)),
                    empty@.len() == 0,
                decreases groups.len() - i,
            {
                proof {
                    assert(gv.take(i + 1).drop_last() =~= gv.take(i as int));
                    assert(gv.take(i + 1).last() == gv[i as int]);
                }
                let (has_table, ges) = tables_entries(Some(&groups[i].1), &empty);
                if has_table {
                    proof {
                        lemma_entries_view(ges@);
                        crate::utils::toml::lemma_key_index_lookup(entries_view(ges@), "dependencies"@);
                    }
                    match crate::utils::toml::find_key(ges, "dependencies") {
                        Some(j) => {
                            let (has_deps, des) = tables_entries(Some(&ges[j].1), &empty);
                            if has_deps {
                                self.add_gits(&mut out, des);
                            }
                        },
                        None => {},
                    }
                }
                i = i + 1;
            }
            assert(gv.take(groups@.len() as int) =~= gv);
        }
        out
    }
}


// ----------------------------------------------------------------------
// Kind of project
// ----------------------------------------------------------------------

/// The lowercase form of a text, as `str::to_lowercase` gives it: Unicode's
/// lowercase mapping, a function of the text alone.
pub uninterp spec fn lowercase(s: Seq<char>) -> Seq<char>;

/// `str::to_lowercase`; the contract claims only that the result is the
/// function of the text named `lowercase`.
#[verifier::external_body]
fn to_lowercase(s: &str) -> (r: String)
    ensures
        r@ == lowercase(s@),
{
    s.to_lowercase()
}

/// The name of the project: `[project].name`, else `[tool.poetry].name`.
pub open spec fn project_name_of(doc: NodeV) -> Option<Seq<char>> {
    match as_str(get_path(doc, seq!["project"@, "name"@])) {
        Some(n) => Some(n),
        None => as_str(get_path(doc, seq!["tool"@, "poetry"@, "name"@])),
    }
}

/// The directory name of the project's package: its name in snake case.
pub open spec fn package_dir_of(doc: NodeV) -> Option<Seq<char>> {
    match project_name_of(doc) {
        Some(n) => Some(lowercase(replace_char(n, '-', "_"@))),
        None => None,
    }
}

/// Whether a classifier marks a formal package.
pub open spec fn package_classifier(s: Seq<char>) -> bool {
    contains(s, "Development Status"@) || contains(s, "Programming Language"@) || contains(s, "License"@)
}

pub open spec fn has_package_classifier(v: Seq<NodeV>) -> bool {
    exists|i: int| 0 <= i < v.len() && #[trigger] v[i] is Str && package_classifier(v[i]->Str_0)
}

/// Whether `[tool.poetry]` has two or more of: package classifiers, keywords,
/// a readme.
pub open spec fn strong_package_indicators(doc: NodeV) -> bool {
    let classifiers = match as_array(get_path(doc, seq!["tool"@, "poetry"@, "classifiers"@])) {
        Some(v) => has_package_classifier(v),
        None => false,
    };
    let keywords = match as_array(get_path(doc, seq!["tool"@, "poetry"@, "keywords"@])) {
        Some(v) => v.len() > 0,
        None => false,
    };
    let readme = get_path(doc, seq!["tool"@, "poetry"@, "readme"@]) is Some;
    (if classifiers { 1int } else { 0int }) + (if keywords { 1int } else { 0int })
        + (if readme { 1int } else { 0int }) >= 2
}

pub open spec fn explicit_packages(doc: NodeV) -> bool {
    match as_array(get_path(doc, seq!["tool"@, "poetry"@, "packages"@])) {
        Some(v) => v.len() > 0,
        None => false,
    }
}

/// Whether a Poetry project is a package: a package on disk (`src/` or a
/// directory named as the project directory), a `packages` list, a
/// `setup.py`, a directory `<name>/__init__.py` or `src/<name>/__init__.py`
/// for the snake-case name, or strong package metadata.
pub open spec fn poetry_project_type(doc: NodeV, real_package: bool, has_setup_py: bool, name_package: bool) -> PoetryProjectType {
    if real_package || explicit_packages(doc) || has_setup_py
        || (project_name_of(doc) is Some && name_package) || strong_package_indicators(doc) {
        PoetryProjectType::Package
    } else {
        PoetryProjectType::Application
    }
}

impl PoetryMigrationSource {
    /// The name of the directory that holds the project's package: the
    /// project's name with `-` as `_`, in lowercase.
    pub fn package_dir_name(doc: &Node) -> (r: Option<String>)
        ensures
            opt_view(r) == package_dir_of(doc@),
    {
        let name = match crate::utils::toml::str_at(doc, path2("project", "name").as_slice()) {
            Some(n) => Some(n),
            None => crate::utils::toml::str_at(doc, path3("tool", "poetry", "name").as_slice()),
        };
        match name {
            Some(n) => {
                let c = chars_of(n.as_str());
                let mut us: Vec<char> = Vec::new();
                us.push('_');
                assert(us@ =~= "_"@) by {
                    reveal_strlit("_");
                }
                let snake = replace_char_chars(c.as_slice(), '-', us.as_slice());
                Some(to_lowercase(snake.as_str()))
            },
            None => None,
        }
    }

    /// Whether the Poetry metadata marks a formal package.
    pub fn has_strong_package_indicators(doc: &Node) -> (r: bool)
        ensures
            r == strong_package_indicators(doc@),
    {
        let mut count: u8 = 0;
        match get_path_node(doc, path3("tool", "poetry", "classifiers").as_slice()) {
            Some(Node::Array(v)) => {
                proof { lemma_nodes_view(v@); }
                let mut found = false;
                let mut i: usize = 0;
                while i < v.len()
                    invariant
                        i <= v@.len(),
                        nodes_view(v@).len() == v@.len(),
                        forall|j: int| 0 <= j < v@.len() ==> #[trigger] nodes_view(v@)[j] == v@[j]@,
                        found == exists|j: int| 0 <= j < i && #[trigger] nodes_view(v@)[j] is Str && package_classifier(nodes_view(v@)[j]->Str_0),
                    decreases v.len() - i,
                {
                    match &v[i] {
                        Node::Str(s) => {
                            let c = chars_of(s.as_str());
                            let hit = crate::text::contains_chars(c.as_slice(), chars_of("Development Status").as_slice())
                                || crate::text::contains_chars(c.as_slice(), chars_of("Programming Language").as_slice())
                                || crate::text::contains_chars(c.as_slice(), chars_of("License").as_slice());
                            if hit {
                                assert(nodes_view(v@)[i as int] is Str && package_classifier(nodes_view(v@)[i as int]->Str_0));
                                found = true;
                            }
                        },
                        _ => {},
                    }
                    i = i + 1;
                }
                if found {
                    count = count + 1;
                }
            },
            _ => {},
        }
        match get_path_node(doc, path3("tool", "poetry", "keywords").as_slice()) {
            Some(Node::Array(v)) => {
                proof { lemma_nodes_view(v@); }
                if v.len() > 0 {
                    count = count + 1;
                }
            },
            _ => {},
        }
        if get_path_node(doc, path3("tool", "poetry", "readme").as_slice()).is_some() {
            count = count + 1;
        }
        count >= 2
    }

    /// Decides whether a Poetry project is a package or an application.
    /// `real_package` says whether `verify_real_package_structure` found a
    /// package on disk, `has_setup_py` whether `setup.py` exists, and
    /// `name_package` whether the directory of `package_dir_name`, at the top
    /// or under `src/`, holds an `__init__.py`.
    pub fn detect_project_type(doc: &Node, real_package: bool, has_setup_py: bool, name_package: bool) -> (r: PoetryProjectType)
        ensures
            r == poetry_project_type(doc@, real_package, has_setup_py, name_package),
    {
        if real_package {
            return PoetryProjectType::Package;
        }
        match get_path_node(doc, path3("tool", "poetry", "packages").as_slice()) {
            Some(Node::Array(v)) => {
                proof { lemma_nodes_view(v@); }
                if v.len() > 0 {
                    return PoetryProjectType::Package;
                }
            },
            _ => {},
        }
        if has_setup_py {
            return PoetryProjectType::Package;
        }
        let has_name = crate::utils::toml::str_at(doc, path2("project", "name").as_slice()).is_some()
            || crate::utils::toml::str_at(doc, path3("tool", "poetry", "name").as_slice()).is_some();
        if has_name && name_package {
            return PoetryProjectType::Package;
        }
        if Self::has_strong_package_indicators(doc) {
            return PoetryProjectType::Package;
        }
        PoetryProjectType::Application
    }
}

impl PoetryMigrationSource {
    /// Reads `pyproject.toml` at `path` from its text, `None` where the file
    /// does not exist.
    pub fn read_pyproject(path: &str, content: Option<&str>) -> (r: Result<Node, Error>)
        ensures
            match content {
                None => r matches Err(e) && e@ == (ErrorView::FileOperation {
                    path: path@,
                    message: "File does not exist: "@ + path@,
                }),
                Some(c) => match toml_document(c@) {
                    Ok(d) => r matches Ok(n) && n@ == d,
                    Err(m) => r matches Err(e) && e@ == ErrorView::General(
                        "Error parsing TOML in '"@ + path@ + "': "@ + m,
                    ),
                },
            },
    {
        match content {
            None => Err(Error::FileOperation {
                path: string_of(chars_of(path).as_slice()),
                message: prefixed("File does not exist: ", path),
            }),
            Some(c) => match parse_toml(c) {
                Ok(n) => Ok(n),
                Err(m) => Err(Error::General(message_with("Error parsing TOML in '", path, "': ", m.as_str()))),
            },
        }
    }

    /// The Python version to pin from the text of the old `pyproject.toml` at
    /// `path`, `None` where there is no such file.
    pub fn python_version_from_file(path: &str, old_content: Option<&str>) -> (r: Result<Option<String>, Error>)
        ensures
            match old_content {
                None => r matches Ok(None),
                Some(c) => match toml_document(c@) {
                    Ok(d) => r matches Ok(v) && opt_str_view(v) == poetry_python_version(d),
                    Err(m) => r matches Err(e) && e@ == ErrorView::General(
                        "Failed to parse TOML in '"@ + path@ + "': "@ + m,
                    ),
                },
            },
    {
        match old_content {
            None => Ok(None),
            Some(c) => match crate::utils::documents::read_toml(path, c) {
                Ok(doc) => Ok(Self::extract_python_version(&doc)),
                Err(m) => Err(Error::General(m)),
            },
        }
    }
}

} // verus!
