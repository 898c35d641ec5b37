//! Pipenv projects: dependencies of the `Pipfile`, or of `Pipfile.lock` where
//! the `Pipfile` lists none.
use vstd::prelude::*;
use crate::error::{Error, ErrorView};
use crate::models::{Dependency, DependencyType, DependencyView, DepTypeView};
use crate::models::dependency::deps_view;
use crate::text::{chars_of, opt_view, push_str, str_eq, starts_with, string_of, strip_prefix_all, strip_prefix_all_lit};
use crate::utils::documents::{json_document, prefixed, parse_json, parse_toml_value_text, toml_value_document};
use crate::utils::toml::{
    as_str, entries_view, get, lemma_entries_view, lookup, table_like, Node, NodeV,
};

verus! {

/// The migration source of Pipenv projects.
pub struct PipenvMigrationSource;

/// A dependency of the `Pipfile`: `*` (or a constraint starting with `*`)
/// means no version; `python_version` is no dependency.
pub open spec fn pipfile_dependency(name: Seq<char>, spec: Seq<char>, t: DepTypeView) -> Option<DependencyView> {
    if name == "python_version"@ {
        None
    } else {
        Some(DependencyView {
            name,
            version: if spec.len() > 0 && spec[0] == '*' { None } else { Some(spec) },
            dep_type: t,
            environment_markers: None,
            extras: None,
        })
    }
}

pub open spec fn pipfile_section(acc: Seq<DependencyView>, es: Seq<(Seq<char>, NodeV)>, t: DepTypeView) -> Seq<DependencyView>
    decreases es.len(),
{
    if es.len() == 0 {
        acc
    } else {
        let a = pipfile_section(acc, es.drop_last(), t);
        match es.last().1 {
            NodeV::Str(spec) => match pipfile_dependency(es.last().0, spec, t) {
                Some(d) => a.push(d),
                None => a,
            },
            _ => a,
        }
    }
}

pub open spec fn section_entries(doc: NodeV, key: Seq<char>) -> Seq<(Seq<char>, NodeV)> {
    match get(doc, key) {
        Some(n) => match table_like(n) {
            Some(es) => es,
            None => seq![],
        },
        None => seq![],
    }
}

/// The dependencies of a `Pipfile`: `[packages]`, then `[dev-packages]`.
pub open spec fn pipfile_dependencies(doc: NodeV) -> Seq<DependencyView> {
    let main = pipfile_section(seq![], section_entries(doc, "packages"@), DepTypeView::Main);
    pipfile_section(main, section_entries(doc, "dev-packages"@), DepTypeView::Dev)
}

/// The environment markers of a locked dependency: `markers`, else the
/// `platform_python_implementation`, else the `sys_platform` it names.
pub open spec fn lock_markers(es: Seq<(Seq<char>, NodeV)>) -> Option<Seq<char>> {
    match lookup(es, "markers"@) {
        Some(m) => as_str(Some(m)),
        None => match lookup(es, "platform_python_implementation"@) {
            Some(v) => match as_str(Some(v)) {
                Some(s) => Some("platform_python_implementation == '"@ + s + "'"@),
                None => None,
            },
            None => match lookup(es, "sys_platform"@) {
                Some(v) => match as_str(Some(v)) {
                    Some(s) => Some("sys_platform == '"@ + s + "'"@),
                    None => None,
                },
                None => None,
            },
        },
    }
}

/// A dependency of `Pipfile.lock`: an object with an optional `version`
/// string (its leading `=` dropped) and markers.
pub open spec fn lock_dependency(name: Seq<char>, value: NodeV, t: DepTypeView) -> Result<Option<DependencyView>, ErrorView> {
    if name == "python_version"@ || name == "python_full_version"@ {
        Ok(None)
    } else {
        match table_like(value) {
            None => Err(ErrorView::DependencyParsing(
                "Invalid dependency format for '"@ + name + "': expected object"@,
            )),
            Some(es) => match lookup(es, "version"@) {
                Some(v) if as_str(Some(v)) is None => Err(ErrorView::DependencyParsing(
                    "Invalid version format for '"@ + name + "': expected string"@,
                )),
                vo => Ok(Some(DependencyView {
                    name,
                    version: match vo {
                        Some(v) => Some(strip_prefix_all(as_str(Some(v))->0, "="@)),
                        None => None,
                    },
                    dep_type: t,
                    environment_markers: lock_markers(es),
                    extras: None,
                })),
            },
        }
    }
}

pub open spec fn lock_section(acc: Result<Seq<DependencyView>, ErrorView>, es: Seq<(Seq<char>, NodeV)>, t: DepTypeView) -> Result<Seq<DependencyView>, ErrorView>
    decreases es.len(),
{
    if es.len() == 0 {
        acc
    } else {
        match lock_section(acc, es.drop_last(), t) {
            Err(e) => Err(e),
            Ok(a) => match lock_dependency(es.last().0, es.last().1, t) {
                Err(e) => Err(e),
                Ok(Some(d)) => Ok(a.push(d)),
                Ok(None) => Ok(a),
            },
        }
    }
}

/// The dependencies of `Pipfile.lock`: `default`, then `develop`; the first
/// malformed entry is an error.
pub open spec fn lock_dependencies(doc: NodeV) -> Result<Seq<DependencyView>, ErrorView> {
    let main = lock_section(Ok(seq![]), section_entries(doc, "default"@), DepTypeView::Main);
    lock_section(main, section_entries(doc, "develop"@), DepTypeView::Dev)
}

/// The dependencies of a Pipenv project: those of the `Pipfile`, or, where it
/// lists none, those of `Pipfile.lock` (which may be an error of reading it).
pub open spec fn pipenv_dependencies(pipfile: NodeV, lock: Result<NodeV, ErrorView>) -> Result<Seq<DependencyView>, ErrorView> {
    let p = pipfile_dependencies(pipfile);
    if p.len() > 0 {
        Ok(p)
    } else {
        match lock {
            Ok(l) => lock_dependencies(l),
            Err(e) => Err(e),
        }
    }
}

pub open spec fn lock_view(lock: Result<Node, Error>) -> Result<NodeV, ErrorView> {
    match lock {
        Ok(n) => Ok(n@),
        Err(e) => Err(e@),
    }
}

fn section_of<'a>(doc: &'a Node, key: &str, empty: &'a Vec<(String, Node)>) -> (r: &'a Vec<(String, Node)>)
    requires
        empty@.len() == 0,
    ensures
        entries_view(r@) == section_entries(doc@, key@),
{
    proof { assert(entries_view(empty@) =~= seq![]); }
    match doc.get(key) {
        Some(n) => match n.table_like_entries() {
            Some(es) => es,
            None => empty,
        },
        None => empty,
    }
}

fn quoted_marker(prefix: &str, value: &String) -> (r: String)
    ensures
        r@ == prefix@ + value@ + "'"@,
{
    let mut m = String::new();
    push_str(&mut m, prefix);
    push_str(&mut m, value.as_str());
    push_str(&mut m, "'");
    m
}

fn named_error(before: &str, name: &str, after: &str) -> (r: String)
    ensures
        r@ == before@ + name@ + after@,
{
    let mut m = String::new();
    push_str(&mut m, before);
    push_str(&mut m, name);
    push_str(&mut m, after);
    m
}

impl PipenvMigrationSource {
    /// Whether a project uses Pipenv: both `Pipfile` and `Pipfile.lock` exist.
    pub fn detect_project_type(has_pipfile: bool, has_pipfile_lock: bool) -> (r: bool)
        ensures
            r == (has_pipfile && has_pipfile_lock),
    {
        has_pipfile && has_pipfile_lock
    }

    /// Parses a single dependency of the `Pipfile`.
    pub fn parse_pipfile_dependency(&self, name: &str, spec: &str, dep_type: DependencyType) -> (r: Option<Dependency>)
        ensures
            match pipfile_dependency(name@, spec@, dep_type@) {
                Some(d) => r matches Some(x) && x@ == d,
                None => r is None,
            },
    {
        if str_eq(name, "python_version") {
            return None;
        }
        let c = chars_of(spec);
        let version = if c.len() > 0 && c[0] == '*' { None } else { Some(spec.to_string()) };
        Some(Dependency { name: name.to_string(), version, dep_type, environment_markers: None, extras: None })
    }

    fn add_pipfile_section(&self, out: &mut Vec<Dependency>, es: &Vec<(String, Node)>, t: &DependencyType)
        ensures
            deps_view(final(out)@) == pipfile_section(deps_view(old(out)@), entries_view(es@), t@),
    {
        let ghost ev = entries_view(es@);
        let ghost d0 = deps_view(out@);
        proof { lemma_entries_view(es@); }
        let mut i: usize = 0;
        while i < es.len()
            invariant
                i <= es@.len(),
                ev == entries_view(es@),
                ev.len() == es@.len(),
                forall|j: int| 0 <= j < es@.len() ==> #[trigger] ev[j] == (es@[j].0@, es@[j].1@),
                deps_view(out@) == pipfile_section(d0, ev.take(i as int), t@),
            decreases es.len() - i,
        {
            proof {
                assert(ev.take(i + 1).drop_last() =~= ev.take(i as int));
                assert(ev.take(i + 1).last() == ev[i as int]);
            }
            match &es[i].1 {
                Node::Str(spec) => {
                    match self.parse_pipfile_dependency(es[i].0.as_str(), spec.as_str(), t.duplicate()) {
                        Some(d) => {
                            let ghost before = out@;
                            out.push(d);
                            assert(deps_view(out@) =~= deps_view(before).push(out@.last()@));
                        },
                        None => {},
                    }
                },
                _ => {},
            }
            i = i + 1;
        }
        assert(ev.take(es@.len() as int) =~= ev);
    }

    /// Reads the dependencies of a `Pipfile`.
    pub fn read_pipfile(&self, pipfile: &Node) -> (r: Vec<Dependency>)
        ensures
            deps_view(r@) == pipfile_dependencies(pipfile@),
    {
        let empty: Vec<(String, Node)> = Vec::new();
        let mut out: Vec<Dependency> = Vec::new();
        assert(deps_view(out@) =~= seq![]);
        self.add_pipfile_section(&mut out, section_of(pipfile, "packages", &empty), &DependencyType::Main);
        self.add_pipfile_section(&mut out, section_of(pipfile, "dev-packages", &empty), &DependencyType::Dev);
        out
    }

    /// Reads one dependency of `Pipfile.lock`.
    pub fn parse_dependency(&self, name: &str, value: &Node, dep_type: DependencyType) -> (r: Result<Option<Dependency>, Error>)
        ensures
            match lock_dependency(name@, value@, dep_type@) {
                Ok(Some(d)) => r matches Ok(Some(x)) && x@ == d,
                Ok(None) => r matches Ok(None),
                Err(e) => r matches Err(x) && x@ == e,
            },
    {
        if str_eq(name, "python_version") || str_eq(name, "python_full_version") {
            return Ok(None);
        }
        let es = match value.table_like_entries() {
            Some(es) => es,
            None => {
                return Err(Error::DependencyParsing(named_error("Invalid dependency format for '", name, "': expected object")));
            },
        };
        proof {
            lemma_entries_view(es@);
            crate::utils::toml::lemma_key_index_lookup(entries_view(es@), "version"@);
            crate::utils::toml::lemma_key_index_lookup(entries_view(es@), "markers"@);
            crate::utils::toml::lemma_key_index_lookup(entries_view(es@), "platform_python_implementation"@);
            crate::utils::toml::lemma_key_index_lookup(entries_view(es@), "sys_platform"@);
        }
        let version = match crate::utils::toml::find_key(es, "version") {
            Some(j) => match &es[j].1 {
                Node::Str(v) => {
                    let c = chars_of(v.as_str());
                    Some(string_of(strip_prefix_all_lit(c.as_slice(), "=")))
                },
                _ => {
                    return Err(Error::DependencyParsing(named_error("Invalid version format for '", name, "': expected string")));
                },
            },
            None => None,
        };
        let markers = match crate::utils::toml::find_key(es, "markers") {
            Some(j) => match &es[j].1 {
                Node::Str(m) => Some(m.clone()),
                _ => None,
            },
            None => match crate::utils::toml::find_key(es, "platform_python_implementation") {
                Some(j) => match &es[j].1 {
                    Node::Str(v) => Some(quoted_marker("platform_python_implementation == '", v)),
                    _ => None,
                },
                None => match crate::utils::toml::find_key(es, "sys_platform") {
                    Some(j) => match &es[j].1 {
                        Node::Str(v) => Some(quoted_marker("sys_platform == '", v)),
                        _ => None,
                    },
                    None => None,
                },
            },
        };
        Ok(Some(Dependency { name: name.to_string(), version, dep_type, environment_markers: markers, extras: None }))
    }

    fn add_lock_section(&self, out: &mut Vec<Dependency>, es: &Vec<(String, Node)>, t: &DependencyType) -> (r: Result<(), Error>)
        ensures
            match lock_section(Ok(deps_view(old(out)@)), entries_view(es@), t@) {
                Ok(v) => r is Ok && deps_view(final(out)@) == v,
                Err(e) => r matches Err(x) && x@ == e,
            },
    {
        let ghost ev = entries_view(es@);
        let ghost d0 = deps_view(out@);
        proof { lemma_entries_view(es@); }
        let mut i: usize = 0;
        while i < es.len()
            invariant
                i <= es@.len(),
                ev == entries_view(es@),
                ev.len() == es@.len(),
                forall|j: int| 0 <= j < es@.len() ==> #[trigger] ev[j] == (es@[j].0@, es@[j].1@),
                lock_section(Ok(d0), ev.take(i as int), t@) == Ok::<Seq<DependencyView>, ErrorView>(deps_view(out@)),
                d0 == deps_view(old(out)@),
            decreases es.len() - i,
        {
            proof {
                assert(ev.take(i + 1).drop_last() =~= ev.take(i as int));
                assert(ev.take(i + 1).last() == ev[i as int]);
            }
            match self.parse_dependency(es[i].0.as_str(), &es[i].1, t.duplicate()) {
                Err(e) => {
                    proof { lemma_lock_section_err(d0, ev, t@, i as int, e@); }
                    return Err(e);
                },
                Ok(Some(d)) => {
                    let ghost before = out@;
                    out.push(d);
                    assert(deps_view(out@) =~= deps_view(before).push(out@.last()@));
                },
                Ok(None) => {},
            }
            i = i + 1;
        }
        assert(ev.take(es@.len() as int) =~= ev);
        Ok(())
    }

    /// Reads the dependencies of `Pipfile.lock`.
    pub fn extract_dependencies_from_lock_file(&self, lock: &Node) -> (r: Result<Vec<Dependency>, Error>)
        ensures
            match lock_dependencies(lock@) {
                Ok(v) => r matches Ok(x) && deps_view(x@) == v,
                Err(e) => r matches Err(x) && x@ == e,
            },
    {
        let empty: Vec<(String, Node)> = Vec::new();
        let mut out: Vec<Dependency> = Vec::new();
        assert(deps_view(out@) =~= seq![]);
        let ghost d_default = lock_section(Ok(seq![]), section_entries(lock@, "default"@), DepTypeView::Main);
        match self.add_lock_section(&mut out, section_of(lock, "default", &empty), &DependencyType::Main) {
            Err(e) => {
                proof { lemma_lock_section_from_err(d_default, section_entries(lock@, "develop"@), DepTypeView::Dev); }
                return Err(e);
            },
            Ok(()) => {},
        }
        match self.add_lock_section(&mut out, section_of(lock, "develop", &empty), &DependencyType::Dev) {
            Err(e) => Err(e),
            Ok(()) => Ok(out),
        }
    }

    /// The dependencies of a Pipenv project: those of the `Pipfile`, or
    /// those of `Pipfile.lock` (as read, or the error of reading it) where the
    /// `Pipfile` lists none.
    pub fn extract_dependencies(&self, pipfile: &Node, lock: &Result<Node, Error>) -> (r: Result<Vec<Dependency>, Error>)
        ensures
            match pipenv_dependencies(pipfile@, lock_view(*lock)) {
                Ok(v) => r matches Ok(x) && deps_view(x@) == v,
                Err(e) => r matches Err(x) && x@ == e,
            },
    {
        let deps = self.read_pipfile(pipfile);
        if deps.len() > 0 {
            return Ok(deps);
        }
        match lock {
            Ok(l) => self.extract_dependencies_from_lock_file(l),
            Err(e) => Err(e.copy()),
        }
    }
}

pub proof fn lemma_lock_section_from_err(prev: Result<Seq<DependencyView>, ErrorView>, es: Seq<(Seq<char>, NodeV)>, t: DepTypeView)
    requires
        prev is Err,
    ensures
        lock_section(prev, es, t) == prev,
    decreases es.len(),
{
    if es.len() > 0 {
        lemma_lock_section_from_err(prev, es.drop_last(), t);
    }
}

pub proof fn lemma_lock_section_err(d0: Seq<DependencyView>, ev: Seq<(Seq<char>, NodeV)>, t: DepTypeView, i: int, e: ErrorView)
    requires
        0 <= i < ev.len(),
        lock_section(Ok(d0), ev.take(i), t) is Ok,
        lock_dependency(ev[i].0, ev[i].1, t) == Err::<Option<DependencyView>, ErrorView>(e),
    ensures
        lock_section(Ok(d0), ev, t) == Err::<Seq<DependencyView>, ErrorView>(e),
    decreases ev.len() - i,
{
    if i == ev.len() - 1 {
        assert(ev.take(i + 1) =~= ev);
        assert(ev.take(i + 1).drop_last() =~= ev.take(i));
    } else {
        assert(ev.drop_last().take(i) =~= ev.take(i));
        assert(ev.drop_last()[i] == ev[i]);
        lemma_lock_section_err(d0, ev.drop_last(), t, i, e);
    }
}

impl PipenvMigrationSource {
    /// Reads the `Pipfile` from its text.
    pub fn parse_pipfile(content: &str) -> (r: Result<Node, Error>)
        ensures
            match toml_value_document(content@) {
                Ok(d) => r matches Ok(n) && n@ == d,
                Err(m) => r matches Err(e) && e@ == ErrorView::DependencyParsing("Error parsing Pipfile: "@ + m),
            },
    {
        match parse_toml_value_text(content) {
            Ok(n) => Ok(n),
            Err(m) => Err(Error::DependencyParsing(prefixed("Error parsing Pipfile: ", m.as_str()))),
        }
    }

    /// Reads `Pipfile.lock` at `path` from its text, `None` where the file
    /// does not exist.
    pub fn parse_pipfile_lock(path: &str, content: Option<&str>) -> (r: Result<Node, Error>)
        ensures
            match content {
                None => r matches Err(e) && e@ == (ErrorView::FileOperation {
                    path: path@,
                    message: "Pipfile.lock does not exist"@,
                }),
                Some(c) => match json_document(c@) {
                    Ok(d) => r matches Ok(n) && n@ == d,
                    Err(m) => r matches Err(e) && e@ == ErrorView::DependencyParsing(
                        "Error parsing Pipfile.lock: "@ + m,
                    ),
                },
            },
    {
        match content {
            None => Err(Error::FileOperation {
                path: string_of(chars_of(path).as_slice()),
                message: string_of(chars_of("Pipfile.lock does not exist").as_slice()),
            }),
            Some(c) => match parse_json(c) {
                Ok(n) => Ok(n),
                Err(m) => Err(Error::DependencyParsing(prefixed("Error parsing Pipfile.lock: ", m.as_str()))),
            },
        }
    }
}

} // verus!
