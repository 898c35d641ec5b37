//! Edits of `pyproject.toml`: metadata, package indexes, scripts, sources.
use vstd::prelude::*;
use crate::models::GitDependency;
use crate::utils::author::{Author, authors_view};
use crate::text::{
    chars_of, decimal, find_char, find_char_chars, lemma_find_char, push_str, str_eq, string_of,
    trim, trim_chars, u64_to_string, opt_view,
};
use crate::utils::toml::{
    as_array, as_str, clean, cleanup_empty_sections, entries_view, get, get_path, get_path_node,
    is_empty, is_empty_section, lemma_entries_view, lemma_entries_view_push, lemma_nodes_view,
    lemma_nodes_view_push, lemma_settable_sibling, lookup, nodes_view, path_view, set_path,
    settable, str_at, str_node, table_entries, update_section, Node, NodeV, opt_str_view,
};

verus! {

/// A character that an index name may hold: an ASCII letter or digit, `-` or
/// `_`.
pub open spec fn index_name_char(c: char) -> bool {
    ('a' <= c && c <= 'z') || ('A' <= c && c <= 'Z') || ('0' <= c && c <= '9') || c == '-' || c == '_'
}

/// A valid index name: non-empty, made of letters, digits, `-` and `_` only.
pub open spec fn valid_index_name(name: Seq<char>) -> bool {
    name.len() > 0 && forall|i: int| 0 <= i < name.len() ==> index_name_char(#[trigger] name[i])
}

/// An index given as `[name@]url`: the name before the first `@` and the URL
/// after it when the name is valid and the URL non-empty, otherwise
/// `extra-<n>` and the whole text.
pub open spec fn index_spec(spec: Seq<char>, index: nat) -> (Seq<char>, Seq<char>) {
    match find_char(spec, '@') {
        Some(at) => {
            let name = trim(spec.take(at));
            let url = trim(spec.skip(at + 1));
            if at > 0 && valid_index_name(name) && url.len() > 0 {
                (name, url)
            } else {
                ("extra-"@ + decimal(index), spec)
            }
        },
        None => ("extra-"@ + decimal(index), spec),
    }
}

/// Whether a text is a valid index name.
fn is_valid_index_name(name: &[char]) -> (r: bool)
    ensures
        r == valid_index_name(name@),
{
    if name.len() == 0 {
        return false;
    }
    let mut i: usize = 0;
    while i < name.len()
        invariant
            i <= name@.len(),
            forall|j: int| 0 <= j < i ==> index_name_char(#[trigger] name@[j]),
        decreases name.len() - i,
    {
        let c = name[i];
        if !(('a' <= c && c <= 'z') || ('A' <= c && c <= 'Z') || ('0' <= c && c <= '9') || c == '-' || c == '_') {
            return false;
        }
        i = i + 1;
    }
    true
}

/// Parses an index specification in the format [name@]url
/// Returns (name, url) where name is either the specified name or "extra-{index}"
pub fn parse_index_spec(spec: &str, index: usize) -> (r: (String, String))
    ensures
        (r.0@, r.1@) == index_spec(spec@, index as nat),
{
    let s = chars_of(spec);
    match find_char_chars(s.as_slice(), '@') {
        Some(at) => {
            proof { lemma_find_char(s@, '@'); }
            if at > 0 {
                let n = s.len();
                let name = trim_chars(&s[0..at]);
                let url = trim_chars(&s[at + 1..n]);
                assert(s@.subrange(0, at as int) =~= s@.take(at as int));
                assert(s@.subrange(at + 1, n as int) =~= s@.skip(at + 1));
                if is_valid_index_name(name) && url.len() > 0 {
                    return (string_of(name), string_of(url));
                }
            }
        },
        None => {},
    }
    let mut name = String::new();
    push_str(&mut name, "extra-");
    push_str(&mut name, u64_to_string(index as u64).as_str());
    (name, string_of(s.as_slice()))
}


// ----------------------------------------------------------------------
// Paths
// ----------------------------------------------------------------------

/// A path of two keys.
pub fn path2<'a>(a: &'a str, b: &'a str) -> (r: Vec<&'a str>)
    ensures
        path_view(r@) == seq![a@, b@],
{
    let mut v: Vec<&'a str> = Vec::new();
    v.push(a);
    v.push(b);
    assert(path_view(v@) =~= seq![a@, b@]);
    v
}

/// A path of three keys.
pub fn path3<'a>(a: &'a str, b: &'a str, c: &'a str) -> (r: Vec<&'a str>)
    ensures
        path_view(r@) == seq![a@, b@, c@],
{
    let mut v: Vec<&'a str> = Vec::new();
    v.push(a);
    v.push(b);
    v.push(c);
    assert(path_view(v@) =~= seq![a@, b@, c@]);
    v
}

/// A path of four keys.
pub fn path4<'a>(a: &'a str, b: &'a str, c: &'a str, d: &'a str) -> (r: Vec<&'a str>)
    ensures
        path_view(r@) == seq![a@, b@, c@, d@],
{
    let mut v: Vec<&'a str> = Vec::new();
    v.push(a);
    v.push(b);
    v.push(c);
    v.push(d);
    assert(path_view(v@) =~= seq![a@, b@, c@, d@]);
    v
}

pub open spec fn project_path(field: Seq<char>) -> Seq<Seq<char>> {
    seq!["project"@, field]
}

// ----------------------------------------------------------------------
// Project metadata
// ----------------------------------------------------------------------

/// `doc` with `[project].<field>` set to a string, when there is one.
pub open spec fn with_project_str(doc: NodeV, field: Seq<char>, value: Option<Seq<char>>) -> NodeV {
    match value {
        Some(v) => set_path(doc, project_path(field), NodeV::Str(v)),
        None => doc,
    }
}

pub open spec fn poetry_version(old: NodeV) -> Option<Seq<char>> {
    as_str(get_path(old, seq!["tool"@, "poetry"@, "version"@]))
}

pub open spec fn poetry_description(old: NodeV) -> Option<Seq<char>> {
    as_str(get_path(old, seq!["tool"@, "poetry"@, "description"@]))
}

pub open spec fn project_version(old: NodeV) -> Option<Seq<char>> {
    as_str(get_path(old, seq!["project"@, "version"@]))
}

pub open spec fn project_description(old: NodeV) -> Option<Seq<char>> {
    as_str(get_path(old, seq!["project"@, "description"@]))
}

/// Whether the old document has a version or a description to carry over.
pub open spec fn has_metadata(old: NodeV) -> bool {
    poetry_version(old) is Some || poetry_description(old) is Some
        || project_version(old) is Some || project_description(old) is Some
}

/// The new document with the version and description of the old one: those of
/// `[tool.poetry]` first, then those of `[project]`, which win.
pub open spec fn transferred_metadata(doc: NodeV, old: NodeV) -> NodeV {
    let d1 = with_project_str(doc, "version"@, poetry_version(old));
    let d2 = with_project_str(d1, "description"@, poetry_description(old));
    let d3 = with_project_str(d2, "version"@, project_version(old));
    let d4 = with_project_str(d3, "description"@, project_description(old));
    clean(d4)
}

fn set_project_str(doc: &mut Node, field: &str, value: Option<String>)
    requires
        value is Some ==> settable(old(doc)@, project_path(field@)),
    ensures
        final(doc)@ == with_project_str(old(doc)@, field@, opt_str_view(value)),
        forall|f: Seq<char>| settable(old(doc)@, project_path(f)) ==> settable(final(doc)@, #[trigger] project_path(f)),
{
    match value {
        Some(v) => {
            let ghost d0 = doc@;
            let ghost c = NodeV::Str(v@);
            let p = path2("project", field);
            update_section(doc, p.as_slice(), Node::Str(v));
            proof {
                assert forall|f: Seq<char>| settable(d0, project_path(f)) implies settable(doc@, #[trigger] project_path(f)) by {
                    assert(project_path(f).take(1) =~= project_path(field@).take(1));
                    lemma_settable_sibling(d0, project_path(field@), project_path(f), c);
                }
            }
        },
        None => {},
    }
}

/// Updates the new `pyproject.toml` with the version and description of the
/// old one, then drops the sections that hold nothing.
pub fn update_pyproject_toml(doc: &mut Node, old_doc: &Node)
    requires
        has_metadata(old_doc@) ==> settable(old(doc)@, project_path("version"@)),
    ensures
        final(doc)@ == transferred_metadata(old(doc)@, old_doc@),
{
    let v1 = str_at(old_doc, path3("tool", "poetry", "version").as_slice());
    let v2 = str_at(old_doc, path3("tool", "poetry", "description").as_slice());
    let v3 = str_at(old_doc, path2("project", "version").as_slice());
    let v4 = str_at(old_doc, path2("project", "description").as_slice());
    proof {
        if has_metadata(old_doc@) {
            assert(project_path("description"@).take(1) =~= project_path("version"@).take(1));
            lemma_settable_sibling(doc@, project_path("version"@), project_path("description"@), NodeV::Str(seq![]));
        }
    }
    set_project_str(doc, "version", v1);
    set_project_str(doc, "description", v2);
    set_project_str(doc, "version", v3);
    set_project_str(doc, "description", v4);
    cleanup_empty_sections(doc);
}

/// Sets `[project].version`, then drops the sections that hold nothing.
pub fn update_project_version(doc: &mut Node, version: &str)
    requires
        settable(old(doc)@, project_path("version"@)),
    ensures
        final(doc)@ == clean(set_path(old(doc)@, project_path("version"@), NodeV::Str(version@))),
{
    let p = path2("project", "version");
    update_section(doc, p.as_slice(), str_node(version));
    cleanup_empty_sections(doc);
}

/// Sets `[project].description`, then drops the sections that hold nothing.
pub fn update_description(doc: &mut Node, description: &str)
    requires
        settable(old(doc)@, project_path("description"@)),
    ensures
        final(doc)@ == clean(set_path(old(doc)@, project_path("description"@), NodeV::Str(description@))),
{
    let p = path2("project", "description");
    update_section(doc, p.as_slice(), str_node(description));
    cleanup_empty_sections(doc);
}

/// Sets `[project].urls` to `{ repository = <url> }`, then drops the sections
/// that hold nothing.
pub fn update_url(doc: &mut Node, url: &str)
    requires
        settable(old(doc)@, project_path("urls"@)),
    ensures
        final(doc)@ == clean(set_path(old(doc)@, project_path("urls"@),
            NodeV::InlineTable(seq![("repository"@, NodeV::Str(url@))]))),
{
    let mut es: Vec<(String, Node)> = Vec::new();
    es.push(("repository".to_string(), str_node(url)));
    proof {
        lemma_entries_view(es@);
        assert(entries_view(es@) =~= seq![("repository"@, NodeV::Str(url@))]);
    }
    let p = path2("project", "urls");
    update_section(doc, p.as_slice(), Node::InlineTable(es));
    cleanup_empty_sections(doc);
}

/// The name in `[project]`.
pub fn extract_project_name(doc: &Node) -> (r: Option<String>)
    ensures
        opt_str_view(r) == as_str(get_path(doc@, project_path("name"@))),
{
    str_at(doc, path2("project", "name").as_slice())
}


// ----------------------------------------------------------------------
// Package indexes
// ----------------------------------------------------------------------

pub open spec fn index_path() -> Seq<Seq<char>> {
    seq!["tool"@, "uv"@, "index"@]
}

/// The package sources of `[tool.poetry]`: an array of tables or an array.
pub open spec fn poetry_sources(old: NodeV) -> Seq<NodeV> {
    match get_path(old, seq!["tool"@, "poetry"@, "source"@]) {
        Some(NodeV::Array(v)) => v,
        Some(NodeV::ArrayOfTables(v)) => v,
        _ => seq![],
    }
}

/// The package sources of the old `pyproject.toml`.
pub fn extract_poetry_sources(old_doc: &Node) -> (r: Vec<Node>)
    ensures
        nodes_view(r@) == poetry_sources(old_doc@),
{
    match get_path_node(old_doc, path3("tool", "poetry", "source").as_slice()) {
        Some(Node::Array(v)) => crate::utils::toml::copy_nodes(v),
        Some(Node::ArrayOfTables(v)) => crate::utils::toml::copy_nodes(v),
        _ => {
            let r: Vec<Node> = Vec::new();
            assert(nodes_view(r@) =~= seq![]);
            r
        },
    }
}

/// The index entry made of a source with a URL: `{ name = .., url = .. }`,
/// without a name where the source has none.
pub open spec fn source_index(src: NodeV) -> Option<NodeV> {
    match as_str(get(src, "url"@)) {
        Some(url) => Some(NodeV::InlineTable(match as_str(get(src, "name"@)) {
            Some(name) => seq![("name"@, NodeV::Str(name)), ("url"@, NodeV::Str(url))],
            None => seq![("url"@, NodeV::Str(url))],
        })),
        None => None,
    }
}

pub open spec fn source_indices(srcs: Seq<NodeV>) -> Seq<NodeV>
    decreases srcs.len(),
{
    if srcs.len() == 0 {
        seq![]
    } else {
        let rest = source_indices(srcs.drop_last());
        match source_index(srcs.last()) {
            Some(i) => rest.push(i),
            None => rest,
        }
    }
}

/// The document after the sources become `[tool.uv].index`; unchanged
/// where no source has a URL.
pub open spec fn with_source_indices(doc: NodeV, srcs: Seq<NodeV>) -> NodeV {
    let ix = source_indices(srcs);
    if ix.len() == 0 {
        doc
    } else {
        clean(set_path(doc, index_path(), NodeV::Array(ix)))
    }
}

fn source_index_node(src: &Node) -> (r: Option<Node>)
    ensures
        match r {
            Some(n) => source_index(src@) == Some(n@),
            None => source_index(src@) is None,
        },
{
    match src.get("url") {
        Some(Node::Str(url)) => {
            let mut es: Vec<(String, Node)> = Vec::new();
            match src.get("name") {
                Some(Node::Str(name)) => {
                    es.push(("name".to_string(), Node::Str(name.clone())));
                },
                _ => {},
            }
            es.push(("url".to_string(), Node::Str(url.clone())));
            proof {
                lemma_entries_view(es@);
                match as_str(get(src@, "name"@)) {
                    Some(name) => {
                        assert(entries_view(es@) =~= seq![("name"@, NodeV::Str(name)), ("url"@, NodeV::Str(url@))]);
                    },
                    None => {
                        assert(entries_view(es@) =~= seq![("url"@, NodeV::Str(url@))]);
                    },
                }
            }
            Some(Node::InlineTable(es))
        },
        _ => None,
    }
}

/// Updates UV indices from the package sources of a Poetry project, then drops
/// the sections that hold nothing; the document stays as it was when no
/// source has a URL.
pub fn update_uv_indices(doc: &mut Node, sources: &Vec<Node>)
    requires
        source_indices(nodes_view(sources@)).len() > 0 ==> settable(old(doc)@, index_path()),
    ensures
        final(doc)@ == with_source_indices(old(doc)@, nodes_view(sources@)),
{
    let ghost sv = nodes_view(sources@);
    proof { lemma_nodes_view(sources@); }
    let mut indices: Vec<Node> = Vec::new();
    let mut i: usize = 0;
    while i < sources.len()
        invariant
            i <= sources@.len(),
            sv == nodes_view(sources@),
            sv.len() == sources@.len(),
            forall|j: int| 0 <= j < sources@.len() ==> #[trigger] sv[j] == node_view_of(sources@[j]),
            nodes_view(indices@) == source_indices(sv.take(i as int)),
        decreases sources.len() - i,
    {
        proof {
            assert(sv.take(i + 1).drop_last() =~= sv.take(i as int));
            assert(sv.take(i + 1).last() == sv[i as int]);
        }
        match source_index_node(&sources[i]) {
            Some(n) => {
                let ghost before = indices@;
                indices.push(n);
                proof { lemma_nodes_view_push(before, indices@.last()); }
            },
            None => {},
        }
        i = i + 1;
    }
    assert(sv.take(sources@.len() as int) =~= sv);
    if indices.len() > 0 {
        let p = path3("tool", "uv", "index");
        update_section(doc, p.as_slice(), Node::Array(indices));
        cleanup_empty_sections(doc);
    }
}

pub open spec fn node_view_of(n: Node) -> NodeV {
    n@
}

/// The index entries of `[name@]url` specifications, named by their
/// position (from 1) where they give no name.
pub open spec fn url_indices(urls: Seq<Seq<char>>) -> Seq<NodeV>
    decreases urls.len(),
{
    if urls.len() == 0 {
        seq![]
    } else {
        let (name, url) = index_spec(urls.last(), urls.len());
        url_indices(urls.drop_last()).push(
            NodeV::InlineTable(seq![("name"@, NodeV::Str(name)), ("url"@, NodeV::Str(url))]),
        )
    }
}

/// The document after extra index URLs become `[tool.uv].index`; unchanged
/// where there are none.
pub open spec fn with_url_indices(doc: NodeV, urls: Seq<Seq<char>>) -> NodeV {
    if urls.len() == 0 {
        doc
    } else {
        clean(set_path(doc, index_path(), NodeV::Array(url_indices(urls))))
    }
}

/// Updates UV indices from URLs given as `[name@]url`, then drops the sections
/// that hold nothing; the document stays as it was when there are no URLs.
pub fn update_uv_indices_from_urls(doc: &mut Node, urls: &Vec<String>)
    requires
        urls@.len() > 0 ==> settable(old(doc)@, index_path()),
    ensures
        final(doc)@ == with_url_indices(old(doc)@, crate::text::strs_view(urls@)),
{
    let ghost uv = crate::text::strs_view(urls@);
    if urls.len() == 0 {
        return;
    }
    let mut indices: Vec<Node> = Vec::new();
    let mut i: usize = 0;
    while i < urls.len()
        invariant
            i <= urls@.len(),
            uv == crate::text::strs_view(urls@),
            uv.len() == urls@.len(),
            nodes_view(indices@) == url_indices(uv.take(i as int)),
        decreases urls.len() - i,
    {
        let (name, url) = parse_index_spec(urls[i].as_str(), i + 1);
        let ghost nv = name@;
        let ghost lv = url@;
        let mut es: Vec<(String, Node)> = Vec::new();
        es.push(("name".to_string(), Node::Str(name)));
        es.push(("url".to_string(), Node::Str(url)));
        proof {
            lemma_entries_view(es@);
            assert(uv.take(i + 1).drop_last() =~= uv.take(i as int));
            assert(uv.take(i + 1).last() == urls@[i as int]@);
            assert(entries_view(es@) =~= seq![("name"@, NodeV::Str(nv)), ("url"@, NodeV::Str(lv))]);
        }
        let ghost before = indices@;
        indices.push(Node::InlineTable(es));
        proof { lemma_nodes_view_push(before, indices@.last()); }
        i = i + 1;
    }
    assert(uv.take(urls@.len() as int) =~= uv);
    let p = path3("tool", "uv", "index");
    update_section(doc, p.as_slice(), Node::Array(indices));
    cleanup_empty_sections(doc);
}


// ----------------------------------------------------------------------
// Tool sections
// ----------------------------------------------------------------------

/// The sections of the old `[tool]` table (`[tool]` given as a table).
pub open spec fn old_tool_sections(old: NodeV) -> Seq<(Seq<char>, NodeV)> {
    match get(old, "tool"@) {
        Some(t) => match table_entries(t) {
            Some(es) => es,
            None => seq![],
        },
        None => seq![],
    }
}

/// Whether an old tool section moves into the document: it is not Poetry's,
/// holds something, and the document has no section of that name yet.
pub open spec fn moves_over(doc: NodeV, key: Seq<char>, value: NodeV) -> bool {
    &&& key != "poetry"@
    &&& !is_empty(value)
    &&& match get(doc, "tool"@) {
        Some(t) => get(t, key) is None,
        None => true,
    }
}

/// The document with the old tool sections moved over, one after another.
pub open spec fn appended_tools(doc: NodeV, es: Seq<(Seq<char>, NodeV)>) -> NodeV
    decreases es.len(),
{
    if es.len() == 0 {
        doc
    } else {
        let d = appended_tools(doc, es.drop_last());
        let (k, v) = es.last();
        if moves_over(d, k, v) {
            set_path(d, seq!["tool"@, k], v)
        } else {
            d
        }
    }
}

/// Whether some old tool section would move into the document as it is.
pub open spec fn some_tool_moves(doc: NodeV, es: Seq<(Seq<char>, NodeV)>) -> bool {
    exists|j: int| 0 <= j < es.len() && moves_over(doc, #[trigger] es[j].0, es[j].1)
}

pub open spec fn tool_path() -> Seq<Seq<char>> {
    seq!["tool"@, "poetry"@]
}

/// Appends tool sections from the old pyproject.toml to the new one, then drops
/// the sections that hold nothing.
pub fn append_tool_sections(doc: &mut Node, old_doc: &Node)
    requires
        some_tool_moves(old(doc)@, old_tool_sections(old_doc@)) ==> settable(old(doc)@, tool_path()),
    ensures
        final(doc)@ == clean(appended_tools(old(doc)@, old_tool_sections(old_doc@))),
{
    let ghost d0 = doc@;
    let ghost es = old_tool_sections(old_doc@);
    let empty: Vec<(String, Node)> = Vec::new();
    let tool_es: &Vec<(String, Node)> = match old_doc.get("tool") {
        Some(t) => match t.as_table() {
            Some(x) => x,
            None => &empty,
        },
        None => &empty,
    };
    proof {
        lemma_entries_view(tool_es@);
        assert(entries_view(empty@) =~= seq![]);
    }
    assert(entries_view(tool_es@) == es);
    let mut i: usize = 0;
    while i < tool_es.len()
        invariant
            i <= tool_es@.len(),
            es == entries_view(tool_es@),
            es.len() == tool_es@.len(),
            forall|j: int| 0 <= j < tool_es@.len() ==> #[trigger] es[j] == (tool_es@[j].0@, tool_es@[j].1@),
            doc@ == appended_tools(d0, es.take(i as int)),
            some_tool_moves(d0, es) ==> settable(d0, tool_path()),
            settable(doc@, tool_path()) || (doc@ == d0 && forall|j: int| 0 <= j < i ==> !moves_over(d0, #[trigger] es[j].0, es[j].1)),
        decreases tool_es.len() - i,
    {
        let key = &tool_es[i].0;
        let value = &tool_es[i].1;
        proof {
            assert(es.take(i + 1).drop_last() =~= es.take(i as int));
            assert(es.take(i + 1).last() == es[i as int]);
        }
        let is_poetry = str_eq(key.as_str(), "poetry");
        let moves = if is_poetry {
            false
        } else if is_empty_section(value) {
            false
        } else {
            match doc.get("tool") {
                Some(t) => t.get(key.as_str()).is_none(),
                None => true,
            }
        };
        assert(moves == moves_over(doc@, es[i as int].0, es[i as int].1));
        if moves {
            let ghost dd = doc@;
            let ghost tp = seq!["tool"@, key@];
            proof {
                if !settable(dd, tool_path()) {
                    assert(moves_over(d0, es[i as int].0, es[i as int].1));
                    assert(some_tool_moves(d0, es));
                }
                assert(tp.take(1) =~= tool_path().take(1));
                lemma_settable_sibling(dd, tool_path(), tp, value@);
                lemma_settable_sibling(dd, tp, tool_path(), value@);
            }
            let p = path2("tool", key.as_str());
            update_section(doc, p.as_slice(), value.copy());
        }
        i = i + 1;
    }
    assert(es.take(tool_es@.len() as int) =~= es);
    cleanup_empty_sections(doc);
}

/// Whether `append_tool_sections` can run on these documents (it needs
/// `[tool]` to be a table where some section moves over).
pub fn can_append_tool_sections(doc: &Node, old_doc: &Node) -> (r: bool)
    ensures
        r == (some_tool_moves(doc@, old_tool_sections(old_doc@)) ==> settable(doc@, tool_path())),
{
    let ghost es = old_tool_sections(old_doc@);
    let empty: Vec<(String, Node)> = Vec::new();
    let tool_es: &Vec<(String, Node)> = match old_doc.get("tool") {
        Some(t) => match t.as_table() {
            Some(x) => x,
            None => &empty,
        },
        None => &empty,
    };
    proof {
        lemma_entries_view(tool_es@);
        assert(entries_view(empty@) =~= seq![]);
    }
    if crate::utils::toml::is_settable(doc, path2("tool", "poetry").as_slice()) {
        return true;
    }
    let mut i: usize = 0;
    while i < tool_es.len()
        invariant
            i <= tool_es@.len(),
            es == entries_view(tool_es@),
            es.len() == tool_es@.len(),
            forall|j: int| 0 <= j < tool_es@.len() ==> #[trigger] es[j] == (tool_es@[j].0@, tool_es@[j].1@),
            forall|j: int| 0 <= j < i ==> !moves_over(doc@, #[trigger] es[j].0, es[j].1),
            es == old_tool_sections(old_doc@),
            !settable(doc@, tool_path()),
        decreases tool_es.len() - i,
    {
        let key = &tool_es[i].0;
        let value = &tool_es[i].1;
        let moves = if str_eq(key.as_str(), "poetry") {
            false
        } else if is_empty_section(value) {
            false
        } else {
            match doc.get("tool") {
                Some(t) => t.get(key.as_str()).is_none(),
                None => true,
            }
        };
        if moves {
            assert(moves_over(doc@, es[i as int].0, es[i as int].1));
            return false;
        }
        i = i + 1;
    }
    true
}

// ----------------------------------------------------------------------
// Scripts
// ----------------------------------------------------------------------

/// The entries of a table that hold strings, in order.
pub open spec fn string_entries(es: Seq<(Seq<char>, NodeV)>) -> Seq<(Seq<char>, NodeV)>
    decreases es.len(),
{
    if es.len() == 0 {
        seq![]
    } else {
        let rest = string_entries(es.drop_last());
        if es.last().1 is Str {
            rest.push(es.last())
        } else {
            rest
        }
    }
}

/// The string entries of the old `[tool.poetry.scripts]` table.
pub open spec fn poetry_scripts(old: NodeV) -> Seq<(Seq<char>, NodeV)> {
    match get_path(old, seq!["tool"@, "poetry"@, "scripts"@]) {
        Some(n) => match table_entries(n) {
            Some(es) => string_entries(es),
            None => seq![],
        },
        None => seq![],
    }
}

/// Updates the scripts section from Poetry to the standard format: the string
/// entries of `[tool.poetry.scripts]` become `[project].scripts`. Returns
/// whether there was any; the document stays as it was where there was none.
pub fn update_scripts(doc: &mut Node, old_doc: &Node) -> (r: bool)
    requires
        poetry_scripts(old_doc@).len() > 0 ==> settable(old(doc)@, project_path("scripts"@)),
    ensures
        r == (poetry_scripts(old_doc@).len() > 0),
        final(doc)@ == (if r {
            clean(set_path(old(doc)@, project_path("scripts"@), NodeV::InlineTable(poetry_scripts(old_doc@))))
        } else {
            old(doc)@
        }),
{
    let ghost target = poetry_scripts(old_doc@);
    let empty: Vec<(String, Node)> = Vec::new();
    let scripts: &Vec<(String, Node)> = match get_path_node(old_doc, path3("tool", "poetry", "scripts").as_slice()) {
        Some(n) => match n.as_table() {
            Some(x) => x,
            None => &empty,
        },
        None => &empty,
    };
    proof {
        lemma_entries_view(scripts@);
        assert(entries_view(empty@) =~= seq![]);
    }
    let ghost es = entries_view(scripts@);
    assert(target == string_entries(es));
    let mut out: Vec<(String, Node)> = Vec::new();
    let mut i: usize = 0;
    while i < scripts.len()
        invariant
            i <= scripts@.len(),
            es == entries_view(scripts@),
            es.len() == scripts@.len(),
            forall|j: int| 0 <= j < scripts@.len() ==> #[trigger] es[j] == (scripts@[j].0@, scripts@[j].1@),
            entries_view(out@) == string_entries(es.take(i as int)),
        decreases scripts.len() - i,
    {
        proof {
            assert(es.take(i + 1).drop_last() =~= es.take(i as int));
            assert(es.take(i + 1).last() == es[i as int]);
        }
        match &scripts[i].1 {
            Node::Str(s) => {
                let ghost before = out@;
                out.push((scripts[i].0.clone(), Node::Str(s.clone())));
                proof { lemma_entries_view_push(before, out@.last()); }
            },
            _ => {},
        }
        i = i + 1;
    }
    assert(es.take(scripts@.len() as int) =~= es);
    if out.len() == 0 {
        return false;
    }
    let p = path2("project", "scripts");
    update_section(doc, p.as_slice(), Node::InlineTable(out));
    cleanup_empty_sections(doc);
    true
}

// ----------------------------------------------------------------------
// Packages
// ----------------------------------------------------------------------

/// The package names of a `packages` array: the `include` of an inline table
/// or the string itself.
pub open spec fn package_names(v: Seq<NodeV>) -> Seq<Seq<char>>
    decreases v.len(),
{
    if v.len() == 0 {
        seq![]
    } else {
        let rest = package_names(v.drop_last());
        match v.last() {
            NodeV::InlineTable(es) => match as_str(lookup(es, "include"@)) {
                Some(s) => rest.push(s),
                None => rest,
            },
            NodeV::Str(s) => rest.push(s),
            _ => rest,
        }
    }
}

pub open spec fn poetry_packages(doc: NodeV) -> Seq<Seq<char>> {
    match as_array(get_path(doc, seq!["tool"@, "poetry"@, "packages"@])) {
        Some(v) => package_names(v),
        None => seq![],
    }
}

/// Extracts the Poetry packages configuration.
pub fn extract_poetry_packages(doc: &Node) -> (r: Vec<String>)
    ensures
        crate::text::strs_view(r@) == poetry_packages(doc@),
{
    let mut out: Vec<String> = Vec::new();
    match get_path_node(doc, path3("tool", "poetry", "packages").as_slice()) {
        Some(Node::Array(v)) => {
            let ghost vs = nodes_view(v@);
            proof { lemma_nodes_view(v@); }
            let mut i: usize = 0;
            while i < v.len()
                invariant
                    i <= v@.len(),
                    vs == nodes_view(v@),
                    vs.len() == v@.len(),
                    forall|j: int| 0 <= j < v@.len() ==> #[trigger] vs[j] == v@[j]@,
                    crate::text::strs_view(out@) == package_names(vs.take(i as int)),
                decreases v.len() - i,
            {
                proof {
                    assert(vs.take(i + 1).drop_last() =~= vs.take(i as int));
                    assert(vs.take(i + 1).last() == vs[i as int]);
                }
                let ghost before = out@;
                match &v[i] {
                    Node::InlineTable(_) => {
                        match v[i].get("include") {
                            Some(Node::Str(s)) => {
                                out.push(s.clone());
                            },
                            _ => {},
                        }
                    },
                    Node::Str(s) => {
                        out.push(s.clone());
                    },
                    _ => {},
                }
                assert(crate::text::strs_view(out@) =~= package_names(vs.take(i + 1)));
                i = i + 1;
            }
            assert(vs.take(v@.len() as int) =~= vs);
        },
        _ => {},
    }
    assert(crate::text::strs_view(out@) =~= poetry_packages(doc@));
    out
}

pub open spec fn hatch_packages_path() -> Seq<Seq<char>> {
    seq!["tool"@, "hatch"@, "build"@, "targets"@, "wheel"@, "packages"@]
}

pub open spec fn str_nodes(v: Seq<Seq<char>>) -> Seq<NodeV> {
    v.map_values(|s: Seq<char>| NodeV::Str(s))
}

/// Sets `[tool.hatch.build.targets.wheel].packages`, then drops the sections
/// that hold nothing.
pub fn update_hatch_packages(doc: &mut Node, packages: &Vec<String>)
    requires
        settable(old(doc)@, hatch_packages_path()),
    ensures
        final(doc)@ == clean(set_path(old(doc)@, hatch_packages_path(),
            NodeV::Array(str_nodes(crate::text::strs_view(packages@))))),
{
    let mut arr: Vec<Node> = Vec::new();
    let mut i: usize = 0;
    while i < packages.len()
        invariant
            i <= packages@.len(),
            nodes_view(arr@) == str_nodes(crate::text::strs_view(packages@.take(i as int))),
        decreases packages.len() - i,
    {
        let ghost before = arr@;
        arr.push(Node::Str(packages[i].clone()));
        proof {
            lemma_nodes_view_push(before, arr@.last());
            assert(str_nodes(crate::text::strs_view(packages@.take(i + 1))) =~=
                str_nodes(crate::text::strs_view(packages@.take(i as int))).push(NodeV::Str(packages@[i as int]@)));
        }
        i = i + 1;
    }
    assert(packages@.take(packages@.len() as int) =~= packages@);
    let mut p: Vec<&str> = Vec::new();
    p.push("tool");
    p.push("hatch");
    p.push("build");
    p.push("targets");
    p.push("wheel");
    p.push("packages");
    assert(path_view(p@) =~= hatch_packages_path());
    update_section(doc, p.as_slice(), Node::Array(arr));
    cleanup_empty_sections(doc);
}


// ----------------------------------------------------------------------
// Git sources
// ----------------------------------------------------------------------

pub open spec fn opt_entry(key: Seq<char>, o: Option<String>) -> Seq<(Seq<char>, NodeV)> {
    match o {
        Some(s) => seq![(key, NodeV::Str(s@))],
        None => seq![],
    }
}

/// The `[tool.uv.sources.<name>]` table of a Git dependency.
pub open spec fn git_source(d: GitDependency) -> NodeV {
    NodeV::Table {
        implicit: false,
        entries: seq![("git"@, NodeV::Str(d.git_url@))] + opt_entry("branch"@, d.branch)
            + opt_entry("tag"@, d.tag) + opt_entry("rev"@, d.rev),
    }
}

pub open spec fn source_path(name: Seq<char>) -> Seq<Seq<char>> {
    seq!["tool"@, "uv"@, "sources"@, name]
}

pub open spec fn with_git_sources(doc: NodeV, deps: Seq<GitDependency>) -> NodeV
    decreases deps.len(),
{
    if deps.len() == 0 {
        doc
    } else {
        set_path(with_git_sources(doc, deps.drop_last()), source_path(deps.last().name@), git_source(deps.last()))
    }
}

fn push_opt_entry(es: &mut Vec<(String, Node)>, key: &str, o: &Option<String>)
    ensures
        entries_view(final(es)@) == entries_view(old(es)@) + opt_entry(key@, *o),
{
    match o {
        Some(s) => {
            let ghost before = es@;
            es.push((key.to_string(), Node::Str(s.clone())));
            proof {
                lemma_entries_view_push(before, es@.last());
                assert(entries_view(es@) =~= entries_view(before) + opt_entry(key@, *o));
            }
        },
        None => {
            assert(entries_view(es@) =~= entries_view(es@) + opt_entry(key@, *o));
        },
    }
}

fn git_source_node(d: &GitDependency) -> (r: Node)
    ensures
        r@ == git_source(*d),
{
    let mut es: Vec<(String, Node)> = Vec::new();
    es.push(("git".to_string(), Node::Str(d.git_url.clone())));
    proof {
        lemma_entries_view(es@);
        assert(entries_view(es@) =~= seq![("git"@, NodeV::Str(d.git_url@))]);
    }
    push_opt_entry(&mut es, "branch", &d.branch);
    push_opt_entry(&mut es, "tag", &d.tag);
    push_opt_entry(&mut es, "rev", &d.rev);
    Node::Table { implicit: false, entries: es }
}

/// Writes the Git dependencies as `[tool.uv.sources.<name>]` tables, then
/// drops the sections that hold nothing; the document stays as it was when
/// there are none.
pub fn update_git_dependencies(doc: &mut Node, git_deps: &Vec<GitDependency>)
    requires
        git_deps@.len() > 0 ==> settable(old(doc)@, source_path(git_deps@[0].name@)),
    ensures
        final(doc)@ == (if git_deps@.len() == 0 {
            old(doc)@
        } else {
            clean(with_git_sources(old(doc)@, git_deps@))
        }),
{
    if git_deps.len() == 0 {
        return;
    }
    let ghost d0 = doc@;
    let ghost p0 = source_path(git_deps@[0].name@);
    let mut i: usize = 0;
    while i < git_deps.len()
        invariant
            1 <= git_deps@.len(),
            i <= git_deps@.len(),
            p0 == source_path(git_deps@[0].name@),
            doc@ == with_git_sources(d0, git_deps@.take(i as int)),
            settable(doc@, p0),
        decreases git_deps.len() - i,
    {
        let d = &git_deps[i];
        let ghost dd = doc@;
        let ghost pi = source_path(d.name@);
        let ghost c = git_source(*d);
        proof {
            assert(git_deps@.take(i + 1).drop_last() =~= git_deps@.take(i as int));
            assert(pi.take(3) =~= p0.take(3));
            assert(p0.take(3) =~= pi.take(3));
            lemma_settable_sibling(dd, p0, pi, c);
            lemma_settable_sibling(dd, pi, p0, c);
        }
        let p = path4("tool", "uv", "sources", d.name.as_str());
        update_section(doc, p.as_slice(), git_source_node(d));
        i = i + 1;
    }
    assert(git_deps@.take(git_deps@.len() as int) =~= git_deps@);
    cleanup_empty_sections(doc);
}

// ----------------------------------------------------------------------
// Authors
// ----------------------------------------------------------------------

/// An author as an inline table `{ name = .., email = .. }`.
pub open spec fn author_node(a: (Seq<char>, Option<Seq<char>>)) -> NodeV {
    NodeV::InlineTable(match a.1 {
        Some(e) => seq![("name"@, NodeV::Str(a.0)), ("email"@, NodeV::Str(e))],
        None => seq![("name"@, NodeV::Str(a.0))],
    })
}

pub open spec fn author_nodes(v: Seq<(Seq<char>, Option<Seq<char>>)>) -> Seq<NodeV> {
    v.map_values(|a: (Seq<char>, Option<Seq<char>>)| author_node(a))
}

/// Sets `[project].authors`, then drops the sections that hold nothing; the
/// document stays as it was when there are no authors.
pub fn update_authors(doc: &mut Node, authors: &Vec<Author>)
    requires
        authors@.len() > 0 ==> settable(old(doc)@, project_path("authors"@)),
    ensures
        final(doc)@ == (if authors@.len() == 0 {
            old(doc)@
        } else {
            clean(set_path(old(doc)@, project_path("authors"@), NodeV::Array(author_nodes(authors_view(authors@)))))
        }),
{
    if authors.len() == 0 {
        return;
    }
    let mut arr: Vec<Node> = Vec::new();
    let mut i: usize = 0;
    while i < authors.len()
        invariant
            i <= authors@.len(),
            nodes_view(arr@) == author_nodes(authors_view(authors@.take(i as int))),
        decreases authors.len() - i,
    {
        let a = &authors[i];
        let mut es: Vec<(String, Node)> = Vec::new();
        es.push(("name".to_string(), Node::Str(a.name.clone())));
        proof {
            lemma_entries_view(es@);
            assert(entries_view(es@) =~= seq![("name"@, NodeV::Str(a.name@))]);
        }
        push_opt_entry(&mut es, "email", &a.email);
        proof {
            match opt_view(a.email) {
                Some(e) => {
                    assert(entries_view(es@) =~= seq![("name"@, NodeV::Str(a.name@)), ("email"@, NodeV::Str(e))]);
                },
                None => {
                    assert(entries_view(es@) =~= seq![("name"@, NodeV::Str(a.name@))]);
                },
            }
        }
        let ghost before = arr@;
        arr.push(Node::InlineTable(es));
        proof {
            lemma_nodes_view_push(before, arr@.last());
            assert(authors@.take(i + 1) =~= authors@.take(i as int).push(*a));
            assert(author_nodes(authors_view(authors@.take(i + 1))) =~=
                author_nodes(authors_view(authors@.take(i as int))).push(author_node((a.name@, opt_view(a.email)))));
            assert(arr@.last()@ == author_node((a.name@, opt_view(a.email))));
        }
        i = i + 1;
    }
    assert(authors@.take(authors@.len() as int) =~= authors@);
    let p = path2("project", "authors");
    update_section(doc, p.as_slice(), Node::Array(arr));
    cleanup_empty_sections(doc);
}

} // verus!
