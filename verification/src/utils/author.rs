//! Authors of a project, as `setup.py` and Poetry write them.
use vstd::prelude::*;
use crate::migrators::setup_py::SetupPyMigrationSource;
use crate::utils::toml::{as_array, as_str, get, get_path, lookup, nodes_view, lemma_nodes_view, Node, NodeV};
use crate::text::{
    chars_of, ends_with, opt_view, rfind_char, rfind_char_chars, lemma_rfind_char, split_char,
    split_char_chars, starts_with, string_of, strip_prefix, strip_prefix_lit, trim, trim_chars,
    trim_set, trim_set_chars, vecs_view,
};

verus! {

/// An author of the project.
#[derive(Debug)]
pub struct Author {
    pub name: String,
    pub email: Option<String>,
}

pub open spec fn quote_set() -> Seq<char> {
    seq!['"', '\'']
}

/// The text after `key = ` or `key=` at the start of a part, if it starts so.
pub open spec fn key_value(part: Seq<char>, key: Seq<char>) -> Option<Seq<char>> {
    match strip_prefix(part, key + " = "@) {
        Some(v) => Some(v),
        None => strip_prefix(part, key + "="@),
    }
}

/// The name and email given by the parts of an inline table such as
/// `{ name = "A", email = "a@x" }`; a later part overrides an earlier one.
pub open spec fn table_author(parts: Seq<Seq<char>>) -> (Seq<char>, Option<Seq<char>>)
    decreases parts.len(),
{
    if parts.len() == 0 {
        (seq![], None)
    } else {
        let (name, email) = table_author(parts.drop_last());
        let part = trim(parts.last());
        let name2 = match key_value(part, "name"@) {
            Some(v) => trim_set(v, quote_set()),
            None => name,
        };
        let email2 = match key_value(part, "email"@) {
            Some(v) => Some(trim_set(v, quote_set())),
            None => email,
        };
        (name2, email2)
    }
}

/// An author string as name and email: `Name <email>`, an inline table, or a
/// bare name.
pub open spec fn author_of(s0: Seq<char>) -> (Seq<char>, Option<Seq<char>>) {
    let s = trim(s0);
    if starts_with(s, seq!['{']) && ends_with(s, seq!['}']) {
        table_author(split_char(s.subrange(1, s.len() - 1), ','))
    } else {
        match (rfind_char(s, '<'), rfind_char(s, '>')) {
            (Some(a), Some(b)) => if a < b {
                (trim(s.take(a)), Some(trim(s.subrange(a + 1, b))))
            } else {
                (s, None)
            },
            _ => (s, None),
        }
    }
}

fn key_value_of<'a>(part: &'a [char], key: &str) -> (r: Option<&'a [char]>)
    ensures
        match r {
            Some(v) => key_value(part@, key@) == Some(v@),
            None => key_value(part@, key@) is None,
        },
{
    let mut p1 = chars_of(key);
    let mut p2 = chars_of(key);
    crate::text::push_vec(&mut p1, chars_of(" = ").as_slice());
    crate::text::push_vec(&mut p2, chars_of("=").as_slice());
    let s1 = string_of(p1.as_slice());
    let s2 = string_of(p2.as_slice());
    match strip_prefix_lit(part, s1.as_str()) {
        Some(v) => Some(v),
        None => strip_prefix_lit(part, s2.as_str()),
    }
}

/// Parses an author string such as `Name <email>` or `{ name = "Name", email = "email" }`
pub fn parse_author_string(author_str: &str) -> (r: Author)
    ensures
        (r.name@, opt_view(r.email)) == author_of(author_str@),
{
    let full = chars_of(author_str);
    let s = trim_chars(full.as_slice());
    let n = s.len();
    if n > 0 && s[0] == '{' && s[n - 1] == '}' {
        proof {
            assert(s@.subrange(0, 1) =~= seq!['{']);
            assert(s@.subrange(n - 1, n as int) =~= seq!['}']);
        }
        let inner = if n >= 2 { &s[1..n - 1] } else { &s[0..0] };
        let parts = split_char_chars(inner, ',');
        let ghost pv = vecs_view(parts@);
        let quotes = vec!['"', '\''];
        assert(quotes@ =~= quote_set());
        let mut name = String::new();
        let mut email: Option<String> = None;
        let mut i: usize = 0;
        assert(n >= 2) by {
            if n == 1 {
                assert(s@[0] == '{');
                assert(s@[0] == '}');
            }
        }
        while i < parts.len()
            invariant
                i <= parts@.len(),
                pv == vecs_view(parts@),
                quotes@ == quote_set(),
                (name@, opt_view(email)) == table_author(pv.take(i as int)),
            decreases parts.len() - i,
        {
            proof {
                assert(pv.take(i + 1).drop_last() =~= pv.take(i as int));
                assert(pv.take(i + 1).last() == parts@[i as int]@);
            }
            let part = trim_chars(parts[i].as_slice());
            match key_value_of(part, "name") {
                Some(v) => { name = string_of(trim_set_chars(v, quotes.as_slice())); },
                None => {},
            }
            match key_value_of(part, "email") {
                Some(v) => { email = Some(string_of(trim_set_chars(v, quotes.as_slice()))); },
                None => {},
            }
            i = i + 1;
        }
        assert(pv.take(parts@.len() as int) =~= pv);
        return Author { name, email };
    }
    proof {
        if starts_with(s@, seq!['{']) && ends_with(s@, seq!['}']) {
            assert(s@.subrange(0, 1)[0] == s@[0]);
            assert(s@.subrange(n - 1, n as int)[0] == s@[n - 1]);
        }
    }
    match (rfind_char_chars(s, '<'), rfind_char_chars(s, '>')) {
        (Some(a), Some(b)) => {
            if a < b {
                proof {
                    lemma_rfind_char(s@, '<');
                    lemma_rfind_char(s@, '>');
                }
                let name = string_of(trim_chars(&s[0..a]));
                let email = string_of(trim_chars(&s[a + 1..b]));
                assert(s@.subrange(0, a as int) =~= s@.take(a as int));
                Author { name, email: Some(email) }
            } else {
                Author { name: string_of(s), email: None }
            }
        },
        _ => Author { name: string_of(s), email: None },
    }
}

/// The author of a `setup.py` text: `author`, with `author_email` if given.
pub open spec fn setup_py_authors(content: Seq<char>) -> Result<Seq<(Seq<char>, Option<Seq<char>>)>, Seq<char>> {
    match crate::migrators::setup_py::setup_keyword(content, "author"@) {
        Err(e) => Err(e),
        Ok(None) => Ok(seq![]),
        Ok(Some(name)) => match crate::migrators::setup_py::setup_keyword(content, "author_email"@) {
            Err(e) => Err(e),
            Ok(email) => Ok(seq![(name, email)]),
        },
    }
}

pub open spec fn authors_view(v: Seq<Author>) -> Seq<(Seq<char>, Option<Seq<char>>)> {
    v.map_values(|a: Author| (a.name@, opt_view(a.email)))
}

/// The authors in the text of a `setup.py` file
pub fn extract_authors_from_setup_py(content: &str) -> (r: Result<Vec<Author>, String>)
    ensures
        match setup_py_authors(content@) {
            Ok(a) => r matches Ok(v) && authors_view(v@) == a,
            Err(e) => r matches Err(x) && x@ == e,
        },
{
    match SetupPyMigrationSource::keyword_from_content(content, "author") {
        Err(e) => Err(e),
        Ok(None) => {
            let v: Vec<Author> = Vec::new();
            assert(authors_view(v@) =~= seq![]);
            Ok(v)
        },
        Ok(Some(name)) => match SetupPyMigrationSource::keyword_from_content(content, "author_email") {
            Err(e) => Err(e),
            Ok(email) => {
                let mut v: Vec<Author> = Vec::new();
                v.push(Author { name, email });
                assert(authors_view(v@) =~= seq![(v@[0].name@, opt_view(v@[0].email))]);
                Ok(v)
            },
        },
    }
}


/// The author of one element of a `[project].authors` array: a string as
/// `parse_author_string` reads it, or an inline table with `name` (else
/// `Unknown`) and `email`.
pub open spec fn project_author(v: NodeV) -> Option<(Seq<char>, Option<Seq<char>>)> {
    match v {
        NodeV::Str(s) => Some(author_of(s)),
        NodeV::InlineTable(es) => Some((
            match as_str(lookup(es, "name"@)) {
                Some(n) => n,
                None => "Unknown"@,
            },
            as_str(lookup(es, "email"@)),
        )),
        _ => None,
    }
}

pub open spec fn project_authors(v: Seq<NodeV>) -> Seq<(Seq<char>, Option<Seq<char>>)>
    decreases v.len(),
{
    if v.len() == 0 {
        seq![]
    } else {
        let rest = project_authors(v.drop_last());
        match project_author(v.last()) {
            Some(a) => rest.push(a),
            None => rest,
        }
    }
}

pub open spec fn string_authors(v: Seq<NodeV>) -> Seq<(Seq<char>, Option<Seq<char>>)>
    decreases v.len(),
{
    if v.len() == 0 {
        seq![]
    } else {
        let rest = string_authors(v.drop_last());
        match v.last() {
            NodeV::Str(s) => rest.push(author_of(s)),
            _ => rest,
        }
    }
}

/// The authors of an old `pyproject.toml`: those of a `[project].authors`
/// array where there is one, else the strings of `[tool.poetry].authors`.
pub open spec fn poetry_authors(old: NodeV) -> Seq<(Seq<char>, Option<Seq<char>>)> {
    match get(old, "project"@) {
        Some(p) if as_array(get(p, "authors"@)) is Some => project_authors(as_array(get(p, "authors"@))->0),
        _ => match as_array(get_path(old, seq!["tool"@, "poetry"@, "authors"@])) {
            Some(v) => string_authors(v),
            None => seq![],
        },
    }
}

fn authors_of_array(v: &Vec<Node>, tables: bool) -> (r: Vec<Author>)
    ensures
        authors_view(r@) == (if tables { project_authors(nodes_view(v@)) } else { string_authors(nodes_view(v@)) }),
{
    let ghost vs = nodes_view(v@);
    proof { lemma_nodes_view(v@); }
    let mut out: Vec<Author> = Vec::new();
    let mut i: usize = 0;
    while i < v.len()
        invariant
            i <= v@.len(),
            vs == nodes_view(v@),
            vs.len() == v@.len(),
            forall|j: int| 0 <= j < v@.len() ==> #[trigger] vs[j] == v@[j]@,
            authors_view(out@) == (if tables { project_authors(vs.take(i as int)) } else { string_authors(vs.take(i as int)) }),
        decreases v.len() - i,
    {
        proof {
            assert(vs.take(i + 1).drop_last() =~= vs.take(i as int));
            assert(vs.take(i + 1).last() == vs[i as int]);
        }
        let ghost before = out@;
        match &v[i] {
            Node::Str(s) => {
                out.push(parse_author_string(s.as_str()));
            },
            Node::InlineTable(_) => {
                if tables {
                    let name = match v[i].get("name") {
                        Some(Node::Str(n)) => n.clone(),
                        _ => "Unknown".to_string(),
                    };
                    let email = match v[i].get("email") {
                        Some(Node::Str(e)) => Some(e.clone()),
                        _ => None,
                    };
                    out.push(Author { name, email });
                }
            },
            _ => {},
        }
        assert(authors_view(out@) =~= (if tables { project_authors(vs.take(i + 1)) } else { string_authors(vs.take(i + 1)) }));
        i = i + 1;
    }
    assert(vs.take(v@.len() as int) =~= vs);
    out
}

/// The authors of an old `pyproject.toml` (Poetry 2 `[project]` first, then
/// `[tool.poetry]`).
pub fn extract_authors_from_poetry(old_doc: &Node) -> (r: Vec<Author>)
    ensures
        authors_view(r@) == poetry_authors(old_doc@),
{
    match old_doc.get("project") {
        Some(p) => match p.get("authors") {
            Some(Node::Array(v)) => {
                return authors_of_array(v, true);
            },
            _ => {},
        },
        None => {},
    }
    let mut path: Vec<&str> = Vec::new();
    path.push("tool");
    path.push("poetry");
    path.push("authors");
    assert(crate::utils::toml::path_view(path@) =~= seq!["tool"@, "poetry"@, "authors"@]);
    match crate::utils::toml::get_path_node(old_doc, path.as_slice()) {
        Some(Node::Array(v)) => authors_of_array(v, false),
        _ => {
            let r: Vec<Author> = Vec::new();
            assert(authors_view(r@) =~= seq![]);
            r
        },
    }
}

} // verus!
