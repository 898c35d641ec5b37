//! The document model of `pyproject.toml` (and of the other TOML and JSON
//! files a migration reads): a tree of tables, arrays and values, with the
//! edits a migration makes to it.
use vstd::prelude::*;
pub use crate::utils::documents::{read_toml, write_toml};
use crate::text::{chars_of, eq_lit, string_of, str_eq, starts_with, starts_with_lit};

verus! {

/// A node of a document.
#[derive(Debug)]
pub enum Node {
    /// A string value.
    Str(String),
    /// A value of another kind (number, boolean, date), as written.
    Other(String),
    /// An array value.
    Array(Vec<Node>),
    /// An inline table value `{ k = v, .. }`.
    InlineTable(Vec<(String, Node)>),
    /// A table `[section]`; an implicit one has no header of its own.
    Table { implicit: bool, entries: Vec<(String, Node)> },
    /// An array of tables `[[section]]`.
    ArrayOfTables(Vec<Node>),
}

/// The mathematical value of a node.
pub enum NodeV {
    Str(Seq<char>),
    Other(Seq<char>),
    Array(Seq<NodeV>),
    InlineTable(Seq<(Seq<char>, NodeV)>),
    Table { implicit: bool, entries: Seq<(Seq<char>, NodeV)> },
    ArrayOfTables(Seq<NodeV>),
}

pub open spec fn node_view(n: Node) -> NodeV
    decreases n,
{
    match n {
        Node::Str(s) => NodeV::Str(s@),
        Node::Other(s) => NodeV::Other(s@),
        Node::Array(v) => NodeV::Array(nodes_view(v@)),
        Node::InlineTable(es) => NodeV::InlineTable(entries_view(es@)),
        Node::Table { implicit, entries } => NodeV::Table { implicit, entries: entries_view(entries@) },
        Node::ArrayOfTables(v) => NodeV::ArrayOfTables(nodes_view(v@)),
    }
}

pub open spec fn nodes_view(ns: Seq<Node>) -> Seq<NodeV>
    decreases ns,
{
    if ns.len() == 0 {
        seq![]
    } else {
        nodes_view(ns.drop_last()).push(node_view(ns.last()))
    }
}

pub open spec fn entries_view(es: Seq<(String, Node)>) -> Seq<(Seq<char>, NodeV)>
    decreases es,
{
    if es.len() == 0 {
        seq![]
    } else {
        entries_view(es.drop_last()).push((es.last().0@, node_view(es.last().1)))
    }
}

impl View for Node {
    type V = NodeV;

    open spec fn view(&self) -> NodeV {
        node_view(*self)
    }
}

pub proof fn lemma_entries_view(es: Seq<(String, Node)>)
    ensures
        entries_view(es).len() == es.len(),
        forall|i: int| 0 <= i < es.len() ==> #[trigger] entries_view(es)[i] == (es[i].0@, node_view(es[i].1)),
    decreases es.len(),
{
    if es.len() > 0 {
        lemma_entries_view(es.drop_last());
    }
}

pub proof fn lemma_nodes_view(ns: Seq<Node>)
    ensures
        nodes_view(ns).len() == ns.len(),
        forall|i: int| 0 <= i < ns.len() ==> #[trigger] nodes_view(ns)[i] == node_view(ns[i]),
    decreases ns.len(),
{
    if ns.len() > 0 {
        lemma_nodes_view(ns.drop_last());
    }
}

pub proof fn lemma_entries_view_push(es: Seq<(String, Node)>, e: (String, Node))
    ensures
        entries_view(es.push(e)) == entries_view(es).push((e.0@, node_view(e.1))),
{
    assert(es.push(e).drop_last() =~= es);
}

pub proof fn lemma_nodes_view_push(ns: Seq<Node>, n: Node)
    ensures
        nodes_view(ns.push(n)) == nodes_view(ns).push(node_view(n)),
{
    assert(ns.push(n).drop_last() =~= ns);
}

// ----------------------------------------------------------------------
// Reading
// ----------------------------------------------------------------------

/// The value under a key among entries (the first one with that key).
pub open spec fn lookup(es: Seq<(Seq<char>, NodeV)>, k: Seq<char>) -> Option<NodeV>
    decreases es.len(),
{
    if es.len() == 0 {
        None
    } else if es[0].0 == k {
        Some(es[0].1)
    } else {
        lookup(es.drop_first(), k)
    }
}

/// The position of the first entry with a key.
pub open spec fn key_index(es: Seq<(Seq<char>, NodeV)>, k: Seq<char>) -> Option<int>
    decreases es.len(),
{
    if es.len() == 0 {
        None
    } else if es[0].0 == k {
        Some(0)
    } else {
        match key_index(es.drop_first(), k) {
            Some(i) => Some(i + 1),
            None => None,
        }
    }
}

/// The entries of a table or an inline table.
pub open spec fn table_like(n: NodeV) -> Option<Seq<(Seq<char>, NodeV)>> {
    match n {
        NodeV::Table { entries, .. } => Some(entries),
        NodeV::InlineTable(entries) => Some(entries),
        _ => None,
    }
}

/// The entries of a table `[section]` (not of an inline table).
pub open spec fn table_entries(n: NodeV) -> Option<Seq<(Seq<char>, NodeV)>> {
    match n {
        NodeV::Table { entries, .. } => Some(entries),
        _ => None,
    }
}

/// The value under a key of a table or an inline table.
pub open spec fn get(n: NodeV, k: Seq<char>) -> Option<NodeV> {
    match table_like(n) {
        Some(es) => lookup(es, k),
        None => None,
    }
}

/// `get` along a path of keys.
pub open spec fn get_path(n: NodeV, path: Seq<Seq<char>>) -> Option<NodeV>
    decreases path.len(),
{
    if path.len() == 0 {
        Some(n)
    } else {
        match get(n, path[0]) {
            Some(m) => get_path(m, path.drop_first()),
            None => None,
        }
    }
}

/// The string that a node holds.
pub open spec fn as_str(n: Option<NodeV>) -> Option<Seq<char>> {
    match n {
        Some(NodeV::Str(s)) => Some(s),
        _ => None,
    }
}

/// The elements of an array value.
pub open spec fn as_array(n: Option<NodeV>) -> Option<Seq<NodeV>> {
    match n {
        Some(NodeV::Array(v)) => Some(v),
        _ => None,
    }
}

/// Whether a node holds nothing: an empty array or array of tables, or a
/// table whose entries all hold nothing.
pub open spec fn is_empty(n: NodeV) -> bool
    decreases n,
{
    match n {
        NodeV::Table { entries, .. } => all_empty(entries),
        NodeV::Array(v) => v.len() == 0,
        NodeV::ArrayOfTables(v) => v.len() == 0,
        _ => false,
    }
}

pub open spec fn all_empty(es: Seq<(Seq<char>, NodeV)>) -> bool
    decreases es,
{
    if es.len() == 0 {
        true
    } else {
        is_empty(es[0].1) && all_empty(es.drop_first())
    }
}

fn key_is(k: &String, key: &str) -> (r: bool)
    ensures
        r == (k@ == key@),
{
    str_eq(k.as_str(), key)
}

/// The position of the first entry with a key.
pub fn find_key(es: &Vec<(String, Node)>, key: &str) -> (r: Option<usize>)
    ensures
        match r {
            Some(i) => key_index(entries_view(es@), key@) == Some(i as int) && i < es@.len(),
            None => key_index(entries_view(es@), key@) is None,
        },
{
    proof { lemma_entries_view(es@); }
    let mut i: usize = 0;
    while i < es.len()
        invariant
            i <= es@.len(),
            entries_view(es@).len() == es@.len(),
            forall|j: int| 0 <= j < es@.len() ==> #[trigger] entries_view(es@)[j] == (es@[j].0@, node_view(es@[j].1)),
            forall|j: int| 0 <= j < i ==> entries_view(es@)[j].0 != key@,
        decreases es.len() - i,
    {
        if key_is(&es[i].0, key) {
            proof { lemma_key_index_first(entries_view(es@), key@, i as int); }
            return Some(i);
        }
        i = i + 1;
    }
    proof { lemma_key_index_none(entries_view(es@), key@); }
    None
}

pub proof fn lemma_key_index_first(es: Seq<(Seq<char>, NodeV)>, k: Seq<char>, i: int)
    requires
        0 <= i < es.len(),
        es[i].0 == k,
        forall|j: int| 0 <= j < i ==> es[j].0 != k,
    ensures
        key_index(es, k) == Some(i),
        lookup(es, k) == Some(es[i].1),
    decreases i,
{
    if i > 0 {
        lemma_key_index_first(es.drop_first(), k, i - 1);
    }
}

pub proof fn lemma_key_index_none(es: Seq<(Seq<char>, NodeV)>, k: Seq<char>)
    requires
        forall|j: int| 0 <= j < es.len() ==> es[j].0 != k,
    ensures
        key_index(es, k) is None,
        lookup(es, k) is None,
    decreases es.len(),
{
    if es.len() > 0 {
        lemma_key_index_none(es.drop_first(), k);
    }
}

pub proof fn lemma_key_index_lookup(es: Seq<(Seq<char>, NodeV)>, k: Seq<char>)
    ensures
        match key_index(es, k) {
            Some(i) => 0 <= i < es.len() && es[i].0 == k && lookup(es, k) == Some(es[i].1)
                && forall|j: int| 0 <= j < i ==> es[j].0 != k,
            None => lookup(es, k) is None && forall|j: int| 0 <= j < es.len() ==> es[j].0 != k,
        },
    decreases es.len(),
{
    if es.len() > 0 {
        lemma_key_index_lookup(es.drop_first(), k);
        assert forall|j: int| 0 < j < es.len() implies es[j] == es.drop_first()[j - 1] by {}
        if es[0].0 != k {
            match key_index(es.drop_first(), k) {
                Some(i) => {
                    assert forall|j: int| 0 <= j < i + 1 implies es[j].0 != k by {
                        if j > 0 {
                            assert(es[j] == es.drop_first()[j - 1]);
                        }
                    }
                },
                None => {
                    assert forall|j: int| 0 <= j < es.len() implies es[j].0 != k by {
                        if j > 0 {
                            assert(es[j] == es.drop_first()[j - 1]);
                        }
                    }
                },
            }
        }
    }
}

impl Node {
    /// The entries of a table or an inline table.
    pub fn table_like_entries(&self) -> (r: Option<&Vec<(String, Node)>>)
        ensures
            match r {
                Some(es) => table_like(self@) == Some(entries_view(es@)),
                None => table_like(self@) is None,
            },
    {
        match self {
            Node::Table { entries, .. } => Some(entries),
            Node::InlineTable(entries) => Some(entries),
            _ => None,
        }
    }

    /// The entries of a table `[section]`.
    pub fn as_table(&self) -> (r: Option<&Vec<(String, Node)>>)
        ensures
            match r {
                Some(es) => table_entries(self@) == Some(entries_view(es@)),
                None => table_entries(self@) is None,
            },
    {
        match self {
            Node::Table { entries, .. } => Some(entries),
            _ => None,
        }
    }

    /// The value under a key of a table or an inline table.
    pub fn get(&self, key: &str) -> (r: Option<&Node>)
        ensures
            match r {
                Some(x) => get(self@, key@) == Some(x@),
                None => get(self@, key@) is None,
            },
    {
        match self.table_like_entries() {
            None => None,
            Some(es) => match find_key(es, key) {
                Some(i) => {
                    proof {
                        lemma_key_index_lookup(entries_view(es@), key@);
                        lemma_entries_view(es@);
                    }
                    Some(&es[i].1)
                },
                None => {
                    proof { lemma_key_index_lookup(entries_view(es@), key@); }
                    None
                },
            },
        }
    }

    /// The string of a string value.
    pub fn as_str(&self) -> (r: Option<&String>)
        ensures
            match r {
                Some(s) => as_str(Some(self@)) == Some(s@),
                None => as_str(Some(self@)) is None,
            },
    {
        match self {
            Node::Str(s) => Some(s),
            _ => None,
        }
    }

    /// The elements of an array value.
    pub fn as_array(&self) -> (r: Option<&Vec<Node>>)
        ensures
            match r {
                Some(v) => as_array(Some(self@)) == Some(nodes_view(v@)),
                None => as_array(Some(self@)) is None,
            },
    {
        match self {
            Node::Array(v) => Some(v),
            _ => None,
        }
    }
}

// ----------------------------------------------------------------------
// Editing
// ----------------------------------------------------------------------

/// A table's entries with a key set: an existing entry keeps its place, a new
/// one goes at the end.
pub open spec fn insert(es: Seq<(Seq<char>, NodeV)>, k: Seq<char>, v: NodeV) -> Seq<(Seq<char>, NodeV)> {
    match key_index(es, k) {
        Some(i) => es.update(i, (k, v)),
        None => es.push((k, v)),
    }
}

pub open spec fn empty_implicit_table() -> NodeV {
    NodeV::Table { implicit: true, entries: seq![] }
}

/// Whether every table along a path that already exists is a table `[..]`,
/// so that the path can be set.
pub open spec fn settable(n: NodeV, path: Seq<Seq<char>>) -> bool
    decreases path.len(),
{
    &&& n is Table
    &&& (path.len() <= 1 || match get(n, path[0]) {
        None => true,
        Some(c) => settable(c, path.drop_first()),
    })
}

/// A table with the value at a path of keys set, creating the tables on the
/// way as implicit ones.
pub open spec fn set_path(n: NodeV, path: Seq<Seq<char>>, content: NodeV) -> NodeV
    decreases path.len(),
{
    match n {
        NodeV::Table { implicit, entries } => {
            if path.len() == 0 {
                n
            } else if path.len() == 1 {
                NodeV::Table { implicit, entries: insert(entries, path[0], content) }
            } else {
                let child = match lookup(entries, path[0]) {
                    Some(c) => c,
                    None => empty_implicit_table(),
                };
                NodeV::Table {
                    implicit,
                    entries: insert(entries, path[0], set_path(child, path.drop_first(), content)),
                }
            }
        },
        _ => n,
    }
}

pub open spec fn path_view(p: Seq<&str>) -> Seq<Seq<char>> {
    p.map_values(|s: &str| s@)
}

/// Sets a key among entries
pub fn insert_entry(es: &mut Vec<(String, Node)>, key: String, value: Node)
    ensures
        entries_view(final(es)@) == insert(entries_view(old(es)@), key@, value@),
{
    let ghost kv = key@;
    let ghost vv = value@;
    proof {
        lemma_entries_view(es@);
        lemma_key_index_lookup(entries_view(es@), key@);
    }
    match find_key(es, key.as_str()) {
        Some(i) => {
            let ghost before = es@;
            es.set(i, (key, value));
            proof {
                lemma_entries_view(es@);
                assert(entries_view(es@) =~= entries_view(before).update(i as int, (kv, vv)));
            }
        },
        None => {
            let ghost before = es@;
            es.push((key, value));
            proof {
                lemma_entries_view_push(before, (key, value));
            }
        },
    }
}

fn set_path_node(n: Node, path: &[&str], i: usize, content: Node) -> (r: Node)
    requires
        i < path@.len(),
        settable(n@, path_view(path@).skip(i as int)),
    ensures
        r@ == set_path(n@, path_view(path@).skip(i as int), content@),
    decreases path@.len() - i,
{
    let ghost p = path_view(path@).skip(i as int);
    let ghost nv = n@;
    let ghost cv = content@;
    assert(p[0] == path@[i as int]@);
    match n {
        Node::Table { implicit, entries } => {
            let mut entries = entries;
            let key = string_of(chars_of(path[i]).as_slice());
            if i + 1 == path.len() {
                insert_entry(&mut entries, key, content);
                Node::Table { implicit, entries }
            } else {
                assert(p.drop_first() =~= path_view(path@).skip(i + 1));
                proof {
                    lemma_entries_view(entries@);
                    lemma_key_index_lookup(entries_view(entries@), key@);
                }
                match find_key(&entries, path[i]) {
                    Some(j) => {
                        let ghost before = entries@;
                        let (k, child) = entries.remove(j);
                        assert(child@ == entries_view(before)[j as int].1);
                        let newc = set_path_node(child, path, i + 1, content);
                        entries.insert(j, (k, newc));
                        proof {
                            lemma_entries_view(entries@);
                            lemma_entries_view(before);
                            assert(entries_view(entries@) =~= entries_view(before).update(j as int, (key@, newc@)));
                        }
                        Node::Table { implicit, entries }
                    },
                    None => {
                        let fresh = Node::Table { implicit: true, entries: Vec::new() };
                        assert(fresh@ == empty_implicit_table()) by {
                            assert(entries_view(Seq::<(String, Node)>::empty()) =~= Seq::<(Seq<char>, NodeV)>::empty());
                        }
                        let newc = set_path_node(fresh, path, i + 1, content);
                        insert_entry(&mut entries, key, newc);
                        Node::Table { implicit, entries }
                    },
                }
            }
        },
        _ => {
            n
        },
    }
}

/// Updates or creates a section in a TOML document.
pub fn update_section(doc: &mut Node, section_path: &[&str], content: Node)
    requires
        section_path@.len() >= 1,
        settable(old(doc)@, path_view(section_path@)),
    ensures
        final(doc)@ == set_path(old(doc)@, path_view(section_path@), content@),
{
    let mut taken = Node::Other(String::new());
    std::mem::swap(&mut taken, doc);
    assert(path_view(section_path@).skip(0) =~= path_view(section_path@));
    let updated = set_path_node(taken, section_path, 0, content);
    *doc = updated;
}


// ----------------------------------------------------------------------
// Reading along paths, and what a write leaves for a read
// ----------------------------------------------------------------------

pub proof fn lemma_lookup_insert(es: Seq<(Seq<char>, NodeV)>, k: Seq<char>, v: NodeV, k2: Seq<char>)
    ensures
        lookup(insert(es, k, v), k2) == (if k2 == k { Some(v) } else { lookup(es, k2) }),
{
    let r = insert(es, k, v);
    lemma_key_index_lookup(es, k);
    lemma_key_index_lookup(es, k2);
    lemma_key_index_lookup(r, k2);
    match key_index(es, k) {
        Some(i) => {
            assert(r.len() == es.len());
            assert forall|j: int| 0 <= j < r.len() implies #[trigger] r[j].0 == es[j].0 by {}
            if k2 == k {
                lemma_key_index_first(r, k, i);
            } else {
                match key_index(es, k2) {
                    Some(j) => {
                        assert(j != i);
                        lemma_key_index_first(r, k2, j);
                    },
                    None => {
                        lemma_key_index_none(r, k2);
                    },
                }
            }
        },
        None => {
            assert(r.len() == es.len() + 1);
            assert forall|j: int| 0 <= j < es.len() implies #[trigger] r[j] == es[j] by {}
            if k2 == k {
                lemma_key_index_first(r, k, es.len() as int);
            } else {
                match key_index(es, k2) {
                    Some(j) => {
                        lemma_key_index_first(r, k2, j);
                    },
                    None => {
                        lemma_key_index_none(r, k2);
                    },
                }
            }
        },
    }
}

/// Setting a value at a path, then reading that path, gives the value back.
pub proof fn lemma_get_set_path(n: NodeV, path: Seq<Seq<char>>, c: NodeV)
    requires
        path.len() >= 1,
        settable(n, path),
    ensures
        get_path(set_path(n, path, c), path) == Some(c),
    decreases path.len(),
{
    let es = n->entries;
    let r = set_path(n, path, c);
    if path.len() == 1 {
        lemma_lookup_insert(es, path[0], c, path[0]);
        assert(get(r, path[0]) == Some(c));
        assert(path.drop_first().len() == 0);
        assert(get_path(c, path.drop_first()) == Some(c));
    } else {
        let child = match lookup(es, path[0]) {
            Some(x) => x,
            None => empty_implicit_table(),
        };
        let sub = set_path(child, path.drop_first(), c);
        lemma_lookup_insert(es, path[0], sub, path[0]);
        assert(get(r, path[0]) == Some(sub));
        assert(get(n, path[0]) == lookup(es, path[0]));
        assert(settable(child, path.drop_first()));
        lemma_get_set_path(child, path.drop_first(), c);
        assert(get_path(r, path) == get_path(sub, path.drop_first()));
    }
}

/// Setting a value at a path leaves every other top-level key as it was.
pub proof fn lemma_set_path_other_key(n: NodeV, path: Seq<Seq<char>>, c: NodeV, k: Seq<char>)
    requires
        path.len() >= 1,
        n is Table,
        k != path[0],
    ensures
        get(set_path(n, path, c), k) == get(n, k),
        set_path(n, path, c) is Table,
        set_path(n, path, c)->implicit == n->implicit,
{
    let es = n->entries;
    if path.len() == 1 {
        lemma_lookup_insert(es, path[0], c, k);
    } else {
        let child = match lookup(es, path[0]) {
            Some(x) => x,
            None => empty_implicit_table(),
        };
        lemma_lookup_insert(es, path[0], set_path(child, path.drop_first(), c), k);
    }
}

/// A set through a table keeps that table settable for its own keys.
pub proof fn lemma_set_path_settable(n: NodeV, path: Seq<Seq<char>>, c: NodeV, path2: Seq<Seq<char>>)
    requires
        path.len() == 2,
        path2.len() == 2,
        path2[0] == path[0],
        settable(n, path),
    ensures
        settable(set_path(n, path, c), path2),
        settable(n, path2),
{
    let es = n->entries;
    let child = match lookup(es, path[0]) {
        Some(x) => x,
        None => empty_implicit_table(),
    };
    let sub = set_path(child, path.drop_first(), c);
    lemma_lookup_insert(es, path[0], sub, path[0]);
    assert(get(n, path[0]) == lookup(es, path[0]));
    assert(path.drop_first().len() == 1);
    match lookup(es, path[0]) {
        Some(x) => {
            assert(settable(x, path.drop_first()));
        },
        None => {},
    }
    assert(child is Table);
    assert(sub is Table);
    assert(get(set_path(n, path, c), path[0]) == Some(sub));
    assert(settable(sub, path2.drop_first()));
    assert(settable(child, path2.drop_first()));
}

/// The node at a path of keys.
pub fn get_path_node<'a>(n: &'a Node, path: &[&str]) -> (r: Option<&'a Node>)
    ensures
        match r {
            Some(x) => get_path(n@, path_view(path@)) == Some(x@),
            None => get_path(n@, path_view(path@)) is None,
        },
{
    let ghost pv = path_view(path@);
    let mut cur = n;
    let mut i: usize = 0;
    assert(pv.skip(0) =~= pv);
    while i < path.len()
        invariant
            i <= path@.len(),
            pv == path_view(path@),
            pv.len() == path@.len(),
            get_path(n@, pv) == get_path(cur@, pv.skip(i as int)),
        decreases path.len() - i,
    {
        let ghost rest = pv.skip(i as int);
        assert(rest[0] == path@[i as int]@);
        assert(rest.drop_first() =~= pv.skip(i + 1));
        match cur.get(path[i]) {
            Some(c) => {
                cur = c;
                i = i + 1;
            },
            None => {
                return None;
            },
        }
    }
    assert(pv.skip(i as int).len() == 0);
    Some(cur)
}

/// The string at a path of keys, if a string is there.
pub fn str_at(n: &Node, path: &[&str]) -> (r: Option<String>)
    ensures
        opt_str_view(r) == as_str(get_path(n@, path_view(path@))),
{
    match get_path_node(n, path) {
        Some(x) => match x.as_str() {
            Some(s) => Some(s.clone()),
            None => None,
        },
        None => None,
    }
}

pub open spec fn opt_str_view(o: Option<String>) -> Option<Seq<char>> {
    match o {
        Some(s) => Some(s@),
        None => None,
    }
}

/// Whether a path can be set in a node (see `settable`).
pub fn is_settable(n: &Node, path: &[&str]) -> (r: bool)
    ensures
        r == settable(n@, path_view(path@)),
{
    let ghost pv = path_view(path@);
    let mut cur = n;
    let mut i: usize = 0;
    assert(pv.skip(0) =~= pv);
    loop
        invariant
            i <= path@.len(),
            i == 0 || i < path@.len(),
            pv == path_view(path@),
            pv.len() == path@.len(),
            settable(n@, pv) == settable(cur@, pv.skip(i as int)),
        decreases path.len() - i,
    {
        let ghost rest = pv.skip(i as int);
        let is_table = match cur {
            Node::Table { .. } => true,
            _ => false,
        };
        if !is_table {
            return false;
        }
        if i + 1 >= path.len() {
            return true;
        }
        assert(rest[0] == path@[i as int]@);
        assert(rest.drop_first() =~= pv.skip(i + 1));
        match cur.get(path[i]) {
            Some(c) => {
                cur = c;
                i = i + 1;
            },
            None => {
                return true;
            },
        }
    }
}

/// A string value.
pub fn str_node(s: &str) -> (r: Node)
    ensures
        r@ == NodeV::Str(s@),
{
    Node::Str(s.to_string())
}


/// Two tables stay settable along paths that differ in their last key only,
/// before and after a set along one of them.
pub proof fn lemma_settable_sibling(n: NodeV, path: Seq<Seq<char>>, path2: Seq<Seq<char>>, c: NodeV)
    requires
        path.len() >= 1,
        path2.len() == path.len(),
        path2.take(path.len() - 1) == path.take(path.len() - 1),
        settable(n, path),
    ensures
        settable(n, path2),
        settable(set_path(n, path, c), path2),
    decreases path.len(),
{
    if path.len() > 1 {
        assert(path2[0] == path2.take(path.len() - 1)[0]);
        assert(path[0] == path.take(path.len() - 1)[0]);
        assert(path2[0] == path[0]);
        let es = n->entries;
        let child = match lookup(es, path[0]) {
            Some(x) => x,
            None => empty_implicit_table(),
        };
        assert(get(n, path[0]) == lookup(es, path[0]));
        assert(settable(child, path.drop_first())) by {
            match lookup(es, path[0]) {
                Some(x) => {},
                None => {
                    assert(child is Table);
                    if path.drop_first().len() > 1 {
                        assert(lookup(Seq::<(Seq<char>, NodeV)>::empty(), path.drop_first()[0]) is None);
                    }
                },
            }
        }
        assert(path2.drop_first().take(path.len() - 2) =~= path.drop_first().take(path.len() - 2)) by {
            assert forall|j: int| 0 <= j < path.len() - 2 implies path2.drop_first()[j] == path.drop_first()[j] by {
                assert(path2[j + 1] == path2.take(path.len() - 1)[j + 1]);
                assert(path[j + 1] == path.take(path.len() - 1)[j + 1]);
            }
        }
        lemma_settable_sibling(child, path.drop_first(), path2.drop_first(), c);
        let sub = set_path(child, path.drop_first(), c);
        lemma_lookup_insert(es, path[0], sub, path[0]);
        assert(get(set_path(n, path, c), path2[0]) == Some(sub));
        match lookup(es, path[0]) {
            Some(x) => {
                assert(settable(n, path2));
            },
            None => {
                assert(settable(n, path2));
            },
        }
    }
}

impl Node {
    /// A copy of the node.
    pub fn copy(&self) -> (r: Node)
        ensures
            r@ == self@,
        decreases node_size(*self), 0nat,
    {
        match self {
            Node::Str(s) => Node::Str(s.clone()),
            Node::Other(s) => Node::Other(s.clone()),
            Node::Array(v) => Node::Array(copy_nodes(v)),
            Node::ArrayOfTables(v) => Node::ArrayOfTables(copy_nodes(v)),
            Node::InlineTable(es) => Node::InlineTable(copy_entries(es)),
            Node::Table { implicit, entries } => Node::Table { implicit: *implicit, entries: copy_entries(entries) },
        }
    }
}

pub proof fn lemma_nodes_size(ns: Seq<Node>)
    ensures
        forall|j: int| 0 <= j < ns.len() ==> node_size(#[trigger] ns[j]) <= nodes_size(ns),
    decreases ns.len(),
{
    if ns.len() > 0 {
        lemma_nodes_size(ns.drop_last());
        assert forall|j: int| 0 <= j < ns.len() implies node_size(#[trigger] ns[j]) <= nodes_size(ns) by {
            if j < ns.len() - 1 {
                assert(ns[j] == ns.drop_last()[j]);
            }
        }
    }
}

/// A copy of entries.
pub fn copy_entries(es: &Vec<(String, Node)>) -> (r: Vec<(String, Node)>)
    ensures
        entries_view(r@) == entries_view(es@),
    decreases entries_size(es@), 1nat,
{
    proof {
        lemma_entries_view(es@);
        lemma_entries_size(es@);
    }
    let mut out: Vec<(String, Node)> = Vec::new();
    let mut i: usize = 0;
    while i < es.len()
        invariant
            i <= es@.len(),
            out@.len() == i,
            forall|j: int| 0 <= j < i ==> #[trigger] out@[j].0@ == es@[j].0@ && node_view(out@[j].1) == node_view(es@[j].1),
            forall|j: int| 0 <= j < es@.len() ==> node_size(#[trigger] es@[j].1) <= entries_size(es@),
        decreases es.len() - i,
    {
        assert(node_size(es@[i as int].1) <= entries_size(es@));
        let c = es[i].1.copy();
        out.push((es[i].0.clone(), c));
        i = i + 1;
    }
    proof {
        lemma_entries_view(out@);
        assert(entries_view(out@) =~= entries_view(es@));
    }
    out
}

/// A copy of nodes.
pub fn copy_nodes(ns: &Vec<Node>) -> (r: Vec<Node>)
    ensures
        nodes_view(r@) == nodes_view(ns@),
    decreases nodes_size(ns@), 1nat,
{
    proof {
        lemma_nodes_view(ns@);
        lemma_nodes_size(ns@);
    }
    let mut out: Vec<Node> = Vec::new();
    let mut i: usize = 0;
    while i < ns.len()
        invariant
            i <= ns@.len(),
            out@.len() == i,
            forall|j: int| 0 <= j < i ==> node_view(#[trigger] out@[j]) == node_view(ns@[j]),
            forall|j: int| 0 <= j < ns@.len() ==> node_size(#[trigger] ns@[j]) <= nodes_size(ns@),
        decreases ns.len() - i,
    {
        assert(node_size(ns@[i as int]) <= nodes_size(ns@));
        let c = ns[i].copy();
        out.push(c);
        i = i + 1;
    }
    proof {
        lemma_nodes_view(out@);
        assert(nodes_view(out@) =~= nodes_view(ns@));
    }
    out
}

/// A table without its sections that hold nothing, at every depth of tables.
pub open spec fn clean(n: NodeV) -> NodeV
    decreases n,
{
    match n {
        NodeV::Table { implicit, entries } => NodeV::Table { implicit, entries: clean_entries(entries) },
        _ => n,
    }
}

pub open spec fn clean_entries(es: Seq<(Seq<char>, NodeV)>) -> Seq<(Seq<char>, NodeV)>
    decreases es,
{
    if es.len() == 0 {
        seq![]
    } else {
        let rest = clean_entries(es.drop_last());
        let c = clean(es.last().1);
        if is_empty(c) {
            rest
        } else {
            rest.push((es.last().0, c))
        }
    }
}

/// A measure of a node's size, which shrinks from a table to its values.
pub open spec fn node_size(n: Node) -> nat
    decreases n,
{
    match n {
        Node::Table { entries, .. } => 1 + entries_size(entries@),
        Node::InlineTable(es) => 1 + entries_size(es@),
        Node::Array(v) => 1 + nodes_size(v@),
        Node::ArrayOfTables(v) => 1 + nodes_size(v@),
        _ => 1,
    }
}

pub open spec fn entries_size(es: Seq<(String, Node)>) -> nat
    decreases es,
{
    if es.len() == 0 {
        0
    } else {
        entries_size(es.drop_last()) + node_size(es.last().1)
    }
}

pub open spec fn nodes_size(ns: Seq<Node>) -> nat
    decreases ns,
{
    if ns.len() == 0 {
        0
    } else {
        nodes_size(ns.drop_last()) + node_size(ns.last())
    }
}

pub proof fn lemma_entries_size(es: Seq<(String, Node)>)
    ensures
        forall|j: int| 0 <= j < es.len() ==> node_size(#[trigger] es[j].1) <= entries_size(es),
    decreases es.len(),
{
    if es.len() > 0 {
        lemma_entries_size(es.drop_last());
        assert forall|j: int| 0 <= j < es.len() implies node_size(#[trigger] es[j].1) <= entries_size(es) by {
            if j < es.len() - 1 {
                assert(es[j] == es.drop_last()[j]);
            }
        }
    }
}

/// Whether a node holds nothing
pub fn is_empty_section(n: &Node) -> (r: bool)
    ensures
        r == is_empty(n@),
    decreases node_size(*n),
{
    match n {
        Node::Table { entries, .. } => {
            proof {
                lemma_entries_view(entries@);
                lemma_entries_size(entries@);
                lemma_all_empty(entries_view(entries@));
            }
            let mut i: usize = 0;
            while i < entries.len()
                invariant
                    i <= entries@.len(),
                    node_size(*n) == 1 + entries_size(entries@),
                    n@ is Table && n@->entries == entries_view(entries@),
                    entries_view(entries@).len() == entries@.len(),
                    forall|j: int| 0 <= j < entries@.len() ==> #[trigger] entries_view(entries@)[j] == (entries@[j].0@, node_view(entries@[j].1)),
                    forall|j: int| 0 <= j < entries@.len() ==> node_size(#[trigger] entries@[j].1) <= entries_size(entries@),
                    all_empty(entries_view(entries@)) <==> forall|j: int| 0 <= j < entries@.len() ==> is_empty(#[trigger] entries_view(entries@)[j].1),
                    forall|j: int| 0 <= j < i ==> is_empty(#[trigger] entries_view(entries@)[j].1),
                decreases entries.len() - i,
            {
                assert(node_size(entries@[i as int].1) <= entries_size(entries@));
                if !is_empty_section(&entries[i].1) {
                    assert(!is_empty(entries_view(entries@)[i as int].1));
                    return false;
                }
                i = i + 1;
            }
            true
        },
        Node::Array(v) => {
            proof { lemma_nodes_view(v@); }
            v.len() == 0
        },
        Node::ArrayOfTables(v) => {
            proof { lemma_nodes_view(v@); }
            v.len() == 0
        },
        _ => false,
    }
}

pub proof fn lemma_all_empty(es: Seq<(Seq<char>, NodeV)>)
    ensures
        all_empty(es) <==> forall|j: int| 0 <= j < es.len() ==> is_empty(#[trigger] es[j].1),
    decreases es.len(),
{
    if es.len() > 0 {
        lemma_all_empty(es.drop_first());
        assert forall|j: int| 0 < j < es.len() implies es[j] == es.drop_first()[j - 1] by {}
        if all_empty(es) {
            assert forall|j: int| 0 <= j < es.len() implies is_empty(#[trigger] es[j].1) by {
                if j > 0 {
                    assert(es[j] == es.drop_first()[j - 1]);
                }
            }
        }
        if forall|j: int| 0 <= j < es.len() ==> is_empty(#[trigger] es[j].1) {
            assert(is_empty(es[0].1));
            assert forall|j: int| 0 <= j < es.drop_first().len() implies is_empty(#[trigger] es.drop_first()[j].1) by {
                assert(es.drop_first()[j] == es[j + 1]);
            }
        }
    }
}

fn clean_node(n: Node) -> (r: Node)
    ensures
        r@ == clean(n@),
    decreases node_size(n),
{
    let ghost n0 = n;
    match n {
        Node::Table { implicit, entries } => {
            let ghost orig = entries@;
            proof {
                lemma_entries_view(orig);
                lemma_entries_size(orig);
            }
            let mut work = entries;
            let mut out: Vec<(String, Node)> = Vec::new();
            let mut i: usize = 0;
            let len = work.len();
            assert(orig.skip(0) =~= orig);
            #[verifier::loop_isolation(false)]
            while i < len
                invariant
                    i <= len == orig.len(),
                    work@ == orig.skip(i as int),
                    entries_view(orig).len() == orig.len(),
                    forall|j: int| 0 <= j < orig.len() ==> #[trigger] entries_view(orig)[j] == (orig[j].0@, node_view(orig[j].1)),
                    entries_view(out@) == clean_entries(entries_view(orig).take(i as int)),
                    node_size(n0) == 1 + entries_size(orig),
                    forall|j: int| 0 <= j < orig.len() ==> node_size(#[trigger] orig[j].1) <= entries_size(orig),
                decreases len - i,
            {
                let (k, child) = work.remove(0);
                assert(child == orig[i as int].1);
                assert(work@ =~= orig.skip(i + 1));
                assert(node_size(orig[i as int].1) <= entries_size(orig));
                let c = clean_node(child);
                let ghost before = out@;
                proof {
                    let ev = entries_view(orig);
                    assert(ev.take(i + 1).drop_last() =~= ev.take(i as int));
                    assert(ev.take(i + 1).last() == (k@, node_view(orig[i as int].1)));
                }
                if !is_empty_section(&c) {
                    out.push((k, c));
                    proof { lemma_entries_view_push(before, out@.last()); }
                }
                i = i + 1;
            }
            assert(entries_view(orig).take(len as int) =~= entries_view(orig));
            Node::Table { implicit, entries: out }
        },
        other => other,
    }
}

/// Removes empty sections from a TOML document recursively.
pub fn cleanup_empty_sections(doc: &mut Node)
    ensures
        final(doc)@ == clean(old(doc)@),
{
    let mut taken = Node::Other(String::new());
    std::mem::swap(&mut taken, doc);
    *doc = clean_node(taken);
}


// ----------------------------------------------------------------------
// Order of sections and fields
// ----------------------------------------------------------------------

/// The expected order of the fields of `[project]`.
pub open spec fn project_field_order() -> Seq<Seq<char>> {
    seq![
        "name"@, "version"@, "description"@, "authors"@, "readme"@, "requires-python"@,
        "dependencies"@, "classifiers"@, "optional-dependencies"@, "scripts"@, "urls"@,
    ]
}

/// The entries of the listed keys, in the order of the list.
pub open spec fn picked(es: Seq<(Seq<char>, NodeV)>, order: Seq<Seq<char>>) -> Seq<(Seq<char>, NodeV)>
    decreases order.len(),
{
    if order.len() == 0 {
        seq![]
    } else {
        let rest = picked(es, order.drop_last());
        match lookup(es, order.last()) {
            Some(v) => rest.push((order.last(), v)),
            None => rest,
        }
    }
}

/// The entries whose keys are not listed, in their own order.
pub open spec fn unlisted(es: Seq<(Seq<char>, NodeV)>, order: Seq<Seq<char>>) -> Seq<(Seq<char>, NodeV)>
    decreases es.len(),
{
    if es.len() == 0 {
        seq![]
    } else {
        let rest = unlisted(es.drop_last(), order);
        if order.contains(es.last().0) {
            rest
        } else {
            rest.push(es.last())
        }
    }
}

/// A table's entries with the listed fields first, in the order of the list,
/// and then the others as they were.
pub open spec fn ordered_fields(es: Seq<(Seq<char>, NodeV)>, order: Seq<Seq<char>>) -> Seq<(Seq<char>, NodeV)> {
    picked(es, order) + unlisted(es, order)
}

/// Entries set one after another into a table.
pub open spec fn insert_all(acc: Seq<(Seq<char>, NodeV)>, list: Seq<(Seq<char>, NodeV)>) -> Seq<(Seq<char>, NodeV)>
    decreases list.len(),
{
    if list.len() == 0 {
        acc
    } else {
        insert(insert_all(acc, list.drop_last()), list.last().0, list.last().1)
    }
}

pub open spec fn is_tool_key(k: Seq<char>) -> bool {
    starts_with(k, "tool."@)
}

pub open spec fn keyed(es: Seq<(Seq<char>, NodeV)>, tool: bool) -> Seq<(Seq<char>, NodeV)>
    decreases es.len(),
{
    if es.len() == 0 {
        seq![]
    } else {
        let rest = keyed(es.drop_last(), tool);
        if is_tool_key(es.last().0) == tool {
            rest.push(es.last())
        } else {
            rest
        }
    }
}

pub open spec fn first_entry(es: Seq<(Seq<char>, NodeV)>, k: Seq<char>) -> Seq<(Seq<char>, NodeV)> {
    match lookup(es, k) {
        Some(v) => seq![(k, v)],
        None => seq![],
    }
}

pub open spec fn leading_sections() -> Seq<Seq<char>> {
    seq!["project"@, "build-system"@]
}

/// The order in which the top-level entries are written back: `project`,
/// `build-system`, the other entries, then those whose key starts with `tool.`.
pub open spec fn section_sequence(es: Seq<(Seq<char>, NodeV)>) -> Seq<(Seq<char>, NodeV)> {
    let sections = keyed(es, false);
    first_entry(sections, "project"@) + first_entry(sections, "build-system"@)
        + unlisted(sections, leading_sections()) + keyed(es, true)
}

/// The document with the fields of a `[project]` table in the expected order.
pub open spec fn with_ordered_project(doc: NodeV) -> NodeV {
    match doc {
        NodeV::Table { implicit, entries } => match lookup(entries, "project"@) {
            Some(NodeV::Table { implicit: pi, entries: pes }) => NodeV::Table {
                implicit,
                entries: insert(entries, "project"@, NodeV::Table {
                    implicit: pi,
                    entries: ordered_fields(pes, project_field_order()),
                }),
            },
            _ => doc,
        },
        _ => doc,
    }
}

/// The document after the fields of `[project]` and then the top-level
/// sections are put in order.
pub open spec fn reordered(doc: NodeV) -> NodeV {
    match with_ordered_project(doc) {
        NodeV::Table { implicit, entries } => NodeV::Table {
            implicit,
            entries: insert_all(seq![], section_sequence(entries)),
        },
        d => d,
    }
}

/// Whether a key is in a list of keys.
pub fn listed(order: &[&str], k: &str) -> (r: bool)
    ensures
        r == path_view(order@).contains(k@),
{
    let ghost pv = path_view(order@);
    let mut i: usize = 0;
    while i < order.len()
        invariant
            i <= order@.len(),
            pv == path_view(order@),
            pv.len() == order@.len(),
            forall|j: int| 0 <= j < i ==> pv[j] != k@,
        decreases order.len() - i,
    {
        if str_eq(order[i], k) {
            assert(pv[i as int] == k@);
            return true;
        }
        i = i + 1;
    }
    false
}

/// The entries whose keys are not listed, in their own order.
pub fn unlisted_entries(table: &Vec<(String, Node)>, field_order: &[&str]) -> (r: Vec<(String, Node)>)
    ensures
        entries_view(r@) == unlisted(entries_view(table@), path_view(field_order@)),
{
    let ghost es = entries_view(table@);
    let ghost pv = path_view(field_order@);
    proof {
        lemma_entries_view(table@);
    }
    let mut rest: Vec<(String, Node)> = Vec::new();
    let mut k: usize = 0;
    while k < table.len()
        invariant
            k <= table@.len(),
            pv == path_view(field_order@),
            es == entries_view(table@),
            es.len() == table@.len(),
            forall|j: int| 0 <= j < table@.len() ==> #[trigger] es[j] == (table@[j].0@, table@[j].1@),
            entries_view(rest@) == unlisted(es.take(k as int), pv),
        decreases table.len() - k,
    {
        proof {
            assert(es.take(k + 1).drop_last() =~= es.take(k as int));
            assert(es.take(k + 1).last() == es[k as int]);
        }
        if !listed(field_order, table[k].0.as_str()) {
            let ghost before = rest@;
            rest.push((table[k].0.clone(), table[k].1.copy()));
            proof { lemma_entries_view_push(before, rest@.last()); }
        }
        k = k + 1;
    }
    assert(es.take(table@.len() as int) =~= es);
    rest
}

/// Orders the fields of a table: the listed ones first, in the order of the
/// list, then the others as they were.
pub fn order_table_fields(table: &Vec<(String, Node)>, field_order: &[&str]) -> (r: Vec<(String, Node)>)
    ensures
        entries_view(r@) == ordered_fields(entries_view(table@), path_view(field_order@)),
{
    let ghost es = entries_view(table@);
    let ghost pv = path_view(field_order@);
    proof {
        lemma_entries_view(table@);
    }
    let mut out: Vec<(String, Node)> = Vec::new();
    let mut i: usize = 0;
    while i < field_order.len()
        invariant
            i <= field_order@.len(),
            pv == path_view(field_order@),
            pv.len() == field_order@.len(),
            es == entries_view(table@),
            es.len() == table@.len(),
            forall|j: int| 0 <= j < table@.len() ==> #[trigger] es[j] == (table@[j].0@, table@[j].1@),
            entries_view(out@) == picked(es, pv.take(i as int)),
        decreases field_order.len() - i,
    {
        proof {
            assert(pv.take(i + 1).drop_last() =~= pv.take(i as int));
            assert(pv.take(i + 1).last() == field_order@[i as int]@);
            lemma_key_index_lookup(es, field_order@[i as int]@);
        }
        match find_key(table, field_order[i]) {
            Some(j) => {
                let ghost before = out@;
                out.push((field_order[i].to_string(), table[j].1.copy()));
                proof { lemma_entries_view_push(before, out@.last()); }
            },
            None => {},
        }
        i = i + 1;
    }
    assert(pv.take(field_order@.len() as int) =~= pv);
    let ghost first = entries_view(out@);
    let rest = unlisted_entries(table, field_order);
    let mut m: usize = 0;
    let ghost rv = entries_view(rest@);
    proof { lemma_entries_view(rest@); }
    while m < rest.len()
        invariant
            m <= rest@.len(),
            rv == entries_view(rest@),
            rv.len() == rest@.len(),
            entries_view(out@) == first + rv.take(m as int),
        decreases rest.len() - m,
    {
        proof { lemma_entries_view(rest@); }
        let ghost before = out@;
        out.push((rest[m].0.clone(), rest[m].1.copy()));
        proof {
            lemma_entries_view_push(before, out@.last());
            assert(rv.take(m + 1) =~= rv.take(m as int).push(rv[m as int]));
            assert(first + rv.take(m + 1) =~= (first + rv.take(m as int)).push(rv[m as int]));
        }
        m = m + 1;
    }
    assert(rv.take(rest@.len() as int) =~= rv);
    out
}

fn split_by_tool(es: &Vec<(String, Node)>) -> (r: (Vec<(String, Node)>, Vec<(String, Node)>))
    ensures
        entries_view(r.0@) == keyed(entries_view(es@), false),
        entries_view(r.1@) == keyed(entries_view(es@), true),
{
    let ghost ev = entries_view(es@);
    proof { lemma_entries_view(es@); }
    let mut sections: Vec<(String, Node)> = Vec::new();
    let mut tools: Vec<(String, Node)> = Vec::new();
    let mut i: usize = 0;
    while i < es.len()
        invariant
            i <= es@.len(),
            ev == entries_view(es@),
            ev.len() == es@.len(),
            forall|j: int| 0 <= j < es@.len() ==> #[trigger] ev[j] == (es@[j].0@, es@[j].1@),
            entries_view(sections@) == keyed(ev.take(i as int), false),
            entries_view(tools@) == keyed(ev.take(i as int), true),
        decreases es.len() - i,
    {
        proof {
            assert(ev.take(i + 1).drop_last() =~= ev.take(i as int));
            assert(ev.take(i + 1).last() == ev[i as int]);
        }
        let k = chars_of(es[i].0.as_str());
        if starts_with_lit(k.as_slice(), "tool.") {
            let ghost before = tools@;
            tools.push((es[i].0.clone(), es[i].1.copy()));
            proof { lemma_entries_view_push(before, tools@.last()); }
        } else {
            let ghost before = sections@;
            sections.push((es[i].0.clone(), es[i].1.copy()));
            proof { lemma_entries_view_push(before, sections@.last()); }
        }
        i = i + 1;
    }
    assert(ev.take(es@.len() as int) =~= ev);
    (sections, tools)
}

fn insert_each(acc: &mut Vec<(String, Node)>, list: &Vec<(String, Node)>)
    ensures
        entries_view(final(acc)@) == insert_all(entries_view(old(acc)@), entries_view(list@)),
{
    let ghost lv = entries_view(list@);
    let ghost a0 = entries_view(acc@);
    proof { lemma_entries_view(list@); }
    let mut i: usize = 0;
    while i < list.len()
        invariant
            i <= list@.len(),
            lv == entries_view(list@),
            lv.len() == list@.len(),
            forall|j: int| 0 <= j < list@.len() ==> #[trigger] lv[j] == (list@[j].0@, list@[j].1@),
            entries_view(acc@) == insert_all(a0, lv.take(i as int)),
        decreases list.len() - i,
    {
        proof {
            assert(lv.take(i + 1).drop_last() =~= lv.take(i as int));
            assert(lv.take(i + 1).last() == lv[i as int]);
        }
        insert_entry(acc, list[i].0.clone(), list[i].1.copy());
        i = i + 1;
    }
    assert(lv.take(list@.len() as int) =~= lv);
}

fn first_entry_vec(es: &Vec<(String, Node)>, key: &str) -> (r: Vec<(String, Node)>)
    ensures
        entries_view(r@) == first_entry(entries_view(es@), key@),
{
    proof {
        lemma_entries_view(es@);
        lemma_key_index_lookup(entries_view(es@), key@);
    }
    let mut r: Vec<(String, Node)> = Vec::new();
    match find_key(es, key) {
        Some(j) => {
            r.push((key.to_string(), es[j].1.copy()));
            proof {
                lemma_entries_view(r@);
                assert(entries_view(r@) =~= first_entry(entries_view(es@), key@));
            }
        },
        None => {
            assert(entries_view(r@) =~= first_entry(entries_view(es@), key@));
        },
    }
    r
}

/// Reorders a document: the fields of `[project]` in the expected order, then
/// the sections `project`, `build-system`, the others, and last those whose
/// key starts with `tool.`.
pub fn reorder_toml_sections(doc: &mut Node)
    ensures
        final(doc)@ == reordered(old(doc)@),
{
    let mut taken = Node::Other(String::new());
    std::mem::swap(&mut taken, doc);
    match taken {
        Node::Table { implicit, entries } => {
            let mut entries = entries;
            proof {
                lemma_entries_view(entries@);
                lemma_key_index_lookup(entries_view(entries@), "project"@);
            }
            match find_key(&entries, "project") {
                Some(j) => {
                    let ordered: Option<Node> = match &entries[j].1 {
                        Node::Table { implicit: pi, entries: pes } => {
                            let mut order: Vec<&str> = Vec::new();
                            order.push("name");
                            order.push("version");
                            order.push("description");
                            order.push("authors");
                            order.push("readme");
                            order.push("requires-python");
                            order.push("dependencies");
                            order.push("classifiers");
                            order.push("optional-dependencies");
                            order.push("scripts");
                            order.push("urls");
                            assert(path_view(order@) =~= project_field_order());
                            let fields = order_table_fields(pes, order.as_slice());
                            Some(Node::Table { implicit: *pi, entries: fields })
                        },
                        _ => None,
                    };
                    match ordered {
                        Some(o) => {
                            insert_entry(&mut entries, "project".to_string(), o);
                        },
                        None => {},
                    }
                },
                None => {},
            }
            let (sections, tools) = split_by_tool(&entries);
            let mut out: Vec<(String, Node)> = Vec::new();
            assert(entries_view(out@) =~= seq![]);
            let p = first_entry_vec(&sections, "project");
            let b = first_entry_vec(&sections, "build-system");
            let mut lead: Vec<&str> = Vec::new();
            lead.push("project");
            lead.push("build-system");
            assert(path_view(lead@) =~= leading_sections());
            let others = unlisted_entries(&sections, lead.as_slice());
            insert_each(&mut out, &p);
            insert_each(&mut out, &b);
            insert_each(&mut out, &others);
            insert_each(&mut out, &tools);
            proof {
                lemma_insert_all_concat(seq![], entries_view(p@), entries_view(b@));
                lemma_insert_all_concat(seq![], entries_view(p@) + entries_view(b@), entries_view(others@));
                lemma_insert_all_concat(seq![], entries_view(p@) + entries_view(b@) + entries_view(others@), entries_view(tools@));
            }
            *doc = Node::Table { implicit, entries: out };
        },
        other => {
            *doc = other;
        },
    }
}

pub proof fn lemma_insert_all_concat(acc: Seq<(Seq<char>, NodeV)>, a: Seq<(Seq<char>, NodeV)>, b: Seq<(Seq<char>, NodeV)>)
    ensures
        insert_all(insert_all(acc, a), b) == insert_all(acc, a + b),
    decreases b.len(),
{
    if b.len() > 0 {
        lemma_insert_all_concat(acc, a, b.drop_last());
        assert((a + b).drop_last() =~= a + b.drop_last());
        assert((a + b).last() == b.last());
    } else {
        assert(a + b =~= a);
    }
}


// ----------------------------------------------------------------------
// What a cleanup leaves
// ----------------------------------------------------------------------

/// Whether no table, at any depth of tables, holds an entry that holds nothing.
pub open spec fn no_empty_sections(n: NodeV) -> bool
    decreases n,
{
    match n {
        NodeV::Table { entries, .. } => no_empty_entries(entries),
        _ => true,
    }
}

pub open spec fn no_empty_entries(es: Seq<(Seq<char>, NodeV)>) -> bool
    decreases es,
{
    if es.len() == 0 {
        true
    } else {
        no_empty_entries(es.drop_last()) && !is_empty(es.last().1) && no_empty_sections(es.last().1)
    }
}

/// After a cleanup no section holds nothing, and a second cleanup changes
/// nothing.
pub proof fn lemma_clean(n: NodeV)
    ensures
        no_empty_sections(clean(n)),
        clean(clean(n)) == clean(n),
    decreases n,
{
    match n {
        NodeV::Table { implicit, entries } => {
            lemma_clean_entries(entries);
        },
        _ => {},
    }
}

pub proof fn lemma_clean_entries(es: Seq<(Seq<char>, NodeV)>)
    ensures
        no_empty_entries(clean_entries(es)),
        clean_entries(clean_entries(es)) == clean_entries(es),
    decreases es,
{
    if es.len() > 0 {
        let rest = clean_entries(es.drop_last());
        let k = es.last().0;
        let v = es.last().1;
        lemma_clean_entries(es.drop_last());
        lemma_clean(v);
        let c = clean(v);
        if !is_empty(c) {
            let r = rest.push((k, c));
            assert(r.drop_last() =~= rest);
            assert(clean_entries(r) == clean_entries(rest).push((k, clean(c))));
        }
    }
}

/// The sections of a document reordered: `project` first, where there is one.
pub proof fn lemma_reordered_project_first(doc: NodeV)
    requires
        doc is Table,
        lookup(doc->entries, "project"@) is Some,
    ensures
        reordered(doc) is Table,
        reordered(doc)->entries.len() > 0,
        reordered(doc)->entries[0].0 == "project"@,
{
    let d = with_ordered_project(doc);
    let es = d->entries;
    match lookup(doc->entries, "project"@) {
        Some(NodeV::Table { implicit: pi, entries: pes }) => {
            lemma_lookup_insert(doc->entries, "project"@, NodeV::Table {
                implicit: pi,
                entries: ordered_fields(pes, project_field_order()),
            }, "project"@);
        },
        _ => {},
    }
    assert(lookup(es, "project"@) is Some);
    let sections = keyed(es, false);
    assert(!is_tool_key("project"@)) by {
        reveal_strlit("project");
        reveal_strlit("tool.");
        assert("project"@.subrange(0, 5) != "tool."@) by {
            assert("project"@.subrange(0, 5)[0] == 'p');
        }
    }
    lemma_keyed_lookup(es, "project"@);
    let seq0 = section_sequence(es);
    assert(first_entry(sections, "project"@).len() == 1);
    assert(seq0[0].0 == "project"@);
    lemma_insert_all_first(seq0);
}

/// A key that is not `tool.`-prefixed is found among the other sections as in
/// the whole table.
pub proof fn lemma_keyed_lookup(es: Seq<(Seq<char>, NodeV)>, k: Seq<char>)
    requires
        !is_tool_key(k),
    ensures
        lookup(keyed(es, false), k) == lookup(es, k),
    decreases es.len(),
{
    if es.len() > 0 {
        lemma_keyed_lookup(es.drop_last(), k);
        lemma_lookup_push(es.drop_last(), es.last(), k);
        let rest = keyed(es.drop_last(), false);
        if !is_tool_key(es.last().0) {
            lemma_lookup_push(rest, es.last(), k);
        } else {
            assert(es.last().0 != k);
        }
        assert(es.drop_last().push(es.last()) =~= es);
    }
}

/// Looking up a key after an entry is pushed.
pub proof fn lemma_lookup_push(es: Seq<(Seq<char>, NodeV)>, e: (Seq<char>, NodeV), k: Seq<char>)
    ensures
        lookup(es.push(e), k) == (match lookup(es, k) {
            Some(v) => Some(v),
            None => if e.0 == k { Some(e.1) } else { None },
        }),
    decreases es.len(),
{
    if es.len() > 0 {
        assert(es.push(e).drop_first() =~= es.drop_first().push(e));
        assert(es.push(e)[0] == es[0]);
        lemma_lookup_push(es.drop_first(), e, k);
    } else {
        assert(es.push(e).drop_first() =~= Seq::<(Seq<char>, NodeV)>::empty());
        assert(es.push(e)[0] == e);
        assert(lookup(es.push(e).drop_first(), k) is None);
    }
}

/// Entries set one after another into an empty table start with the first
/// one's key.
pub proof fn lemma_insert_all_first(list: Seq<(Seq<char>, NodeV)>)
    requires
        list.len() > 0,
    ensures
        insert_all(seq![], list).len() > 0,
        insert_all(seq![], list)[0].0 == list[0].0,
    decreases list.len(),
{
    if list.len() == 1 {
        assert(list.drop_last() =~= Seq::<(Seq<char>, NodeV)>::empty());
        lemma_key_index_none(Seq::<(Seq<char>, NodeV)>::empty(), list[0].0);
    } else {
        lemma_insert_all_first(list.drop_last());
        let acc = insert_all(seq![], list.drop_last());
        lemma_key_index_lookup(acc, list.last().0);
    }
}

} // verus!
