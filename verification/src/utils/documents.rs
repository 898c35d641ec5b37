//! TOML and JSON texts read into `Node` documents, and documents written back
//! as TOML text.
use vstd::prelude::*;
use crate::text::{push_str, str_eq};
use crate::utils::toml::{
    clean, cleanup_empty_sections, entries_view, lemma_entries_view, lemma_nodes_view, lookup, insert_all, lemma_entries_view_push, lemma_nodes_view_push, node_view, nodes_view,
    Node, NodeV,
};

verus! {

#[verifier::external_type_specification]
#[verifier::external_body]
pub struct ExTomlItem(toml_edit::Item);

#[verifier::external_type_specification]
#[verifier::external_body]
pub struct ExTomlDocument(toml_edit::DocumentMut);

#[verifier::external_type_specification]
#[verifier::external_body]
pub struct ExTomlValue(toml::Value);

#[verifier::external_type_specification]
#[verifier::external_body]
pub struct ExJsonValue(serde_json::Value);

// ----------------------------------------------------------------------
// One level of a parsed document
// ----------------------------------------------------------------------

/// One level of a parsed document: a scalar, or the children of an array or
/// a table, each still in the form of the parser; `Value` stands for a value
/// whose kind is told apart in a second step.
pub enum Parts<T> {
    Str(String),
    Other(String),
    Array(Vec<T>),
    InlineTable(Vec<(String, T)>),
    Table(bool, Vec<(String, T)>),
    ArrayOfTables(Vec<T>),
    Value,
}

/// The children `v` are modelled by `xs`, one by one.
pub open spec fn items_agree<T>(v: Seq<T>, xs: Seq<NodeV>, f: spec_fn(T) -> NodeV) -> bool {
    &&& v.len() == xs.len()
    &&& forall|i: int| 0 <= i < v.len() ==> f(#[trigger] v[i]) == xs[i]
}

/// The keyed children `es` are modelled by `xs`, one by one, keys included.
pub open spec fn entries_agree<T>(es: Seq<(String, T)>, xs: Seq<(Seq<char>, NodeV)>, f: spec_fn(T) -> NodeV) -> bool {
    &&& es.len() == xs.len()
    &&& forall|i: int| 0 <= i < es.len() ==> (#[trigger] es[i]).0@ == xs[i].0 && f(es[i].1) == xs[i].1
}

/// One level `p` of a parsed value agrees with its model `n`.
pub open spec fn parts_agree<T>(p: Parts<T>, n: NodeV, f: spec_fn(T) -> NodeV) -> bool {
    match p {
        Parts::Str(s) => n == NodeV::Str(s@),
        Parts::Other(s) => n == NodeV::Other(s@),
        Parts::Array(v) => n matches NodeV::Array(xs) && items_agree(v@, xs, f),
        Parts::ArrayOfTables(v) => n matches NodeV::ArrayOfTables(xs) && items_agree(v@, xs, f),
        Parts::InlineTable(es) => n matches NodeV::InlineTable(xs) && entries_agree(es@, xs, f),
        Parts::Table(imp, es) => n matches NodeV::Table { implicit, entries } && implicit == imp
            && entries_agree(es@, entries, f),
        Parts::Value => n is Str || n is Other || n is Array || n is InlineTable,
    }
}

// ----------------------------------------------------------------------
// TOML with toml_edit
// ----------------------------------------------------------------------

/// What `toml_edit` makes of a TOML text: the document, modelled as
/// `toml_item` models its root item, or the text of the parse error.
pub uninterp spec fn toml_document(text: Seq<char>) -> Result<NodeV, Seq<char>>;

/// A `toml_edit` item as the library models it: a table by its `implicit`
/// flag and the entries that `Table::iter` gives, in order; an array of tables
/// by its tables; a string value by its content; an array or inline table
/// value by its elements; any other value by its text without decoration.
pub uninterp spec fn toml_item(item: toml_edit::Item) -> NodeV;

pub open spec fn toml_item_fn() -> spec_fn(toml_edit::Item) -> NodeV {
    |i: toml_edit::Item| toml_item(i)
}

/// The item of a `toml_edit` table under a key, as `Item::as_table` and
/// `Table::get` give it: none for an item that is not a table or a key it
/// does not hold.
pub uninterp spec fn toml_entry(item: toml_edit::Item, key: Seq<char>) -> Option<toml_edit::Item>;

/// The item at a path of keys through tables.
pub open spec fn toml_item_at(item: toml_edit::Item, path: Seq<Seq<char>>) -> Option<toml_edit::Item>
    decreases path.len(),
{
    if path.len() == 0 {
        Some(item)
    } else {
        match toml_entry(item, path[0]) {
            Some(c) => toml_item_at(c, path.drop_first()),
            None => None,
        }
    }
}

/// `Item::as_table` and `Table::get`, cloned: the item under a key of a
/// table item; the model of a table holds the key exactly where it is found,
/// with the model of the item found.
#[verifier::external_body]
fn toml_table_get(item: &toml_edit::Item, key: &str) -> (r: Option<toml_edit::Item>)
    ensures
        r == toml_entry(*item, key@),
        r matches Some(x) ==> toml_item(*item) is Table && lookup(toml_item(*item)->entries, key@) == Some(
            toml_item(x),
        ),
        r is None ==> !(toml_item(*item) is Table && lookup(toml_item(*item)->entries, key@) is Some),
{
    item.as_table().and_then(|t| t.get(key)).cloned()
}

/// `Clone::clone` of an item: an item equal to it in every part.
#[verifier::external_body]
fn toml_item_copy(item: &toml_edit::Item) -> (r: toml_edit::Item)
    ensures
        r == *item,
{
    item.clone()
}

/// `str::parse::<toml_edit::DocumentMut>`: the root item of the document (a
/// table), or the `Display` text of the error; the contract claims only that
/// the outcome is the one named `toml_document`.
#[verifier::external_body]
fn parse_toml_item(text: &str) -> (r: Result<toml_edit::Item, String>)
    ensures
        match toml_document(text@) {
            Ok(d) => r matches Ok(i) && toml_item(i) == d && d is Table,
            Err(m) => r matches Err(e) && e@ == m,
        },
{
    match text.parse::<toml_edit::DocumentMut>() {
        Ok(d) => Ok(d.into_item()),
        Err(e) => Err(e.to_string()),
    }
}

/// Tells the kinds of `toml_edit::Item` apart: a table (`Table::is_implicit`
/// and the entries of `Table::iter`, cloned), an array of tables (its tables,
/// cloned as items), `Value` for a value, an empty text for `Item::None`.
#[verifier::external_body]
fn toml_item_parts(item: &toml_edit::Item) -> (r: Parts<toml_edit::Item>)
    ensures
        parts_agree(r, toml_item(*item), toml_item_fn()),
{
    match item {
        toml_edit::Item::Table(t) => Parts::Table(t.is_implicit(), t.iter().map(|(k, v)| (k.to_string(), v.clone())).collect()),
        toml_edit::Item::ArrayOfTables(a) => Parts::ArrayOfTables(a.iter().map(|t| toml_edit::Item::Table(t.clone())).collect()),
        toml_edit::Item::Value(_) => Parts::Value,
        toml_edit::Item::None => Parts::Other(String::new()),
    }
}

/// Tells the kinds of a `toml_edit::Value` item apart: a string (its
/// `value`), an array (its elements, cloned as items), an inline table (the
/// entries of `InlineTable::iter`, cloned as items), any other value as the
/// `Display` text of `decorated("", "")`.
#[verifier::external_body]
fn toml_value_parts(item: &toml_edit::Item) -> (r: Parts<toml_edit::Item>)
    requires
        !(toml_item(*item) is Table || toml_item(*item) is ArrayOfTables),
    ensures
        parts_agree(r, toml_item(*item), toml_item_fn()),
        !(r is Value),
{
    match item.as_value() {
        Some(toml_edit::Value::String(s)) => Parts::Str(s.value().clone()),
        Some(toml_edit::Value::Array(a)) => Parts::Array(a.iter().map(|v| toml_edit::Item::Value(v.clone())).collect()),
        Some(toml_edit::Value::InlineTable(t)) => Parts::InlineTable(t.iter().map(|(k, v)| (k.to_string(), toml_edit::Item::Value(v.clone()))).collect()),
        Some(v) => Parts::Other(v.clone().decorated("", "").to_string()),
        None => Parts::Other(String::new()),
    }
}

proof fn lemma_item_child(n: NodeV, xs: Seq<NodeV>, i: int)
    requires
        n == NodeV::Array(xs) || n == NodeV::ArrayOfTables(xs),
        0 <= i < xs.len(),
    ensures
        decreases_to!(n => xs[i]),
{
    match n {
        NodeV::Array(v) => {
            assert(decreases_to!(n => n->Array_0));
            assert(decreases_to!(v => v[i]));
        },
        NodeV::ArrayOfTables(v) => {
            assert(decreases_to!(n => n->ArrayOfTables_0));
            assert(decreases_to!(v => v[i]));
        },
        _ => {},
    }
}

proof fn lemma_entry_child(n: NodeV, xs: Seq<(Seq<char>, NodeV)>, i: int)
    requires
        n == NodeV::InlineTable(xs) || (n is Table && n->entries == xs),
        0 <= i < xs.len(),
    ensures
        decreases_to!(n => xs[i].1),
{
    match n {
        NodeV::InlineTable(v) => {
            assert(decreases_to!(n => n->InlineTable_0));
            assert(decreases_to!(v => v[i]));
            assert(decreases_to!(v[i] => v[i].1));
        },
        NodeV::Table { implicit, entries } => {
            assert(decreases_to!(n => n->entries));
            assert(decreases_to!(entries => entries[i]));
            assert(decreases_to!(entries[i] => entries[i].1));
        },
        _ => {},
    }
}

/// The document model of a `toml_edit` item.
pub fn toml_item_node(item: &toml_edit::Item) -> (r: Node)
    ensures
        r@ == toml_item(*item),
    decreases toml_item(*item),
{
    let ghost n = toml_item(*item);
    let first = toml_item_parts(item);
    let parts = match first {
        Parts::Value => toml_value_parts(item),
        p => p,
    };
    match parts {
        Parts::Str(s) => Node::Str(s),
        Parts::Other(s) => Node::Other(s),
        Parts::Array(v) => {
            let ghost xs = n->Array_0;
            let mut out: Vec<Node> = Vec::new();
            let mut i: usize = 0;
            while i < v.len()
                invariant
                    i <= v@.len(),
                    n == toml_item(*item),
                    n == NodeV::Array(xs),
                    items_agree(v@, xs, toml_item_fn()),
                    nodes_view(out@) == xs.take(i as int),
                decreases v.len() - i,
            {
                proof { lemma_item_child(n, xs, i as int); }
                let c = toml_item_node(&v[i]);
                proof {
                    lemma_nodes_view_push(out@, c);
                    assert(xs.take(i as int).push(xs[i as int]) =~= xs.take(i + 1));
                }
                out.push(c);
                i = i + 1;
            }
            assert(xs.take(v@.len() as int) =~= xs);
            Node::Array(out)
        },
        Parts::ArrayOfTables(v) => {
            let ghost xs = n->ArrayOfTables_0;
            let mut out: Vec<Node> = Vec::new();
            let mut i: usize = 0;
            while i < v.len()
                invariant
                    i <= v@.len(),
                    n == toml_item(*item),
                    n == NodeV::ArrayOfTables(xs),
                    items_agree(v@, xs, toml_item_fn()),
                    nodes_view(out@) == xs.take(i as int),
                decreases v.len() - i,
            {
                proof { lemma_item_child(n, xs, i as int); }
                let c = toml_item_node(&v[i]);
                proof {
                    lemma_nodes_view_push(out@, c);
                    assert(xs.take(i as int).push(xs[i as int]) =~= xs.take(i + 1));
                }
                out.push(c);
                i = i + 1;
            }
            assert(xs.take(v@.len() as int) =~= xs);
            Node::ArrayOfTables(out)
        },
        Parts::InlineTable(es) => {
            let ghost xs = n->InlineTable_0;
            let mut out: Vec<(String, Node)> = Vec::new();
            let mut i: usize = 0;
            while i < es.len()
                invariant
                    i <= es@.len(),
                    n == toml_item(*item),
                    n == NodeV::InlineTable(xs),
                    entries_agree(es@, xs, toml_item_fn()),
                    entries_view(out@) == xs.take(i as int),
                decreases es.len() - i,
            {
                proof { lemma_entry_child(n, xs, i as int); }
                let c = toml_item_node(&es[i].1);
                let k = es[i].0.clone();
                proof {
                    lemma_entries_view_push(out@, (k, c));
                    assert(xs.take(i as int).push(xs[i as int]) =~= xs.take(i + 1));
                }
                out.push((k, c));
                i = i + 1;
            }
            assert(xs.take(es@.len() as int) =~= xs);
            Node::InlineTable(out)
        },
        Parts::Table(implicit, es) => {
            let ghost xs = n->entries;
            let mut out: Vec<(String, Node)> = Vec::new();
            let mut i: usize = 0;
            while i < es.len()
                invariant
                    i <= es@.len(),
                    n == toml_item(*item),
                    n is Table,
                    n->entries == xs,
                    entries_agree(es@, xs, toml_item_fn()),
                    entries_view(out@) == xs.take(i as int),
                decreases es.len() - i,
            {
                proof { lemma_entry_child(n, xs, i as int); }
                let c = toml_item_node(&es[i].1);
                let k = es[i].0.clone();
                proof {
                    lemma_entries_view_push(out@, (k, c));
                    assert(xs.take(i as int).push(xs[i as int]) =~= xs.take(i + 1));
                }
                out.push((k, c));
                i = i + 1;
            }
            assert(xs.take(es@.len() as int) =~= xs);
            Node::Table { implicit, entries: out }
        },
        Parts::Value => {
            proof { assert(false); }
            Node::Other(String::new())
        },
    }
}

/// Parses a TOML text into a document, or gives the text of the error.
pub fn parse_toml(text: &str) -> (r: Result<Node, String>)
    ensures
        match toml_document(text@) {
            Ok(d) => r matches Ok(n) && n@ == d,
            Err(m) => r matches Err(e) && e@ == m,
        },
        r matches Ok(n) ==> n@ is Table,
{
    match parse_toml_item(text) {
        Ok(i) => Ok(toml_item_node(&i)),
        Err(e) => Err(e),
    }
}

// ----------------------------------------------------------------------
// JSON with serde_json
// ----------------------------------------------------------------------

/// What `serde_json::from_str` makes of a text: the value, modelled as `json_value`
/// models it, or the text of the parse error.
pub uninterp spec fn json_document(text: Seq<char>) -> Result<NodeV, Seq<char>>;

/// A `serde_json::Value` as the library models it: a string by its content, an
/// array by its elements, an object by its entries in the order its
/// iterator gives them (a table `[..]` that is not implicit), any other
/// value by its `Display` text.
pub uninterp spec fn json_value(v: serde_json::Value) -> NodeV;

pub open spec fn json_value_fn() -> spec_fn(serde_json::Value) -> NodeV {
    |v: serde_json::Value| json_value(v)
}

/// `serde_json::from_str::<serde_json::Value>`: the value, or the `Display` text of the error;
/// the contract claims only that the outcome is the one named `json_document`.
#[verifier::external_body]
fn parse_json_value(text: &str) -> (r: Result<serde_json::Value, String>)
    ensures
        match json_document(text@) {
            Ok(d) => r matches Ok(v) && json_value(v) == d,
            Err(m) => r matches Err(e) && e@ == m,
        },
{
    match serde_json::from_str::<serde_json::Value>(text) {
        Ok(v) => Ok(v),
        Err(e) => Err(e.to_string()),
    }
}

/// Tells the kinds of `serde_json::Value` apart: a string, an array (its elements,
/// cloned), an object (its entries, cloned), any other value as its
/// `Display` text.
#[verifier::external_body]
fn json_parts(v: &serde_json::Value) -> (r: Parts<serde_json::Value>)
    ensures
        parts_agree(r, json_value(*v), json_value_fn()),
        r is Str || r is Other || r is Array || r matches Parts::Table(false, _),
{
    match v {
        serde_json::Value::String(s) => Parts::Str(s.clone()),
        serde_json::Value::Array(a) => Parts::Array(a.clone()),
        serde_json::Value::Object(t) => Parts::Table(false, t.iter().map(|(k, x)| (k.clone(), x.clone())).collect()),
        other => Parts::Other(other.to_string()),
    }
}

/// The document model of a `serde_json::Value`.
pub fn json_value_node(v: &serde_json::Value) -> (r: Node)
    ensures
        r@ == json_value(*v),
    decreases json_value(*v),
{
    let ghost n = json_value(*v);
    match json_parts(v) {
        Parts::Str(s) => Node::Str(s),
        Parts::Other(s) => Node::Other(s),
        Parts::Array(a) => {
            let ghost xs = n->Array_0;
            let mut out: Vec<Node> = Vec::new();
            let mut i: usize = 0;
            while i < a.len()
                invariant
                    i <= a@.len(),
                    n == json_value(*v),
                    n == NodeV::Array(xs),
                    items_agree(a@, xs, json_value_fn()),
                    nodes_view(out@) == xs.take(i as int),
                decreases a.len() - i,
            {
                proof { lemma_item_child(n, xs, i as int); }
                let c = json_value_node(&a[i]);
                proof {
                    lemma_nodes_view_push(out@, c);
                    assert(xs.take(i as int).push(xs[i as int]) =~= xs.take(i + 1));
                }
                out.push(c);
                i = i + 1;
            }
            assert(xs.take(a@.len() as int) =~= xs);
            Node::Array(out)
        },
        Parts::Table(implicit, es) => {
            let ghost xs = n->entries;
            let mut out: Vec<(String, Node)> = Vec::new();
            let mut i: usize = 0;
            while i < es.len()
                invariant
                    i <= es@.len(),
                    n == json_value(*v),
                    n is Table,
                    n->entries == xs,
                    entries_agree(es@, xs, json_value_fn()),
                    entries_view(out@) == xs.take(i as int),
                decreases es.len() - i,
            {
                proof { lemma_entry_child(n, xs, i as int); }
                let c = json_value_node(&es[i].1);
                let k = es[i].0.clone();
                proof {
                    lemma_entries_view_push(out@, (k, c));
                    assert(xs.take(i as int).push(xs[i as int]) =~= xs.take(i + 1));
                }
                out.push((k, c));
                i = i + 1;
            }
            assert(xs.take(es@.len() as int) =~= xs);
            Node::Table { implicit, entries: out }
        },
        _ => {
            proof { assert(false); }
            Node::Other(String::new())
        },
    }
}

/// Parses a text with `serde_json::from_str` into a document, or gives the text of the
/// error.
pub fn parse_json(text: &str) -> (r: Result<Node, String>)
    ensures
        match json_document(text@) {
            Ok(d) => r matches Ok(n) && n@ == d,
            Err(m) => r matches Err(e) && e@ == m,
        },
{
    match parse_json_value(text) {
        Ok(v) => Ok(json_value_node(&v)),
        Err(e) => Err(e),
    }
}

// ----------------------------------------------------------------------
// TOML with the toml crate
// ----------------------------------------------------------------------

/// What `toml::from_str` makes of a text: the value, modelled as `toml_value`
/// models it, or the text of the parse error.
pub uninterp spec fn toml_value_document(text: Seq<char>) -> Result<NodeV, Seq<char>>;

/// A `toml::Value` as the library models it: a string by its content, an
/// array by its elements, a table by its entries in the order its
/// iterator gives them (a table `[..]` that is not implicit), any other
/// value by its `Display` text.
pub uninterp spec fn toml_value(v: toml::Value) -> NodeV;

pub open spec fn toml_value_fn() -> spec_fn(toml::Value) -> NodeV {
    |v: toml::Value| toml_value(v)
}

/// `toml::from_str::<toml::Value>`: the value, or the `Display` text of the error;
/// the contract claims only that the outcome is the one named `toml_value_document`.
#[verifier::external_body]
fn parse_toml_value(text: &str) -> (r: Result<toml::Value, String>)
    ensures
        match toml_value_document(text@) {
            Ok(d) => r matches Ok(v) && toml_value(v) == d,
            Err(m) => r matches Err(e) && e@ == m,
        },
{
    match toml::from_str::<toml::Value>(text) {
        Ok(v) => Ok(v),
        Err(e) => Err(e.to_string()),
    }
}

/// Tells the kinds of `toml::Value` apart: a string, an array (its elements,
/// cloned), a table (its entries, cloned), any other value as its
/// `Display` text.
#[verifier::external_body]
fn toml_value_parts_of(v: &toml::Value) -> (r: Parts<toml::Value>)
    ensures
        parts_agree(r, toml_value(*v), toml_value_fn()),
        r is Str || r is Other || r is Array || r matches Parts::Table(false, _),
{
    match v {
        toml::Value::String(s) => Parts::Str(s.clone()),
        toml::Value::Array(a) => Parts::Array(a.clone()),
        toml::Value::Table(t) => Parts::Table(false, t.iter().map(|(k, x)| (k.clone(), x.clone())).collect()),
        other => Parts::Other(other.to_string()),
    }
}

/// The document model of a `toml::Value`.
pub fn toml_value_node(v: &toml::Value) -> (r: Node)
    ensures
        r@ == toml_value(*v),
    decreases toml_value(*v),
{
    let ghost n = toml_value(*v);
    match toml_value_parts_of(v) {
        Parts::Str(s) => Node::Str(s),
        Parts::Other(s) => Node::Other(s),
        Parts::Array(a) => {
            let ghost xs = n->Array_0;
            let mut out: Vec<Node> = Vec::new();
            let mut i: usize = 0;
            while i < a.len()
                invariant
                    i <= a@.len(),
                    n == toml_value(*v),
                    n == NodeV::Array(xs),
                    items_agree(a@, xs, toml_value_fn()),
                    nodes_view(out@) == xs.take(i as int),
                decreases a.len() - i,
            {
                proof { lemma_item_child(n, xs, i as int); }
                let c = toml_value_node(&a[i]);
                proof {
                    lemma_nodes_view_push(out@, c);
                    assert(xs.take(i as int).push(xs[i as int]) =~= xs.take(i + 1));
                }
                out.push(c);
                i = i + 1;
            }
            assert(xs.take(a@.len() as int) =~= xs);
            Node::Array(out)
        },
        Parts::Table(implicit, es) => {
            let ghost xs = n->entries;
            let mut out: Vec<(String, Node)> = Vec::new();
            let mut i: usize = 0;
            while i < es.len()
                invariant
                    i <= es@.len(),
                    n == toml_value(*v),
                    n is Table,
                    n->entries == xs,
                    entries_agree(es@, xs, toml_value_fn()),
                    entries_view(out@) == xs.take(i as int),
                decreases es.len() - i,
            {
                proof { lemma_entry_child(n, xs, i as int); }
                let c = toml_value_node(&es[i].1);
                let k = es[i].0.clone();
                proof {
                    lemma_entries_view_push(out@, (k, c));
                    assert(xs.take(i as int).push(xs[i as int]) =~= xs.take(i + 1));
                }
                out.push((k, c));
                i = i + 1;
            }
            assert(xs.take(es@.len() as int) =~= xs);
            Node::Table { implicit, entries: out }
        },
        _ => {
            proof { assert(false); }
            Node::Other(String::new())
        },
    }
}

/// Parses a text with `toml::from_str` into a document, or gives the text of the
/// error.
pub fn parse_toml_value_text(text: &str) -> (r: Result<Node, String>)
    ensures
        match toml_value_document(text@) {
            Ok(d) => r matches Ok(n) && n@ == d,
            Err(m) => r matches Err(e) && e@ == m,
        },
{
    match parse_toml_value(text) {
        Ok(v) => Ok(toml_value_node(&v)),
        Err(e) => Err(e),
    }
}

// ----------------------------------------------------------------------
// Writing TOML with toml_edit
// ----------------------------------------------------------------------

/// The model of what a value's text parses to with `toml_edit::Value`, or of
/// the text as a string value where it does not parse.
pub uninterp spec fn toml_raw_value(raw: Seq<char>) -> NodeV;

/// The `Display` text of a `toml_edit::DocumentMut` whose root is the item.
pub uninterp spec fn toml_item_text(root: toml_edit::Item) -> Seq<char>;

/// The model of a `toml_edit` item that is not `Item::None`.
pub open spec fn some_item(n: NodeV) -> bool {
    n != NodeV::Other(seq![])
}

/// The model of a `toml_edit` value item.
pub open spec fn value_item(n: NodeV) -> bool {
    some_item(n) && (n is Str || n is Other || n is Array || n is InlineTable)
}

pub open spec fn item_models(v: Seq<toml_edit::Item>) -> Seq<NodeV> {
    Seq::new(v.len(), |i: int| toml_item(v[i]))
}

/// No later entry has the key of entry `i`.
pub open spec fn last_of_key(v: Seq<(String, toml_edit::Item)>, i: int) -> bool {
    forall|j: int| i < j < v.len() ==> (#[trigger] v[j]).0@ != v[i].0@
}

pub open spec fn keyed_models(v: Seq<(String, toml_edit::Item)>) -> Seq<(Seq<char>, NodeV)> {
    Seq::new(v.len(), |i: int| (v[i].0@, toml_item(v[i].1)))
}

/// A string as a `toml_edit` value item (`toml_edit::Value::from`).
#[verifier::external_body]
fn toml_string_item(s: &str) -> (r: toml_edit::Item)
    ensures
        toml_item(r) == NodeV::Str(s@),
{
    toml_edit::Item::Value(toml_edit::Value::from(s))
}

/// A value's text as a `toml_edit` value item: `str::parse::<toml_edit::Value>`,
/// or `toml_edit::Value::from` of the text where it does not parse; the
/// contract claims that the model is the one named `toml_raw_value`, and that
/// it is a value whose text is not empty.
#[verifier::external_body]
fn toml_raw_item(raw: &str) -> (r: toml_edit::Item)
    ensures
        toml_item(r) == toml_raw_value(raw@),
        value_item(toml_item(r)),
{
    match raw.parse::<toml_edit::Value>() {
        Ok(v) => toml_edit::Item::Value(v),
        Err(_) => toml_edit::Item::Value(toml_edit::Value::from(raw)),
    }
}

/// Value items collected into a `toml_edit::Array` (`FromIterator`), as an
/// item.
#[verifier::external_body]
fn toml_array_item(items: Vec<toml_edit::Item>) -> (r: toml_edit::Item)
    requires
        forall|i: int| 0 <= i < items.len() ==> value_item(#[trigger] toml_item(items@[i])),
    ensures
        toml_item(r) == NodeV::Array(item_models(items@)),
{
    toml_edit::Item::Value(toml_edit::Value::Array(items.into_iter().map(|i| i.into_value().unwrap()).collect()))
}

/// Keyed value items collected into a `toml_edit::InlineTable`
/// (`FromIterator`: a repeated key keeps its place and takes the later
/// value), as an item.
#[verifier::external_body]
fn toml_inline_table_item(entries: Vec<(String, toml_edit::Item)>) -> (r: toml_edit::Item)
    requires
        forall|i: int| 0 <= i < entries.len() ==> value_item(#[trigger] toml_item(entries@[i].1)),
    ensures
        toml_item(r) == NodeV::InlineTable(insert_all(seq![], keyed_models(entries@))),
{
    toml_edit::Item::Value(toml_edit::Value::InlineTable(entries.into_iter().map(|(k, i)| (k, i.into_value().unwrap())).collect()))
}

/// Keyed items collected into a `toml_edit::Table` (`FromIterator`: a
/// repeated key keeps its place and takes the later item), with
/// `Table::set_implicit`, as an item.
#[verifier::external_body]
fn toml_table_item(implicit: bool, entries: Vec<(String, toml_edit::Item)>) -> (r: toml_edit::Item)
    requires
        forall|i: int| 0 <= i < entries.len() ==> some_item(#[trigger] toml_item(entries@[i].1)),
    ensures
        toml_item(r) == (NodeV::Table { implicit, entries: insert_all(seq![], keyed_models(entries@)) }),
        forall|i: int| 0 <= i < entries.len() && last_of_key(entries@, i) ==> toml_entry(r, (#[trigger] entries@[i]).0@)
            == Some(entries@[i].1),
{
    let mut t: toml_edit::Table = entries.into_iter().collect();
    t.set_implicit(implicit);
    toml_edit::Item::Table(t)
}

/// Table items collected into a `toml_edit::ArrayOfTables` (`FromIterator`),
/// as an item.
#[verifier::external_body]
fn toml_array_of_tables_item(tables: Vec<toml_edit::Item>) -> (r: toml_edit::Item)
    requires
        forall|i: int| 0 <= i < tables.len() ==> (#[trigger] toml_item(tables@[i])) is Table,
    ensures
        toml_item(r) == NodeV::ArrayOfTables(item_models(tables@)),
{
    toml_edit::Item::ArrayOfTables(tables.into_iter().map(|i| i.into_table().unwrap()).collect())
}

/// The `Display` text of the `toml_edit::DocumentMut` made from a table item
/// (`DocumentMut::from`); the contract claims only that it is the text named
/// `toml_item_text`.
#[verifier::external_body]
fn toml_root_text(root: toml_edit::Item) -> (r: String)
    requires
        toml_item(root) is Table,
    ensures
        r@ == toml_item_text(root),
{
    toml_edit::DocumentMut::from(root.into_table().unwrap()).to_string()
}

/// How a node is written inside an array or an inline table: tables become
/// inline tables, arrays of tables arrays, and a value's text is parsed back.
pub open spec fn value_encoding(n: NodeV) -> NodeV
    decreases n,
{
    match n {
        NodeV::Str(s) => NodeV::Str(s),
        NodeV::Other(raw) => toml_raw_value(raw),
        NodeV::Array(xs) => NodeV::Array(values_encoding(xs)),
        NodeV::ArrayOfTables(xs) => NodeV::Array(values_encoding(xs)),
        NodeV::InlineTable(es) => NodeV::InlineTable(insert_all(seq![], keyed_values_encoding(es))),
        NodeV::Table { implicit, entries } => NodeV::InlineTable(insert_all(seq![], keyed_values_encoding(entries))),
    }
}

pub open spec fn values_encoding(xs: Seq<NodeV>) -> Seq<NodeV>
    decreases xs,
{
    if xs.len() == 0 {
        seq![]
    } else {
        values_encoding(xs.drop_last()).push(value_encoding(xs.last()))
    }
}

pub open spec fn keyed_values_encoding(es: Seq<(Seq<char>, NodeV)>) -> Seq<(Seq<char>, NodeV)>
    decreases es,
{
    if es.len() == 0 {
        seq![]
    } else {
        keyed_values_encoding(es.drop_last()).push((es.last().0, value_encoding(es.last().1)))
    }
}

/// How a node is written as an item of a table: tables stay tables, the
/// table elements of an array of tables become tables that are not implicit
/// (other elements are left out), anything else as a value.
pub open spec fn item_encoding(n: NodeV) -> NodeV
    decreases n,
{
    match n {
        NodeV::Table { implicit, entries } => NodeV::Table {
            implicit,
            entries: insert_all(seq![], keyed_items_encoding(entries)),
        },
        NodeV::ArrayOfTables(xs) => NodeV::ArrayOfTables(tables_encoding(xs)),
        _ => value_encoding(n),
    }
}

pub open spec fn keyed_items_encoding(es: Seq<(Seq<char>, NodeV)>) -> Seq<(Seq<char>, NodeV)>
    decreases es,
{
    if es.len() == 0 {
        seq![]
    } else {
        keyed_items_encoding(es.drop_last()).push((es.last().0, item_encoding(es.last().1)))
    }
}

pub open spec fn tables_encoding(xs: Seq<NodeV>) -> Seq<NodeV>
    decreases xs,
{
    if xs.len() == 0 {
        seq![]
    } else {
        let rest = tables_encoding(xs.drop_last());
        match xs.last() {
            NodeV::Table { entries, .. } => rest.push(NodeV::Table {
                implicit: false,
                entries: insert_all(seq![], keyed_items_encoding(entries)),
            }),
            NodeV::InlineTable(entries) => rest.push(NodeV::Table {
                implicit: false,
                entries: insert_all(seq![], keyed_items_encoding(entries)),
            }),
            _ => rest,
        }
    }
}

proof fn lemma_item_models_push(v: Seq<toml_edit::Item>, x: toml_edit::Item)
    ensures
        item_models(v.push(x)) == item_models(v).push(toml_item(x)),
{
    assert(item_models(v.push(x)) =~= item_models(v).push(toml_item(x)));
}

proof fn lemma_keyed_models_push(v: Seq<(String, toml_edit::Item)>, x: (String, toml_edit::Item))
    ensures
        keyed_models(v.push(x)) == keyed_models(v).push((x.0@, toml_item(x.1))),
{
    assert(keyed_models(v.push(x)) =~= keyed_models(v).push((x.0@, toml_item(x.1))));
}

/// A node written as a `toml_edit` value item.
fn value_item_of(n: &Node) -> (r: toml_edit::Item)
    ensures
        toml_item(r) == value_encoding(n@),
        value_item(toml_item(r)),
    decreases n,
{
    match n {
        Node::Str(s) => toml_string_item(s.as_str()),
        Node::Other(raw) => toml_raw_item(raw.as_str()),
        Node::Array(v) => toml_array_item(value_items_of(v)),
        Node::ArrayOfTables(v) => toml_array_item(value_items_of(v)),
        Node::InlineTable(es) => toml_inline_table_item(keyed_value_items_of(es)),
        Node::Table { entries, .. } => toml_inline_table_item(keyed_value_items_of(entries)),
    }
}

fn value_items_of(v: &Vec<Node>) -> (r: Vec<toml_edit::Item>)
    ensures
        item_models(r@) == values_encoding(nodes_view(v@)),
        forall|i: int| 0 <= i < r.len() ==> value_item(#[trigger] toml_item(r@[i])),
    decreases v,
{
    let mut out: Vec<toml_edit::Item> = Vec::new();
    let mut i: usize = 0;
    while i < v.len()
        invariant
            i <= v@.len(),
            item_models(out@) == values_encoding(nodes_view(v@.take(i as int))),
            forall|j: int| 0 <= j < out.len() ==> value_item(#[trigger] toml_item(out@[j])),
        decreases v.len() - i,
    {
        assert(decreases_to!(v => v@[i as int]));
        let it = value_item_of(&v[i]);
        proof {
            lemma_item_models_push(out@, it);
            assert(v@.take(i + 1) =~= v@.take(i as int).push(v@[i as int]));
            lemma_nodes_view_push(v@.take(i as int), v@[i as int]);
            let xs = nodes_view(v@.take(i as int));
            assert(xs.push(node_view(v@[i as int])).drop_last() =~= xs);
        }
        out.push(it);
        i = i + 1;
    }
    assert(v@.take(v@.len() as int) =~= v@);
    out
}

fn keyed_value_items_of(es: &Vec<(String, Node)>) -> (r: Vec<(String, toml_edit::Item)>)
    ensures
        keyed_models(r@) == keyed_values_encoding(entries_view(es@)),
        forall|i: int| 0 <= i < r.len() ==> value_item(#[trigger] toml_item(r@[i].1)),
    decreases es,
{
    let mut out: Vec<(String, toml_edit::Item)> = Vec::new();
    let mut i: usize = 0;
    while i < es.len()
        invariant
            i <= es@.len(),
            keyed_models(out@) == keyed_values_encoding(entries_view(es@.take(i as int))),
            forall|j: int| 0 <= j < out.len() ==> value_item(#[trigger] toml_item(out@[j].1)),
        decreases es.len() - i,
    {
        assert(decreases_to!(es => es@[i as int].1));
        let it = value_item_of(&es[i].1);
        let k = es[i].0.clone();
        proof {
            lemma_keyed_models_push(out@, (k, it));
            assert(es@.take(i + 1) =~= es@.take(i as int).push(es@[i as int]));
            lemma_entries_view_push(es@.take(i as int), es@[i as int]);
            let xs = entries_view(es@.take(i as int));
            assert(xs.push((es@[i as int].0@, node_view(es@[i as int].1))).drop_last() =~= xs);
        }
        out.push((k, it));
        i = i + 1;
    }
    assert(es@.take(es@.len() as int) =~= es@);
    out
}

/// A node written as a `toml_edit` item of a table.
fn item_of(n: &Node) -> (r: toml_edit::Item)
    ensures
        toml_item(r) == item_encoding(n@),
        some_item(toml_item(r)),
    decreases n,
{
    match n {
        Node::Table { implicit, entries } => toml_table_item(*implicit, keyed_items_of(entries)),
        Node::ArrayOfTables(v) => toml_array_of_tables_item(table_items_of(v)),
        _ => value_item_of(n),
    }
}

fn keyed_items_of(es: &Vec<(String, Node)>) -> (r: Vec<(String, toml_edit::Item)>)
    ensures
        keyed_models(r@) == keyed_items_encoding(entries_view(es@)),
        forall|i: int| 0 <= i < r.len() ==> some_item(#[trigger] toml_item(r@[i].1)),
    decreases es,
{
    let mut out: Vec<(String, toml_edit::Item)> = Vec::new();
    let mut i: usize = 0;
    while i < es.len()
        invariant
            i <= es@.len(),
            keyed_models(out@) == keyed_items_encoding(entries_view(es@.take(i as int))),
            forall|j: int| 0 <= j < out.len() ==> some_item(#[trigger] toml_item(out@[j].1)),
        decreases es.len() - i,
    {
        assert(decreases_to!(es => es@[i as int].1));
        let it = item_of(&es[i].1);
        let k = es[i].0.clone();
        proof {
            lemma_keyed_models_push(out@, (k, it));
            assert(es@.take(i + 1) =~= es@.take(i as int).push(es@[i as int]));
            lemma_entries_view_push(es@.take(i as int), es@[i as int]);
            let xs = entries_view(es@.take(i as int));
            assert(xs.push((es@[i as int].0@, node_view(es@[i as int].1))).drop_last() =~= xs);
        }
        out.push((k, it));
        i = i + 1;
    }
    assert(es@.take(es@.len() as int) =~= es@);
    out
}

fn table_items_of(v: &Vec<Node>) -> (r: Vec<toml_edit::Item>)
    ensures
        item_models(r@) == tables_encoding(nodes_view(v@)),
        forall|i: int| 0 <= i < r.len() ==> (#[trigger] toml_item(r@[i])) is Table,
    decreases v,
{
    let mut out: Vec<toml_edit::Item> = Vec::new();
    let mut i: usize = 0;
    while i < v.len()
        invariant
            i <= v@.len(),
            item_models(out@) == tables_encoding(nodes_view(v@.take(i as int))),
            forall|j: int| 0 <= j < out.len() ==> (#[trigger] toml_item(out@[j])) is Table,
        decreases v.len() - i,
    {
        proof {
            assert(v@.take(i + 1) =~= v@.take(i as int).push(v@[i as int]));
            lemma_nodes_view_push(v@.take(i as int), v@[i as int]);
            let xs = nodes_view(v@.take(i as int));
            assert(xs.push(node_view(v@[i as int])).drop_last() =~= xs);
        }
        assert(decreases_to!(v => v@[i as int]));
        match &v[i] {
            Node::Table { entries, .. } => {
                let it = toml_table_item(false, keyed_items_of(entries));
                proof { lemma_item_models_push(out@, it); }
                out.push(it);
            },
            Node::InlineTable(entries) => {
                let it = toml_table_item(false, keyed_items_of(entries));
                proof { lemma_item_models_push(out@, it); }
                out.push(it);
            },
            _ => {},
        }
        i = i + 1;
    }
    assert(v@.take(v@.len() as int) =~= v@);
    out
}

/// The TOML text of a document: the document is written as `toml_edit`
/// items (tables as tables, values as values) and printed.
pub fn document_text(doc: &Node) -> (r: String)
    requires
        doc@ is Table,
    ensures
        exists|root: toml_edit::Item| toml_item(root) == item_encoding(doc@) && r@ == toml_item_text(root),
{
    let root = item_of(doc);
    toml_root_text(root)
}

/// Builds `<prefix><detail>`.
pub(crate) fn prefixed(prefix: &str, detail: &str) -> (r: String)
    ensures
        r@ == prefix@ + detail@,
{
    let mut r = String::new();
    push_str(&mut r, prefix);
    push_str(&mut r, detail);
    r
}

/// Builds `<prefix><path><middle><detail>`.
pub(crate) fn message_with(prefix: &str, path: &str, middle: &str, detail: &str) -> (r: String)
    ensures
        r@ == prefix@ + path@ + middle@ + detail@,
{
    let mut r = String::new();
    push_str(&mut r, prefix);
    push_str(&mut r, path);
    push_str(&mut r, middle);
    push_str(&mut r, detail);
    r
}

/// Reads the text of the TOML file at `path` as a document.
pub fn read_toml(path: &str, content: &str) -> (r: Result<Node, String>)
    ensures
        match toml_document(content@) {
            Ok(d) => r matches Ok(n) && n@ == d,
            Err(m) => r matches Err(e) && e@ == "Failed to parse TOML in '"@ + path@ + "': "@ + m,
        },
        r matches Ok(n) ==> n@ is Table,
{
    match parse_toml(content) {
        Ok(n) => Ok(n),
        Err(m) => Err(message_with("Failed to parse TOML in '", path, "': ", m.as_str())),
    }
}

/// Removes the empty sections of a document and gives the TOML text to
/// write.
pub fn write_toml(doc: &mut Node) -> (r: String)
    requires
        old(doc)@ is Table,
    ensures
        final(doc)@ == clean(old(doc)@),
        exists|root: toml_edit::Item| toml_item(root) == item_encoding(clean(old(doc)@)) && r@ == toml_item_text(root),
{
    cleanup_empty_sections(doc);
    document_text(doc)
}

// ----------------------------------------------------------------------
// Writing TOML with the formatting of what was read
// ----------------------------------------------------------------------

/// Whether two nodes are the same.
pub fn node_eq(a: &Node, b: &Node) -> (r: bool)
    ensures
        r == (a@ == b@),
    decreases a,
{
    match (a, b) {
        (Node::Str(x), Node::Str(y)) => str_eq(x.as_str(), y.as_str()),
        (Node::Other(x), Node::Other(y)) => str_eq(x.as_str(), y.as_str()),
        (Node::Array(x), Node::Array(y)) => nodes_eq(x, y),
        (Node::ArrayOfTables(x), Node::ArrayOfTables(y)) => nodes_eq(x, y),
        (Node::InlineTable(x), Node::InlineTable(y)) => keyed_nodes_eq(x, y),
        (Node::Table { implicit: i1, entries: x }, Node::Table { implicit: i2, entries: y }) => {
            *i1 == *i2 && keyed_nodes_eq(x, y)
        },
        _ => false,
    }
}

fn nodes_eq(x: &Vec<Node>, y: &Vec<Node>) -> (r: bool)
    ensures
        r == (nodes_view(x@) == nodes_view(y@)),
    decreases x,
{
    proof {
        lemma_nodes_view(x@);
        lemma_nodes_view(y@);
    }
    if x.len() != y.len() {
        return false;
    }
    let mut i: usize = 0;
    while i < x.len()
        invariant
            i <= x@.len() == y@.len(),
            nodes_view(x@).len() == x@.len(),
            nodes_view(y@).len() == y@.len(),
            forall|j: int| 0 <= j < x@.len() ==> #[trigger] nodes_view(x@)[j] == node_view(x@[j]),
            forall|j: int| 0 <= j < y@.len() ==> #[trigger] nodes_view(y@)[j] == node_view(y@[j]),
            forall|j: int| 0 <= j < i ==> nodes_view(x@)[j] == nodes_view(y@)[j],
        decreases x.len() - i,
    {
        assert(decreases_to!(x => x@[i as int]));
        if !node_eq(&x[i], &y[i]) {
            assert(nodes_view(x@)[i as int] != nodes_view(y@)[i as int]);
            return false;
        }
        i = i + 1;
    }
    assert(nodes_view(x@) =~= nodes_view(y@));
    true
}

fn keyed_nodes_eq(x: &Vec<(String, Node)>, y: &Vec<(String, Node)>) -> (r: bool)
    ensures
        r == (entries_view(x@) == entries_view(y@)),
    decreases x,
{
    proof {
        lemma_entries_view(x@);
        lemma_entries_view(y@);
    }
    if x.len() != y.len() {
        return false;
    }
    let mut i: usize = 0;
    while i < x.len()
        invariant
            i <= x@.len() == y@.len(),
            entries_view(x@).len() == x@.len(),
            entries_view(y@).len() == y@.len(),
            forall|j: int| 0 <= j < x@.len() ==> #[trigger] entries_view(x@)[j] == (x@[j].0@, node_view(x@[j].1)),
            forall|j: int| 0 <= j < y@.len() ==> #[trigger] entries_view(y@)[j] == (y@[j].0@, node_view(y@[j].1)),
            forall|j: int| 0 <= j < i ==> entries_view(x@)[j] == entries_view(y@)[j],
        decreases x.len() - i,
    {
        assert(decreases_to!(x => x@[i as int].1));
        if !str_eq(x[i].0.as_str(), y[i].0.as_str()) || !node_eq(&x[i].1, &y[i].1) {
            assert(entries_view(x@)[i as int] != entries_view(y@)[i as int]);
            return false;
        }
        i = i + 1;
    }
    assert(entries_view(x@) =~= entries_view(y@));
    true
}

/// The values under a key of those models that are tables holding it, in
/// order.
pub open spec fn child_models(cms: Seq<NodeV>, k: Seq<char>) -> Seq<NodeV>
    decreases cms.len(),
{
    if cms.len() == 0 {
        seq![]
    } else {
        let rest = child_models(cms.drop_last(), k);
        match cms.last() {
            NodeV::Table { entries, .. } => match lookup(entries, k) {
                Some(v) => rest.push(v),
                None => rest,
            },
            _ => rest,
        }
    }
}

/// The model of a node written with the items of earlier documents at hand,
/// whose models are `cms`: a node equal to one of them is that item; a table
/// that is none of them is written anew, each entry with the items under its
/// key at hand; anything else is written anew.
pub open spec fn written(n: NodeV, cms: Seq<NodeV>) -> NodeV
    decreases n,
{
    if some_item(n) && cms.contains(n) {
        n
    } else {
        match n {
            NodeV::Table { implicit, entries } => NodeV::Table {
                implicit,
                entries: insert_all(seq![], keyed_written(entries, cms)),
            },
            _ => item_encoding(n),
        }
    }
}

pub open spec fn keyed_written(es: Seq<(Seq<char>, NodeV)>, cms: Seq<NodeV>) -> Seq<(Seq<char>, NodeV)>
    decreases es,
{
    if es.len() == 0 {
        seq![]
    } else {
        keyed_written(es.drop_last(), cms).push(
            (es.last().0, written(es.last().1, child_models(cms, es.last().0))),
        )
    }
}

/// The node at a path of keys through tables.
pub open spec fn table_path(n: NodeV, p: Seq<Seq<char>>) -> Option<NodeV>
    decreases p.len(),
{
    if p.len() == 0 {
        Some(n)
    } else {
        match n {
            NodeV::Table { entries, .. } => match lookup(entries, p[0]) {
                Some(c) => table_path(c, p.drop_first()),
                None => None,
            },
            _ => None,
        }
    }
}

/// A key occurs at most once among the entries.
pub open spec fn key_once(es: Seq<(Seq<char>, NodeV)>, k: Seq<char>) -> bool {
    forall|i: int, j: int| 0 <= i < es.len() && 0 <= j < es.len() && #[trigger] es[i].0 == k && #[trigger] es[j].0 == k
        ==> i == j
}

/// Each key of the path occurs once in its table.
pub open spec fn once_along(n: NodeV, p: Seq<Seq<char>>) -> bool
    decreases p.len(),
{
    if p.len() == 0 {
        true
    } else {
        match n {
            NodeV::Table { entries, .. } => key_once(entries, p[0]) && match lookup(entries, p[0]) {
                Some(c) => once_along(c, p.drop_first()),
                None => true,
            },
            _ => true,
        }
    }
}

/// The item `c` holds at path `p` what `n` holds there.
pub open spec fn found(c: toml_edit::Item, p: Seq<Seq<char>>, n: NodeV) -> bool {
    table_path(toml_item(c), p) is Some && table_path(toml_item(c), p) == table_path(n, p)
}

/// What the node holds at the path is an item (not the empty text that
/// stands for `Item::None`).
pub open spec fn kept_target(n: NodeV, p: Seq<Seq<char>>) -> bool {
    table_path(n, p) matches Some(m) && some_item(m)
}

/// The formatting of what was read is kept: wherever some item at hand holds
/// at a path what the node holds there, the written item has there the very
/// item (comments, spaces and layout included) of one that does.
pub open spec fn keeps(r: toml_edit::Item, n: NodeV, cands: Seq<toml_edit::Item>) -> bool {
    forall|p: Seq<Seq<char>>, i: int|
        0 <= i < cands.len() && once_along(n, p) && kept_target(n, p) && #[trigger] found(cands[i], p, n) ==> exists|j: int|
            0 <= j < cands.len() && found(cands[j], p, n) && toml_item_at(r, p) == #[trigger] toml_item_at(
                cands[j],
                p,
            )
}

/// The items at hand hold, under `k`, the items `cl`, and each of those that
/// is a table holding `k` gives one of them.
pub open spec fn children_at_hand(cands: Seq<toml_edit::Item>, k: Seq<char>, cl: Seq<toml_edit::Item>) -> bool {
    &&& forall|l: int| 0 <= l < cl.len() ==> exists|i: int| 0 <= i < cands.len() && toml_entry(cands[i], k) == Some(#[trigger] cl[l])
    &&& forall|i: int| 0 <= i < cands.len() && toml_item(cands[i]) is Table && lookup(toml_item(cands[i])->entries, k) is Some
        ==> exists|l: int| 0 <= l < cl.len() && toml_entry(#[trigger] cands[i], k) == Some(cl[l])
    &&& forall|i: int| 0 <= i < cands.len() ==> (toml_entry(#[trigger] cands[i], k) matches Some(x)
        ==> toml_item(cands[i]) is Table && lookup(toml_item(cands[i])->entries, k) == Some(toml_item(x)))
}

/// The items under a key of those items at hand that are tables holding it.
fn child_candidates(cands: &Vec<toml_edit::Item>, k: &str) -> (cl: Vec<toml_edit::Item>)
    ensures
        item_models(cl@) == child_models(item_models(cands@), k@),
        children_at_hand(cands@, k@, cl@),
{
    let mut cl: Vec<toml_edit::Item> = Vec::new();
    let mut i: usize = 0;
    while i < cands.len()
        invariant
            i <= cands@.len(),
            item_models(cl@) == child_models(item_models(cands@.take(i as int)), k@),
            forall|l: int| 0 <= l < cl.len() ==> exists|j: int| 0 <= j < i && toml_entry(cands@[j], k@) == Some(#[trigger] cl@[l]),
            forall|j: int| 0 <= j < i && toml_item(cands@[j]) is Table && lookup(toml_item(cands@[j])->entries, k@) is Some
                ==> exists|l: int| 0 <= l < cl.len() && toml_entry(#[trigger] cands@[j], k@) == Some(cl@[l]),
            forall|j: int| 0 <= j < i ==> (toml_entry(#[trigger] cands@[j], k@) matches Some(x)
                ==> toml_item(cands@[j]) is Table && lookup(toml_item(cands@[j])->entries, k@) == Some(toml_item(x))),
        decreases cands.len() - i,
    {
        let got = toml_table_get(&cands[i], k);
        let ghost ms = item_models(cands@.take(i as int));
        proof {
            assert(item_models(cands@.take(i + 1)) =~= ms.push(toml_item(cands@[i as int])));
            assert(ms.push(toml_item(cands@[i as int])).drop_last() =~= ms);
        }
        match got {
            Some(x) => {
                let ghost before = cl@;
                proof { lemma_item_models_push(cl@, x); }
                cl.push(x);
                assert(toml_entry(cands@[i as int], k@) == Some(cl@[cl@.len() - 1]));
                assert forall|j: int| 0 <= j < i && toml_item(cands@[j]) is Table && lookup(toml_item(cands@[j])->entries, k@) is Some
                    implies exists|l: int| 0 <= l < cl.len() && toml_entry(#[trigger] cands@[j], k@) == Some(cl@[l]) by {
                    let l = choose|l: int| 0 <= l < before.len() && toml_entry(cands@[j], k@) == Some(before[l]);
                    assert(cl@[l] == before[l]);
                }
                assert forall|l: int| 0 <= l < cl.len() implies exists|j: int| 0 <= j < i + 1 && toml_entry(cands@[j], k@) == Some(#[trigger] cl@[l]) by {
                    if l < before.len() {
                        assert(cl@[l] == before[l]);
                    }
                }
            },
            None => {},
        }
        i = i + 1;
    }
    assert(cands@.take(cands@.len() as int) =~= cands@);
    cl
}

proof fn lemma_lookup_index(es: Seq<(Seq<char>, NodeV)>, k: Seq<char>)
    requires
        lookup(es, k) is Some,
    ensures
        exists|e: int| 0 <= e < es.len() && es[e].0 == k && lookup(es, k) == Some(#[trigger] es[e].1),
    decreases es.len(),
{
    if es[0].0 == k {
        assert(es[0].1 == es[0].1);
    } else {
        lemma_lookup_index(es.drop_first(), k);
        let e = choose|e: int| 0 <= e < es.drop_first().len() && es.drop_first()[e].0 == k && lookup(es.drop_first(), k) == Some(#[trigger] es.drop_first()[e].1);
        assert(es[e + 1] == es.drop_first()[e]);
    }
}

/// A node written as a `toml_edit` item, with the items of earlier documents
/// at hand (`cands`): a node equal to one of them is written as that item
/// itself; a table that is none of them is written anew from its entries,
/// each with the items under its key at hand; anything else is written anew.
fn kept_item_of(n: &Node, cands: &Vec<toml_edit::Item>) -> (r: toml_edit::Item)
    ensures
        toml_item(r) == written(n@, item_models(cands@)),
        some_item(toml_item(r)),
        keeps(r, n@, cands@),
        some_item(n@) && cands.len() > 0 && toml_item(cands@[0]) == n@ ==> r == cands@[0],
    decreases n@,
{
    let ghost cms = item_models(cands@);
    let empty_raw = match n {
        Node::Other(t) => t.as_str().unicode_len() == 0,
        _ => false,
    };
    proof {
        match n {
            Node::Other(t) => {
                if t@.len() == 0 {
                    assert(t@ =~= seq![]);
                }
            },
            _ => {},
        }
    }
    let mut i: usize = 0;
    while i < cands.len() && !empty_raw
        invariant
            i <= cands@.len(),
            cms == item_models(cands@),
            empty_raw == !some_item(n@),
            forall|j: int| 0 <= j < i ==> toml_item(cands@[j]) != n@,
        decreases cands.len() - i,
    {
        let m = toml_item_node(&cands[i]);
        if node_eq(&m, n) {
            let r = toml_item_copy(&cands[i]);
            proof {
                assert(cms[i as int] == n@);
                assert(cms.contains(n@));
                assert forall|p: Seq<Seq<char>>, i2: int|
                    0 <= i2 < cands@.len() && once_along(n@, p) && kept_target(n@, p) && #[trigger] found(cands@[i2], p, n@)
                    implies exists|j: int| 0 <= j < cands@.len() && found(cands@[j], p, n@) && toml_item_at(r, p) == #[trigger] toml_item_at(cands@[j], p) by {
                    assert(found(cands@[i as int], p, n@));
                    assert(toml_item_at(r, p) == toml_item_at(cands@[i as int], p));
                }
            }
            return r;
        }
        i = i + 1;
    }
    proof {
        assert(!(some_item(n@) && cms.contains(n@))) by {
            if some_item(n@) && cms.contains(n@) {
                let j = choose|j: int| 0 <= j < cms.len() && cms[j] == n@;
                assert(toml_item(cands@[j]) == n@);
            }
        }
    }
    match n {
        Node::Table { implicit, entries } => {
            let ghost es = entries_view(entries@);
            proof { lemma_entries_view(entries@); }
            let mut out: Vec<(String, toml_edit::Item)> = Vec::new();
            let ghost mut cls: Seq<Seq<toml_edit::Item>> = seq![];
            let mut e: usize = 0;
            while e < entries.len()
                invariant
                    e <= entries@.len(),
                    cms == item_models(cands@),
                    es == entries_view(entries@),
                    es.len() == entries@.len(),
                    forall|l: int| 0 <= l < entries@.len() ==> #[trigger] es[l] == (entries@[l].0@, node_view(entries@[l].1)),
                    keyed_models(out@) == keyed_written(es.take(e as int), cms),
                    out@.len() == e,
                    forall|l: int| 0 <= l < e ==> (#[trigger] out@[l]).0@ == es[l].0,
                    forall|l: int| 0 <= l < e ==> some_item(toml_item((#[trigger] out@[l]).1)),
                    n@ == (NodeV::Table { implicit: *implicit, entries: es }),
                    cls.len() == e,
                    forall|l: int| 0 <= l < e ==> children_at_hand(cands@, es[l].0, #[trigger] cls[l]),
                    forall|l: int| 0 <= l < e ==> keeps(out@[l].1, es[l].1, #[trigger] cls[l]),
                decreases entries.len() - e,
            {
                proof { lemma_entry_child(n@, es, e as int); }
                let cl = child_candidates(cands, entries[e].0.as_str());
                let child = kept_item_of(&entries[e].1, &cl);
                let k = entries[e].0.clone();
                let ghost before = out@;
                proof {
                    lemma_keyed_models_push(out@, (k, child));
                    assert(es.take(e + 1) =~= es.take(e as int).push(es[e as int]));
                    assert(es.take(e as int).push(es[e as int]).drop_last() =~= es.take(e as int));
                }
                out.push((k, child));
                proof {
                    let old_cls = cls;
                    cls = cls.push(cl@);
                    assert forall|l: int| 0 <= l < e + 1 implies children_at_hand(cands@, es[l].0, #[trigger] cls[l]) by {
                        if l < e {
                            assert(cls[l] == old_cls[l]);
                        }
                    }
                    assert forall|l: int| 0 <= l < e + 1 implies keeps(out@[l].1, es[l].1, #[trigger] cls[l]) by {
                        if l < e {
                            assert(cls[l] == old_cls[l]);
                            assert(out@[l] == before[l]);
                        }
                    }
                    assert forall|l: int| 0 <= l < e + 1 implies (#[trigger] out@[l]).0@ == es[l].0 by {
                        if l < e {
                            assert(out@[l] == before[l]);
                        }
                    }
                    assert forall|l: int| 0 <= l < e + 1 implies some_item(toml_item((#[trigger] out@[l]).1)) by {
                        if l < e {
                            assert(out@[l] == before[l]);
                        }
                    }
                }
                e = e + 1;
            }
            assert(es.take(entries@.len() as int) =~= es);
            let r = toml_table_item(*implicit, out);
            proof {
                assert forall|p: Seq<Seq<char>>, i2: int|
                    0 <= i2 < cands@.len() && once_along(n@, p) && kept_target(n@, p) && #[trigger] found(cands@[i2], p, n@)
                    implies exists|j: int| 0 <= j < cands@.len() && found(cands@[j], p, n@) && toml_item_at(r, p) == #[trigger] toml_item_at(cands@[j], p) by {
                    lemma_keeps_table_step(r, n@, cands@, out@, cls, p, i2);
                }
            }
            r
        },
        _ => {
            let r = item_of(n);
            proof {
                assert forall|p: Seq<Seq<char>>, i2: int|
                    0 <= i2 < cands@.len() && once_along(n@, p) && kept_target(n@, p) && #[trigger] found(cands@[i2], p, n@)
                    implies exists|j: int| 0 <= j < cands@.len() && found(cands@[j], p, n@) && toml_item_at(r, p) == #[trigger] toml_item_at(cands@[j], p) by {
                    if p.len() == 0 {
                        assert(toml_item(cands@[i2]) == n@);
                        assert(cms[i2] == n@);
                    }
                }
            }
            r
        },
    }
}

/// The step of `keeps` through a table written anew from its entries.
#[verifier::spinoff_prover]
#[verifier::rlimit(50)]
proof fn lemma_keeps_table_step(
    r: toml_edit::Item,
    n: NodeV,
    cands: Seq<toml_edit::Item>,
    out: Seq<(String, toml_edit::Item)>,
    cls: Seq<Seq<toml_edit::Item>>,
    p: Seq<Seq<char>>,
    i2: int,
)
    requires
        n is Table,
        cls.len() == out.len(),
        forall|j: int| 0 <= j < cands.len() ==> toml_item(cands[j]) != n,
        out.len() == n->entries.len(),
        forall|l: int| 0 <= l < out.len() ==> (#[trigger] out[l]).0@ == n->entries[l].0,
        forall|l: int| 0 <= l < out.len() ==> children_at_hand(cands, n->entries[l].0, #[trigger] cls[l]),
        forall|l: int| 0 <= l < out.len() ==> keeps(out[l].1, n->entries[l].1, #[trigger] cls[l]),
        forall|i: int| 0 <= i < out.len() && last_of_key(out, i) ==> toml_entry(r, (#[trigger] out[i]).0@) == Some(out[i].1),
        0 <= i2 < cands.len(),
        once_along(n, p),
        kept_target(n, p),
        found(cands[i2], p, n),
    ensures
        exists|j: int| 0 <= j < cands.len() && found(cands[j], p, n) && toml_item_at(r, p) == #[trigger] toml_item_at(cands[j], p),
{
    if p.len() == 0 {
        assert(toml_item(cands[i2]) == n);
    } else {
        let es = n->entries;
        let k = p[0];
        let rest = p.drop_first();
        assert(lookup(es, k) is Some);
        lemma_lookup_index(es, k);
        let e = choose|e: int| 0 <= e < es.len() && es[e].0 == k && lookup(es, k) == Some(#[trigger] es[e].1);
        assert(key_once(es, k));
        assert(out[e].0@ == k);
        assert(last_of_key(out, e)) by {
            assert forall|j: int| e < j < out.len() implies (#[trigger] out[j]).0@ != out[e].0@ by {
                if out[j].0@ == out[e].0@ {
                    assert(es[j].0 == k);
                }
            }
        }
        assert(toml_entry(r, out[e].0@) == Some(out[e].1));
        assert(toml_item_at(r, p) == toml_item_at(out[e].1, rest));
        let cl = cls[e];
        assert(children_at_hand(cands, es[e].0, cl));
        assert(keeps(out[e].1, es[e].1, cl));
        let cm2 = toml_item(cands[i2]);
        assert(cm2 is Table && lookup(cm2->entries, k) is Some);
        let l = choose|l: int| 0 <= l < cl.len() && toml_entry(#[trigger] cands[i2], k) == Some(cl[l]);
        assert(toml_entry(cands[i2], k) == Some(cl[l]));
        assert(toml_item(cl[l]) == lookup(cm2->entries, k).unwrap());
        assert(table_path(n, p) == table_path(es[e].1, rest));
        assert(found(cl[l], rest, es[e].1));
        assert(once_along(es[e].1, rest));
        assert(kept_target(es[e].1, rest));
        assert(exists|jp: int| 0 <= jp < cl.len() && found(cl[jp], rest, es[e].1) && toml_item_at(out[e].1, rest)
            == #[trigger] toml_item_at(cl[jp], rest));
        let jp = choose|jp: int| 0 <= jp < cl.len() && found(cl[jp], rest, es[e].1) && toml_item_at(out[e].1, rest)
            == #[trigger] toml_item_at(cl[jp], rest);
        assert(exists|j: int| 0 <= j < cands.len() && toml_entry(cands[j], k) == Some(#[trigger] cl[jp]));
        let j = choose|j: int| 0 <= j < cands.len() && toml_entry(cands[j], k) == Some(#[trigger] cl[jp]);
        assert(toml_item_at(cands[j], p) == toml_item_at(cl[jp], rest));
        assert(toml_entry(cands[j], k) matches Some(x) && x == cl[jp]);
        assert(toml_item(cands[j]) is Table && lookup(toml_item(cands[j])->entries, k) == Some(toml_item(cl[jp])));
        assert(found(cands[j], p, n));
    }
}

// ----------------------------------------------------------------------
// Documents as read, and written back
// ----------------------------------------------------------------------

/// The root item of a `toml_edit` document (`DocumentMut::as_item`).
pub uninterp spec fn toml_doc_root(d: toml_edit::DocumentMut) -> toml_edit::Item;

/// The `Display` text of a `toml_edit` document whose root item is replaced
/// by `root`, its trailing text kept; with its own root item, the text of the
/// document itself.
pub uninterp spec fn toml_doc_text(d: toml_edit::DocumentMut, root: toml_edit::Item) -> Seq<char>;

/// A TOML document as read: the `toml_edit` document and its root item, with
/// all their comments, spaces and layout.
pub struct TomlSource {
    pub doc: toml_edit::DocumentMut,
    pub root: toml_edit::Item,
}

pub open spec fn source_roots(base: TomlSource, others: Seq<TomlSource>) -> Seq<toml_edit::Item> {
    seq![base.root] + others.map_values(|s: TomlSource| s.root)
}

/// `str::parse::<toml_edit::DocumentMut>`: the document and (cloned) its root
/// item, a table, or the `Display` text of the error; the contract claims
/// that the outcome is the one named `toml_document`.
#[verifier::external_body]
fn parse_toml_source(text: &str) -> (r: Result<(toml_edit::DocumentMut, toml_edit::Item), String>)
    ensures
        match toml_document(text@) {
            Ok(d) => r matches Ok((doc, root)) && root == toml_doc_root(doc) && toml_item(root) == d && d is Table,
            Err(m) => r matches Err(e) && e@ == m,
        },
{
    match text.parse::<toml_edit::DocumentMut>() {
        Ok(d) => {
            let root = d.as_item().clone();
            Ok((d, root))
        },
        Err(e) => Err(e.to_string()),
    }
}

/// The `Display` text of a clone of `d` whose root item
/// (`DocumentMut::as_item_mut`) is replaced by a table item; the contract
/// claims only that it is the text named `toml_doc_text`.
#[verifier::external_body]
fn toml_doc_text_with(d: &toml_edit::DocumentMut, root: toml_edit::Item) -> (r: String)
    requires
        toml_item(root) is Table,
    ensures
        r@ == toml_doc_text(*d, root),
{
    let mut d = d.clone();
    *d.as_item_mut() = root;
    d.to_string()
}

/// Reads the text of the TOML file at `path` as a document, keeping what was
/// read for writing it back.
pub fn read_toml_source(path: &str, content: &str) -> (r: Result<(Node, TomlSource), String>)
    ensures
        match toml_document(content@) {
            Ok(d) => r matches Ok((n, s)) && n@ == d && toml_item(s.root) == d && s.root == toml_doc_root(s.doc),
            Err(m) => r matches Err(e) && e@ == "Failed to parse TOML in '"@ + path@ + "': "@ + m,
        },
        r matches Ok((n, _)) ==> n@ is Table,
{
    match parse_toml_source(content) {
        Ok((doc, root)) => {
            let n = toml_item_node(&root);
            Ok((n, TomlSource { doc, root }))
        },
        Err(m) => Err(message_with("Failed to parse TOML in '", path, "': ", m.as_str())),
    }
}

/// Removes the empty sections of an edited document and gives the TOML text
/// to write: the document `base` as read, its root written from the edited
/// document with the items of `base` and of `others` at hand, so that every
/// part that holds what one of them held keeps its comments, spaces and
/// layout. A document written back unedited is `base` itself.
pub fn write_toml_keeping(doc: &mut Node, base: &TomlSource, others: &Vec<TomlSource>) -> (r: String)
    requires
        old(doc)@ is Table,
    ensures
        final(doc)@ == clean(old(doc)@),
        exists|root: toml_edit::Item| {
            &&& toml_item(root) == written(clean(old(doc)@), item_models(source_roots(*base, others@)))
            &&& keeps(root, clean(old(doc)@), source_roots(*base, others@))
            &&& r@ == toml_doc_text(base.doc, root)
        },
        clean(old(doc)@) == toml_item(base.root) ==> r@ == toml_doc_text(base.doc, base.root),
{
    cleanup_empty_sections(doc);
    let mut cands: Vec<toml_edit::Item> = Vec::new();
    cands.push(toml_item_copy(&base.root));
    let mut i: usize = 0;
    while i < others.len()
        invariant
            i <= others@.len(),
            cands@ =~= seq![base.root] + others@.take(i as int).map_values(|s: TomlSource| s.root),
        decreases others.len() - i,
    {
        let c = toml_item_copy(&others[i].root);
        cands.push(c);
        proof {
            assert(others@.take(i + 1).map_values(|s: TomlSource| s.root) =~= others@.take(i as int).map_values(
                |s: TomlSource| s.root,
            ).push(others@[i as int].root));
        }
        i = i + 1;
    }
    assert(others@.take(others@.len() as int) =~= others@);
    assert(cands@ == source_roots(*base, others@));
    let root = kept_item_of(doc, &cands);
    proof {
        if doc@ is Table {
            assert(written(doc@, item_models(cands@)) is Table);
        }
    }
    toml_doc_text_with(&base.doc, root)
}

} // verus!
