//! Structured documents (TOML records, YAML front matter) as plain trees,
//! read through the `toml` and `serde-saphyr` crates.

use vstd::prelude::*;

verus! {

/// A parsed document value: the shapes that the record rules read.
#[derive(Debug, PartialEq, Eq)]
pub enum Tree {
    Str(String),
    Int(i128),
    Bool(bool),
    Null,
    Array(Vec<Tree>),
    Table(Vec<(String, Tree)>),
    /// A floating-point number (its value is not held).
    Float,
    /// A TOML date-time, as its text.
    Datetime(String),
}

/// What the `toml` crate makes of a document: a tree, or its error text.
pub uninterp spec fn toml_document(text: Seq<char>) -> Result<Tree, Seq<char>>;

/// What `serde-saphyr` makes of a YAML document read as a generic value.
pub uninterp spec fn yaml_document(text: Seq<char>) -> Result<Tree, Seq<char>>;

/// The result of a parse, its error taken by its view.
pub open spec fn parsed_view(r: Result<Tree, String>) -> Result<Tree, Seq<char>> {
    match r {
        Ok(t) => Ok(t),
        Err(e) => Err(e@),
    }
}

#[verifier::external_type_specification]
#[verifier::external_body]
pub struct ExTomlValue(toml::Value);

#[verifier::external_type_specification]
#[verifier::external_body]
pub struct ExJsonValue(serde_json::Value);

/// Converts one `toml::Value` node into a tree, one variant for one variant.
#[verifier::external_body]
fn tree_of_toml(v: &toml::Value) -> Tree {
    match v {
        toml::Value::String(s) => Tree::Str(s.clone()),
        toml::Value::Integer(i) => Tree::Int(*i as i128),
        toml::Value::Boolean(b) => Tree::Bool(*b),
        toml::Value::Array(a) => Tree::Array(a.iter().map(tree_of_toml).collect()),
        toml::Value::Table(t) => Tree::Table(t.iter().map(|(k, v)| (k.clone(), tree_of_toml(v))).collect()),
        toml::Value::Float(_) => Tree::Float,
        toml::Value::Datetime(d) => Tree::Datetime(d.to_string()),
    }
}

/// Converts one `serde_json::Value` node into a tree, one variant for one variant (a
/// number that is not an integer is a float).
#[verifier::external_body]
fn tree_of_json(v: &serde_json::Value) -> Tree {
    match v {
        serde_json::Value::String(s) => Tree::Str(s.clone()),
        serde_json::Value::Number(n) => n.as_i128().map_or(Tree::Float, Tree::Int),
        serde_json::Value::Bool(b) => Tree::Bool(*b),
        serde_json::Value::Null => Tree::Null,
        serde_json::Value::Array(a) => Tree::Array(a.iter().map(tree_of_json).collect()),
        serde_json::Value::Object(o) => Tree::Table(o.iter().map(|(k, v)| (k.clone(), tree_of_json(v))).collect()),
    }
}

/// Parses TOML text with `toml::from_str` into a tree (its error as text).
/// The contract names the outcome; what `toml` accepts is not restated here.
#[verifier::external_body]
pub(crate) fn parse_toml(text: &str) -> (r: Result<Tree, String>)
    ensures
        parsed_view(r) == toml_document(text@),
{
    match toml::from_str::<toml::Value>(text) {
        Ok(value) => Ok(tree_of_toml(&value)),
        Err(error) => Err(error.to_string()),
    }
}

/// Parses YAML text with `serde_saphyr::from_str` as a generic value (its error as text).
/// The contract names the outcome; what `serde-saphyr` accepts is not restated here.
#[verifier::external_body]
pub(crate) fn parse_yaml(text: &str) -> (r: Result<Tree, String>)
    ensures
        parsed_view(r) == yaml_document(text@),
{
    match serde_saphyr::from_str::<serde_json::Value>(text) {
        Ok(value) => Ok(tree_of_json(&value)),
        Err(error) => Err(error.to_string()),
    }
}

/// A string or a list of strings to be written as a TOML value.
pub enum TomlOut {
    Str(String),
    List(Vec<String>),
}

/// The plain content of a [`TomlOut`].
pub enum TomlOutView {
    Str(Seq<char>),
    List(Seq<Seq<char>>),
}

impl View for TomlOut {
    type V = TomlOutView;

    open spec fn view(&self) -> TomlOutView {
        match self {
            TomlOut::Str(s) => TomlOutView::Str(s@),
            TomlOut::List(items) => TomlOutView::List(items@.map_values(|i: String| i@)),
        }
    }
}

/// How `toml` writes a string or a list of strings (`Display` of `toml::Value`).
pub uninterp spec fn toml_value_text(value: TomlOutView) -> Seq<char>;

/// Writes a string or a list of strings as TOML text with `toml::Value`'s `Display`.
/// The contract names the text; `toml`'s quoting rules are not restated here.
#[verifier::external_body]
pub(crate) fn toml_text(value: &TomlOut) -> (r: String)
    ensures
        r@ == toml_value_text(value@),
{
    match value {
        TomlOut::Str(s) => toml::Value::String(s.clone()).to_string(),
        TomlOut::List(items) => toml::Value::Array(items.iter().cloned().map(toml::Value::String).collect()).to_string(),
    }
}

/// The value under `key` in a table's entries: the first entry with that key.
pub open spec fn entry_value(entries: Seq<(String, Tree)>, key: Seq<char>) -> Option<Tree>
    decreases entries.len(),
{
    if entries.len() == 0 {
        None
    } else if entries[0].0@ == key {
        Some(entries[0].1)
    } else {
        entry_value(entries.drop_first(), key)
    }
}

/// The value under `key` when `t` is a table.
pub open spec fn get(t: Tree, key: Seq<char>) -> Option<Tree> {
    match t {
        Tree::Table(entries) => entry_value(entries@, key),
        _ => None,
    }
}

/// The value under `key` when `t` is a table.
pub fn lookup<'a>(t: &'a Tree, key: &str) -> (r: Option<&'a Tree>)
    ensures
        match r {
            Some(v) => get(*t, key@) == Some(*v),
            None => get(*t, key@) is None,
        },
{
    match t {
        Tree::Table(entries) => {
            let mut i: usize = 0;
            assert(get(*t, key@) == entry_value(entries@, key@));
            assert(entries@.skip(0) =~= entries@);
            while i < entries.len()
                invariant
                    i <= entries@.len(),
                    get(*t, key@) == entry_value(entries@, key@),
                    entry_value(entries@, key@) == entry_value(entries@.skip(i as int), key@),
                decreases entries.len() - i,
            {
                assert(entries@.skip(i as int).drop_first() =~= entries@.skip(i + 1));
                assert(entries@.skip(i as int)[0] == entries@[i as int]);
                let wanted = key.to_owned();
                if entries[i].0 == wanted {
                    assert(entries@[i as int].0@ == key@);
                    assert(entry_value(entries@.skip(i as int), key@) == Some(entries@[i as int].1));
                    let found = &entries[i].1;
                    assert(*found == entries@[i as int].1);
                    return Some(found);
                }
                i = i + 1;
            }
            None
        }
        _ => None,
    }
}

/// The entries of `t` when it is a table has the key.
pub open spec fn has_key(t: Tree, key: Seq<char>) -> bool {
    get(t, key) is Some
}

} // verus!
