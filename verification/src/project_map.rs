//! The project map: which projects a Casefile root governs, by key.

use crate::diagnostic::{Diagnostic, diag};
use crate::record::RecordSummary;
use crate::text::str_eq;
use crate::tree::{Tree, get, lookup, parse_toml, toml_document};
use crate::verdict::{Verdict, refuse, refused_with};
use vstd::prelude::*;

verus! {

/// Decodes bytes as UTF-8 with `std::str::from_utf8`: the text when the bytes are
/// valid UTF-8, none otherwise.
#[verifier::external_body]
pub(crate) fn utf8_text(bytes: &[u8]) -> (r: Option<String>)
    ensures
        match r {
            Some(s) => vstd::utf8::valid_utf8(bytes@) && s@ == vstd::utf8::decode_utf8(bytes@),
            None => !vstd::utf8::valid_utf8(bytes@),
        },
{
    match std::str::from_utf8(bytes) {
        Ok(text) => Some(text.to_owned()),
        Err(_) => None,
    }
}

/// The text bytes hold, when they are UTF-8.
pub open spec fn text_of(bytes: Seq<u8>) -> Option<Seq<char>> {
    if vstd::utf8::valid_utf8(bytes) {
        Some(vstd::utf8::decode_utf8(bytes))
    } else {
        None
    }
}

/// The keys of a table's entries, in order.
pub open spec fn keys_of(entries: Seq<(String, Tree)>) -> Seq<Seq<char>> {
    entries.map_values(|e: (String, Tree)| e.0@)
}

/// What a project map's bytes yield: the project keys, when the `projects` table
/// holds only strings and every governed project.
pub open spec fn project_map_verdict(bytes: Seq<u8>, governed: Seq<Seq<char>>) -> Verdict<Seq<Seq<char>>> {
    let refusal = refuse("invalid_project_map"@, "projects.toml must contain strings for governed project keys"@);
    match text_of(bytes) {
        None => refusal,
        Some(text) => match toml_document(text) {
            Err(_) => refusal,
            Ok(t) => project_map_tree_verdict(t, governed),
        },
    }
}

/// What a project map's parsed TOML document yields: the project keys, when the
/// `projects` table holds only strings and every governed project.
pub open spec fn project_map_tree_verdict(t: Tree, governed: Seq<Seq<char>>) -> Verdict<Seq<Seq<char>>> {
    let refusal = refuse("invalid_project_map"@, "projects.toml must contain strings for governed project keys"@);
    match get(t, "projects"@) {
        Some(Tree::Table(entries)) => if (forall|i: int| 0 <= i < entries@.len() ==> (#[trigger] entries@[i]).1 is Str)
            && (forall|g: int| 0 <= g < governed.len() ==> #[trigger] keys_of(entries@).contains(governed[g])) {
            Verdict::Accept(keys_of(entries@))
        } else {
            refusal
        },
        _ => refusal,
    }
}

fn has_entry(entries: &Vec<(String, Tree)>, key: &str) -> (r: bool)
    ensures
        r == keys_of(entries@).contains(key@),
{
    let mut i: usize = 0;
    while i < entries.len()
        invariant
            i <= entries@.len(),
            forall|j: int| 0 <= j < i ==> entries@[j].0@ != key@,
        decreases entries.len() - i,
    {
        if str_eq(entries[i].0.as_str(), key) {
            assert(keys_of(entries@)[i as int] == key@);
            return true;
        }
        i = i + 1;
    }
    assert forall|j: int| 0 <= j < keys_of(entries@).len() implies keys_of(entries@)[j] != key@ by {
        assert(keys_of(entries@)[j] == entries@[j].0@);
    }
    false
}

/// Reads a project map; it needs a `projects` table of strings naming every governed project.
pub fn parse(path: &str, bytes: &[u8], governed_projects: &[&str]) -> (r: Result<RecordSummary, Vec<Diagnostic>>)
    ensures
        match r {
            Ok(RecordSummary::ProjectMap { projects }) => project_map_verdict(
                bytes@,
                governed_projects@.map_values(|g: &str| g@),
            ) == Verdict::Accept(projects@.map_values(|p: String| p@)),
            Ok(_) => false,
            Err(ds) => refused_with(ds@, path@, project_map_verdict(bytes@, governed_projects@.map_values(|g: &str| g@))),
        },
{
    let text = match utf8_text(bytes) {
        Some(t) => t,
        None => {
            return Err(vec![diag(path, "invalid_project_map", "projects.toml must contain strings for governed project keys")]);
        }
    };
    assert(text_of(bytes@) == Some(text@));
    match parse_toml(text.as_str()) {
        Ok(t) => project_map_from_tree(path, &t, governed_projects),
        Err(_) => Err(vec![diag(path, "invalid_project_map", "projects.toml must contain strings for governed project keys")]),
    }
}

/// Reads a project map from its parsed TOML document; it needs a `projects` table of
/// strings naming every governed project.
pub fn project_map_from_tree(path: &str, t: &Tree, governed_projects: &[&str]) -> (r: Result<RecordSummary, Vec<Diagnostic>>)
    ensures
        match r {
            Ok(RecordSummary::ProjectMap { projects }) => project_map_tree_verdict(
                *t,
                governed_projects@.map_values(|g: &str| g@),
            ) == Verdict::Accept(projects@.map_values(|p: String| p@)),
            Ok(_) => false,
            Err(ds) => refused_with(ds@, path@, project_map_tree_verdict(*t, governed_projects@.map_values(|g: &str| g@))),
        },
{
    let ghost governed = governed_projects@.map_values(|g: &str| g@);
    let entries = match lookup(t, "projects") {
        Some(Tree::Table(entries)) => entries,
        _ => {
            return Err(vec![diag(path, "invalid_project_map", "projects.toml must contain strings for governed project keys")]);
        }
    };
    let mut keys: Vec<String> = Vec::new();
    let mut i: usize = 0;
    while i < entries.len()
        invariant
            get(*t, "projects"@) == Some(Tree::Table(*entries)),
            i <= entries@.len(),
            forall|j: int| 0 <= j < i ==> (#[trigger] entries@[j]).1 is Str,
            keys@.map_values(|p: String| p@) == keys_of(entries@).take(i as int),
        decreases entries.len() - i,
    {
        if !matches!(entries[i].1, Tree::Str(_)) {
            return Err(vec![diag(path, "invalid_project_map", "projects.toml must contain strings for governed project keys")]);
        }
        let ghost prior = keys@.map_values(|p: String| p@);
        keys.push(entries[i].0.clone());
        assert(keys@.map_values(|p: String| p@) =~= prior.push(entries@[i as int].0@));
        assert(keys_of(entries@).take(i + 1) =~= keys_of(entries@).take(i as int).push(entries@[i as int].0@));
        i = i + 1;
    }
    assert(keys_of(entries@).take(i as int) =~= keys_of(entries@));
    let mut g: usize = 0;
    while g < governed_projects.len()
        invariant
            get(*t, "projects"@) == Some(Tree::Table(*entries)),
            forall|j: int| 0 <= j < entries@.len() ==> (#[trigger] entries@[j]).1 is Str,
            g <= governed_projects@.len(),
            governed == governed_projects@.map_values(|g: &str| g@),
            forall|k: int| 0 <= k < g ==> #[trigger] keys_of(entries@).contains(governed[k]),
        decreases governed_projects.len() - g,
    {
        if !has_entry(entries, governed_projects[g]) {
            assert(!keys_of(entries@).contains(governed[g as int]));
            return Err(vec![diag(path, "invalid_project_map", "projects.toml must contain strings for governed project keys")]);
        }
        g = g + 1;
    }
    Ok(RecordSummary::ProjectMap { projects: keys })
}

} // verus!
