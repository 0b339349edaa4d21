//! YAML front matter: the block between a leading `---` line and the next `---` line.

use crate::board::{strings_of, strs, opt_strs, tree_strings};
use crate::diagnostic::{Diagnostic, diag};
use crate::text::{chars_of, contains_seq, copy_range, occurs_at, seq_find, seq_starts_with, string_of, is_prefix};
use crate::tree::{Tree, get, lookup, parse_yaml, yaml_document};
use crate::verdict::{Verdict, refuse, refused_with};
use vstd::prelude::*;

verus! {

/// The first position at which `needle` occurs in `s`.
#[verifier::opaque]
pub open spec fn first_at(s: Seq<char>, needle: Seq<char>) -> Option<int> {
    if contains_seq(s, needle) {
        Some(choose|k: int| occurs_at(s, needle, k) && forall|j: int| 0 <= j < k ==> !occurs_at(s, needle, j))
    } else {
        None
    }
}

pub proof fn lemma_first_at(s: Seq<char>, needle: Seq<char>, k: int)
    requires
        occurs_at(s, needle, k),
        forall|j: int| 0 <= j < k ==> !occurs_at(s, needle, j),
    ensures
        first_at(s, needle) == Some(k),
{
    reveal(first_at);
    let c = choose|c: int| occurs_at(s, needle, c) && forall|j: int| 0 <= j < c ==> !occurs_at(s, needle, j);
    assert(occurs_at(s, needle, c));
    if c < k {
        assert(!occurs_at(s, needle, c));
    }
    if k < c {
        assert(!occurs_at(s, needle, k));
    }
}

pub proof fn lemma_first_at_none(s: Seq<char>, needle: Seq<char>)
    requires
        !contains_seq(s, needle),
    ensures
        first_at(s, needle) is None,
{
    reveal(first_at);
}

/// How a text opens: without front matter, with an unclosed block, or with a
/// block and the body after it.
pub enum FrontMatter {
    Absent,
    Unclosed,
    Block { matter: String, body: String },
}

/// The spec form of [`FrontMatter`].
pub enum FrontMatterView {
    Absent,
    Unclosed,
    Block(Seq<char>, Seq<char>),
}

/// The front matter of a text: after a leading `---` line, up to the first line
/// that is `---` alone.
pub open spec fn front_matter(text: Seq<char>) -> FrontMatterView {
    if !is_prefix("---\n"@, text) {
        FrontMatterView::Absent
    } else {
        let rest = text.skip(4);
        match first_at(rest, "\n---\n"@) {
            None => FrontMatterView::Unclosed,
            Some(k) => FrontMatterView::Block(rest.take(k), rest.skip(k + 5)),
        }
    }
}

/// Splits a text into its front matter and body.
pub fn split_front_matter(text: &str) -> (r: FrontMatter)
    ensures
        match r {
            FrontMatter::Absent => front_matter(text@) is Absent,
            FrontMatter::Unclosed => front_matter(text@) is Unclosed,
            FrontMatter::Block { matter, body } => front_matter(text@) == FrontMatterView::Block(matter@, body@),
        },
{
    let cs = chars_of(text);
    let open = chars_of("---\n");
    let close = chars_of("\n---\n");
    proof {
        reveal_strlit("---\n");
        reveal_strlit("\n---\n");
    }
    if !seq_starts_with(cs.as_slice(), open.as_slice()) {
        return FrontMatter::Absent;
    }
    let rest = copy_range(cs.as_slice(), 4, cs.len());
    assert(rest@ =~= text@.skip(4));
    match seq_find(rest.as_slice(), close.as_slice()) {
        None => {
            proof {
                lemma_first_at_none(rest@, close@);
            }
            FrontMatter::Unclosed
        }
        Some(k) => {
            proof {
                lemma_first_at(rest@, close@, k as int);
            }
            let matter = copy_range(rest.as_slice(), 0, k);
            let body = copy_range(rest.as_slice(), k + 5, rest.len());
            assert(matter@ =~= rest@.take(k as int));
            assert(body@ =~= rest@.skip(k + 5));
            FrontMatter::Block { matter: string_of(matter.as_slice()), body: string_of(body.as_slice()) }
        }
    }
}

/// The metadata fields that evidence, review and decision records may carry.
pub struct MetaView {
    pub refs: Option<Seq<Seq<char>>>,
    pub attachments: Option<Seq<Seq<char>>>,
    pub status: Option<Seq<char>>,
    pub decision: Option<Seq<char>>,
}

/// An optional list field: absent or null, or a list of strings; `None` when malformed.
pub open spec fn opt_list_field(v: Option<Tree>) -> Option<Option<Seq<Seq<char>>>> {
    match v {
        None => Some(None),
        Some(Tree::Null) => Some(None),
        Some(t) => match strings_of(Some(t)) {
            Some(items) => Some(Some(items)),
            None => None,
        },
    }
}

/// An optional string field: absent or null, or a string; `None` when malformed.
pub open spec fn opt_str_field(v: Option<Tree>) -> Option<Option<Seq<char>>> {
    match v {
        None => Some(None),
        Some(Tree::Null) => Some(None),
        Some(Tree::Str(s)) => Some(Some(s@)),
        _ => None,
    }
}

/// The metadata a front matter value holds, when every field has its shape.
pub open spec fn meta_of(t: Tree) -> Option<MetaView> {
    if !(t is Table || t is Null) {
        None
    } else {
        match (
            opt_list_field(get(t, "refs"@)),
            opt_list_field(get(t, "attachments"@)),
            opt_str_field(get(t, "status"@)),
            opt_str_field(get(t, "decision"@)),
        ) {
            (Some(refs), Some(attachments), Some(status), Some(decision)) => Some(
                MetaView { refs, attachments, status, decision },
            ),
            _ => None,
        }
    }
}

/// Exec form of the metadata.
pub struct Meta {
    pub refs: Option<Vec<String>>,
    pub attachments: Option<Vec<String>>,
    pub status: Option<String>,
    pub decision: Option<String>,
}

/// The view of an optional string.
pub open spec fn opt_str_view(s: Option<String>) -> Option<Seq<char>> {
    match s {
        Some(v) => Some(v@),
        None => None,
    }
}

impl View for Meta {
    type V = MetaView;

    open spec fn view(&self) -> MetaView {
        MetaView {
            refs: opt_strs(self.refs),
            attachments: opt_strs(self.attachments),
            status: opt_str_view(self.status),
            decision: opt_str_view(self.decision),
        }
    }
}

fn read_list_field(t: &Tree, key: &str) -> (r: Option<Option<Vec<String>>>)
    ensures
        match r {
            None => opt_list_field(get(*t, key@)) is None,
            Some(v) => opt_list_field(get(*t, key@)) == Some(opt_strs(v)),
        },
{
    match lookup(t, key) {
        None => Some(None),
        Some(Tree::Null) => Some(None),
        Some(v) => match tree_strings(Some(v)) {
            Some(items) => Some(Some(items)),
            None => None,
        },
    }
}

fn read_str_field(t: &Tree, key: &str) -> (r: Option<Option<String>>)
    ensures
        match r {
            None => opt_str_field(get(*t, key@)) is None,
            Some(v) => opt_str_field(get(*t, key@)) == Some(opt_str_view(v)),
        },
{
    match lookup(t, key) {
        None => Some(None),
        Some(Tree::Null) => Some(None),
        Some(Tree::Str(s)) => Some(Some(s.clone())),
        Some(_) => None,
    }
}

/// The metadata a front matter value holds, when every field has its shape.
pub fn read_meta(t: &Tree) -> (r: Option<Meta>)
    ensures
        match r {
            None => meta_of(*t) is None,
            Some(m) => meta_of(*t) == Some(m@),
        },
{
    if !matches!(t, Tree::Table(_) | Tree::Null) {
        return None;
    }
    let refs = read_list_field(t, "refs");
    let attachments = read_list_field(t, "attachments");
    let status = read_str_field(t, "status");
    let decision = read_str_field(t, "decision");
    match (refs, attachments, status, decision) {
        (Some(refs), Some(attachments), Some(status), Some(decision)) => Some(
            Meta { refs, attachments, status, decision },
        ),
        _ => None,
    }
}

/// The metadata of a text, when it has front matter that parses with every field in shape.
pub open spec fn text_meta(text: Seq<char>) -> Option<MetaView> {
    match front_matter(text) {
        FrontMatterView::Block(matter, _) => match yaml_document(matter) {
            Ok(t) => meta_of(t),
            Err(_) => None,
        },
        _ => None,
    }
}

/// The metadata of a text, when it has front matter that parses with every field in shape.
pub fn metadata(text: &str) -> (r: Option<Meta>)
    ensures
        match r {
            None => text_meta(text@) is None,
            Some(m) => text_meta(text@) == Some(m@),
        },
{
    match split_front_matter(text) {
        FrontMatter::Block { matter, body } => match parse_yaml(matter.as_str()) {
            Ok(t) => read_meta(&t),
            Err(_) => None,
        },
        _ => None,
    }
}

/// The references and attachments a text declares, or the diagnostic that refuses its front matter.
pub open spec fn arrays_verdict(text: Seq<char>) -> Verdict<(Seq<Seq<char>>, Seq<Seq<char>>)> {
    match front_matter(text) {
        FrontMatterView::Block(matter, _) => match yaml_document(matter) {
            Err(e) => refuse("invalid_frontmatter"@, e),
            Ok(t) => match meta_of(t) {
                None => refuse("invalid_frontmatter"@, "front matter fields have the wrong shape"@),
                Some(m) => Verdict::Accept((
                    match m.refs { Some(v) => v, None => Seq::empty() },
                    match m.attachments { Some(v) => v, None => Seq::empty() },
                )),
            },
        },
        _ => Verdict::Accept((Seq::empty(), Seq::empty())),
    }
}

/// The references and attachments a text's front matter declares; none without front matter.
pub fn arrays(path: &str, text: &str) -> (r: Result<(Vec<String>, Vec<String>), Vec<Diagnostic>>)
    ensures
        match r {
            Ok((refs, attachments)) => arrays_verdict(text@) == Verdict::Accept((strs(refs@), strs(attachments@))),
            Err(ds) => refused_with(ds@, path@, arrays_verdict(text@)),
        },
{
    match split_front_matter(text) {
        FrontMatter::Block { matter, body } => match parse_yaml(matter.as_str()) {
            Err(e) => Err(vec![diag(path, "invalid_frontmatter", e.as_str())]),
            Ok(t) => match read_meta(&t) {
                None => Err(vec![diag(path, "invalid_frontmatter", "front matter fields have the wrong shape")]),
                Some(m) => {
                    let empty: Vec<String> = Vec::new();
                    assert(strs(empty@) =~= Seq::<Seq<char>>::empty());
                    let refs = match m.refs { Some(v) => v, None => Vec::new() };
                    let attachments = match m.attachments { Some(v) => v, None => Vec::new() };
                    Ok((refs, attachments))
                }
            },
        },
        _ => {
            let empty: Vec<String> = Vec::new();
            assert(strs(empty@) =~= Seq::<Seq<char>>::empty());
            Ok((Vec::new(), Vec::new()))
        }
    }
}

} // verus!
