//! Decision records: a status and a decision, and an identity taken from the file name.

use crate::diagnostic::{Diagnostic, diag};
use crate::frontmatter::{Meta, MetaView, metadata, text_meta};
use crate::markdown::{MdToken, contains_str, headings_from_tokens, headings_in, headings_of, markdown_events, views};
use crate::record::RecordSummary;
use crate::text::{chars_of, contains_seq, last_segment, last_segment_seq, seq_contains, strip_suffix, strip_suffix_seq, copy_range};
use crate::verdict::{Verdict, refuse, refused_with};
use vstd::prelude::*;

verus! {

/// The file stem of a decision path: its last segment without `.md`, or empty
/// when it does not end in `.md`.
pub open spec fn decision_stem(path: Seq<char>) -> Seq<char> {
    match strip_suffix_seq(last_segment_seq(path, '/'), ".md"@) {
        Some(stem) => stem,
        None => Seq::empty(),
    }
}

/// Among the prefixes of `stem[..n]` that end just before a `-`, the longest that
/// `title` contains.
pub open spec fn identity_within(stem: Seq<char>, title: Seq<char>, n: int) -> Option<Seq<char>>
    decreases n,
{
    if n <= 0 || n > stem.len() {
        None
    } else if stem[n - 1] == '-' && contains_seq(title, stem.take(n - 1)) {
        Some(stem.take(n - 1))
    } else {
        identity_within(stem, title, n - 1)
    }
}

/// The decision identity: the longest dash-delimited prefix of the file stem
/// (joining all but at least the last part) that the title contains.
pub open spec fn decision_identity(stem: Seq<char>, title: Seq<char>) -> Option<Seq<char>> {
    identity_within(stem, title, stem.len() as int)
}

/// The record has `Status` and `Human decision` or `Decision` sections.
pub open spec fn heading_form(h2: Seq<Seq<char>>) -> bool {
    h2.contains("Status"@) && (h2.contains("Human decision"@) || h2.contains("Decision"@))
}

/// The view of optional metadata.
pub open spec fn opt_meta(meta: Option<Meta>) -> Option<MetaView> {
    match meta {
        Some(m) => Some(m@),
        None => None,
    }
}

/// What a decision record yields: its identity and title, or the diagnostic that refuses it.
pub open spec fn decision_verdict(path: Seq<char>, text: Seq<char>) -> Verdict<(Seq<char>, Seq<char>)> {
    decision_of_parts(path, headings_of(text), text_meta(text))
}

/// The front matter metadata has a status and a decision.
pub open spec fn meta_form(meta: Option<MetaView>) -> bool {
    match meta {
        Some(m) => m.status is Some && m.decision is Some,
        None => false,
    }
}

/// What a decision record at `path` yields from its level 1 and level 2 headings and
/// the metadata of its front matter.
pub open spec fn decision_of_parts(
    path: Seq<char>,
    headings: (Seq<Seq<char>>, Seq<Seq<char>>),
    meta: Option<MetaView>,
) -> Verdict<(Seq<char>, Seq<char>)> {
    let (h1, h2) = headings;
    if h1.len() != 1 {
        refuse("h1_count"@, "Markdown record must contain exactly one H1"@)
    } else if !heading_form(h2) && !meta_form(meta) {
        refuse("decision_shape"@, "decision needs status and decision in frontmatter or H2 sections"@)
    } else {
        match decision_identity(decision_stem(path), h1[0]) {
            None => refuse(
                "decision_filename_identity"@,
                "decision H1 must contain the filename ID prefix"@,
            ),
            Some(id) => Verdict::Accept((id, h1[0])),
        }
    }
}

fn identity_of(stem: &str, title: &str) -> (r: Option<String>)
    ensures
        match r {
            Some(id) => decision_identity(stem@, title@) == Some(id@),
            None => decision_identity(stem@, title@) is None,
        },
{
    let cs = chars_of(stem);
    let ts = chars_of(title);
    let mut n: usize = cs.len();
    while n > 0
        invariant
            n <= cs@.len(),
            cs@ == stem@,
            ts@ == title@,
            decision_identity(stem@, title@) == identity_within(stem@, title@, n as int),
        decreases n,
    {
        if cs[n - 1] == '-' {
            let candidate = copy_range(cs.as_slice(), 0, n - 1);
            assert(candidate@ =~= stem@.take(n - 1));
            if seq_contains(ts.as_slice(), candidate.as_slice()) {
                return Some(crate::text::string_of(candidate.as_slice()));
            }
        }
        n = n - 1;
    }
    None
}

/// Reads a decision record: it needs a status and a decision, as sections or in
/// front matter, and a title that contains its file name's identity prefix.
pub fn parse(path: &str, text: &str) -> (r: Result<(Option<String>, Option<RecordSummary>), Vec<Diagnostic>>)
    ensures
        match r {
            Ok((Some(id), Some(RecordSummary::Markdown { title }))) => decision_verdict(path@, text@)
                == Verdict::Accept((id@, title@)),
            Ok(_) => false,
            Err(ds) => refused_with(ds@, path@, decision_verdict(path@, text@)),
        },
{
    let events = markdown_events(text);
    let meta = metadata(text);
    decision_from_parts(path, &events, &meta)
}

/// Reads a decision record at `path` from the parsed events of its Markdown text and
/// the metadata of its front matter.
pub fn decision_from_parts(path: &str, events: &Vec<MdToken>, meta: &Option<Meta>) -> (r: Result<
    (Option<String>, Option<RecordSummary>),
    Vec<Diagnostic>,
>)
    ensures
        ({
            let v = decision_of_parts(path@, headings_in(events@), opt_meta(*meta));
            match r {
                Ok((Some(id), Some(RecordSummary::Markdown { title }))) => v == Verdict::Accept((id@, title@)),
                Ok(_) => false,
                Err(ds) => refused_with(ds@, path@, v),
            }
        }),
{
    let (h1, h2) = match headings_from_tokens(path, events) {
        Ok(pair) => pair,
        Err(d) => {
            return Err(vec![d]);
        }
    };
    let by_headings = contains_str(&h2, "Status") && (contains_str(&h2, "Human decision") || contains_str(
        &h2,
        "Decision",
    ));
    let by_frontmatter = match meta {
        Some(m) => m.status.is_some() && m.decision.is_some(),
        None => false,
    };
    if !by_headings && !by_frontmatter {
        return Err(vec![diag(path, "decision_shape", "decision needs status and decision in frontmatter or H2 sections")]);
    }
    let name = last_segment(path, '/');
    let stem = match strip_suffix(name.as_str(), ".md") {
        Some(s) => s,
        None => String::new(),
    };
    assert(views(h1@)[0] == h1@[0]@);
    match identity_of(stem.as_str(), h1[0].as_str()) {
        None => Err(vec![diag(path, "decision_filename_identity", "decision H1 must contain the filename ID prefix")]),
        Some(id) => Ok((Some(id), Some(RecordSummary::Markdown { title: h1[0].clone() }))),
    }
}

} // verus!
