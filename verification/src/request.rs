//! Request records: a `Request` title and a `Boundary` section.

use crate::diagnostic::{Diagnostic, diag};
use crate::markdown::{MdToken, contains_str, headings_from_tokens, headings_in, headings_of, markdown_events, views};
use crate::record::RecordSummary;
use crate::text::str_eq;
use crate::verdict::{Verdict, refuse, refused_with};
use vstd::prelude::*;

verus! {

/// What a request record yields: its title, or the diagnostic that refuses it.
pub open spec fn request_verdict(text: Seq<char>) -> Verdict<Seq<char>> {
    request_of_headings(headings_of(text))
}

/// What a request record with these level 1 and level 2 headings yields.
pub open spec fn request_of_headings(headings: (Seq<Seq<char>>, Seq<Seq<char>>)) -> Verdict<Seq<char>> {
    let (h1, h2) = headings;
    if h1.len() != 1 {
        refuse("h1_count"@, "Markdown record must contain exactly one H1"@)
    } else if h1[0] != "Request"@ || !h2.contains("Boundary"@) {
        refuse("request_shape"@, "request needs H1 Request and H2 Boundary"@)
    } else {
        Verdict::Accept(h1[0])
    }
}

/// Reads a request record: its title must be `Request` and it needs a `Boundary` section.
pub fn parse(path: &str, text: &str) -> (r: Result<RecordSummary, Vec<Diagnostic>>)
    ensures
        match r {
            Ok(RecordSummary::Markdown { title }) => request_verdict(text@) == Verdict::Accept(title@),
            Ok(_) => false,
            Err(ds) => refused_with(ds@, path@, request_verdict(text@)),
        },
{
    let events = markdown_events(text);
    request_from_tokens(path, &events)
}

/// Reads a request record from the parsed events of its Markdown text.
pub fn request_from_tokens(path: &str, events: &Vec<MdToken>) -> (r: Result<RecordSummary, Vec<Diagnostic>>)
    ensures
        match r {
            Ok(RecordSummary::Markdown { title }) => request_of_headings(headings_in(events@)) == Verdict::Accept(title@),
            Ok(_) => false,
            Err(ds) => refused_with(ds@, path@, request_of_headings(headings_in(events@))),
        },
{
    let (h1, h2) = match headings_from_tokens(path, events) {
        Ok(pair) => pair,
        Err(d) => {
            return Err(vec![d]);
        }
    };
    assert(views(h1@)[0] == h1@[0]@);
    if !str_eq(h1[0].as_str(), "Request") || !contains_str(&h2, "Boundary") {
        return Err(vec![diag(path, "request_shape", "request needs H1 Request and H2 Boundary")]);
    }
    Ok(RecordSummary::Markdown { title: h1[0].clone() })
}

} // verus!
