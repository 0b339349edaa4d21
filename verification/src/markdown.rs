//! Markdown records: their headings, read through `pulldown-cmark`, and the
//! checks that request, decision, plan, evidence and closeout records share.

use crate::diagnostic::{Diagnostic, diag, diagnostic_is};
use crate::verdict::{Verdict, refuse, refuse_section, refused_with};
use crate::record::RecordSummary;
use crate::text::{str_eq, chars_of, trim_seq, trim_chars, string_of, contains_seq};
use pulldown_cmark::{Event, Options, Parser, Tag, TagEnd};
use vstd::prelude::*;

verus! {

/// A Markdown block or inline element, as a start or end event names it.
#[derive(Debug, PartialEq, Eq)]
pub enum MdTag {
    Paragraph,
    /// A heading of this level (1 to 6).
    Heading(u8),
    BlockQuote,
    CodeBlock,
    /// A list, numbered from this number when it is ordered.
    List(Option<u64>),
    Item,
    Emphasis,
    Strong,
    Strikethrough,
    Link,
    Image,
    Table,
    TableHead,
    TableRow,
    TableCell,
    Metadata,
    HtmlBlock,
    FootnoteDefinition,
    DefinitionList,
    DefinitionListTitle,
    DefinitionListDefinition,
    Superscript,
    Subscript,
}

/// One parser event of a Markdown document.
#[derive(Debug, PartialEq, Eq)]
pub enum MdToken {
    Start(MdTag),
    End(MdTag),
    Text(String),
    Code(String),
    InlineMath(String),
    DisplayMath(String),
    Html(String),
    InlineHtml(String),
    FootnoteReference(String),
    SoftBreak,
    HardBreak,
    Rule,
    TaskListMarker(bool),
}

/// The events `pulldown-cmark` yields for a document with all extensions on.
pub uninterp spec fn markdown_tokens(text: Seq<char>) -> Seq<MdToken>;

/// Parses Markdown with `pulldown_cmark::Parser::new_ext(text, Options::all())`,
/// each event converted to its token (an end event carries its element without the
/// start's details). The contract names the event list; CommonMark's rules are not
/// restated here.
#[verifier::external_body]
pub(crate) fn markdown_events(text: &str) -> (r: Vec<MdToken>)
    ensures
        r@ == markdown_tokens(text@),
{
    Parser::new_ext(text, Options::all()).map(token_of).collect()
}

/// A parser event of `pulldown-cmark`.
#[verifier::external_type_specification]
#[verifier::external_body]
pub struct ExMarkdownEvent<'a>(pulldown_cmark::Event<'a>);

/// The start of an element in `pulldown-cmark`.
#[verifier::external_type_specification]
#[verifier::external_body]
pub struct ExMarkdownTag<'a>(pulldown_cmark::Tag<'a>);

/// The element an end event of `pulldown-cmark` closes.
#[verifier::external_type_specification]
#[verifier::external_body]
pub struct ExTagEnd(pulldown_cmark::TagEnd);

/// The element an end event closes (`pulldown_cmark::TagEnd`), for the elements that
/// the renderers tell apart.
#[verifier::external_body]
fn element_of(t: TagEnd) -> MdTag {
    match t {
        TagEnd::Paragraph => MdTag::Paragraph,
        TagEnd::Heading(level) => MdTag::Heading(level as u8),
        TagEnd::BlockQuote(_) => MdTag::BlockQuote,
        TagEnd::CodeBlock => MdTag::CodeBlock,
        TagEnd::List(_) => MdTag::List(None),
        TagEnd::Item => MdTag::Item,
        TagEnd::Emphasis => MdTag::Emphasis,
        TagEnd::Strong => MdTag::Strong,
        TagEnd::HtmlBlock => MdTag::HtmlBlock,
        TagEnd::FootnoteDefinition => MdTag::FootnoteDefinition,
        other => inline_element_of(other),
    }
}

/// The rest of `element_of`: inline, table and metadata elements; the others go on to
/// `definition_element_of`.
#[verifier::external_body]
fn inline_element_of(t: TagEnd) -> MdTag {
    match t {
        TagEnd::Strikethrough => MdTag::Strikethrough,
        TagEnd::Link => MdTag::Link,
        TagEnd::Image => MdTag::Image,
        TagEnd::Table => MdTag::Table,
        TagEnd::TableHead => MdTag::TableHead,
        TagEnd::TableRow => MdTag::TableRow,
        TagEnd::TableCell => MdTag::TableCell,
        TagEnd::MetadataBlock(_) => MdTag::Metadata,
        other => definition_element_of(other),
    }
}

/// The rest of `inline_element_of`: definition lists, superscripts and subscripts.
#[verifier::external_body]
fn definition_element_of(t: TagEnd) -> MdTag {
    match t {
        TagEnd::DefinitionList => MdTag::DefinitionList,
        TagEnd::DefinitionListTitle => MdTag::DefinitionListTitle,
        TagEnd::DefinitionListDefinition => MdTag::DefinitionListDefinition,
        TagEnd::Superscript => MdTag::Superscript,
        TagEnd::Subscript => MdTag::Subscript,
        other => element_of(other),
    }
}

/// The token of the start of an element: a list with its first number, any other
/// element as its end event names it.
#[verifier::external_body]
fn start_token(tag: Tag) -> MdToken {
    match tag {
        Tag::List(first) => MdToken::Start(MdTag::List(first)),
        other => MdToken::Start(element_of(TagEnd::from(other))),
    }
}

/// The token of one `pulldown_cmark::Event`.
#[verifier::external_body]
fn token_of(event: Event) -> MdToken {
    match event {
        Event::Start(tag) => start_token(tag),
        Event::End(tag) => MdToken::End(element_of(tag)),
        Event::Text(v) => MdToken::Text(v.to_string()),
        Event::Code(v) => MdToken::Code(v.to_string()),
        Event::InlineMath(v) => MdToken::InlineMath(v.to_string()),
        Event::DisplayMath(v) => MdToken::DisplayMath(v.to_string()),
        Event::Html(v) => MdToken::Html(v.to_string()),
        Event::InlineHtml(v) => MdToken::InlineHtml(v.to_string()),
        Event::FootnoteReference(v) => MdToken::FootnoteReference(v.to_string()),
        Event::SoftBreak => MdToken::SoftBreak,
        Event::HardBreak => MdToken::HardBreak,
        Event::Rule => MdToken::Rule,
        Event::TaskListMarker(checked) => MdToken::TaskListMarker(checked),
    }
}

/// The state of heading collection after some events.
pub struct HeadingState {
    pub level: Option<u8>,
    pub current: Seq<char>,
    pub h1: Seq<Seq<char>>,
    pub h2: Seq<Seq<char>>,
}

/// Heading collection after the given events: the trimmed text of each level 1
/// and level 2 heading, in document order.
pub open spec fn headings_after(events: Seq<MdToken>) -> HeadingState
    decreases events.len(),
{
    if events.len() == 0 {
        HeadingState { level: None, current: Seq::empty(), h1: Seq::empty(), h2: Seq::empty() }
    } else {
        let s = headings_after(events.drop_last());
        match events.last() {
            MdToken::Start(MdTag::Heading(l)) => HeadingState { level: Some(l), current: Seq::empty(), ..s },
            MdToken::Text(v) | MdToken::Code(v) => if s.level is Some {
                HeadingState { current: s.current + v@, ..s }
            } else {
                s
            },
            MdToken::End(MdTag::Heading(_)) => match s.level {
                Some(1) => HeadingState { level: None, h1: s.h1.push(trim_seq(s.current)), ..s },
                Some(2) => HeadingState { level: None, h2: s.h2.push(trim_seq(s.current)), ..s },
                _ => HeadingState { level: None, ..s },
            },
            _ => s,
        }
    }
}

/// The level 1 and level 2 headings of a Markdown text.
pub open spec fn headings_of(text: Seq<char>) -> (Seq<Seq<char>>, Seq<Seq<char>>) {
    headings_in(markdown_tokens(text))
}

/// The level 1 and level 2 headings among the parsed events of a Markdown text.
pub open spec fn headings_in(events: Seq<MdToken>) -> (Seq<Seq<char>>, Seq<Seq<char>>) {
    let s = headings_after(events);
    (s.h1, s.h2)
}

/// The views of a list of strings.
pub open spec fn views(v: Seq<String>) -> Seq<Seq<char>> {
    v.map_values(|s: String| s@)
}

fn append_chars(current: &mut Vec<char>, v: &String)
    ensures
        final(current)@ == old(current)@ + v@,
{
    let cs = chars_of(v.as_str());
    let mut i: usize = 0;
    let ghost start = current@;
    while i < cs.len()
        invariant
            i <= cs@.len(),
            current@ == start + cs@.take(i as int),
        decreases cs.len() - i,
    {
        current.push(cs[i]);
        i = i + 1;
        assert(current@ =~= start + cs@.take(i as int));
    }
    assert(cs@.take(i as int) =~= cs@);
}

/// The level 1 and level 2 headings of a record; exactly one level 1 heading is required.
pub fn markdown_headings(path: &str, text: &str) -> (r: Result<(Vec<String>, Vec<String>), Diagnostic>)
    ensures
        match r {
            Ok((h1, h2)) => views(h1@) == headings_of(text@).0 && views(h2@) == headings_of(text@).1
                && h1@.len() == 1,
            Err(d) => headings_of(text@).0.len() != 1 && diagnostic_is(
                d,
                path@,
                "h1_count"@,
                "Markdown record must contain exactly one H1"@,
            ),
        },
{
    let events = markdown_events(text);
    headings_from_tokens(path, &events)
}

/// The level 1 and level 2 headings among the parsed events of a record; exactly one
/// level 1 heading is required.
pub fn headings_from_tokens(path: &str, events: &Vec<MdToken>) -> (r: Result<(Vec<String>, Vec<String>), Diagnostic>)
    ensures
        match r {
            Ok((h1, h2)) => views(h1@) == headings_in(events@).0 && views(h2@) == headings_in(events@).1
                && h1@.len() == 1,
            Err(d) => headings_in(events@).0.len() != 1 && diagnostic_is(
                d,
                path@,
                "h1_count"@,
                "Markdown record must contain exactly one H1"@,
            ),
        },
{
    let mut h1: Vec<String> = Vec::new();
    let mut h2: Vec<String> = Vec::new();
    let mut level: Option<u8> = None;
    let mut current: Vec<char> = Vec::new();
    let mut i: usize = 0;
    while i < events.len()
        invariant
            i <= events@.len(),
            ({
                let s = headings_after(events@.take(i as int));
                s.level == level && s.current == current@ && s.h1 == views(h1@) && s.h2 == views(h2@)
            }),
        decreases events.len() - i,
    {
        proof {
            assert(events@.take(i + 1).drop_last() =~= events@.take(i as int));
            assert(events@.take(i + 1).last() == events@[i as int]);
        }
        match &events[i] {
            MdToken::Start(MdTag::Heading(l)) => {
                level = Some(*l);
                current = Vec::new();
            }
            MdToken::Text(v) | MdToken::Code(v) => {
                if level.is_some() {
                    append_chars(&mut current, v);
                }
            }
            MdToken::End(MdTag::Heading(_)) => {
                let t = trim_chars(current.as_slice());
                let ghost p1 = views(h1@);
                let ghost p2 = views(h2@);
                match level {
                    Some(1) => {
                        h1.push(string_of(t.as_slice()));
                        assert(views(h1@) =~= p1.push(t@));
                    }
                    Some(2) => {
                        h2.push(string_of(t.as_slice()));
                        assert(views(h2@) =~= p2.push(t@));
                    }
                    _ => {}
                }
                level = None;
            }
            _ => {}
        }
        i = i + 1;
    }
    assert(events@.take(i as int) =~= events@);
    if h1.len() != 1 {
        return Err(diag(path, "h1_count", "Markdown record must contain exactly one H1"));
    }
    Ok((h1, h2))
}

/// Whether `value` is one of `list`.
pub fn contains_str(list: &Vec<String>, value: &str) -> (b: bool)
    ensures
        b == views(list@).contains(value@),
{
    let mut i: usize = 0;
    while i < list.len()
        invariant
            i <= list@.len(),
            forall|j: int| 0 <= j < i ==> list@[j]@ != value@,
        decreases list.len() - i,
    {
        if str_eq(list[i].as_str(), value) {
            assert(views(list@)[i as int] == value@);
            return true;
        }
        i = i + 1;
    }
    assert forall|j: int| 0 <= j < views(list@).len() implies views(list@)[j] != value@ by {
        assert(views(list@)[j] == list@[j]@);
    }
    false
}

/// The first required heading that the level 2 headings lack.
pub open spec fn first_missing(required: Seq<Seq<char>>, h2: Seq<Seq<char>>) -> Option<Seq<char>>
    decreases required.len(),
{
    if required.len() == 0 {
        None
    } else if !h2.contains(required[0]) {
        Some(required[0])
    } else {
        first_missing(required.drop_first(), h2)
    }
}

/// What a Markdown record with the given required sections yields: its title, or
/// the diagnostic that refuses it.
pub open spec fn markdown_verdict(
    text: Seq<char>,
    required: Seq<Seq<char>>,
    title_contains: Option<Seq<char>>,
) -> Verdict<Seq<char>> {
    let (h1, h2) = headings_of(text);
    if h1.len() != 1 {
        refuse("h1_count"@, "Markdown record must contain exactly one H1"@)
    } else if title_contains is Some && !contains_seq(h1[0], title_contains->0) {
        refuse("identity_heading"@, "H1 must contain the record ID"@)
    } else if first_missing(required, h2) is Some {
        refuse_section("missing_section"@, "required H2 is missing"@, first_missing(required, h2)->0)
    } else {
        Verdict::Accept(h1[0])
    }
}

/// Checks a Markdown record's single title, an optional identity in it, and its
/// required level 2 headings.
pub fn validate_markdown(
    path: &str,
    text: &str,
    required_h2: &[&str],
    title_contains: Option<&str>,
) -> (r: Result<RecordSummary, Vec<Diagnostic>>)
    ensures
        match r {
            Ok(RecordSummary::Markdown { title }) => markdown_verdict(
                text@,
                required_h2@.map_values(|s: &str| s@),
                match title_contains { Some(v) => Some(v@), None => None },
            ) == Verdict::Accept(title@),
            Ok(_) => false,
            Err(ds) => refused_with(
                ds@,
                path@,
                markdown_verdict(
                    text@,
                    required_h2@.map_values(|s: &str| s@),
                    match title_contains { Some(v) => Some(v@), None => None },
                ),
            ),
        },
{
    let (h1, h2) = match markdown_headings(path, text) {
        Ok(pair) => pair,
        Err(d) => {
            return Err(vec![d]);
        }
    };
    let title = &h1[0];
    assert(views(h1@)[0] == title@);
    match title_contains {
        Some(v) => {
            if !crate::text::contains(title.as_str(), v) {
                return Err(vec![diag(path, "identity_heading", "H1 must contain the record ID")]);
            }
        }
        None => {}
    }
    let ghost required = required_h2@.map_values(|s: &str| s@);
    let mut i: usize = 0;
    assert(required.skip(0) =~= required);
    while i < required_h2.len()
        invariant
            required == required_h2@.map_values(|s: &str| s@),
            headings_of(text@).0 == views(h1@),
            headings_of(text@).1 == views(h2@),
            h1@.len() == 1,
            views(h1@)[0] == title@,
            !(title_contains is Some && !contains_seq(title@, title_contains->0@)),
            i <= required.len(),
            first_missing(required, views(h2@)) == first_missing(required.skip(i as int), views(h2@)),
        decreases required.len() - i,
    {
        let expected = required_h2[i];
        assert(required.skip(i as int)[0] == expected@);
        assert(required.skip(i as int).drop_first() =~= required.skip(i + 1));
        if !contains_str(&h2, expected) {
            return Err(vec![Diagnostic::new(path, "missing_section", "required H2 is missing").section(expected)]);
        }
        i = i + 1;
    }
    Ok(RecordSummary::Markdown { title: title.clone() })
}

} // verus!
