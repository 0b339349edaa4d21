//! Markdown as the events `pulldown-cmark` renders to HTML, held as plain values, and
//! the filter that keeps embedded HTML and unsafe link schemes out of the page.

use crate::rendering::{kept_destination, safe_destination_spec};
use pulldown_cmark::{
    Alignment, BlockQuoteKind, CowStr, Event, HeadingLevel, LinkType, MetadataBlockKind, Options, Parser, Tag, TagEnd, html,
};
use vstd::prelude::*;

verus! {

/// A heading level of `pulldown-cmark`.
#[verifier::external_type_specification]
#[verifier::external_body]
pub struct ExHeadingLevel(pulldown_cmark::HeadingLevel);

/// The kind of an alert block quote in `pulldown-cmark`.
#[verifier::external_type_specification]
#[verifier::external_body]
pub struct ExBlockQuoteKind(pulldown_cmark::BlockQuoteKind);

/// How a link was written, in `pulldown-cmark`.
#[verifier::external_type_specification]
#[verifier::external_body]
pub struct ExLinkType(pulldown_cmark::LinkType);

/// A table column's alignment in `pulldown-cmark`.
#[verifier::external_type_specification]
#[verifier::external_body]
pub struct ExAlignment(pulldown_cmark::Alignment);

/// The delimiters of a metadata block in `pulldown-cmark`.
#[verifier::external_type_specification]
#[verifier::external_body]
pub struct ExMetadataBlockKind(pulldown_cmark::MetadataBlockKind);

/// A text of `pulldown-cmark`, borrowed or owned.
#[verifier::external_type_specification]
#[verifier::external_body]
pub struct ExCowStr<'a>(pulldown_cmark::CowStr<'a>);

/// A heading level, 1 to 6.
#[derive(Clone, Copy, Debug, PartialEq, Eq, Structural)]
pub enum Level {
    H1,
    H2,
    H3,
    H4,
    H5,
    H6,
}

/// The kind of a GitHub-style alert block quote.
#[derive(Clone, Copy, Debug, PartialEq, Eq, Structural)]
pub enum QuoteKind {
    Note,
    Tip,
    Important,
    Warning,
    Caution,
}

/// How a link was written.
#[derive(Clone, Copy, Debug, PartialEq, Eq, Structural)]
pub enum LinkKind {
    Inline,
    Reference,
    ReferenceUnknown,
    Collapsed,
    CollapsedUnknown,
    Shortcut,
    ShortcutUnknown,
    Autolink,
    Email,
    WikiLink { has_pothole: bool },
}

/// The alignment of a table column.
#[derive(Clone, Copy, Debug, PartialEq, Eq, Structural)]
pub enum Align {
    Unaligned,
    Left,
    Center,
    Right,
}

/// The delimiters of a metadata block.
#[derive(Clone, Copy, Debug, PartialEq, Eq, Structural)]
pub enum MetaKind {
    YamlStyle,
    PlusesStyle,
}

/// The start of an element, with everything the HTML writer reads of it.
#[derive(Debug, PartialEq, Eq)]
pub enum HtmlTag {
    Paragraph,
    Heading { level: Level, anchor: Option<String>, classes: Vec<String>, attrs: Vec<(String, Option<String>)> },
    BlockQuote(Option<QuoteKind>),
    /// A code block: fenced with this info string, or indented.
    CodeBlock(Option<String>),
    HtmlBlock,
    List(Option<u64>),
    Item,
    FootnoteDefinition(String),
    DefinitionList,
    DefinitionListTitle,
    DefinitionListDefinition,
    Table(Vec<Align>),
    TableHead,
    TableRow,
    TableCell,
    Emphasis,
    Strong,
    Strikethrough,
    Superscript,
    Subscript,
    Link { kind: LinkKind, dest: String, title: String, id: String },
    Image { kind: LinkKind, dest: String, title: String, id: String },
    MetadataBlock(MetaKind),
}

/// The element an end event closes.
#[derive(Clone, Copy, Debug, PartialEq, Eq, Structural)]
pub enum HtmlEnd {
    Paragraph,
    Heading(Level),
    BlockQuote(Option<QuoteKind>),
    CodeBlock,
    HtmlBlock,
    List(bool),
    Item,
    FootnoteDefinition,
    DefinitionList,
    DefinitionListTitle,
    DefinitionListDefinition,
    Table,
    TableHead,
    TableRow,
    TableCell,
    Emphasis,
    Strong,
    Strikethrough,
    Superscript,
    Subscript,
    Link,
    Image,
    MetadataBlock(MetaKind),
}

/// One event of a Markdown document, as the HTML writer consumes it.
#[derive(Debug, PartialEq, Eq)]
pub enum HtmlToken {
    Start(HtmlTag),
    End(HtmlEnd),
    Text(String),
    Code(String),
    InlineMath(String),
    DisplayMath(String),
    Html(String),
    InlineHtml(String),
    FootnoteReference(String),
    SoftBreak,
    HardBreak,
    Rule,
    TaskListMarker(bool),
}

/// The plain content of an element start.
pub enum TagView {
    Paragraph,
    Heading { level: Level, anchor: Option<Seq<char>>, classes: Seq<Seq<char>>, attrs: Seq<(Seq<char>, Option<Seq<char>>)> },
    BlockQuote(Option<QuoteKind>),
    CodeBlock(Option<Seq<char>>),
    HtmlBlock,
    List(Option<u64>),
    Item,
    FootnoteDefinition(Seq<char>),
    DefinitionList,
    DefinitionListTitle,
    DefinitionListDefinition,
    Table(Seq<Align>),
    TableHead,
    TableRow,
    TableCell,
    Emphasis,
    Strong,
    Strikethrough,
    Superscript,
    Subscript,
    Link { kind: LinkKind, dest: Seq<char>, title: Seq<char>, id: Seq<char> },
    Image { kind: LinkKind, dest: Seq<char>, title: Seq<char>, id: Seq<char> },
    MetadataBlock(MetaKind),
}

/// The plain content of an event.
pub enum TokenView {
    Start(TagView),
    End(HtmlEnd),
    Text(Seq<char>),
    Code(Seq<char>),
    InlineMath(Seq<char>),
    DisplayMath(Seq<char>),
    Html(Seq<char>),
    InlineHtml(Seq<char>),
    FootnoteReference(Seq<char>),
    SoftBreak,
    HardBreak,
    Rule,
    TaskListMarker(bool),
}

/// The view of an optional text.
pub open spec fn opt_seq(s: Option<String>) -> Option<Seq<char>> {
    match s {
        Some(v) => Some(v@),
        None => None,
    }
}

impl View for HtmlTag {
    type V = TagView;

    open spec fn view(&self) -> TagView {
        match self {
            HtmlTag::Paragraph => TagView::Paragraph,
            HtmlTag::Heading { level, anchor, classes, attrs } => TagView::Heading {
                level: *level,
                anchor: opt_seq(*anchor),
                classes: classes@.map_values(|c: String| c@),
                attrs: attrs@.map_values(|a: (String, Option<String>)| (a.0@, opt_seq(a.1))),
            },
            HtmlTag::BlockQuote(k) => TagView::BlockQuote(*k),
            HtmlTag::CodeBlock(info) => TagView::CodeBlock(opt_seq(*info)),
            HtmlTag::HtmlBlock => TagView::HtmlBlock,
            HtmlTag::List(n) => TagView::List(*n),
            HtmlTag::Item => TagView::Item,
            HtmlTag::FootnoteDefinition(l) => TagView::FootnoteDefinition(l@),
            HtmlTag::DefinitionList => TagView::DefinitionList,
            HtmlTag::DefinitionListTitle => TagView::DefinitionListTitle,
            HtmlTag::DefinitionListDefinition => TagView::DefinitionListDefinition,
            HtmlTag::Table(a) => TagView::Table(a@),
            HtmlTag::TableHead => TagView::TableHead,
            HtmlTag::TableRow => TagView::TableRow,
            HtmlTag::TableCell => TagView::TableCell,
            HtmlTag::Emphasis => TagView::Emphasis,
            HtmlTag::Strong => TagView::Strong,
            HtmlTag::Strikethrough => TagView::Strikethrough,
            HtmlTag::Superscript => TagView::Superscript,
            HtmlTag::Subscript => TagView::Subscript,
            HtmlTag::Link { kind, dest, title, id } => TagView::Link { kind: *kind, dest: dest@, title: title@, id: id@ },
            HtmlTag::Image { kind, dest, title, id } => TagView::Image { kind: *kind, dest: dest@, title: title@, id: id@ },
            HtmlTag::MetadataBlock(k) => TagView::MetadataBlock(*k),
        }
    }
}

impl View for HtmlToken {
    type V = TokenView;

    open spec fn view(&self) -> TokenView {
        match self {
            HtmlToken::Start(t) => TokenView::Start(t@),
            HtmlToken::End(e) => TokenView::End(*e),
            HtmlToken::Text(v) => TokenView::Text(v@),
            HtmlToken::Code(v) => TokenView::Code(v@),
            HtmlToken::InlineMath(v) => TokenView::InlineMath(v@),
            HtmlToken::DisplayMath(v) => TokenView::DisplayMath(v@),
            HtmlToken::Html(v) => TokenView::Html(v@),
            HtmlToken::InlineHtml(v) => TokenView::InlineHtml(v@),
            HtmlToken::FootnoteReference(v) => TokenView::FootnoteReference(v@),
            HtmlToken::SoftBreak => TokenView::SoftBreak,
            HtmlToken::HardBreak => TokenView::HardBreak,
            HtmlToken::Rule => TokenView::Rule,
            HtmlToken::TaskListMarker(b) => TokenView::TaskListMarker(*b),
        }
    }
}

/// The views of events.
pub open spec fn token_views(ts: Seq<HtmlToken>) -> Seq<TokenView> {
    ts.map_values(|t: HtmlToken| t@)
}

/// The events `pulldown-cmark` yields for a text with all extensions on.
pub uninterp spec fn html_events(text: Seq<char>) -> Seq<TokenView>;

/// The HTML `pulldown_cmark::html::push_html` writes for events.
pub uninterp spec fn pushed_html(events: Seq<TokenView>) -> Seq<char>;

/// A destination kept when it is safe, emptied otherwise.
pub open spec fn kept_view(dest: Seq<char>) -> Seq<char> {
    if safe_destination_spec(dest) {
        dest
    } else {
        Seq::empty()
    }
}

/// An event as the page may show it: embedded HTML as text, and link and image
/// destinations kept only when safe.
pub open spec fn cleaned(t: TokenView) -> TokenView {
    match t {
        TokenView::Html(v) => TokenView::Text(v),
        TokenView::InlineHtml(v) => TokenView::Text(v),
        TokenView::Start(TagView::Link { kind, dest, title, id }) => TokenView::Start(
            TagView::Link { kind, dest: kept_view(dest), title, id },
        ),
        TokenView::Start(TagView::Image { kind, dest, title, id }) => TokenView::Start(
            TagView::Image { kind, dest: kept_view(dest), title, id },
        ),
        other => other,
    }
}

/// No event holds embedded HTML, and every link or image destination is safe or empty.
pub open spec fn page_safe(ts: Seq<TokenView>) -> bool {
    forall|i: int|
        0 <= i < ts.len() ==> match #[trigger] ts[i] {
            TokenView::Html(_) | TokenView::InlineHtml(_) => false,
            TokenView::Start(TagView::Link { dest, .. }) => dest.len() == 0 || safe_destination_spec(dest),
            TokenView::Start(TagView::Image { dest, .. }) => dest.len() == 0 || safe_destination_spec(dest),
            _ => true,
        }
}

/// Cleaned events are safe for the page.
pub proof fn law_cleaned_events_are_safe(ts: Seq<TokenView>)
    ensures
        page_safe(ts.map_values(|t: TokenView| cleaned(t))),
{
}

fn cleaned_token(t: HtmlToken) -> (r: HtmlToken)
    ensures
        r@ == cleaned(t@),
{
    match t {
        HtmlToken::Html(v) => HtmlToken::Text(v),
        HtmlToken::InlineHtml(v) => HtmlToken::Text(v),
        HtmlToken::Start(HtmlTag::Link { kind, dest, title, id }) => HtmlToken::Start(
            HtmlTag::Link { kind, dest: kept_destination(dest.as_str()), title, id },
        ),
        HtmlToken::Start(HtmlTag::Image { kind, dest, title, id }) => HtmlToken::Start(
            HtmlTag::Image { kind, dest: kept_destination(dest.as_str()), title, id },
        ),
        other => other,
    }
}

/// The events with embedded HTML turned into text and unsafe destinations emptied;
/// nothing else changes.
pub fn sanitized(tokens: Vec<HtmlToken>) -> (r: Vec<HtmlToken>)
    ensures
        token_views(r@) == token_views(tokens@).map_values(|t: TokenView| cleaned(t)),
        page_safe(token_views(r@)),
{
    let ghost want = token_views(tokens@).map_values(|t: TokenView| cleaned(t));
    let mut rest = tokens;
    let ghost all = rest@;
    let mut out: Vec<HtmlToken> = Vec::new();
    let mut taken: usize = 0;
    let total = rest.len();
    assert(all.skip(0) =~= all);
    while rest.len() > 0
        invariant
            want == token_views(all).map_values(|t: TokenView| cleaned(t)),
            taken + rest@.len() == all.len(),
            total == all.len(),
            rest@ == all.skip(taken as int),
            token_views(out@) == want.take(taken as int),
        decreases rest.len(),
    {
        let t = rest.remove(0);
        assert(t == all[taken as int]);
        assert(rest@ =~= all.skip(taken + 1));
        let c = cleaned_token(t);
        let ghost before = token_views(out@);
        out.push(c);
        assert(token_views(out@) =~= before.push(c@));
        assert(want.take(taken + 1) =~= want.take(taken as int).push(want[taken as int]));
        taken = taken + 1;
    }
    assert(want.take(taken as int) =~= want);
    proof {
        law_cleaned_events_are_safe(token_views(all));
    }
    out
}

/// The events of a text: `pulldown_cmark::Parser::new_ext(text, Options::all())`,
/// each converted to its plain form. The contract names the event list; CommonMark's
/// rules are not restated here.
#[verifier::external_body]
pub(crate) fn markdown_html_events(text: &str) -> (r: Vec<HtmlToken>)
    ensures
        token_views(r@) == html_events(text@),
{
    Parser::new_ext(text, Options::all()).map(event_in).collect()
}

/// The HTML `pulldown_cmark::html::push_html` writes for events. The contract names
/// the text; the writer's escaping rules are not restated here.
#[verifier::external_body]
pub(crate) fn push_html_events(tokens: Vec<HtmlToken>) -> (r: String)
    ensures
        r@ == pushed_html(token_views(tokens@)),
{
    let mut output = String::new();
    html::push_html(&mut output, tokens.into_iter().map(event_out));
    output
}

/// `pulldown_cmark::HeadingLevel` as a `Level`.
#[verifier::external_body]
fn level_in(l: HeadingLevel) -> Level {
    match l {
        HeadingLevel::H1 => Level::H1,
        HeadingLevel::H2 => Level::H2,
        HeadingLevel::H3 => Level::H3,
        HeadingLevel::H4 => Level::H4,
        HeadingLevel::H5 => Level::H5,
        HeadingLevel::H6 => Level::H6,
    }
}

/// A `Level` as `pulldown_cmark::HeadingLevel`.
#[verifier::external_body]
fn level_out(l: Level) -> HeadingLevel {
    match l {
        Level::H1 => HeadingLevel::H1,
        Level::H2 => HeadingLevel::H2,
        Level::H3 => HeadingLevel::H3,
        Level::H4 => HeadingLevel::H4,
        Level::H5 => HeadingLevel::H5,
        Level::H6 => HeadingLevel::H6,
    }
}

/// `pulldown_cmark::BlockQuoteKind` as a `QuoteKind`.
#[verifier::external_body]
fn quote_in(k: BlockQuoteKind) -> QuoteKind {
    match k {
        BlockQuoteKind::Note => QuoteKind::Note,
        BlockQuoteKind::Tip => QuoteKind::Tip,
        BlockQuoteKind::Important => QuoteKind::Important,
        BlockQuoteKind::Warning => QuoteKind::Warning,
        BlockQuoteKind::Caution => QuoteKind::Caution,
    }
}

/// A `QuoteKind` as `pulldown_cmark::BlockQuoteKind`.
#[verifier::external_body]
fn quote_out(k: QuoteKind) -> BlockQuoteKind {
    match k {
        QuoteKind::Note => BlockQuoteKind::Note,
        QuoteKind::Tip => BlockQuoteKind::Tip,
        QuoteKind::Important => BlockQuoteKind::Important,
        QuoteKind::Warning => BlockQuoteKind::Warning,
        QuoteKind::Caution => BlockQuoteKind::Caution,
    }
}

/// `pulldown_cmark::LinkType` as a `LinkKind`.
#[verifier::external_body]
fn link_in(k: LinkType) -> LinkKind {
    match k {
        LinkType::Inline => LinkKind::Inline,
        LinkType::Reference => LinkKind::Reference,
        LinkType::ReferenceUnknown => LinkKind::ReferenceUnknown,
        LinkType::Collapsed => LinkKind::Collapsed,
        LinkType::CollapsedUnknown => LinkKind::CollapsedUnknown,
        LinkType::Shortcut => LinkKind::Shortcut,
        LinkType::ShortcutUnknown => LinkKind::ShortcutUnknown,
        LinkType::Autolink => LinkKind::Autolink,
        LinkType::Email => LinkKind::Email,
        LinkType::WikiLink { has_pothole } => LinkKind::WikiLink { has_pothole },
    }
}

/// A `LinkKind` as `pulldown_cmark::LinkType`.
#[verifier::external_body]
fn link_out(k: LinkKind) -> LinkType {
    match k {
        LinkKind::Inline => LinkType::Inline,
        LinkKind::Reference => LinkType::Reference,
        LinkKind::ReferenceUnknown => LinkType::ReferenceUnknown,
        LinkKind::Collapsed => LinkType::Collapsed,
        LinkKind::CollapsedUnknown => LinkType::CollapsedUnknown,
        LinkKind::Shortcut => LinkType::Shortcut,
        LinkKind::ShortcutUnknown => LinkType::ShortcutUnknown,
        LinkKind::Autolink => LinkType::Autolink,
        LinkKind::Email => LinkType::Email,
        LinkKind::WikiLink { has_pothole } => LinkType::WikiLink { has_pothole },
    }
}

/// `pulldown_cmark::Alignment` as an `Align`.
#[verifier::external_body]
fn align_in(a: &Alignment) -> Align {
    match a {
        Alignment::None => Align::Unaligned,
        Alignment::Left => Align::Left,
        Alignment::Center => Align::Center,
        Alignment::Right => Align::Right,
    }
}

/// An `Align` as `pulldown_cmark::Alignment`.
#[verifier::external_body]
fn align_out(a: &Align) -> Alignment {
    match a {
        Align::Unaligned => Alignment::None,
        Align::Left => Alignment::Left,
        Align::Center => Alignment::Center,
        Align::Right => Alignment::Right,
    }
}

/// `pulldown_cmark::MetadataBlockKind` as a `MetaKind`.
#[verifier::external_body]
fn meta_in(k: MetadataBlockKind) -> MetaKind {
    match k {
        MetadataBlockKind::YamlStyle => MetaKind::YamlStyle,
        MetadataBlockKind::PlusesStyle => MetaKind::PlusesStyle,
    }
}

/// A `MetaKind` as `pulldown_cmark::MetadataBlockKind`.
#[verifier::external_body]
fn meta_out(k: MetaKind) -> MetadataBlockKind {
    match k {
        MetaKind::YamlStyle => MetadataBlockKind::YamlStyle,
        MetaKind::PlusesStyle => MetadataBlockKind::PlusesStyle,
    }
}

/// The parts of a heading start as plain values.
#[verifier::external_body]
fn heading_in(level: HeadingLevel, id: Option<CowStr>, classes: Vec<CowStr>, attrs: Vec<(CowStr, Option<CowStr>)>) -> HtmlTag {
    HtmlTag::Heading {
        level: level_in(level),
        anchor: id.map(|v| v.to_string()),
        classes: classes.into_iter().map(|c| c.to_string()).collect(),
        attrs: attrs.into_iter().map(|(k, v)| (k.to_string(), v.map(|v| v.to_string()))).collect(),
    }
}

/// A heading start for `pulldown-cmark`.
#[verifier::external_body]
fn heading_out(level: Level, id: Option<String>, classes: Vec<String>, attrs: Vec<(String, Option<String>)>) -> Tag<'static> {
    Tag::Heading {
        level: level_out(level),
        id: id.map(CowStr::from),
        classes: classes.into_iter().map(CowStr::from).collect(),
        attrs: attrs.into_iter().map(|(k, v)| (CowStr::from(k), v.map(CowStr::from))).collect(),
    }
}

/// The block-level starts of `pulldown_cmark::Tag` as plain values; the rest go on
/// to `inline_tag_in`.
#[verifier::external_body]
fn tag_in(t: Tag) -> HtmlTag {
    match t {
        Tag::Paragraph => HtmlTag::Paragraph,
        Tag::Heading { level, id, classes, attrs } => heading_in(level, id, classes, attrs),
        Tag::BlockQuote(k) => HtmlTag::BlockQuote(k.map(quote_in)),
        Tag::CodeBlock(pulldown_cmark::CodeBlockKind::Indented) => HtmlTag::CodeBlock(None),
        Tag::CodeBlock(pulldown_cmark::CodeBlockKind::Fenced(info)) => HtmlTag::CodeBlock(Some(info.to_string())),
        Tag::HtmlBlock => HtmlTag::HtmlBlock,
        Tag::List(n) => HtmlTag::List(n),
        Tag::Item => HtmlTag::Item,
        Tag::FootnoteDefinition(l) => HtmlTag::FootnoteDefinition(l.to_string()),
        Tag::DefinitionList => HtmlTag::DefinitionList,
        Tag::DefinitionListTitle => HtmlTag::DefinitionListTitle,
        Tag::DefinitionListDefinition => HtmlTag::DefinitionListDefinition,
        other => inline_tag_in(other),
    }
}

/// The inline starts of `pulldown_cmark::Tag` as plain values; the rest go on to
/// `table_tag_in`.
#[verifier::external_body]
fn inline_tag_in(t: Tag) -> HtmlTag {
    match t {
        Tag::Emphasis => HtmlTag::Emphasis,
        Tag::Strong => HtmlTag::Strong,
        Tag::Strikethrough => HtmlTag::Strikethrough,
        Tag::Superscript => HtmlTag::Superscript,
        Tag::Subscript => HtmlTag::Subscript,
        Tag::Link { link_type, dest_url, title, id } => HtmlTag::Link { kind: link_in(link_type), dest: dest_url.to_string(), title: title.to_string(), id: id.to_string() },
        Tag::Image { link_type, dest_url, title, id } => HtmlTag::Image { kind: link_in(link_type), dest: dest_url.to_string(), title: title.to_string(), id: id.to_string() },
        other => table_tag_in(other),
    }
}

/// The table and metadata starts of `pulldown_cmark::Tag` as plain values; the rest
/// go back to `tag_in`.
#[verifier::external_body]
fn table_tag_in(t: Tag) -> HtmlTag {
    match t {
        Tag::Table(a) => HtmlTag::Table(a.iter().map(align_in).collect()),
        Tag::TableHead => HtmlTag::TableHead,
        Tag::TableRow => HtmlTag::TableRow,
        Tag::TableCell => HtmlTag::TableCell,
        Tag::MetadataBlock(k) => HtmlTag::MetadataBlock(meta_in(k)),
        other => tag_in(other),
    }
}

/// The block-level starts as `pulldown_cmark::Tag`; the rest go on to `inline_tag_out`.
#[verifier::external_body]
fn tag_out(t: HtmlTag) -> Tag<'static> {
    match t {
        HtmlTag::Paragraph => Tag::Paragraph,
        HtmlTag::Heading { level, anchor, classes, attrs } => heading_out(level, anchor, classes, attrs),
        HtmlTag::BlockQuote(k) => Tag::BlockQuote(k.map(quote_out)),
        HtmlTag::CodeBlock(None) => Tag::CodeBlock(pulldown_cmark::CodeBlockKind::Indented),
        HtmlTag::CodeBlock(Some(info)) => Tag::CodeBlock(pulldown_cmark::CodeBlockKind::Fenced(CowStr::from(info))),
        HtmlTag::HtmlBlock => Tag::HtmlBlock,
        HtmlTag::List(n) => Tag::List(n),
        HtmlTag::Item => Tag::Item,
        HtmlTag::FootnoteDefinition(l) => Tag::FootnoteDefinition(CowStr::from(l)),
        HtmlTag::DefinitionList => Tag::DefinitionList,
        HtmlTag::DefinitionListTitle => Tag::DefinitionListTitle,
        HtmlTag::DefinitionListDefinition => Tag::DefinitionListDefinition,
        other => inline_tag_out(other),
    }
}

/// The inline starts as `pulldown_cmark::Tag`; the rest go on to `table_tag_out`.
#[verifier::external_body]
fn inline_tag_out(t: HtmlTag) -> Tag<'static> {
    match t {
        HtmlTag::Emphasis => Tag::Emphasis,
        HtmlTag::Strong => Tag::Strong,
        HtmlTag::Strikethrough => Tag::Strikethrough,
        HtmlTag::Superscript => Tag::Superscript,
        HtmlTag::Subscript => Tag::Subscript,
        HtmlTag::Link { kind, dest, title, id } => Tag::Link { link_type: link_out(kind), dest_url: dest.into(), title: title.into(), id: id.into() },
        HtmlTag::Image { kind, dest, title, id } => Tag::Image { link_type: link_out(kind), dest_url: dest.into(), title: title.into(), id: id.into() },
        other => table_tag_out(other),
    }
}

/// The table and metadata starts as `pulldown_cmark::Tag`; the rest go back to
/// `tag_out`.
#[verifier::external_body]
fn table_tag_out(t: HtmlTag) -> Tag<'static> {
    match t {
        HtmlTag::Table(a) => Tag::Table(a.iter().map(align_out).collect()),
        HtmlTag::TableHead => Tag::TableHead,
        HtmlTag::TableRow => Tag::TableRow,
        HtmlTag::TableCell => Tag::TableCell,
        HtmlTag::MetadataBlock(k) => Tag::MetadataBlock(meta_out(k)),
        other => tag_out(other),
    }
}

/// The block-level ends of `pulldown_cmark::TagEnd` as plain values; the rest go on
/// to `inline_end_in`.
#[verifier::external_body]
fn end_in(t: TagEnd) -> HtmlEnd {
    match t {
        TagEnd::Paragraph => HtmlEnd::Paragraph,
        TagEnd::Heading(l) => HtmlEnd::Heading(level_in(l)),
        TagEnd::BlockQuote(k) => HtmlEnd::BlockQuote(k.map(quote_in)),
        TagEnd::CodeBlock => HtmlEnd::CodeBlock,
        TagEnd::HtmlBlock => HtmlEnd::HtmlBlock,
        TagEnd::List(ordered) => HtmlEnd::List(ordered),
        TagEnd::Item => HtmlEnd::Item,
        TagEnd::FootnoteDefinition => HtmlEnd::FootnoteDefinition,
        TagEnd::DefinitionList => HtmlEnd::DefinitionList,
        TagEnd::DefinitionListTitle => HtmlEnd::DefinitionListTitle,
        TagEnd::DefinitionListDefinition => HtmlEnd::DefinitionListDefinition,
        other => inline_end_in(other),
    }
}

/// The table and inline ends as plain values; the rest go back to `end_in`.
#[verifier::external_body]
fn inline_end_in(t: TagEnd) -> HtmlEnd {
    match t {
        TagEnd::Table => HtmlEnd::Table,
        TagEnd::TableHead => HtmlEnd::TableHead,
        TagEnd::TableRow => HtmlEnd::TableRow,
        TagEnd::TableCell => HtmlEnd::TableCell,
        TagEnd::Emphasis => HtmlEnd::Emphasis,
        TagEnd::Strong => HtmlEnd::Strong,
        TagEnd::Strikethrough => HtmlEnd::Strikethrough,
        TagEnd::Superscript => HtmlEnd::Superscript,
        TagEnd::Subscript => HtmlEnd::Subscript,
        TagEnd::Link => HtmlEnd::Link,
        TagEnd::Image => HtmlEnd::Image,
        TagEnd::MetadataBlock(k) => HtmlEnd::MetadataBlock(meta_in(k)),
        other => end_in(other),
    }
}

/// The block-level ends as `pulldown_cmark::TagEnd`; the rest go on to `inline_end_out`.
#[verifier::external_body]
fn end_out(t: HtmlEnd) -> TagEnd {
    match t {
        HtmlEnd::Paragraph => TagEnd::Paragraph,
        HtmlEnd::Heading(l) => TagEnd::Heading(level_out(l)),
        HtmlEnd::BlockQuote(k) => TagEnd::BlockQuote(k.map(quote_out)),
        HtmlEnd::CodeBlock => TagEnd::CodeBlock,
        HtmlEnd::HtmlBlock => TagEnd::HtmlBlock,
        HtmlEnd::List(ordered) => TagEnd::List(ordered),
        HtmlEnd::Item => TagEnd::Item,
        HtmlEnd::FootnoteDefinition => TagEnd::FootnoteDefinition,
        HtmlEnd::DefinitionList => TagEnd::DefinitionList,
        HtmlEnd::DefinitionListTitle => TagEnd::DefinitionListTitle,
        HtmlEnd::DefinitionListDefinition => TagEnd::DefinitionListDefinition,
        other => inline_end_out(other),
    }
}

/// The table and inline ends as `pulldown_cmark::TagEnd`; the rest go back to `end_out`.
#[verifier::external_body]
fn inline_end_out(t: HtmlEnd) -> TagEnd {
    match t {
        HtmlEnd::Table => TagEnd::Table,
        HtmlEnd::TableHead => TagEnd::TableHead,
        HtmlEnd::TableRow => TagEnd::TableRow,
        HtmlEnd::TableCell => TagEnd::TableCell,
        HtmlEnd::Emphasis => TagEnd::Emphasis,
        HtmlEnd::Strong => TagEnd::Strong,
        HtmlEnd::Strikethrough => TagEnd::Strikethrough,
        HtmlEnd::Superscript => TagEnd::Superscript,
        HtmlEnd::Subscript => TagEnd::Subscript,
        HtmlEnd::Link => TagEnd::Link,
        HtmlEnd::Image => TagEnd::Image,
        HtmlEnd::MetadataBlock(k) => TagEnd::MetadataBlock(meta_out(k)),
        other => end_out(other),
    }
}

/// One `pulldown_cmark::Event` as a plain value; the math, HTML and footnote events go
/// on to `text_event_in`.
#[verifier::external_body]
fn event_in(e: Event) -> HtmlToken {
    match e {
        Event::Start(t) => HtmlToken::Start(tag_in(t)),
        Event::End(t) => HtmlToken::End(end_in(t)),
        Event::Text(v) => HtmlToken::Text(v.to_string()),
        Event::Code(v) => HtmlToken::Code(v.to_string()),
        Event::SoftBreak => HtmlToken::SoftBreak,
        Event::HardBreak => HtmlToken::HardBreak,
        Event::Rule => HtmlToken::Rule,
        Event::TaskListMarker(checked) => HtmlToken::TaskListMarker(checked),
        other => text_event_in(other),
    }
}

/// The math, HTML and footnote events as plain values; the rest go back to
/// `event_in`.
#[verifier::external_body]
fn text_event_in(e: Event) -> HtmlToken {
    match e {
        Event::InlineMath(v) => HtmlToken::InlineMath(v.to_string()),
        Event::DisplayMath(v) => HtmlToken::DisplayMath(v.to_string()),
        Event::Html(v) => HtmlToken::Html(v.to_string()),
        Event::InlineHtml(v) => HtmlToken::InlineHtml(v.to_string()),
        Event::FootnoteReference(v) => HtmlToken::FootnoteReference(v.to_string()),
        other => event_in(other),
    }
}

/// A plain event as a `pulldown_cmark::Event`; the math, HTML and footnote events go on
/// to `text_event_out`.
#[verifier::external_body]
fn event_out(t: HtmlToken) -> Event<'static> {
    match t {
        HtmlToken::Start(tag) => Event::Start(tag_out(tag)),
        HtmlToken::End(end) => Event::End(end_out(end)),
        HtmlToken::Text(v) => Event::Text(v.into()),
        HtmlToken::Code(v) => Event::Code(v.into()),
        HtmlToken::SoftBreak => Event::SoftBreak,
        HtmlToken::HardBreak => Event::HardBreak,
        HtmlToken::Rule => Event::Rule,
        HtmlToken::TaskListMarker(checked) => Event::TaskListMarker(checked),
        other => text_event_out(other),
    }
}

/// The math, HTML and footnote events as `pulldown_cmark::Event`; the rest go back to
/// `event_out`.
#[verifier::external_body]
fn text_event_out(t: HtmlToken) -> Event<'static> {
    match t {
        HtmlToken::InlineMath(v) => Event::InlineMath(v.into()),
        HtmlToken::DisplayMath(v) => Event::DisplayMath(v.into()),
        HtmlToken::Html(v) => Event::Html(v.into()),
        HtmlToken::InlineHtml(v) => Event::InlineHtml(v.into()),
        HtmlToken::FootnoteReference(v) => Event::FootnoteReference(v.into()),
        other => event_out(other),
    }
}

} // verus!
