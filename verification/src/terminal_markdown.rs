//! Markdown shown on a terminal: parser events turned into styled lines, with every
//! piece of text made terminal-safe and embedded HTML shown as text.

use crate::markdown::{MdTag, MdToken, markdown_events, markdown_tokens};
use crate::terminal::{inline_text, safe_inline};
use crate::text::{chars_of, push_str, split_chars, split_seq, string_of};
use crate::work_item::{decimal, decimal_string};
use vstd::prelude::*;

verus! {

/// A foreground colour of the workbench palette.
#[derive(Clone, Copy, Debug, PartialEq, Eq, Structural)]
pub enum Tone {
    Default,
    Accent,
    Muted,
    Border,
    Warn,
    White,
    Good,
    Bad,
    Raw,
    Black,
}

/// A background: none, that of code, or the accent of a selected tab.
#[derive(Clone, Copy, Debug, PartialEq, Eq, Structural)]
pub enum Backdrop {
    Clear,
    InlineCode,
    CodeBlock,
    Accent,
}

/// How a piece of text is drawn.
#[derive(Clone, Copy, Debug, PartialEq, Eq, Structural)]
pub struct SpanStyle {
    pub fg: Tone,
    pub bg: Backdrop,
    pub bold: bool,
    pub italic: bool,
    pub crossed: bool,
    pub underlined: bool,
}

/// The plain style.
pub open spec fn plain_style() -> SpanStyle {
    SpanStyle { fg: Tone::Default, bg: Backdrop::Clear, bold: false, italic: false, crossed: false, underlined: false }
}

/// A style with another foreground.
pub open spec fn with_fg(s: SpanStyle, t: Tone) -> SpanStyle {
    SpanStyle { fg: t, ..s }
}

/// A piece of text and its style.
#[derive(Debug, PartialEq, Eq)]
pub struct TextSpan {
    pub content: String,
    pub style: SpanStyle,
}

/// The plain content of a span.
pub struct SpanView {
    pub content: Seq<char>,
    pub style: SpanStyle,
}

impl View for TextSpan {
    type V = SpanView;

    open spec fn view(&self) -> SpanView {
        SpanView { content: self.content@, style: self.style }
    }
}

/// The views of spans.
pub open spec fn span_views(s: Seq<TextSpan>) -> Seq<SpanView> {
    s.map_values(|x: TextSpan| x@)
}

/// A line of spans, with the style of the whole line when it has one.
#[derive(Debug, PartialEq, Eq)]
pub struct TextLine {
    pub spans: Vec<TextSpan>,
    pub style: Option<SpanStyle>,
}

/// The plain content of a line.
pub struct LineView {
    pub spans: Seq<SpanView>,
    pub style: Option<SpanStyle>,
}

impl View for TextLine {
    type V = LineView;

    open spec fn view(&self) -> LineView {
        LineView { spans: span_views(self.spans@), style: self.style }
    }
}

/// The views of lines.
pub open spec fn line_views(s: Seq<TextLine>) -> Seq<LineView> {
    s.map_values(|x: TextLine| x@)
}

/// The state of rendering after some events: the finished lines, the spans of the
/// line being built, the open styles, the open lists with their next numbers, the
/// marker of an item not yet shown, the depth of quotes, and whether a code block
/// or a metadata block is open.
pub struct RenderState {
    pub lines: Seq<LineView>,
    pub spans: Seq<SpanView>,
    pub styles: Seq<SpanStyle>,
    pub lists: Seq<Option<u64>>,
    pub item_prefix: Option<Seq<char>>,
    pub quote_depth: usize,
    pub code_block: bool,
    pub metadata: bool,
}

/// The state before any event.
pub open spec fn initial_state() -> RenderState {
    RenderState {
        lines: Seq::empty(),
        spans: Seq::empty(),
        styles: Seq::empty(),
        lists: Seq::empty(),
        item_prefix: None,
        quote_depth: 0,
        code_block: false,
        metadata: false,
    }
}

/// The style of new text: the innermost open style, else code or plain.
pub open spec fn current_style(s: RenderState) -> SpanStyle {
    if s.styles.len() > 0 {
        s.styles.last()
    } else if s.code_block {
        SpanStyle { fg: Tone::Warn, bg: Backdrop::CodeBlock, ..plain_style() }
    } else {
        plain_style()
    }
}

/// The line being built, ended.
pub open spec fn flushed(s: RenderState) -> RenderState {
    if s.spans.len() > 0 {
        RenderState { lines: s.lines.push(LineView { spans: s.spans, style: None }), spans: Seq::empty(), ..s }
    } else {
        s
    }
}

/// A blank line after a line with content.
pub open spec fn blanked(s: RenderState) -> RenderState {
    if s.lines.len() > 0 && s.lines.last().spans.len() > 0 {
        RenderState { lines: s.lines.push(LineView { spans: Seq::empty(), style: None }), ..s }
    } else {
        s
    }
}

/// Two spaces for each list level below the outermost.
pub open spec fn indent_of(levels: nat) -> Seq<char>
    decreases levels,
{
    if levels <= 1 {
        Seq::empty()
    } else {
        indent_of((levels - 1) as nat) + "  "@
    }
}

/// A quote bar for each quote level.
pub open spec fn bars(n: nat) -> Seq<SpanView>
    decreases n,
{
    if n == 0 {
        Seq::empty()
    } else {
        bars((n - 1) as nat).push(SpanView { content: "│ "@, style: with_fg(plain_style(), Tone::Border) })
    }
}

/// The start of a new line: its indent, quote bars and pending item marker.
pub open spec fn prefixed(s: RenderState) -> RenderState {
    if s.spans.len() > 0 {
        s
    } else {
        let indent = indent_of(s.lists.len());
        let with_indent = if indent.len() > 0 {
            seq![SpanView { content: indent, style: plain_style() }]
        } else {
            Seq::empty()
        };
        let with_marker = match s.item_prefix {
            Some(p) => seq![SpanView { content: p, style: with_fg(plain_style(), Tone::Accent) }],
            None => Seq::empty(),
        };
        RenderState { spans: with_indent + bars(s.quote_depth as nat) + with_marker, item_prefix: None, ..s }
    }
}

/// The pieces of text `k` onwards written in `style`: a new line for each line feed.
pub open spec fn texted_from(s: RenderState, parts: Seq<Seq<char>>, style: SpanStyle, k: int) -> RenderState
    decreases parts.len() - k,
{
    if k >= parts.len() || k < 0 {
        s
    } else {
        let s1 = if k > 0 {
            prefixed(flushed(s))
        } else {
            s
        };
        let s2 = if parts[k].len() > 0 {
            RenderState { spans: s1.spans.push(SpanView { content: inline_text(parts[k]), style }), ..s1 }
        } else {
            s1
        };
        texted_from(s2, parts, style, k + 1)
    }
}

/// Text written in `style`.
pub open spec fn texted(s: RenderState, value: Seq<char>, style: SpanStyle) -> RenderState {
    texted_from(prefixed(s), split_seq(value, '\n'), style, 0)
}

/// The style of a heading level.
pub open spec fn heading_style(level: u8) -> SpanStyle {
    if level == 1 {
        SpanStyle { fg: Tone::Accent, bold: true, ..plain_style() }
    } else if level == 2 {
        SpanStyle { fg: Tone::White, bold: true, ..plain_style() }
    } else if level == 3 {
        SpanStyle { fg: Tone::Warn, bold: true, ..plain_style() }
    } else {
        SpanStyle { fg: Tone::White, ..plain_style() }
    }
}

/// The marker of a new list item, with the list's next number moved on.
pub open spec fn item_started(s: RenderState) -> RenderState {
    if s.lists.len() > 0 && s.lists.last() is Some {
        let n = s.lists.last()->0;
        RenderState {
            item_prefix: Some(decimal(n as nat) + ". "@),
            lists: s.lists.update(s.lists.len() - 1, Some(if n == u64::MAX {
                0
            } else {
                (n + 1) as u64
            })),
            ..s
        }
    } else {
        RenderState { item_prefix: Some("• "@), ..s }
    }
}

/// A style pushed onto the open styles.
pub open spec fn pushed_style(s: RenderState, st: SpanStyle) -> RenderState {
    RenderState { styles: s.styles.push(st), ..s }
}

/// The innermost open style closed.
pub open spec fn popped_style(s: RenderState) -> RenderState {
    if s.styles.len() > 0 {
        RenderState { styles: s.styles.drop_last(), ..s }
    } else {
        s
    }
}

/// What the start of an element does.
pub open spec fn started(s: RenderState, tag: MdTag) -> RenderState {
    let cur = current_style(s);
    match tag {
        MdTag::Heading(l) => pushed_style(flushed(s), heading_style(l)),
        MdTag::BlockQuote => {
            let f = flushed(s);
            RenderState {
                quote_depth: if f.quote_depth < usize::MAX {
                    (f.quote_depth + 1) as usize
                } else {
                    f.quote_depth
                },
                ..f
            }
        },
        MdTag::CodeBlock => RenderState { code_block: true, ..flushed(s) },
        MdTag::List(first) => {
            let f = flushed(s);
            RenderState { lists: f.lists.push(first), ..f }
        },
        MdTag::Item => item_started(flushed(s)),
        MdTag::Emphasis => pushed_style(s, SpanStyle { italic: true, ..cur }),
        MdTag::Strong => pushed_style(s, SpanStyle { bold: true, ..cur }),
        MdTag::Strikethrough => pushed_style(s, SpanStyle { crossed: true, ..cur }),
        MdTag::Link => pushed_style(s, SpanStyle { fg: Tone::Accent, underlined: true, ..cur }),
        MdTag::Image => pushed_style(s, with_fg(cur, Tone::Accent)),
        MdTag::Table | MdTag::TableHead | MdTag::TableRow => flushed(s),
        MdTag::TableCell => texted(s, "│ "@, with_fg(cur, Tone::Border)),
        MdTag::Metadata => RenderState { metadata: true, ..s },
        _ => s,
    }
}

/// What the end of an element does.
pub open spec fn ended(s: RenderState, tag: MdTag) -> RenderState {
    match tag {
        MdTag::Paragraph => blanked(flushed(s)),
        MdTag::Heading(_) => blanked(flushed(popped_style(s))),
        MdTag::BlockQuote => {
            let f = flushed(s);
            blanked(
                RenderState {
                    quote_depth: if f.quote_depth > 0 {
                        (f.quote_depth - 1) as usize
                    } else {
                        0
                    },
                    ..f
                },
            )
        },
        MdTag::CodeBlock => blanked(RenderState { code_block: false, ..flushed(s) }),
        MdTag::List(_) => {
            let f = flushed(s);
            blanked(
                RenderState {
                    lists: if f.lists.len() > 0 {
                        f.lists.drop_last()
                    } else {
                        f.lists
                    },
                    ..f
                },
            )
        },
        MdTag::Item | MdTag::TableRow => flushed(s),
        MdTag::Emphasis | MdTag::Strong | MdTag::Strikethrough | MdTag::Link | MdTag::Image => popped_style(s),
        MdTag::Table | MdTag::TableHead => blanked(flushed(s)),
        MdTag::Metadata => RenderState { metadata: false, ..s },
        _ => s,
    }
}

/// The line that a thematic break draws.
pub open spec fn rule_line() -> LineView {
    LineView {
        spans: seq![SpanView { content: Seq::new(32, |i: int| '─'), style: plain_style() }],
        style: Some(with_fg(plain_style(), Tone::Border)),
    }
}

/// What one parser event does; inside a metadata block only its end counts.
pub open spec fn step(s: RenderState, t: MdToken) -> RenderState {
    let cur = current_style(s);
    if s.metadata {
        if t == MdToken::End(MdTag::Metadata) {
            RenderState { metadata: false, ..s }
        } else {
            s
        }
    } else {
        match t {
            MdToken::Start(tag) => started(s, tag),
            MdToken::End(tag) => ended(s, tag),
            MdToken::Text(v) => texted(s, v@, cur),
            MdToken::Code(v) => texted(s, v@, SpanStyle { fg: Tone::Warn, bg: Backdrop::InlineCode, ..cur }),
            MdToken::InlineMath(v) | MdToken::DisplayMath(v) => texted(s, v@, with_fg(cur, Tone::Warn)),
            MdToken::Html(v) | MdToken::InlineHtml(v) => texted(s, v@, with_fg(cur, Tone::Muted)),
            MdToken::FootnoteReference(v) => texted(s, "["@ + inline_text(v@) + "]"@, with_fg(cur, Tone::Accent)),
            MdToken::SoftBreak => texted(s, " "@, cur),
            MdToken::HardBreak => flushed(s),
            MdToken::Rule => {
                let f = flushed(s);
                blanked(RenderState { lines: f.lines.push(rule_line()), ..f })
            },
            MdToken::TaskListMarker(checked) => texted(
                s,
                if checked {
                    "[x] "@
                } else {
                    "[ ] "@
                },
                with_fg(cur, Tone::Muted),
            ),
        }
    }
}

/// The state after a sequence of events.
pub open spec fn run(tokens: Seq<MdToken>) -> RenderState
    decreases tokens.len(),
{
    if tokens.len() == 0 {
        initial_state()
    } else {
        step(run(tokens.drop_last()), tokens.last())
    }
}

/// The lines without the blank lines that end them.
pub open spec fn trimmed(lines: Seq<LineView>) -> Seq<LineView>
    decreases lines.len(),
{
    if lines.len() > 0 && lines.last().spans.len() == 0 {
        trimmed(lines.drop_last())
    } else {
        lines
    }
}

/// The finished lines of a rendering, or a note that the record is empty.
pub open spec fn finished(s: RenderState) -> Seq<LineView> {
    let lines = trimmed(flushed(s).lines);
    if lines.len() == 0 {
        seq![
            LineView {
                spans: seq![SpanView { content: "Empty Markdown record."@, style: plain_style() }],
                style: Some(with_fg(plain_style(), Tone::Muted)),
            },
        ]
    } else {
        lines
    }
}

/// A Markdown text as terminal lines.
pub open spec fn rendered_markdown(text: Seq<char>) -> Seq<LineView> {
    finished(run(markdown_tokens(text)))
}


/// Renders parser events into terminal lines.
#[derive(Debug)]
pub struct Renderer {
    pub lines: Vec<TextLine>,
    pub spans: Vec<TextSpan>,
    pub styles: Vec<SpanStyle>,
    pub lists: Vec<Option<u64>>,
    pub item_prefix: Option<String>,
    pub quote_depth: usize,
    pub code_block: bool,
    pub metadata: bool,
}

impl View for Renderer {
    type V = RenderState;

    open spec fn view(&self) -> RenderState {
        RenderState {
            lines: line_views(self.lines@),
            spans: span_views(self.spans@),
            styles: self.styles@,
            lists: self.lists@,
            item_prefix: crate::derived::opt_text(self.item_prefix),
            quote_depth: self.quote_depth,
            code_block: self.code_block,
            metadata: self.metadata,
        }
    }
}

pub fn plain() -> (r: SpanStyle)
    ensures
        r == plain_style(),
{
    SpanStyle { fg: Tone::Default, bg: Backdrop::Clear, bold: false, italic: false, crossed: false, underlined: false }
}

fn heading(level: u8) -> (r: SpanStyle)
    ensures
        r == heading_style(level),
{
    let p = plain();
    if level == 1 {
        SpanStyle { fg: Tone::Accent, bold: true, ..p }
    } else if level == 2 {
        SpanStyle { fg: Tone::White, bold: true, ..p }
    } else if level == 3 {
        SpanStyle { fg: Tone::Warn, bold: true, ..p }
    } else {
        SpanStyle { fg: Tone::White, ..p }
    }
}

impl Renderer {
    /// A renderer before any event.
    pub fn new() -> (r: Renderer)
        ensures
            r@ == initial_state(),
    {
        let r = Renderer {
            lines: Vec::new(),
            spans: Vec::new(),
            styles: Vec::new(),
            lists: Vec::new(),
            item_prefix: None,
            quote_depth: 0,
            code_block: false,
            metadata: false,
        };
        assert(r@.lines =~= Seq::<LineView>::empty());
        assert(r@.spans =~= Seq::<SpanView>::empty());
        r
    }

    fn current(&self) -> (r: SpanStyle)
        ensures
            r == current_style(self@),
    {
        if self.styles.len() > 0 {
            self.styles[self.styles.len() - 1]
        } else if self.code_block {
            SpanStyle { fg: Tone::Warn, bg: Backdrop::CodeBlock, ..plain() }
        } else {
            plain()
        }
    }

    fn flush(&mut self)
        ensures
            final(self)@ == flushed(old(self)@),
    {
        if self.spans.len() > 0 {
            let mut spans: Vec<TextSpan> = Vec::new();
            std::mem::swap(&mut spans, &mut self.spans);
            let ghost prior = line_views(self.lines@);
            self.lines.push(TextLine { spans, style: None });
            assert(line_views(self.lines@) =~= prior.push(LineView { spans: span_views(old(self).spans@), style: None }));
            assert(span_views(self.spans@) =~= Seq::<SpanView>::empty());
        }
    }

    fn blank(&mut self)
        ensures
            final(self)@ == blanked(old(self)@),
    {
        let n = self.lines.len();
        if n > 0 && self.lines[n - 1].spans.len() > 0 {
            let ghost prior = line_views(self.lines@);
            self.lines.push(TextLine { spans: Vec::new(), style: None });
            assert(span_views(Seq::<TextSpan>::empty()) =~= Seq::<SpanView>::empty());
            assert(line_views(self.lines@) =~= prior.push(LineView { spans: Seq::empty(), style: None }));
        }
    }

    fn prefix(&mut self)
        ensures
            final(self)@ == prefixed(old(self)@),
    {
        if self.spans.len() > 0 {
            return;
        }
        proof {
            reveal_strlit("  ");
            reveal_strlit("│ ");
        }
        let levels = self.lists.len();
        let mut indent = String::new();
        let mut k: usize = 1;
        assert(indent@ =~= indent_of(1));
        while k < levels
            invariant
                1 <= k,
                k <= levels || k == 1,
                indent@ == indent_of(k as nat),
            decreases levels - k,
        {
            push_str(&mut indent, "  ");
            k = k + 1;
        }
        proof {
            if levels == 0 {
                assert(indent_of(0) =~= Seq::<char>::empty());
                assert(indent_of(1) =~= Seq::<char>::empty());
                assert(indent@ =~= indent_of(0));
            } else {
                assert(k == levels);
            }
        }
        assert(indent@ == indent_of(levels as nat));
        let ghost before = self@;
        if indent.as_str().unicode_len() > 0 {
            self.spans.push(TextSpan { content: indent, style: plain() });
        }
        let ghost with_indent = span_views(self.spans@);
        let mut q: usize = 0;
        while q < self.quote_depth
            invariant
                q <= self.quote_depth,
                self.quote_depth == before.quote_depth,
                crate::derived::opt_text(self.item_prefix) == before.item_prefix,
                line_views(self.lines@) == before.lines,
                self.styles@ == before.styles,
                self.lists@ == before.lists,
                self.code_block == before.code_block,
                self.metadata == before.metadata,
                span_views(self.spans@) == with_indent + bars(q as nat),
            decreases self.quote_depth - q,
        {
            let ghost prior = span_views(self.spans@);
            self.spans.push(TextSpan { content: "│ ".to_owned(), style: SpanStyle { fg: Tone::Border, ..plain() } });
            assert(span_views(self.spans@) =~= prior.push(SpanView { content: "│ "@, style: with_fg(plain_style(), Tone::Border) }));
            assert(with_indent + bars((q + 1) as nat) =~= (with_indent + bars(q as nat)).push(
                SpanView { content: "│ "@, style: with_fg(plain_style(), Tone::Border) },
            ));
            q = q + 1;
        }
        let marker = self.item_prefix.take();
        let ghost with_bars = span_views(self.spans@);
        match marker {
            Some(p) => {
                self.spans.push(TextSpan { content: p, style: SpanStyle { fg: Tone::Accent, ..plain() } });
            },
            None => {},
        }
        proof {
            let s = before;
            let iv = if indent_of(s.lists.len()).len() > 0 {
                seq![SpanView { content: indent_of(s.lists.len()), style: plain_style() }]
            } else {
                Seq::<SpanView>::empty()
            };
            assert(s.spans.len() == 0);
            assert(with_indent =~= iv);
            assert(span_views(self.spans@) =~= iv + bars(s.quote_depth as nat) + match s.item_prefix {
                Some(p) => seq![SpanView { content: p, style: with_fg(plain_style(), Tone::Accent) }],
                None => Seq::<SpanView>::empty(),
            });
        }
    }

    fn text(&mut self, value: &str, style: SpanStyle)
        ensures
            final(self)@ == texted(old(self)@, value@, style),
    {
        self.prefix();
        let cs = chars_of(value);
        let parts = split_chars(cs.as_slice(), '\n');
        let ghost ps = split_seq(value@, '\n');
        let ghost start = self@;
        let mut k: usize = 0;
        while k < parts.len()
            invariant
                cs@ == value@,
                ps == split_seq(value@, '\n'),
                parts@.len() == ps.len(),
                forall|i: int| 0 <= i < parts@.len() ==> #[trigger] parts@[i]@ == ps[i],
                k <= parts@.len(),
                texted_from(start, ps, style, 0) == texted_from(self@, ps, style, k as int),
            decreases parts.len() - k,
        {
            let ghost at = self@;
            if k > 0 {
                self.flush();
                self.prefix();
            }
            let part = &parts[k];
            if part.len() > 0 {
                let piece = string_of(part.as_slice());
                let safe = safe_inline(piece.as_str());
                let ghost prior = span_views(self.spans@);
                self.spans.push(TextSpan { content: safe, style });
                assert(span_views(self.spans@) =~= prior.push(SpanView { content: inline_text(ps[k as int]), style }));
            }
            proof {
                assert(parts@[k as int]@ == ps[k as int]);
            }
            k = k + 1;
        }
    }

    fn start(&mut self, tag: &MdTag)
        ensures
            final(self)@ == started(old(self)@, *tag),
    {
        let cur = self.current();
        match tag {
            MdTag::Heading(l) => {
                self.flush();
                self.styles.push(heading(*l));
            },
            MdTag::BlockQuote => {
                self.flush();
                self.quote_depth = self.quote_depth.saturating_add(1);
            },
            MdTag::CodeBlock => {
                self.flush();
                self.code_block = true;
            },
            MdTag::List(first) => {
                self.flush();
                self.lists.push(*first);
            },
            MdTag::Item => {
                self.flush();
                proof {
                    reveal_strlit(". ");
                    reveal_strlit("• ");
                }
                let n = self.lists.len();
                if n > 0 {
                    match self.lists[n - 1] {
                        Some(number) => {
                            let mut p = decimal_string(number);
                            push_str(&mut p, ". ");
                            self.item_prefix = Some(p);
                            let next = if number == u64::MAX {
                                0
                            } else {
                                number + 1
                            };
                            self.lists.set(n - 1, Some(next));
                        },
                        None => {
                            self.item_prefix = Some("• ".to_owned());
                        },
                    }
                } else {
                    self.item_prefix = Some("• ".to_owned());
                }
            },
            MdTag::Emphasis => self.styles.push(SpanStyle { italic: true, ..cur }),
            MdTag::Strong => self.styles.push(SpanStyle { bold: true, ..cur }),
            MdTag::Strikethrough => self.styles.push(SpanStyle { crossed: true, ..cur }),
            MdTag::Link => self.styles.push(SpanStyle { fg: Tone::Accent, underlined: true, ..cur }),
            MdTag::Image => self.styles.push(SpanStyle { fg: Tone::Accent, ..cur }),
            MdTag::Table | MdTag::TableHead | MdTag::TableRow => self.flush(),
            MdTag::TableCell => {
                proof {
                    reveal_strlit("│ ");
                }
                self.text("│ ", SpanStyle { fg: Tone::Border, ..cur });
            },
            MdTag::Metadata => self.metadata = true,
            _ => {},
        }
    }

    fn end(&mut self, tag: &MdTag)
        ensures
            final(self)@ == ended(old(self)@, *tag),
    {
        match tag {
            MdTag::Paragraph => {
                self.flush();
                self.blank();
            },
            MdTag::Heading(_) => {
                self.styles.pop();
                self.flush();
                self.blank();
            },
            MdTag::BlockQuote => {
                self.flush();
                self.quote_depth = self.quote_depth.saturating_sub(1);
                self.blank();
            },
            MdTag::CodeBlock => {
                self.flush();
                self.code_block = false;
                self.blank();
            },
            MdTag::List(_) => {
                self.flush();
                self.lists.pop();
                self.blank();
            },
            MdTag::Item | MdTag::TableRow => self.flush(),
            MdTag::Emphasis | MdTag::Strong | MdTag::Strikethrough | MdTag::Link | MdTag::Image => {
                self.styles.pop();
            },
            MdTag::Table | MdTag::TableHead => {
                self.flush();
                self.blank();
            },
            MdTag::Metadata => self.metadata = false,
            _ => {},
        }
    }

    /// Takes one parser event.
    pub fn event(&mut self, t: &MdToken)
        ensures
            final(self)@ == step(old(self)@, *t),
    {
        if self.metadata {
            match t {
                MdToken::End(MdTag::Metadata) => self.metadata = false,
                _ => {},
            }
            return;
        }
        let cur = self.current();
        proof {
            reveal_strlit("[");
            reveal_strlit("]");
            reveal_strlit(" ");
            reveal_strlit("[x] ");
            reveal_strlit("[ ] ");
        }
        match t {
            MdToken::Start(tag) => self.start(tag),
            MdToken::End(tag) => self.end(tag),
            MdToken::Text(v) => self.text(v.as_str(), cur),
            MdToken::Code(v) => self.text(v.as_str(), SpanStyle { fg: Tone::Warn, bg: Backdrop::InlineCode, ..cur }),
            MdToken::InlineMath(v) | MdToken::DisplayMath(v) => self.text(v.as_str(), SpanStyle { fg: Tone::Warn, ..cur }),
            MdToken::Html(v) | MdToken::InlineHtml(v) => self.text(v.as_str(), SpanStyle { fg: Tone::Muted, ..cur }),
            MdToken::FootnoteReference(v) => {
                let mut label = "[".to_owned();
                push_str(&mut label, safe_inline(v.as_str()).as_str());
                push_str(&mut label, "]");
                self.text(label.as_str(), SpanStyle { fg: Tone::Accent, ..cur });
            },
            MdToken::SoftBreak => self.text(" ", cur),
            MdToken::HardBreak => self.flush(),
            MdToken::Rule => {
                self.flush();
                let mut bar = String::new();
                let mut i: usize = 0;
                while i < 32
                    invariant
                        i <= 32,
                        bar@ == Seq::new(i as nat, |j: int| '─'),
                    decreases 32 - i,
                {
                    crate::text::push_char(&mut bar, '─');
                    i = i + 1;
                    assert(bar@ =~= Seq::new(i as nat, |j: int| '─'));
                }
                let ghost prior = line_views(self.lines@);
                let spans = vec![TextSpan { content: bar, style: plain() }];
                self.lines.push(TextLine { spans, style: Some(SpanStyle { fg: Tone::Border, ..plain() }) });
                assert(span_views(spans@) =~= rule_line().spans);
                assert(line_views(self.lines@) =~= prior.push(rule_line()));
                self.blank();
            },
            MdToken::TaskListMarker(checked) => {
                let marker = if *checked {
                    "[x] "
                } else {
                    "[ ] "
                };
                self.text(marker, SpanStyle { fg: Tone::Muted, ..cur });
            },
        }
    }

    /// The finished lines.
    pub fn finish(self) -> (r: Vec<TextLine>)
        ensures
            line_views(r@) == finished(self@),
    {
        let mut me = self;
        me.flush();
        let ghost flushed_lines = me@.lines;
        let mut lines = me.lines;
        while lines.len() > 0 && lines[lines.len() - 1].spans.len() == 0
            invariant
                trimmed(flushed_lines) == trimmed(line_views(lines@)),
            decreases lines.len(),
        {
            let ghost prior = line_views(lines@);
            lines.pop();
            assert(line_views(lines@) =~= prior.drop_last());
        }
        if lines.len() == 0 {
            proof {
                reveal_strlit("Empty Markdown record.");
            }
            let spans = vec![TextSpan { content: "Empty Markdown record.".to_owned(), style: plain() }];
            let r = vec![TextLine { spans, style: Some(SpanStyle { fg: Tone::Muted, ..plain() }) }];
            assert(span_views(spans@) =~= seq![SpanView { content: "Empty Markdown record."@, style: plain_style() }]);
            assert(line_views(r@) =~= finished(self@));
            r
        } else {
            lines
        }
    }
}

/// Renders Markdown as terminal lines.
pub fn render(markdown: &str) -> (r: Vec<TextLine>)
    ensures
        line_views(r@) == rendered_markdown(markdown@),
{
    let tokens = markdown_events(markdown);
    render_tokens(&tokens)
}

/// Renders the parsed events of a Markdown text as terminal lines.
pub fn render_tokens(tokens: &Vec<MdToken>) -> (r: Vec<TextLine>)
    ensures
        line_views(r@) == finished(run(tokens@)),
{
    let mut renderer = Renderer::new();
    let mut i: usize = 0;
    while i < tokens.len()
        invariant
            i <= tokens@.len(),
            renderer@ == run(tokens@.take(i as int)),
        decreases tokens.len() - i,
    {
        proof {
            assert(tokens@.take(i + 1).drop_last() =~= tokens@.take(i as int));
        }
        renderer.event(&tokens[i]);
        i = i + 1;
    }
    assert(tokens@.take(i as int) =~= tokens@);
    renderer.finish()
}

} // verus!
