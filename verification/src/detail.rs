//! The record detail of the workbench as lines of text: the overview of a record,
//! its content (text made safe, or a hex dump of binary bytes), and its diagnostics.

use crate::diagnostic::{DiagView, Diagnostic, diag_views};
use crate::project_map::{text_of, utf8_text};
use crate::record::{Classification, EntrySnapshot, EntryView, Kind, RecordSummary, SummaryView};
use crate::rendering::ascii_lower;
use crate::terminal::{hex_digit, inline_text, multiline_text, safe_inline, safe_multiline};
use crate::terminal_markdown::{
    LineView, SpanStyle, SpanView, TextLine, TextSpan, Tone, line_views, plain, plain_style, span_views, with_fg,
};
use crate::text::{chars_of, push_char, push_str, split_chars, split_seq, string_of};
use crate::work_item::{decimal, decimal_string};
use vstd::prelude::*;
use vstd::string::StrSliceExecFns;

verus! {

/// The characters of a text record shown before it is cut.
pub const TEXT_LIMIT: usize = 8192;

/// The bytes of a binary record shown before it is cut.
pub const BINARY_LIMIT: usize = 256;

/// A span of text in a style.
pub open spec fn span(content: Seq<char>, style: SpanStyle) -> SpanView {
    SpanView { content, style }
}

/// A line of one unstyled span (no span for an empty text).
pub open spec fn raw_line(content: Seq<char>) -> LineView {
    LineView {
        spans: if content.len() == 0 {
            Seq::empty()
        } else {
            seq![span(content, plain_style())]
        },
        style: None,
    }
}

/// A line of one span, with a style for the whole line.
pub open spec fn styled_line(content: Seq<char>, style: SpanStyle) -> LineView {
    LineView { spans: raw_line(content).spans, style: Some(style) }
}

/// A style with a foreground and bold.
pub open spec fn bold_fg(t: Tone) -> SpanStyle {
    SpanStyle { fg: t, bold: true, ..plain_style() }
}

/// A muted label and its value.
pub open spec fn label_line(label: Seq<char>, value: Seq<char>) -> LineView {
    LineView { spans: seq![span(label + "  "@, with_fg(plain_style(), Tone::Muted)), span(value, plain_style())], style: None }
}

pub(crate) fn text_span(content: String, style: SpanStyle) -> (r: TextSpan)
    ensures
        r@ == span(content@, style),
{
    TextSpan { content, style }
}

fn line_of(content: String, style: Option<SpanStyle>) -> (r: TextLine)
    ensures
        r@ == (LineView { spans: raw_line(content@).spans, style }),
{
    let spans = if content.as_str().is_empty() {
        Vec::new()
    } else {
        vec![text_span(content, plain())]
    };
    let r = TextLine { spans, style };
    assert(span_views(r.spans@) =~= raw_line(content@).spans);
    r
}

fn label(name: &str, value: String) -> (r: TextLine)
    ensures
        r@ == label_line(name@, value@),
{
    proof {
        reveal_strlit("  ");
    }
    let mut l = name.to_owned();
    push_str(&mut l, "  ");
    let spans = vec![text_span(l, SpanStyle { fg: Tone::Muted, ..plain() }), text_span(value, plain())];
    let r = TextLine { spans, style: None };
    assert(span_views(r.spans@) =~= label_line(name@, value@).spans);
    r
}

fn push_line(lines: &mut Vec<TextLine>, line: TextLine)
    ensures
        line_views(final(lines)@) == line_views(old(lines)@).push(line@),
{
    lines.push(line);
    assert(line_views(final(lines)@) =~= line_views(old(lines)@).push(line@));
}

/// The lines of a text: made safe, split at line feeds, and cut after the text limit.
pub open spec fn text_lines(text: Seq<char>) -> Seq<LineView> {
    if text.len() == 0 {
        seq![styled_line("Empty text record."@, with_fg(plain_style(), Tone::Muted))]
    } else {
        let cut = text.len() > TEXT_LIMIT;
        let safe = multiline_text(
            text,
            if cut {
                TEXT_LIMIT as int
            } else {
                text.len() as int
            },
        );
        let base = split_seq(safe, '\n').map_values(|l: Seq<char>| raw_line(l));
        if cut {
            base + seq![raw_line(Seq::empty()), styled_line("... truncated at 8192 characters"@, with_fg(plain_style(), Tone::Warn))]
        } else {
            base
        }
    }
}

/// Two lower-case hexadecimal digits of a byte.
pub open spec fn hex2(b: u8) -> Seq<char> {
    seq![hex_digit((b / 16) as nat), hex_digit((b % 16) as nat)]
}

/// Four lower-case hexadecimal digits of an offset below 65536.
pub open spec fn hex4(n: nat) -> Seq<char> {
    seq![hex_digit((n / 4096) % 16), hex_digit((n / 256) % 16), hex_digit((n / 16) % 16), hex_digit(n % 16)]
}

/// Bytes as two-digit hexadecimal numbers separated by spaces.
pub open spec fn hex_bytes(bs: Seq<u8>) -> Seq<char>
    decreases bs.len(),
{
    if bs.len() == 0 {
        Seq::empty()
    } else if bs.len() == 1 {
        hex2(bs[0])
    } else {
        hex_bytes(bs.drop_last()) + " "@ + hex2(bs.last())
    }
}

/// The hex dump line of the sixteen bytes from offset `16 * row` among the first `m`.
pub open spec fn hex_row(bytes: Seq<u8>, row: int, m: int) -> LineView {
    let from = 16 * row;
    let to = if from + 16 < m {
        from + 16
    } else {
        m
    };
    raw_line(hex4(from as nat) + "  "@ + hex_bytes(bytes.subrange(from, to)))
}

/// The lines of binary content: its size, then a hex dump of its first bytes.
pub open spec fn binary_lines(bytes: Seq<u8>) -> Seq<LineView> {
    let m = if bytes.len() > BINARY_LIMIT {
        BINARY_LIMIT as int
    } else {
        bytes.len() as int
    };
    let rows = (m + 15) / 16;
    let head = seq![
        styled_line("Binary content  |  "@ + decimal(bytes.len()) + " bytes"@, bold_fg(Tone::Warn)),
        raw_line(Seq::empty()),
    ];
    let dump = Seq::new(rows as nat, |r: int| hex_row(bytes, r, m));
    if bytes.len() > BINARY_LIMIT {
        head + dump + seq![raw_line(Seq::empty()), styled_line("... truncated at 256 bytes"@, with_fg(plain_style(), Tone::Warn))]
    } else {
        head + dump
    }
}

/// The lines of a record's content: its text, or its binary bytes.
pub open spec fn content_lines_of(bytes: Seq<u8>) -> Seq<LineView> {
    match text_of(bytes) {
        Some(t) => text_lines(t),
        None => binary_lines(bytes),
    }
}

fn split_lines(safe: &String) -> (r: Vec<TextLine>)
    ensures
        line_views(r@) == split_seq(safe@, '\n').map_values(|l: Seq<char>| raw_line(l)),
{
    let cs = chars_of(safe.as_str());
    let parts = split_chars(cs.as_slice(), '\n');
    let ghost ps = split_seq(safe@, '\n');
    let ghost want = ps.map_values(|l: Seq<char>| raw_line(l));
    let mut out: Vec<TextLine> = Vec::new();
    let mut k: usize = 0;
    while k < parts.len()
        invariant
            cs@ == safe@,
            ps == split_seq(safe@, '\n'),
            want == ps.map_values(|l: Seq<char>| raw_line(l)),
            parts@.len() == ps.len(),
            forall|i: int| 0 <= i < parts@.len() ==> #[trigger] parts@[i]@ == ps[i],
            k <= parts@.len(),
            line_views(out@) == want.take(k as int),
        decreases parts.len() - k,
    {
        let piece = string_of(parts[k].as_slice());
        assert(piece@ == ps[k as int]);
        push_line(&mut out, line_of(piece, None));
        assert(want.take(k + 1) =~= want.take(k as int).push(raw_line(ps[k as int])));
        k = k + 1;
    }
    assert(want.take(k as int) =~= want);
    out
}

fn text_content_lines(text: &str) -> (r: Vec<TextLine>)
    ensures
        line_views(r@) == text_lines(text@),
{
    proof {
        reveal_strlit("Empty text record.");
        reveal_strlit("... truncated at 8192 characters");
    }
    if text.is_empty() {
        let mut r: Vec<TextLine> = Vec::new();
        push_line(&mut r, line_of("Empty text record.".to_owned(), Some(SpanStyle { fg: Tone::Muted, ..plain() })));
        assert(line_views(r@) =~= text_lines(text@));
        return r;
    }
    let (safe, truncated) = safe_multiline(text, TEXT_LIMIT);
    let mut lines = split_lines(&safe);
    if truncated {
        let ghost base = line_views(lines@);
        push_line(&mut lines, line_of(String::new(), None));
        push_line(&mut lines, line_of("... truncated at 8192 characters".to_owned(), Some(SpanStyle { fg: Tone::Warn, ..plain() })));
        assert(line_views(lines@) =~= text_lines(text@));
    }
    lines
}

fn hex_digit_char(d: u8) -> (r: char)
    requires
        d < 16,
    ensures
        r == hex_digit(d as nat),
{
    let digits: [char; 16] = ['0', '1', '2', '3', '4', '5', '6', '7', '8', '9', 'a', 'b', 'c', 'd', 'e', 'f'];
    let r = digits[d as usize];
    proof {
        assert(digits@[d as int] == r);
    }
    r
}

fn row_text(bytes: &[u8], row: usize, m: usize) -> (r: String)
    requires
        m <= bytes@.len(),
        16 * row < m,
        m <= 256,
    ensures
        (LineView { spans: raw_line(r@).spans, style: None }) == hex_row(bytes@, row as int, m as int),
{
    proof {
        reveal_strlit("  ");
        reveal_strlit(" ");
    }
    let from = 16 * row;
    let to = if from + 16 < m {
        from + 16
    } else {
        m
    };
    let mut out = String::new();
    let f = from as u32;
    assert(f < 65536);
    push_char(&mut out, hex_digit_char(((f / 4096) % 16) as u8));
    push_char(&mut out, hex_digit_char(((f / 256) % 16) as u8));
    push_char(&mut out, hex_digit_char(((f / 16) % 16) as u8));
    push_char(&mut out, hex_digit_char((f % 16) as u8));
    assert(out@ =~= hex4(from as nat));
    push_str(&mut out, "  ");
    let ghost start = out@;
    let ghost bs = bytes@.subrange(from as int, to as int);
    let mut i = from;
    assert(bs.take(0) =~= Seq::<u8>::empty());
    while i < to
        invariant
            from <= i <= to,
            to <= bytes@.len(),
            bs == bytes@.subrange(from as int, to as int),
            out@ == start + hex_bytes(bs.take(i - from)),
        decreases to - i,
    {
        let b = bytes[i];
        if i > from {
            push_str(&mut out, " ");
        }
        push_char(&mut out, hex_digit_char(b / 16));
        push_char(&mut out, hex_digit_char(b % 16));
        proof {
            let k = (i - from) as int;
            assert(bs.take(k + 1).drop_last() =~= bs.take(k));
            assert(bs.take(k + 1).last() == b);
            if k == 0 {
                assert(hex_bytes(bs.take(1)) == hex2(b));
            }
            assert(out@ =~= start + hex_bytes(bs.take(k + 1)));
        }
        i = i + 1;
    }
    assert(bs.take(to - from) =~= bs);
    out
}

fn binary_content_lines(bytes: &[u8]) -> (r: Vec<TextLine>)
    ensures
        line_views(r@) == binary_lines(bytes@),
{
    proof {
        reveal_strlit("Binary content  |  ");
        reveal_strlit(" bytes");
        reveal_strlit("... truncated at 256 bytes");
    }
    let n = bytes.len();
    let m = if n > BINARY_LIMIT {
        BINARY_LIMIT
    } else {
        n
    };
    let mut header = "Binary content  |  ".to_owned();
    push_str(&mut header, decimal_string(n as u64).as_str());
    push_str(&mut header, " bytes");
    let mut lines: Vec<TextLine> = Vec::new();
    push_line(&mut lines, line_of(header, Some(SpanStyle { fg: Tone::Warn, bold: true, ..plain() })));
    push_line(&mut lines, line_of(String::new(), None));
    let ghost head = line_views(lines@);
    let rows = (m + 15) / 16;
    let ghost dump = Seq::new(rows as nat, |r: int| hex_row(bytes@, r, m as int));
    let mut row: usize = 0;
    while row < rows
        invariant
            m <= bytes@.len(),
            m <= 256,
            rows == (m + 15) / 16,
            dump == Seq::new(rows as nat, |r: int| hex_row(bytes@, r, m as int)),
            row <= rows,
            line_views(lines@) == head + dump.take(row as int),
        decreases rows - row,
    {
        assert(16 * row < m) by (nonlinear_arith)
            requires
                row < rows,
                rows == (m + 15) / 16,
        ;
        let text = row_text(bytes, row, m);
        push_line(&mut lines, line_of(text, None));
        assert(head + dump.take(row + 1) =~= (head + dump.take(row as int)).push(dump[row as int]));
        row = row + 1;
    }
    assert(dump.take(rows as int) =~= dump);
    if n > BINARY_LIMIT {
        push_line(&mut lines, line_of(String::new(), None));
        push_line(&mut lines, line_of("... truncated at 256 bytes".to_owned(), Some(SpanStyle { fg: Tone::Warn, ..plain() })));
    }
    assert(line_views(lines@) =~= binary_lines(bytes@));
    lines
}

/// The content of a record as lines: its text made safe, or a hex dump of its bytes.
pub fn content_lines(bytes: &[u8]) -> (r: Vec<TextLine>)
    ensures
        line_views(r@) == content_lines_of(bytes@),
{
    match utf8_text(bytes) {
        Some(text) => text_content_lines(text.as_str()),
        None => binary_content_lines(bytes),
    }
}

/// The exact source of a text record made safe, line by line; binary content as a dump.
pub open spec fn source_lines_of(bytes: Seq<u8>) -> Seq<LineView> {
    match text_of(bytes) {
        Some(t) => if t.len() == 0 {
            seq![styled_line("Empty text record."@, with_fg(plain_style(), Tone::Muted))]
        } else {
            split_seq(multiline_text(t, t.len() as int), '\n').map_values(|l: Seq<char>| raw_line(l))
        },
        None => binary_lines(bytes),
    }
}

/// The source of a record as lines, never cut.
pub fn source_lines(bytes: &[u8]) -> (r: Vec<TextLine>)
    ensures
        line_views(r@) == source_lines_of(bytes@),
{
    proof {
        reveal_strlit("Empty text record.");
    }
    match utf8_text(bytes) {
        Some(text) => {
            if text.as_str().is_empty() {
                let mut r: Vec<TextLine> = Vec::new();
                push_line(&mut r, line_of("Empty text record.".to_owned(), Some(SpanStyle { fg: Tone::Muted, ..plain() })));
                assert(line_views(r@) =~= source_lines_of(bytes@));
                return r;
            }
            let n = text.as_str().unicode_len();
            assert(text@.len() == n);
            let (safe, _) = safe_multiline(text.as_str(), usize::MAX);
            split_lines(&safe)
        },
        None => binary_content_lines(bytes),
    }
}


/// The lines of one diagnostic: its code, its message, and the field and section it names.
pub open spec fn diagnostic_block(d: DiagView) -> Seq<LineView> {
    let head = LineView {
        spans: seq![span("! "@, with_fg(plain_style(), Tone::Bad)), span(inline_text(d.code), bold_fg(Tone::Bad))],
        style: None,
    };
    let field = match d.field {
        Some(f) => seq![label_line("  Field"@, inline_text(f))],
        None => Seq::empty(),
    };
    let section = match d.section {
        Some(x) => seq![label_line("  Section"@, inline_text(x))],
        None => Seq::empty(),
    };
    seq![head, raw_line("  "@ + inline_text(d.message))] + field + section + seq![raw_line(Seq::empty())]
}

/// The lines of the diagnostics among `ds` that are about `path`.
pub open spec fn diagnostic_blocks(ds: Seq<DiagView>, path: Seq<char>) -> Seq<LineView>
    decreases ds.len(),
{
    if ds.len() == 0 {
        Seq::empty()
    } else if ds.last().path == path {
        diagnostic_blocks(ds.drop_last(), path) + diagnostic_block(ds.last())
    } else {
        diagnostic_blocks(ds.drop_last(), path)
    }
}

/// How many of `ds` are about `path`.
pub open spec fn count_about(ds: Seq<DiagView>, path: Seq<char>) -> nat
    decreases ds.len(),
{
    if ds.len() == 0 {
        0
    } else {
        count_about(ds.drop_last(), path) + if ds.last().path == path {
            1nat
        } else {
            0nat
        }
    }
}

/// The diagnostics tab of a record: the blocks of its own diagnostics, or a note that
/// it has none.
pub open spec fn diagnostic_lines_of(path: Seq<char>, ds: Seq<DiagView>) -> Seq<LineView> {
    if count_about(ds, path) == 0 {
        seq![
            styled_line("No diagnostics for this record."@, with_fg(plain_style(), Tone::Good)),
            styled_line("Cross-record findings remain in the scanner channel."@, with_fg(plain_style(), Tone::Muted)),
        ]
    } else {
        diagnostic_blocks(ds, path)
    }
}

proof fn lemma_blocks_empty(ds: Seq<DiagView>, path: Seq<char>)
    requires
        count_about(ds, path) == 0,
    ensures
        diagnostic_blocks(ds, path) == Seq::<LineView>::empty(),
    decreases ds.len(),
{
    if ds.len() > 0 {
        lemma_blocks_empty(ds.drop_last(), path);
    }
}

/// The diagnostics tab of the record at `path`.
pub fn diagnostic_lines(path: &str, diagnostics: &Vec<Diagnostic>) -> (r: Vec<TextLine>)
    ensures
        line_views(r@) == diagnostic_lines_of(path@, diag_views(diagnostics@)),
{
    proof {
        reveal_strlit("! ");
        reveal_strlit("  ");
        reveal_strlit("  Field");
        reveal_strlit("  Section");
        reveal_strlit("No diagnostics for this record.");
        reveal_strlit("Cross-record findings remain in the scanner channel.");
    }
    let ghost dv = diag_views(diagnostics@);
    let mut lines: Vec<TextLine> = Vec::new();
    let mut found: usize = 0;
    let mut i: usize = 0;
    assert(dv.take(0) =~= Seq::<DiagView>::empty());
    while i < diagnostics.len()
        invariant
            dv == diag_views(diagnostics@),
            i <= dv.len(),
            found == count_about(dv.take(i as int), path@),
            found <= i,
            line_views(lines@) == diagnostic_blocks(dv.take(i as int), path@),
        decreases diagnostics.len() - i,
    {
        let d = &diagnostics[i];
        proof {
            assert(dv.take(i + 1).drop_last() =~= dv.take(i as int));
            assert(dv.take(i + 1).last() == d@);
        }
        if crate::text::str_eq(d.path.as_str(), path) {
            let ghost before = line_views(lines@);
            let head = TextLine {
                spans: vec![
                    text_span("! ".to_owned(), SpanStyle { fg: Tone::Bad, ..plain() }),
                    text_span(safe_inline(d.code.as_str()), SpanStyle { fg: Tone::Bad, bold: true, ..plain() }),
                ],
                style: None,
            };
            assert(span_views(head.spans@) =~= diagnostic_block(d@)[0].spans);
            push_line(&mut lines, head);
            let mut message = "  ".to_owned();
            push_str(&mut message, safe_inline(d.message.as_str()).as_str());
            push_line(&mut lines, line_of(message, None));
            match &d.field {
                Some(f) => push_line(&mut lines, label("  Field", safe_inline(f.as_str()))),
                None => {},
            }
            match &d.section {
                Some(x) => push_line(&mut lines, label("  Section", safe_inline(x.as_str()))),
                None => {},
            }
            push_line(&mut lines, line_of(String::new(), None));
            assert(line_views(lines@) =~= before + diagnostic_block(d@));
            found = found + 1;
        }
        i = i + 1;
    }
    assert(dv.take(i as int) =~= dv);
    if found == 0 {
        proof {
            lemma_blocks_empty(dv, path@);
        }
        let mut r: Vec<TextLine> = Vec::new();
        push_line(&mut r, line_of("No diagnostics for this record.".to_owned(), Some(SpanStyle { fg: Tone::Good, ..plain() })));
        push_line(
            &mut r,
            line_of("Cross-record findings remain in the scanner channel.".to_owned(), Some(SpanStyle { fg: Tone::Muted, ..plain() })),
        );
        assert(line_views(r@) =~= diagnostic_lines_of(path@, dv));
        return r;
    }
    lines
}

/// The workbench name of a classification.
pub open spec fn classification_word(c: Classification) -> Seq<char> {
    match c {
        Classification::Governed => "governed"@,
        Classification::Ungoverned => "ungoverned"@,
        Classification::Invalid => "invalid"@,
        Classification::Raw => "raw"@,
    }
}

/// The colour of a classification.
pub open spec fn classification_tone(c: Classification) -> Tone {
    match c {
        Classification::Governed => Tone::Good,
        Classification::Ungoverned => Tone::Warn,
        Classification::Invalid => Tone::Bad,
        Classification::Raw => Tone::Raw,
    }
}

/// The workbench name of a classification.
pub fn classification_name(c: Classification) -> (r: &'static str)
    ensures
        r@ == classification_word(c),
{
    match c {
        Classification::Governed => "governed",
        Classification::Ungoverned => "ungoverned",
        Classification::Invalid => "invalid",
        Classification::Raw => "raw",
    }
}

/// The workbench name of a kind.
pub open spec fn kind_word(k: Kind) -> Seq<char> {
    match k {
        Kind::Activation => "activation"@,
        Kind::ProjectMap => "project_map"@,
        Kind::Request => "request"@,
        Kind::Decision => "decision"@,
        Kind::Evidence => "evidence"@,
        Kind::Review => "review"@,
        Kind::Plan => "plan"@,
        Kind::Closeout => "closeout"@,
        Kind::Strategy => "strategy"@,
        Kind::StrategyBinding => "strategy binding"@,
        Kind::Ticket => "ticket"@,
        Kind::Epic => "epic"@,
        Kind::Board => "board"@,
        Kind::Progress => "progress"@,
    }
}

/// The workbench name of a kind.
pub fn kind_name(k: Kind) -> (r: &'static str)
    ensures
        r@ == kind_word(k),
{
    match k {
        Kind::Activation => "activation",
        Kind::ProjectMap => "project_map",
        Kind::Request => "request",
        Kind::Decision => "decision",
        Kind::Evidence => "evidence",
        Kind::Review => "review",
        Kind::Plan => "plan",
        Kind::Closeout => "closeout",
        Kind::Strategy => "strategy",
        Kind::StrategyBinding => "strategy binding",
        Kind::Ticket => "ticket",
        Kind::Epic => "epic",
        Kind::Board => "board",
        Kind::Progress => "progress",
    }
}

/// The colour of a work status, by its ASCII lower-case form: done statuses good,
/// failed ones bad, pending ones warned, others accented.
pub open spec fn status_tone(status: Seq<char>) -> Tone {
    let s = status.map_values(|c: char| ascii_lower(c));
    if s == "accepted"@ || s == "complete"@ || s == "completed"@ || s == "done"@ {
        Tone::Good
    } else if s == "rejected"@ || s == "blocked"@ || s == "failed"@ {
        Tone::Bad
    } else if s == "pending"@ || s == "proposed"@ || s == "review"@ {
        Tone::Warn
    } else {
        Tone::Accent
    }
}

fn ascii_lowercase(s: &str) -> (r: String)
    ensures
        r@ == s@.map_values(|c: char| ascii_lower(c)),
{
    let cs = chars_of(s);
    let mut out = String::new();
    let mut i: usize = 0;
    while i < cs.len()
        invariant
            cs@ == s@,
            i <= cs@.len(),
            out@ == cs@.take(i as int).map_values(|c: char| ascii_lower(c)),
        decreases cs.len() - i,
    {
        let c = cs[i];
        let l = if 'A' <= c && c <= 'Z' {
            ((c as u32) + 32) as u8 as char
        } else {
            c
        };
        assert(l == ascii_lower(c)) by {
            if 'A' <= c && c <= 'Z' {
                assert(((c as u32) + 32) as u8 as char == ((c as u32) + 32) as char);
            }
        }
        push_char(&mut out, l);
        assert(cs@.take(i + 1).map_values(|c: char| ascii_lower(c)) =~= cs@.take(i as int).map_values(|c: char| ascii_lower(c)).push(
            ascii_lower(c),
        ));
        i = i + 1;
    }
    assert(cs@.take(i as int) =~= cs@);
    out
}

/// The bold style of a work status.
pub fn status_style(status: &str) -> (r: SpanStyle)
    ensures
        r == bold_fg(status_tone(status@)),
{
    let s = ascii_lowercase(status);
    let t = s.as_str();
    let tone = if crate::text::str_eq(t, "accepted") || crate::text::str_eq(t, "complete") || crate::text::str_eq(t, "completed")
        || crate::text::str_eq(t, "done") {
        Tone::Good
    } else if crate::text::str_eq(t, "rejected") || crate::text::str_eq(t, "blocked") || crate::text::str_eq(t, "failed") {
        Tone::Bad
    } else if crate::text::str_eq(t, "pending") || crate::text::str_eq(t, "proposed") || crate::text::str_eq(t, "review") {
        Tone::Warn
    } else {
        Tone::Accent
    };
    SpanStyle { fg: tone, bold: true, ..plain() }
}


/// A character as it is shown: escaped when it is a control character.
pub open spec fn shown_char(c: char) -> Seq<char> {
    if crate::rendering::is_control(c) {
        crate::terminal::escape_control(c)
    } else {
        seq![c]
    }
}

/// A text shown from character `k` on within `limit` shown characters, `used` of which
/// are taken: cut with `...` where the next character (and a place for the marker, when
/// more follow) would not fit.
pub open spec fn bounded_from(s: Seq<char>, k: int, limit: int, used: int) -> Seq<char>
    decreases s.len() - k,
{
    if k >= s.len() || k < 0 {
        Seq::empty()
    } else {
        let e = shown_char(s[k]);
        let marker = if k + 1 < s.len() {
            1int
        } else {
            0int
        };
        if used + e.len() + marker > limit {
            "..."@
        } else {
            e + bounded_from(s, k + 1, limit, used + e.len())
        }
    }
}

/// A text made safe and cut to `limit` shown characters.
pub open spec fn bounded_text(s: Seq<char>, limit: int) -> Seq<char> {
    bounded_from(s, 0, limit, 0)
}

fn escaped(c: char) -> (r: String)
    ensures
        r@ == shown_char(c),
{
    let mut t = String::new();
    push_char(&mut t, c);
    let r = safe_inline(t.as_str());
    assert(t@ =~= seq![c]);
    assert(crate::terminal::inline_text(seq![c]) =~= crate::terminal::inline_text(Seq::<char>::empty()) + shown_char(c)) by {
        assert(seq![c].drop_last() =~= Seq::<char>::empty());
    }
    r
}

/// Makes a text safe and cuts it to `limit` shown characters.
pub fn bounded_terminal_text(text: &str, limit: usize) -> (r: String)
    ensures
        r@ == bounded_text(text@, limit as int),
{
    proof {
        reveal_strlit("...");
    }
    let cs = chars_of(text);
    let mut out = String::new();
    let mut used: usize = 0;
    let mut k: usize = 0;
    while k < cs.len()
        invariant
            cs@ == text@,
            k <= cs@.len(),
            used <= limit,
            bounded_text(text@, limit as int) == out@ + bounded_from(text@, k as int, limit as int, used as int),
        decreases cs.len() - k,
    {
        let e = escaped(cs[k]);
        let n = e.as_str().unicode_len();
        let marker: usize = if k + 1 < cs.len() {
            1
        } else {
            0
        };
        if n > limit || marker > limit - n || used > limit - n - marker {
            push_str(&mut out, "...");
            return out;
        }
        push_str(&mut out, e.as_str());
        used = used + n;
        k = k + 1;
    }
    assert(out@ + Seq::<char>::empty() =~= out@);
    out
}

/// Texts joined by `, `.
pub open spec fn join_comma(ds: Seq<Seq<char>>) -> Seq<char>
    decreases ds.len(),
{
    if ds.len() == 0 {
        Seq::empty()
    } else if ds.len() == 1 {
        ds[0]
    } else {
        join_comma(ds.drop_last()) + ", "@ + ds.last()
    }
}

/// Column names joined, with a note of how many were left out.
pub open spec fn columns_text(ds: Seq<Seq<char>>, omitted: nat) -> Seq<char> {
    join_comma(ds) + if omitted > 0 {
        (if join_comma(ds).len() > 0 {
            ", "@
        } else {
            Seq::empty()
        }) + "... +"@ + decimal(omitted) + " columns omitted"@
    } else {
        Seq::empty()
    }
}

/// The shown columns, dropped from the end until their text fits.
pub open spec fn fitted(ds: Seq<Seq<char>>, total: nat) -> Seq<Seq<char>>
    decreases ds.len(),
{
    if ds.len() > 0 && columns_text(ds, (total - ds.len()) as nat).len() > 360 {
        fitted(ds.drop_last(), total)
    } else {
        ds
    }
}

/// The columns of a board as one bounded text: at most twelve, each cut to 72
/// characters, the whole cut to 360, with a note of those left out.
pub open spec fn board_columns_text(columns: Seq<Seq<char>>) -> Seq<char> {
    let shown = columns.take(if columns.len() > 12 {
        12int
    } else {
        columns.len() as int
    }).map_values(|c: Seq<char>| bounded_text(c, 72));
    let f = fitted(shown, columns.len());
    columns_text(f, (columns.len() - f.len()) as nat)
}

fn columns_string(ds: &Vec<String>, omitted: usize) -> (r: String)
    ensures
        r@ == columns_text(crate::board::strs(ds@), omitted as nat),
{
    proof {
        reveal_strlit(", ");
        reveal_strlit("... +");
        reveal_strlit(" columns omitted");
    }
    let ghost dv = crate::board::strs(ds@);
    let mut text = String::new();
    let mut i: usize = 0;
    assert(dv.take(0) =~= Seq::<Seq<char>>::empty());
    while i < ds.len()
        invariant
            dv == crate::board::strs(ds@),
            i <= ds@.len(),
            text@ == join_comma(dv.take(i as int)),
        decreases ds.len() - i,
    {
        if i > 0 {
            push_str(&mut text, ", ");
        }
        push_str(&mut text, ds[i].as_str());
        proof {
            assert(dv.take(i + 1).drop_last() =~= dv.take(i as int));
            assert(dv.take(i + 1).last() == ds@[i as int]@);
            if i == 0 {
                assert(text@ =~= dv.take(1)[0]);
            }
        }
        i = i + 1;
    }
    assert(dv.take(i as int) =~= dv);
    if omitted > 0 {
        let ghost joined = text@;
        if !text.as_str().is_empty() {
            push_str(&mut text, ", ");
        }
        push_str(&mut text, "... +");
        push_str(&mut text, decimal_string(omitted as u64).as_str());
        push_str(&mut text, " columns omitted");
        assert(text@ =~= columns_text(dv, omitted as nat));
    } else {
        assert(text@ =~= columns_text(dv, omitted as nat));
    }
    text
}

/// The columns of a board as one bounded text.
pub fn board_columns(columns: &Vec<String>) -> (r: String)
    ensures
        r@ == board_columns_text(crate::board::strs(columns@)),
{
    let ghost cv = crate::board::strs(columns@);
    let n = columns.len();
    let take = if n > 12 {
        12
    } else {
        n
    };
    let ghost shown = cv.take(take as int).map_values(|c: Seq<char>| bounded_text(c, 72));
    let mut displayed: Vec<String> = Vec::new();
    let mut i: usize = 0;
    while i < take
        invariant
            cv == crate::board::strs(columns@),
            take <= columns@.len(),
            shown == cv.take(take as int).map_values(|c: Seq<char>| bounded_text(c, 72)),
            i <= take,
            crate::board::strs(displayed@) == shown.take(i as int),
        decreases take - i,
    {
        let ghost prior = crate::board::strs(displayed@);
        displayed.push(bounded_terminal_text(columns[i].as_str(), 72));
        assert(crate::board::strs(displayed@) =~= prior.push(shown[i as int]));
        assert(shown.take(i + 1) =~= shown.take(i as int).push(shown[i as int]));
        i = i + 1;
    }
    assert(shown.take(take as int) =~= shown);
    assert(fitted(shown, n as nat) == fitted(crate::board::strs(displayed@), n as nat));
    loop
        invariant
            displayed@.len() <= n,
            fitted(shown, n as nat) == fitted(crate::board::strs(displayed@), n as nat),
        ensures
            displayed@.len() <= n,
            fitted(shown, n as nat) == crate::board::strs(displayed@),
        decreases displayed@.len(),
    {
        if displayed.len() == 0 {
            break;
        }
        let text = columns_string(&displayed, n - displayed.len());
        if text.as_str().unicode_len() <= 360 {
            break;
        }
        let ghost prior = crate::board::strs(displayed@);
        displayed.pop();
        assert(crate::board::strs(displayed@) =~= prior.drop_last());
    }
    columns_string(&displayed, n - displayed.len())
}


/// The upper-case form of a text (`str::to_uppercase`, full Unicode case mapping).
pub uninterp spec fn uppercase(text: Seq<char>) -> Seq<char>;

/// `str::to_uppercase`.
#[verifier::external_body]
pub(crate) fn to_uppercase(text: &str) -> (r: String)
    ensures
        r@ == uppercase(text@),
{
    text.to_uppercase()
}

/// The heading lines that a record's summary gives its overview.
pub open spec fn summary_lines(s: SummaryView) -> Seq<LineView> {
    let accent = bold_fg(Tone::Accent);
    let bold = SpanStyle { bold: true, ..plain_style() };
    match s {
        SummaryView::WorkItem { id, title, status, rank } => seq![
            LineView {
                spans: seq![
                    span(inline_text(id), accent),
                    span("  "@, plain_style()),
                    span(" "@ + uppercase(inline_text(status)) + " "@, bold_fg(status_tone(status))),
                    span(
                        match rank {
                            Some(n) => "  rank #"@ + decimal(n as nat),
                            None => Seq::empty(),
                        },
                        with_fg(plain_style(), Tone::Muted),
                    ),
                ],
                style: None,
            },
            styled_line(inline_text(title), bold),
        ],
        SummaryView::Board { id, title, columns } => seq![
            styled_line(inline_text(id), accent),
            styled_line(inline_text(title), bold),
            label_line("Columns"@, board_columns_text(columns)),
        ],
        SummaryView::Markdown(title) => seq![styled_line(inline_text(title), bold)],
        SummaryView::Strategy { strategy_id, phase, adapter } => seq![
            styled_line(inline_text(strategy_id), accent),
            label_line("Phase"@, inline_text(phase)),
            label_line("Adapter"@, inline_text(adapter)),
        ],
        SummaryView::StrategyBinding(b) => seq![
            styled_line("Implementation writer binding"@, accent),
            label_line("Adapter"@, inline_text(b.adapter)),
            label_line("Role"@, inline_text(b.role)),
            label_line("Model"@, inline_text(b.model)),
            label_line("Reasoning"@, inline_text(b.reasoning_effort)),
            label_line("Resolution"@, inline_text(b.mode)),
            label_line("Catalog value"@, inline_text(b.value)),
        ],
        SummaryView::Activation(projects) => seq![styled_line("Projects"@, accent)] + projects.map_values(
            |p: Seq<char>| raw_line("  - "@ + inline_text(p)),
        ),
        SummaryView::ProjectMap(projects) => seq![styled_line("Projects"@, accent)] + projects.map_values(
            |p: Seq<char>| raw_line("  - "@ + inline_text(p)),
        ),
    }
}

/// The overview of a record: its summary's lines, then its path, classification,
/// kind, identity and the number of its own diagnostics.
pub open spec fn overview_lines_of(e: EntryView, ds: Seq<DiagView>) -> Seq<LineView> {
    let n = count_about(ds, e.path);
    let head = match e.summary {
        Some(s) => summary_lines(s) + seq![raw_line(Seq::empty())],
        None => Seq::empty(),
    };
    let identity = match e.identity {
        Some(i) => seq![label_line("Identity"@, inline_text(i))],
        None => Seq::empty(),
    };
    head + seq![
        label_line("Path"@, inline_text(e.path)),
        LineView {
            spans: seq![
                span("Classification  "@, with_fg(plain_style(), Tone::Muted)),
                span(classification_word(e.classification), with_fg(plain_style(), classification_tone(e.classification))),
            ],
            style: None,
        },
        label_line(
            "Kind"@,
            match e.kind {
                Some(k) => kind_word(k),
                None => "unknown"@,
            },
        ),
    ] + identity + seq![
        LineView {
            spans: seq![
                span("Diagnostics  "@, with_fg(plain_style(), Tone::Muted)),
                span(
                    decimal(n),
                    with_fg(
                        plain_style(),
                        if n == 0 {
                            Tone::Good
                        } else {
                            Tone::Bad
                        },
                    ),
                ),
            ],
            style: None,
        },
    ]
}

fn project_lines(lines: &mut Vec<TextLine>, projects: &Vec<String>)
    ensures
        line_views(final(lines)@) == line_views(old(lines)@) + crate::board::strs(projects@).map_values(
            |p: Seq<char>| raw_line("  - "@ + inline_text(p)),
        ),
{
    proof {
        reveal_strlit("  - ");
    }
    let ghost start = line_views(lines@);
    let ghost want = crate::board::strs(projects@).map_values(|p: Seq<char>| raw_line("  - "@ + inline_text(p)));
    let mut i: usize = 0;
    while i < projects.len()
        invariant
            want == crate::board::strs(projects@).map_values(|p: Seq<char>| raw_line("  - "@ + inline_text(p))),
            i <= projects@.len(),
            line_views(lines@) == start + want.take(i as int),
        decreases projects.len() - i,
    {
        let mut t = "  - ".to_owned();
        push_str(&mut t, safe_inline(projects[i].as_str()).as_str());
        push_line(lines, line_of(t, None));
        assert(start + want.take(i + 1) =~= (start + want.take(i as int)).push(want[i as int]));
        i = i + 1;
    }
    assert(want.take(i as int) =~= want);
}

fn count_matching(path: &str, diagnostics: &Vec<Diagnostic>) -> (r: usize)
    ensures
        r == count_about(diag_views(diagnostics@), path@),
{
    let ghost dv = diag_views(diagnostics@);
    let mut n: usize = 0;
    let mut i: usize = 0;
    assert(dv.take(0) =~= Seq::<DiagView>::empty());
    while i < diagnostics.len()
        invariant
            dv == diag_views(diagnostics@),
            i <= dv.len(),
            n <= i,
            n == count_about(dv.take(i as int), path@),
        decreases diagnostics.len() - i,
    {
        proof {
            assert(dv.take(i + 1).drop_last() =~= dv.take(i as int));
            assert(dv.take(i + 1).last() == diagnostics@[i as int]@);
        }
        if crate::text::str_eq(diagnostics[i].path.as_str(), path) {
            n = n + 1;
        }
        i = i + 1;
    }
    assert(dv.take(i as int) =~= dv);
    n
}

fn summary_text_lines(lines: &mut Vec<TextLine>, summary: &RecordSummary)
    ensures
        line_views(final(lines)@) == line_views(old(lines)@) + summary_lines(summary@),
{
    proof {
        reveal_strlit("  ");
        reveal_strlit(" ");
        reveal_strlit("  rank #");
        reveal_strlit("Columns");
        reveal_strlit("Phase");
        reveal_strlit("Adapter");
        reveal_strlit("Role");
        reveal_strlit("Model");
        reveal_strlit("Reasoning");
        reveal_strlit("Resolution");
        reveal_strlit("Catalog value");
        reveal_strlit("Implementation writer binding");
        reveal_strlit("Projects");
    }
    let ghost start = line_views(lines@);
    let accent = SpanStyle { fg: Tone::Accent, bold: true, ..plain() };
    let bold = SpanStyle { bold: true, ..plain() };
    match summary {
        RecordSummary::WorkItem { id, title, status, rank } => {
            let mut badge = " ".to_owned();
            push_str(&mut badge, to_uppercase(safe_inline(status.as_str()).as_str()).as_str());
            push_str(&mut badge, " ");
            let rank_text = match rank {
                Some(n) => {
                    let mut t = "  rank #".to_owned();
                    push_str(&mut t, decimal_string(*n).as_str());
                    t
                },
                None => String::new(),
            };
            let head = TextLine {
                spans: vec![
                    text_span(safe_inline(id.as_str()), accent),
                    text_span("  ".to_owned(), plain()),
                    text_span(badge, status_style(status.as_str())),
                    text_span(rank_text, SpanStyle { fg: Tone::Muted, ..plain() }),
                ],
                style: None,
            };
            assert(span_views(head.spans@) =~= summary_lines(summary@)[0].spans);
            push_line(lines, head);
            push_line(lines, line_of(safe_inline(title.as_str()), Some(bold)));
        },
        RecordSummary::Board { id, title, columns } => {
            push_line(lines, line_of(safe_inline(id.as_str()), Some(accent)));
            push_line(lines, line_of(safe_inline(title.as_str()), Some(bold)));
            push_line(lines, label("Columns", board_columns(columns)));
        },
        RecordSummary::Markdown { title } => {
            push_line(lines, line_of(safe_inline(title.as_str()), Some(bold)));
        },
        RecordSummary::Strategy { strategy_id, phase, adapter } => {
            push_line(lines, line_of(safe_inline(strategy_id.as_str()), Some(accent)));
            push_line(lines, label("Phase", safe_inline(phase.as_str())));
            push_line(lines, label("Adapter", safe_inline(adapter.as_str())));
        },
        RecordSummary::StrategyBinding { binding } => {
            push_line(lines, line_of("Implementation writer binding".to_owned(), Some(accent)));
            push_line(lines, label("Adapter", safe_inline(binding.adapter.as_str())));
            push_line(lines, label("Role", safe_inline(binding.role.as_str())));
            push_line(lines, label("Model", safe_inline(binding.model.as_str())));
            push_line(lines, label("Reasoning", safe_inline(binding.reasoning_effort.as_str())));
            push_line(lines, label("Resolution", safe_inline(binding.resolution.mode.as_str())));
            push_line(lines, label("Catalog value", safe_inline(binding.resolution.value.as_str())));
        },
        RecordSummary::Activation { projects } | RecordSummary::ProjectMap { projects } => {
            push_line(lines, line_of("Projects".to_owned(), Some(accent)));
            project_lines(lines, projects);
        },
    }
    assert(line_views(lines@) =~= start + summary_lines(summary@));
}

/// The overview of a record.
pub fn overview_lines(entry: &EntrySnapshot, diagnostics: &Vec<Diagnostic>) -> (r: Vec<TextLine>)
    ensures
        line_views(r@) == overview_lines_of(entry@, diag_views(diagnostics@)),
{
    proof {
        reveal_strlit("Path");
        reveal_strlit("Kind");
        reveal_strlit("unknown");
        reveal_strlit("Identity");
        reveal_strlit("Classification  ");
        reveal_strlit("Diagnostics  ");
    }
    let matching = count_matching(entry.path.as_str(), diagnostics);
    let mut lines: Vec<TextLine> = Vec::new();
    match &entry.summary {
        Some(summary) => {
            summary_text_lines(&mut lines, summary);
            push_line(&mut lines, line_of(String::new(), None));
        },
        None => {},
    }
    let ghost head = line_views(lines@);
    push_line(&mut lines, label("Path", safe_inline(entry.path.as_str())));
    let class = TextLine {
        spans: vec![
            text_span("Classification  ".to_owned(), SpanStyle { fg: Tone::Muted, ..plain() }),
            text_span(
                classification_name(entry.classification).to_owned(),
                SpanStyle {
                    fg: match entry.classification {
                        Classification::Governed => Tone::Good,
                        Classification::Ungoverned => Tone::Warn,
                        Classification::Invalid => Tone::Bad,
                        Classification::Raw => Tone::Raw,
                    },
                    ..plain()
                },
            ),
        ],
        style: None,
    };
    assert(span_views(class.spans@) =~= overview_lines_of(entry@, diag_views(diagnostics@))[head.len() as int + 1].spans);
    push_line(&mut lines, class);
    let kind = match entry.kind {
        Some(k) => kind_name(k),
        None => "unknown",
    };
    push_line(&mut lines, label("Kind", kind.to_owned()));
    match &entry.identity {
        Some(i) => push_line(&mut lines, label("Identity", safe_inline(i.as_str()))),
        None => {},
    }
    let count = TextLine {
        spans: vec![
            text_span("Diagnostics  ".to_owned(), SpanStyle { fg: Tone::Muted, ..plain() }),
            text_span(
                decimal_string(matching as u64),
                SpanStyle {
                    fg: if matching == 0 {
                        Tone::Good
                    } else {
                        Tone::Bad
                    },
                    ..plain()
                },
            ),
        ],
        style: None,
    };
    push_line(&mut lines, count);
    proof {
        let want = overview_lines_of(entry@, diag_views(diagnostics@));
        assert(head =~= match entry@.summary {
            Some(s) => summary_lines(s) + seq![raw_line(Seq::empty())],
            None => Seq::<LineView>::empty(),
        });
        assert(line_views(lines@).len() == want.len());
        assert forall|i: int| 0 <= i < want.len() implies line_views(lines@)[i] == want[i] by {
            if i < head.len() {
            } else if i == head.len() {
            } else if i == head.len() + 1 {
                assert(line_views(lines@)[i].spans =~= want[i].spans);
            } else if i == head.len() + 2 {
            } else if i == want.len() - 1 {
                assert(line_views(lines@)[i].spans =~= want[i].spans);
            } else {
            }
        }
    }
    assert(line_views(lines@) =~= overview_lines_of(entry@, diag_views(diagnostics@)));
    lines
}


/// The rendered tab of a record: Markdown rendered for a `.md` text, other content as is.
pub open spec fn rendered_lines_of(e: EntryView) -> Seq<LineView> {
    match text_of(e.original_bytes) {
        Some(t) => if crate::text::is_suffix(".md"@, e.path) {
            crate::terminal_markdown::rendered_markdown(t)
        } else {
            text_lines(t)
        },
        None => binary_lines(e.original_bytes),
    }
}

/// The rendered tab of a record.
pub fn rendered_lines(entry: &EntrySnapshot) -> (r: Vec<TextLine>)
    ensures
        line_views(r@) == rendered_lines_of(entry@),
{
    match utf8_text(entry.original_bytes.as_slice()) {
        Some(text) => if crate::text::ends_with(entry.path.as_str(), ".md") {
            crate::terminal_markdown::render(text.as_str())
        } else {
            text_content_lines(text.as_str())
        },
        None => binary_content_lines(entry.original_bytes.as_slice()),
    }
}

/// The lines of one tab of a record's detail.
pub open spec fn detail_lines_of(e: EntryView, ds: Seq<DiagView>, tab: crate::tui::DetailTab) -> Seq<LineView> {
    match tab {
        crate::tui::DetailTab::Overview => overview_lines_of(e, ds),
        crate::tui::DetailTab::Rendered => rendered_lines_of(e),
        crate::tui::DetailTab::Source => source_lines_of(e.original_bytes),
        crate::tui::DetailTab::Diagnostics => diagnostic_lines_of(e.path, ds),
    }
}

/// The lines of one tab of a record's detail.
pub fn detail_lines(entry: &EntrySnapshot, diagnostics: &Vec<Diagnostic>, tab: crate::tui::DetailTab) -> (r: Vec<TextLine>)
    ensures
        line_views(r@) == detail_lines_of(entry@, diag_views(diagnostics@), tab),
{
    match tab {
        crate::tui::DetailTab::Overview => overview_lines(entry, diagnostics),
        crate::tui::DetailTab::Rendered => rendered_lines(entry),
        crate::tui::DetailTab::Source => source_lines(entry.original_bytes.as_slice()),
        crate::tui::DetailTab::Diagnostics => diagnostic_lines(entry.path.as_str(), diagnostics),
    }
}

} // verus!
