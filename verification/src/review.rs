//! The lines of the change review: the diff made safe for the terminal, each line
//! coloured by what it is (a header, an addition, a removal, or context).

use crate::detail::{bold_fg, span, text_span};
use crate::terminal::{inline_text, multiline_text, safe_inline, safe_multiline};
use crate::terminal_markdown::{LineView, SpanStyle, TextLine, Tone, line_views, plain, plain_style, with_fg};
use crate::text::{chars_of, is_prefix, split_chars, split_seq, starts_with, string_of};
use vstd::prelude::*;

verus! {

/// The style of a diff line: headers and hunk markers bold in the accent, additions
/// good, removals bad, the rest white.
pub open spec fn diff_line_style(l: Seq<char>) -> SpanStyle {
    if is_prefix("+++"@, l) || is_prefix("---"@, l) || is_prefix("diff --git"@, l) || is_prefix("@@"@, l) {
        bold_fg(Tone::Accent)
    } else if is_prefix("+"@, l) {
        with_fg(plain_style(), Tone::Good)
    } else if is_prefix("-"@, l) {
        with_fg(plain_style(), Tone::Bad)
    } else {
        with_fg(plain_style(), Tone::White)
    }
}

/// The style of a diff line.
pub fn diff_style(line: &str) -> (r: SpanStyle)
    ensures
        r == diff_line_style(line@),
{
    proof {
        reveal_strlit("+++");
        reveal_strlit("---");
        reveal_strlit("diff --git");
        reveal_strlit("@@");
        reveal_strlit("+");
        reveal_strlit("-");
    }
    if starts_with(line, "+++") || starts_with(line, "---") || starts_with(line, "diff --git") || starts_with(line, "@@") {
        SpanStyle { fg: Tone::Accent, bold: true, ..plain() }
    } else if starts_with(line, "+") {
        SpanStyle { fg: Tone::Good, ..plain() }
    } else if starts_with(line, "-") {
        SpanStyle { fg: Tone::Bad, ..plain() }
    } else {
        SpanStyle { fg: Tone::White, ..plain() }
    }
}

/// The review lines of a diff: its text made safe, line by line, each styled.
pub open spec fn review_lines_of(diff: Seq<char>) -> Seq<LineView> {
    split_seq(multiline_text(diff, diff.len() as int), '\n').map_values(
        |l: Seq<char>| LineView { spans: seq![span(inline_text(l), diff_line_style(l))], style: None },
    )
}

/// The review lines of a diff.
pub fn review_lines(diff: &str) -> (r: Vec<TextLine>)
    ensures
        line_views(r@) == review_lines_of(diff@),
{
    let whole = chars_of(diff);
    let n = whole.len();
    assert(n == diff@.len());
    let made = safe_multiline(diff, usize::MAX);
    let safe = made.0;
    let cs = chars_of(safe.as_str());
    let parts = split_chars(cs.as_slice(), '\n');
    let ghost ps = split_seq(safe@, '\n');
    let ghost want = review_lines_of(diff@);
    assert(safe@ == multiline_text(diff@, diff@.len() as int));
    let mut out: Vec<TextLine> = Vec::new();
    let mut k: usize = 0;
    while k < parts.len()
        invariant
            cs@ == safe@,
            ps == split_seq(safe@, '\n'),
            safe@ == multiline_text(diff@, diff@.len() as int),
            want == review_lines_of(diff@),
            parts@.len() == ps.len(),
            forall|i: int| 0 <= i < parts@.len() ==> #[trigger] parts@[i]@ == ps[i],
            k <= parts@.len(),
            line_views(out@) == want.take(k as int),
        decreases parts.len() - k,
    {
        let piece = string_of(parts[k].as_slice());
        assert(piece@ == ps[k as int]);
        let line = TextLine { spans: vec![text_span(safe_inline(piece.as_str()), diff_style(piece.as_str()))], style: None };
        assert(line@.spans =~= want[k as int].spans);
        let ghost before = line_views(out@);
        out.push(line);
        assert(line_views(out@) =~= before.push(want[k as int]));
        assert(want.take(k + 1) =~= want.take(k as int).push(want[k as int]));
        k = k + 1;
    }
    assert(want.take(k as int) =~= want);
    out
}

} // verus!
