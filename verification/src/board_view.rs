//! The boards pane of the workbench as lines of text: the boards of the selected
//! investigation with their columns and cards, each card resolved to the one record
//! it shows, or the reason no board can be shown.

use crate::derived::{BoardColumnView, CardView, DerivedBoard, DerivedBoardView, DerivedCard, DerivedSnapshot, IdentityView, board_views};
use crate::detail::{bold_fg, raw_line, styled_line};
use crate::diagnostic::{DiagView, Diagnostic, diag_views};
use crate::record::{EntryView, entry_views};
use crate::scanning::{ScanResult, path_scope, roots_view};
use crate::terminal::{inline_text, safe_inline};
use crate::terminal_markdown::{LineView, SpanStyle, TextLine, Tone, line_views, plain, plain_style, with_fg};
use crate::text::{is_prefix, push_str, starts_with, str_eq};
use crate::work_item::{decimal, decimal_string};
use vstd::prelude::*;

verus! {

/// The record a card shows: the one entry with the card's identity in the card's scope.
pub enum CardPath {
    Resolved(String),
    Missing,
    Ambiguous,
}

/// The entries that carry a card's identity in the card's scope.
pub open spec fn card_entries(es: Seq<EntryView>, roots: Seq<(Seq<char>, Seq<Seq<char>>)>, card: IdentityView) -> Seq<Seq<char>>
    decreases es.len(),
{
    if es.len() == 0 {
        Seq::empty()
    } else {
        let rest = card_entries(es.drop_last(), roots, card);
        let e = es.last();
        if e.identity == Some(card.identity) && path_scope(roots, e.path) == Some((card.scope.project, card.scope.investigation)) {
            rest.push(e.path)
        } else {
            rest
        }
    }
}

/// Resolves a card to its record.
pub fn canonical_card_path(scan: &ScanResult, card: &DerivedCard) -> (r: CardPath)
    ensures
        ({
            let found = card_entries(entry_views(scan.snapshot.entries@), roots_view(scan.investigation_roots@), card.identity@);
            match r {
                CardPath::Resolved(p) => found.len() == 1 && p@ == found[0],
                CardPath::Missing => found.len() == 0,
                CardPath::Ambiguous => found.len() > 1,
            }
        }),
{
    let entries = &scan.snapshot.entries;
    let ghost ev = entry_views(entries@);
    let ghost roots = roots_view(scan.investigation_roots@);
    let ghost cv = card.identity@;
    let mut found: Vec<String> = Vec::new();
    let mut i: usize = 0;
    assert(ev.take(0) =~= Seq::<EntryView>::empty());
    assert(crate::board::strs(found@) =~= Seq::<Seq<char>>::empty());
    while i < entries.len()
        invariant
            ev == entry_views(entries@),
            roots == roots_view(scan.investigation_roots@),
            cv == card.identity@,
            i <= ev.len(),
            crate::board::strs(found@) == card_entries(ev.take(i as int), roots, cv),
        decreases entries.len() - i,
    {
        let e = &entries[i];
        proof {
            assert(ev.take(i + 1).drop_last() =~= ev.take(i as int));
            assert(ev.take(i + 1).last() == e@);
        }
        let same_identity = match &e.identity {
            Some(id) => str_eq(id.as_str(), card.identity.identity.as_str()),
            None => false,
        };
        if same_identity {
            let in_scope = match scan.scope_for_path(e.path.as_str()) {
                Some((project, investigation)) => str_eq(project.as_str(), card.identity.scope.project.as_str()) && match (
                    &investigation,
                    &card.identity.scope.investigation,
                ) {
                    (None, None) => true,
                    (Some(a), Some(b)) => str_eq(a.as_str(), b.as_str()),
                    _ => false,
                },
                None => false,
            };
            if in_scope {
                let ghost prior = crate::board::strs(found@);
                found.push(e.path.clone());
                assert(crate::board::strs(found@) =~= prior.push(e@.path));
            }
        }
        i = i + 1;
    }
    assert(ev.take(i as int) =~= ev);
    if found.len() == 1 {
        let p = found[0].clone();
        assert(crate::board::strs(found@)[0] == found@[0]@);
        CardPath::Resolved(p)
    } else if found.len() == 0 {
        CardPath::Missing
    } else {
        CardPath::Ambiguous
    }
}

/// The line of a card: a marker, its identity, status and title, and why its detail is
/// unavailable when it is; the selected card is highlighted, an unresolved one warned.
pub open spec fn card_line(c: CardView, found: Seq<Seq<char>>, selected: Option<Seq<char>>) -> LineView {
    let resolved = found.len() == 1;
    let is_selected = resolved && selected == Some(found[0]);
    let marker = if is_selected {
        ">"@
    } else if resolved {
        " "@
    } else {
        "!"@
    };
    let suffix = if is_selected {
        "  [selected]"@
    } else if resolved {
        Seq::empty()
    } else if found.len() == 0 {
        "  [detail unavailable: missing identity]"@
    } else {
        "  [detail unavailable: ambiguous identity]"@
    };
    styled_line(
        "  "@ + marker + " "@ + inline_text(c.identity.identity) + "  "@ + inline_text(c.status) + "  "@ + inline_text(c.title) + suffix,
        if is_selected {
            bold_fg(Tone::Accent)
        } else if !resolved {
            with_fg(plain_style(), Tone::Warn)
        } else {
            plain_style()
        },
    )
}

fn card_text_line(scan: &ScanResult, card: &DerivedCard, selected: Option<&str>) -> (r: TextLine)
    ensures
        r@ == card_line(
            card@,
            card_entries(entry_views(scan.snapshot.entries@), roots_view(scan.investigation_roots@), card.identity@),
            match selected {
                Some(s) => Some(s@),
                None => None,
            },
        ),
{
    proof {
        reveal_strlit(">");
        reveal_strlit(" ");
        reveal_strlit("!");
        reveal_strlit("  [selected]");
        reveal_strlit("  [detail unavailable: missing identity]");
        reveal_strlit("  [detail unavailable: ambiguous identity]");
        reveal_strlit("  ");
    }
    let resolution = canonical_card_path(scan, card);
    let (is_selected, resolved) = match &resolution {
        CardPath::Resolved(p) => (
            match selected {
                Some(s) => str_eq(p.as_str(), s),
                None => false,
            },
            true,
        ),
        _ => (false, false),
    };
    let marker = if is_selected {
        ">"
    } else if resolved {
        " "
    } else {
        "!"
    };
    let suffix = if is_selected {
        "  [selected]"
    } else if resolved {
        ""
    } else {
        match resolution {
            CardPath::Missing => "  [detail unavailable: missing identity]",
            _ => "  [detail unavailable: ambiguous identity]",
        }
    };
    proof {
        reveal_strlit("");
    }
    let mut text = "  ".to_owned();
    push_str(&mut text, marker);
    push_str(&mut text, " ");
    push_str(&mut text, safe_inline(card.identity.identity.as_str()).as_str());
    push_str(&mut text, "  ");
    push_str(&mut text, safe_inline(card.status.as_str()).as_str());
    push_str(&mut text, "  ");
    push_str(&mut text, safe_inline(card.title.as_str()).as_str());
    push_str(&mut text, suffix);
    let style = if is_selected {
        SpanStyle { fg: Tone::Accent, bold: true, ..plain() }
    } else if !resolved {
        SpanStyle { fg: Tone::Warn, ..plain() }
    } else {
        plain()
    };
    let r = line_with(text, style);
    assert(r@ =~= card_line(
        card@,
        card_entries(entry_views(scan.snapshot.entries@), roots_view(scan.investigation_roots@), card.identity@),
        match selected {
            Some(s) => Some(s@),
            None => None,
        },
    ));
    r
}

fn line_with(content: String, style: SpanStyle) -> (r: TextLine)
    ensures
        r@ == styled_line(content@, style),
{
    let spans = if content.as_str().is_empty() {
        Vec::new()
    } else {
        vec![crate::terminal_markdown::TextSpan { content, style: plain() }]
    };
    let r = TextLine { spans, style: Some(style) };
    assert(crate::terminal_markdown::span_views(r.spans@) =~= styled_line(content@, style).spans);
    r
}

fn push_line(lines: &mut Vec<TextLine>, line: TextLine)
    ensures
        line_views(final(lines)@) == line_views(old(lines)@).push(line@),
{
    lines.push(line);
    assert(line_views(final(lines)@) =~= line_views(old(lines)@).push(line@));
}

/// The lines of a board's columns: each column's name and card count, then its cards
/// or a note that it has none.
pub open spec fn column_lines(
    b: DerivedBoardView,
    es: Seq<EntryView>,
    roots: Seq<(Seq<char>, Seq<Seq<char>>)>,
    selected: Option<Seq<char>>,
    n: int,
) -> Seq<LineView>
    decreases n,
{
    if n <= 0 {
        Seq::empty()
    } else {
        let c = b.columns[n - 1];
        let head = styled_line("  "@ + inline_text(c.name) + " ("@ + decimal(c.cards.len()) + ")"@, with_fg(plain_style(), Tone::Accent));
        let body = if c.cards.len() == 0 {
            seq![styled_line("    No cards."@, with_fg(plain_style(), Tone::Muted))]
        } else {
            c.cards.map_values(|k: CardView| card_line(k, card_entries(es, roots, k.identity), selected))
        };
        column_lines(b, es, roots, selected, n - 1) + seq![head] + body
    }
}

fn board_text_lines(lines: &mut Vec<TextLine>, board: &DerivedBoard, scan: &ScanResult, selected: Option<&str>)
    ensures
        line_views(final(lines)@) == line_views(old(lines)@) + column_lines(
            board@,
            entry_views(scan.snapshot.entries@),
            roots_view(scan.investigation_roots@),
            match selected {
                Some(s) => Some(s@),
                None => None,
            },
            board@.columns.len() as int,
        ),
{
    proof {
        reveal_strlit("  ");
        reveal_strlit(" (");
        reveal_strlit(")");
        reveal_strlit("    No cards.");
    }
    let ghost bv = board@;
    let ghost es = entry_views(scan.snapshot.entries@);
    let ghost roots = roots_view(scan.investigation_roots@);
    let ghost sel = match selected {
        Some(s) => Some(s@),
        None => None,
    };
    let ghost start = line_views(lines@);
    let mut j: usize = 0;
    while j < board.columns.len()
        invariant
            bv == board@,
            es == entry_views(scan.snapshot.entries@),
            roots == roots_view(scan.investigation_roots@),
            sel == match selected {
                Some(s) => Some(s@),
                None => None,
            },
            j <= bv.columns.len(),
            line_views(lines@) == start + column_lines(bv, es, roots, sel, j as int),
        decreases board.columns.len() - j,
    {
        let column = &board.columns[j];
        assert(bv.columns[j as int] == column@);
        let ghost before = line_views(lines@);
        let mut head = "  ".to_owned();
        push_str(&mut head, safe_inline(column.name.as_str()).as_str());
        push_str(&mut head, " (");
        push_str(&mut head, decimal_string(column.cards.len() as u64).as_str());
        push_str(&mut head, ")");
        push_line(lines, line_with(head, SpanStyle { fg: Tone::Accent, ..plain() }));
        let ghost with_head = line_views(lines@);
        if column.cards.len() == 0 {
            push_line(lines, line_with("    No cards.".to_owned(), SpanStyle { fg: Tone::Muted, ..plain() }));
        } else {
            let ghost want = column@.cards.map_values(|k: CardView| card_line(k, card_entries(es, roots, k.identity), sel));
            let mut k: usize = 0;
            while k < column.cards.len()
                invariant
                    es == entry_views(scan.snapshot.entries@),
                    roots == roots_view(scan.investigation_roots@),
                    sel == match selected {
                        Some(s) => Some(s@),
                        None => None,
                    },
                    want == column@.cards.map_values(|k: CardView| card_line(k, card_entries(es, roots, k.identity), sel)),
                    k <= column.cards@.len(),
                    line_views(lines@) == with_head + want.take(k as int),
                decreases column.cards.len() - k,
            {
                let line = card_text_line(scan, &column.cards[k], selected);
                assert(column@.cards[k as int] == column.cards@[k as int]@);
                push_line(lines, line);
                assert(with_head + want.take(k + 1) =~= (with_head + want.take(k as int)).push(want[k as int]));
                k = k + 1;
            }
            assert(want.take(k as int) =~= want);
        }
        assert(line_views(lines@) =~= start + column_lines(bv, es, roots, sel, j + 1));
        j = j + 1;
    }
}

/// Whether a board belongs to an investigation of a project.
pub open spec fn board_in_scope(b: DerivedBoardView, project: Seq<char>, investigation: Seq<char>) -> bool {
    b.identity.scope.project == project && b.identity.scope.investigation == Some(investigation)
}

/// The diagnostics of an investigation's boards and progress log.
pub open spec fn board_problems(ds: Seq<DiagView>, project: Seq<char>, investigation: Seq<char>) -> Seq<DiagView>
    decreases ds.len(),
{
    let prefix = "projects/"@ + project + "/investigations/"@ + investigation + "/"@;
    if ds.len() == 0 {
        Seq::empty()
    } else {
        let rest = board_problems(ds.drop_last(), project, investigation);
        let d = ds.last();
        if is_prefix(prefix + "boards/"@, d.path) || d.path == prefix + "progress/log.toml"@ {
            rest.push(d)
        } else {
            rest
        }
    }
}

/// The boards among `bs` of an investigation, in order.
pub open spec fn boards_in(bs: Seq<DerivedBoardView>, project: Seq<char>, investigation: Seq<char>) -> Seq<DerivedBoardView>
    decreases bs.len(),
{
    if bs.len() == 0 {
        Seq::empty()
    } else if board_in_scope(bs.last(), project, investigation) {
        boards_in(bs.drop_last(), project, investigation).push(bs.last())
    } else {
        boards_in(bs.drop_last(), project, investigation)
    }
}

/// The line that shows one diagnostic of a board or progress log.
pub open spec fn problem_line(d: DiagView) -> LineView {
    styled_line(inline_text(d.code) + ": "@ + inline_text(d.message), with_fg(plain_style(), Tone::Warn))
}

/// The lines of boards, each after a blank line: its title, then its columns.
pub open spec fn board_sections(
    bs: Seq<DerivedBoardView>,
    es: Seq<EntryView>,
    roots: Seq<(Seq<char>, Seq<Seq<char>>)>,
    selected: Option<Seq<char>>,
) -> Seq<LineView>
    decreases bs.len(),
{
    if bs.len() == 0 {
        Seq::empty()
    } else {
        let b = bs.last();
        board_sections(bs.drop_last(), es, roots, selected) + seq![
            raw_line(Seq::empty()),
            styled_line(inline_text(b.title), bold_fg(Tone::Accent)),
        ] + column_lines(b, es, roots, selected, b.columns.len() as int)
    }
}

/// What the boards pane shows. A projection made from another revision than the scan
/// is stale; without a selected investigation there is nothing to show; problems with
/// the investigation's boards or progress log are listed instead of its boards.
pub open spec fn boards_pane(
    current: bool,
    scope: Option<(Seq<char>, Seq<char>)>,
    ds: Seq<DiagView>,
    bs: Seq<DerivedBoardView>,
    es: Seq<EntryView>,
    roots: Seq<(Seq<char>, Seq<Seq<char>>)>,
    selected: Option<Seq<char>>,
) -> Seq<LineView> {
    if !current {
        seq![styled_line("Board projection is stale. Refresh to load the current investigation."@, with_fg(plain_style(), Tone::Warn))]
    } else {
        match scope {
            None => seq![styled_line("Select an investigation to inspect its boards."@, with_fg(plain_style(), Tone::Muted))],
            Some((project, investigation)) => {
                let problems = board_problems(ds, project, investigation);
                let shown = boards_in(bs, project, investigation);
                if problems.len() > 0 {
                    seq![
                        styled_line("Board definitions or the progress log are invalid."@, bold_fg(Tone::Warn)),
                        styled_line("Inspect Files or Diagnostics for the canonical validation details."@, with_fg(plain_style(), Tone::Muted)),
                    ] + problems.map_values(|d: DiagView| problem_line(d))
                } else if shown.len() == 0 {
                    seq![styled_line("This investigation has no board definitions."@, with_fg(plain_style(), Tone::Muted))]
                } else {
                    seq![styled_line("Read-only; record filter does not alter cards."@, with_fg(plain_style(), Tone::Muted))] + board_sections(shown, es, roots, selected)
                }
            },
        }
    }
}

fn problem_lines(ds: &Vec<Diagnostic>, project: &str, investigation: &str) -> (r: Vec<TextLine>)
    ensures
        line_views(r@) == board_problems(diag_views(ds@), project@, investigation@).map_values(|d: DiagView| problem_line(d)),
{
    proof {
        reveal_strlit("projects/");
        reveal_strlit("/investigations/");
        reveal_strlit("/");
        reveal_strlit("boards/");
        reveal_strlit("progress/log.toml");
        reveal_strlit(": ");
    }
    let mut prefix = "projects/".to_owned();
    push_str(&mut prefix, project);
    push_str(&mut prefix, "/investigations/");
    push_str(&mut prefix, investigation);
    push_str(&mut prefix, "/");
    let mut boards_prefix = prefix.clone();
    push_str(&mut boards_prefix, "boards/");
    let mut log_path = prefix.clone();
    push_str(&mut log_path, "progress/log.toml");
    let ghost dv = diag_views(ds@);
    let ghost pre = "projects/"@ + project@ + "/investigations/"@ + investigation@ + "/"@;
    let mut lines: Vec<TextLine> = Vec::new();
    let mut i: usize = 0;
    assert(dv.take(0) =~= Seq::<DiagView>::empty());
    assert(line_views(lines@) =~= board_problems(dv.take(0), project@, investigation@).map_values(|d: DiagView| problem_line(d)));
    while i < ds.len()
        invariant
            dv == diag_views(ds@),
            pre == "projects/"@ + project@ + "/investigations/"@ + investigation@ + "/"@,
            boards_prefix@ == pre + "boards/"@,
            log_path@ == pre + "progress/log.toml"@,
            i <= ds.len(),
            line_views(lines@) == board_problems(dv.take(i as int), project@, investigation@).map_values(|d: DiagView| problem_line(d)),
        decreases ds.len() - i,
    {
        let d = &ds[i];
        proof {
            assert(dv.take(i + 1).drop_last() =~= dv.take(i as int));
            assert(dv.take(i + 1).last() == d@);
        }
        let ghost before = board_problems(dv.take(i as int), project@, investigation@);
        if starts_with(d.path.as_str(), boards_prefix.as_str()) || str_eq(d.path.as_str(), log_path.as_str()) {
            let mut text = safe_inline(d.code.as_str());
            push_str(&mut text, ": ");
            push_str(&mut text, safe_inline(d.message.as_str()).as_str());
            push_line(&mut lines, line_with(text, SpanStyle { fg: Tone::Warn, ..plain() }));
            assert(before.push(d@).map_values(|x: DiagView| problem_line(x)) =~= before.map_values(|x: DiagView| problem_line(x)).push(problem_line(d@)));
        }
        i = i + 1;
    }
    assert(dv.take(i as int) =~= dv);
    lines
}

fn boards_of(boards: &Vec<DerivedBoard>, project: &str, investigation: &str) -> (r: Vec<usize>)
    ensures
        r@.len() == boards_in(board_views(boards@), project@, investigation@).len(),
        forall|k: int| 0 <= k < r@.len() ==> #[trigger] r@[k] < boards@.len() && boards@[r@[k] as int]@ == boards_in(board_views(boards@), project@, investigation@)[k],
{
    let ghost bv = board_views(boards@);
    let mut picked: Vec<usize> = Vec::new();
    let mut i: usize = 0;
    assert(bv.take(0) =~= Seq::<DerivedBoardView>::empty());
    while i < boards.len()
        invariant
            bv == board_views(boards@),
            i <= boards.len(),
            picked@.len() == boards_in(bv.take(i as int), project@, investigation@).len(),
            forall|k: int| 0 <= k < picked@.len() ==> #[trigger] picked@[k] < i && boards@[picked@[k] as int]@ == boards_in(bv.take(i as int), project@, investigation@)[k],
        decreases boards.len() - i,
    {
        let b = &boards[i];
        proof {
            assert(bv.take(i + 1).drop_last() =~= bv.take(i as int));
            assert(bv.take(i + 1).last() == b@);
        }
        let in_scope = str_eq(b.identity.scope.project.as_str(), project) && match &b.identity.scope.investigation {
            Some(inv) => str_eq(inv.as_str(), investigation),
            None => false,
        };
        if in_scope {
            picked.push(i);
        }
        assert forall|k: int| 0 <= k < picked@.len() implies #[trigger] picked@[k] < i + 1 && boards@[picked@[k] as int]@ == boards_in(bv.take(i + 1), project@, investigation@)[k] by {
            assert(bv[picked@[k] as int] == boards@[picked@[k] as int]@);
        }
        i = i + 1;
    }
    assert(bv.take(i as int) =~= bv);
    picked
}

/// The lines of the boards pane for the selected investigation, `scope` being its
/// project and name, and `selected` the path of the selected record.
pub fn boards_pane_lines(derived: &DerivedSnapshot, scan: &ScanResult, scope: Option<(&str, &str)>, selected: Option<&str>) -> (r: Vec<TextLine>)
    ensures
        line_views(r@) == boards_pane(
            derived.source_revision.0@ == scan.snapshot.revision.0@,
            match scope {
                Some((p, i)) => Some((p@, i@)),
                None => None,
            },
            diag_views(scan.diagnostics@),
            board_views(derived.boards@),
            entry_views(scan.snapshot.entries@),
            roots_view(scan.investigation_roots@),
            match selected {
                Some(s) => Some(s@),
                None => None,
            },
        ),
{
    proof {
        reveal_strlit("Board projection is stale. Refresh to load the current investigation.");
        reveal_strlit("Select an investigation to inspect its boards.");
        reveal_strlit("Board definitions or the progress log are invalid.");
        reveal_strlit("Inspect Files or Diagnostics for the canonical validation details.");
        reveal_strlit("This investigation has no board definitions.");
        reveal_strlit("Read-only; record filter does not alter cards.");
        reveal_strlit("");
    }
    let ghost sel = match selected {
        Some(s) => Some(s@),
        None => None,
    };
    let ghost es = entry_views(scan.snapshot.entries@);
    let ghost roots = roots_view(scan.investigation_roots@);
    let mut lines: Vec<TextLine> = Vec::new();
    if !str_eq(derived.source_revision.0.as_str(), scan.snapshot.revision.0.as_str()) {
        push_line(&mut lines, line_with("Board projection is stale. Refresh to load the current investigation.".to_owned(), SpanStyle { fg: Tone::Warn, ..plain() }));
        return lines;
    }
    let (project, investigation) = match scope {
        Some(pair) => pair,
        None => {
            push_line(&mut lines, line_with("Select an investigation to inspect its boards.".to_owned(), SpanStyle { fg: Tone::Muted, ..plain() }));
            return lines;
        },
    };
    let problems = problem_lines(&scan.diagnostics, project, investigation);
    if problems.len() > 0 {
        push_line(&mut lines, line_with("Board definitions or the progress log are invalid.".to_owned(), SpanStyle { fg: Tone::Warn, bold: true, ..plain() }));
        push_line(&mut lines, line_with("Inspect Files or Diagnostics for the canonical validation details.".to_owned(), SpanStyle { fg: Tone::Muted, ..plain() }));
        let ghost head = line_views(lines@);
        let mut rest = problems;
        lines.append(&mut rest);
        assert(line_views(lines@) =~= head + line_views(problems@));
        return lines;
    }
    let picked = boards_of(&derived.boards, project, investigation);
    let ghost shown = boards_in(board_views(derived.boards@), project@, investigation@);
    if picked.len() == 0 {
        push_line(&mut lines, line_with("This investigation has no board definitions.".to_owned(), SpanStyle { fg: Tone::Muted, ..plain() }));
        return lines;
    }
    push_line(&mut lines, line_with("Read-only; record filter does not alter cards.".to_owned(), SpanStyle { fg: Tone::Muted, ..plain() }));
    let ghost head = line_views(lines@);
    let mut k: usize = 0;
    assert(shown.take(0) =~= Seq::<DerivedBoardView>::empty());
    while k < picked.len()
        invariant
            es == entry_views(scan.snapshot.entries@),
            roots == roots_view(scan.investigation_roots@),
            sel == match selected {
                Some(s) => Some(s@),
                None => None,
            },
            picked@.len() == shown.len(),
            forall|j: int| 0 <= j < picked@.len() ==> #[trigger] picked@[j] < derived.boards@.len() && derived.boards@[picked@[j] as int]@ == shown[j],
            k <= picked.len(),
            line_views(lines@) == head + board_sections(shown.take(k as int), es, roots, sel),
        decreases picked.len() - k,
    {
        let board = &derived.boards[picked[k]];
        assert(board@ == shown[k as int]);
        proof {
            assert(shown.take(k + 1).drop_last() =~= shown.take(k as int));
            assert(shown.take(k + 1).last() == board@);
        }
        let blank = TextLine { spans: Vec::new(), style: None };
        assert(blank@.spans =~= raw_line(Seq::empty()).spans);
        push_line(&mut lines, blank);
        push_line(&mut lines, line_with(safe_inline(board.title.as_str()), SpanStyle { fg: Tone::Accent, bold: true, ..plain() }));
        board_text_lines(&mut lines, board, scan, selected);
        assert(line_views(lines@) =~= head + board_sections(shown.take(k + 1), es, roots, sel));
        k = k + 1;
    }
    assert(shown.take(k as int) =~= shown);
    lines
}

/// The boards of the selected investigation, counted; none when the projection is
/// stale or no investigation is selected.
pub open spec fn board_count_of(current: bool, scope: Option<(Seq<char>, Seq<char>)>, bs: Seq<DerivedBoardView>) -> nat {
    if !current {
        0
    } else {
        match scope {
            None => 0,
            Some((p, i)) => boards_in(bs, p, i).len(),
        }
    }
}

/// How many boards the selected investigation has.
pub fn board_count(derived: &DerivedSnapshot, scan: &ScanResult, scope: Option<(&str, &str)>) -> (r: usize)
    ensures
        r == board_count_of(
            derived.source_revision.0@ == scan.snapshot.revision.0@,
            match scope {
                Some((p, i)) => Some((p@, i@)),
                None => None,
            },
            board_views(derived.boards@),
        ),
{
    if !str_eq(derived.source_revision.0.as_str(), scan.snapshot.revision.0.as_str()) {
        return 0;
    }
    match scope {
        None => 0,
        Some((project, investigation)) => boards_of(&derived.boards, project, investigation).len(),
    }
}

/// The cards of columns, in order.
pub open spec fn column_cards(cols: Seq<BoardColumnView>) -> Seq<CardView>
    decreases cols.len(),
{
    if cols.len() == 0 {
        Seq::empty()
    } else {
        column_cards(cols.drop_last()) + cols.last().cards
    }
}

/// The cards of boards, in order.
pub open spec fn board_cards(bs: Seq<DerivedBoardView>) -> Seq<CardView>
    decreases bs.len(),
{
    if bs.len() == 0 {
        Seq::empty()
    } else {
        board_cards(bs.drop_last()) + column_cards(bs.last().columns)
    }
}

/// The records that cards resolve to, in order, leaving out cards that resolve to none
/// or to several.
pub open spec fn resolved_paths(cs: Seq<CardView>, es: Seq<EntryView>, roots: Seq<(Seq<char>, Seq<Seq<char>>)>) -> Seq<Seq<char>>
    decreases cs.len(),
{
    if cs.len() == 0 {
        Seq::empty()
    } else {
        let found = card_entries(es, roots, cs.last().identity);
        if found.len() == 1 {
            resolved_paths(cs.drop_last(), es, roots).push(found[0])
        } else {
            resolved_paths(cs.drop_last(), es, roots)
        }
    }
}

proof fn lemma_resolved_concat(a: Seq<CardView>, b: Seq<CardView>, es: Seq<EntryView>, roots: Seq<(Seq<char>, Seq<Seq<char>>)>)
    ensures
        resolved_paths(a + b, es, roots) == resolved_paths(a, es, roots) + resolved_paths(b, es, roots),
    decreases b.len(),
{
    if b.len() == 0 {
        assert(a + b =~= a);
        assert(resolved_paths(a, es, roots) + resolved_paths(b, es, roots) =~= resolved_paths(a, es, roots));
    } else {
        assert((a + b).drop_last() =~= a + b.drop_last());
        assert((a + b).last() == b.last());
        lemma_resolved_concat(a, b.drop_last(), es, roots);
        let found = card_entries(es, roots, b.last().identity);
        if found.len() == 1 {
            assert(resolved_paths(a, es, roots) + resolved_paths(b.drop_last(), es, roots).push(found[0]) =~= (resolved_paths(a, es, roots)
                + resolved_paths(b.drop_last(), es, roots)).push(found[0]));
        }
    }
}

/// The records the cards of the selected investigation's boards resolve to; none when
/// the projection is stale or no investigation is selected.
pub open spec fn card_paths_of(
    current: bool,
    scope: Option<(Seq<char>, Seq<char>)>,
    bs: Seq<DerivedBoardView>,
    es: Seq<EntryView>,
    roots: Seq<(Seq<char>, Seq<Seq<char>>)>,
) -> Seq<Seq<char>> {
    if !current {
        Seq::empty()
    } else {
        match scope {
            None => Seq::empty(),
            Some((p, i)) => resolved_paths(board_cards(boards_in(bs, p, i)), es, roots),
        }
    }
}

fn push_card_paths(out: &mut Vec<String>, board: &DerivedBoard, scan: &ScanResult)
    ensures
        crate::board::strs(final(out)@) == crate::board::strs(old(out)@) + resolved_paths(
            column_cards(board@.columns),
            entry_views(scan.snapshot.entries@),
            roots_view(scan.investigation_roots@),
        ),
{
    let ghost es = entry_views(scan.snapshot.entries@);
    let ghost roots = roots_view(scan.investigation_roots@);
    let ghost start = crate::board::strs(out@);
    let ghost cols = board@.columns;
    let mut j: usize = 0;
    assert(cols.take(0) =~= Seq::<BoardColumnView>::empty());
    assert(start =~= start + resolved_paths(column_cards(cols.take(0)), es, roots));
    while j < board.columns.len()
        invariant
            es == entry_views(scan.snapshot.entries@),
            roots == roots_view(scan.investigation_roots@),
            cols == board@.columns,
            j <= cols.len(),
            crate::board::strs(out@) == start + resolved_paths(column_cards(cols.take(j as int)), es, roots),
        decreases board.columns.len() - j,
    {
        let column = &board.columns[j];
        assert(cols[j as int] == column@);
        let ghost before = crate::board::strs(out@);
        let ghost cards = column@.cards;
        let mut k: usize = 0;
        assert(cards.take(0) =~= Seq::<CardView>::empty());
        assert(before =~= before + resolved_paths(cards.take(0), es, roots));
        while k < column.cards.len()
            invariant
                es == entry_views(scan.snapshot.entries@),
                roots == roots_view(scan.investigation_roots@),
                cards == column@.cards,
                k <= cards.len(),
                crate::board::strs(out@) == before + resolved_paths(cards.take(k as int), es, roots),
            decreases column.cards.len() - k,
        {
            let card = &column.cards[k];
            assert(cards[k as int] == card@);
            assert(cards.take(k + 1).drop_last() =~= cards.take(k as int));
            assert(cards.take(k + 1).last() == card@);
            let ghost prior = crate::board::strs(out@);
            match canonical_card_path(scan, card) {
                CardPath::Resolved(p) => {
                    out.push(p);
                    assert(crate::board::strs(out@) =~= prior.push(card_entries(es, roots, card@.identity)[0]));
                },
                _ => {},
            }
            assert(crate::board::strs(out@) =~= before + resolved_paths(cards.take(k + 1), es, roots));
            k = k + 1;
        }
        assert(cards.take(k as int) =~= cards);
        proof {
            assert(cols.take(j + 1).drop_last() =~= cols.take(j as int));
            assert(cols.take(j + 1).last() == column@);
            lemma_resolved_concat(column_cards(cols.take(j as int)), cards, es, roots);
        }
        assert(crate::board::strs(out@) =~= start + resolved_paths(column_cards(cols.take(j + 1)), es, roots));
        j = j + 1;
    }
    assert(cols.take(j as int) =~= cols);
}

/// The records the cards of the selected investigation's boards resolve to, in order.
pub fn board_card_paths(derived: &DerivedSnapshot, scan: &ScanResult, scope: Option<(&str, &str)>) -> (r: Vec<String>)
    ensures
        crate::board::strs(r@) == card_paths_of(
            derived.source_revision.0@ == scan.snapshot.revision.0@,
            match scope {
                Some((p, i)) => Some((p@, i@)),
                None => None,
            },
            board_views(derived.boards@),
            entry_views(scan.snapshot.entries@),
            roots_view(scan.investigation_roots@),
        ),
{
    let mut out: Vec<String> = Vec::new();
    assert(crate::board::strs(out@) =~= Seq::<Seq<char>>::empty());
    if !str_eq(derived.source_revision.0.as_str(), scan.snapshot.revision.0.as_str()) {
        return out;
    }
    let (project, investigation) = match scope {
        Some(pair) => pair,
        None => return out,
    };
    let ghost es = entry_views(scan.snapshot.entries@);
    let ghost roots = roots_view(scan.investigation_roots@);
    let picked = boards_of(&derived.boards, project, investigation);
    let ghost shown = boards_in(board_views(derived.boards@), project@, investigation@);
    let mut k: usize = 0;
    assert(shown.take(0) =~= Seq::<DerivedBoardView>::empty());
    while k < picked.len()
        invariant
            es == entry_views(scan.snapshot.entries@),
            roots == roots_view(scan.investigation_roots@),
            picked@.len() == shown.len(),
            forall|j: int| 0 <= j < picked@.len() ==> #[trigger] picked@[j] < derived.boards@.len() && derived.boards@[picked@[j] as int]@ == shown[j],
            k <= picked.len(),
            crate::board::strs(out@) == resolved_paths(board_cards(shown.take(k as int)), es, roots),
        decreases picked.len() - k,
    {
        let board = &derived.boards[picked[k]];
        assert(board@ == shown[k as int]);
        proof {
            assert(shown.take(k + 1).drop_last() =~= shown.take(k as int));
            assert(shown.take(k + 1).last() == board@);
            lemma_resolved_concat(board_cards(shown.take(k as int)), column_cards(board@.columns), es, roots);
        }
        push_card_paths(&mut out, board, scan);
        k = k + 1;
    }
    assert(shown.take(k as int) =~= shown);
    out
}

} // verus!
