//! The browser's header and lists as lines of text: the tabs with their counts, the
//! scope and filter, and the items of the current list with the selected one.

use crate::activation::ActivationState;
use crate::board::strs;
use crate::browser::{
    BrowseView, Browser, BrowserState, entry_refs, investigation_names, is_work, is_work_entry, listed_entries, listing, paths,
    scope_investigation, scope_project, visible_investigations, visible_projects, view_title,
};
use crate::detail::{
    bold_fg, classification_name, classification_tone, classification_word, kind_name, kind_word, span, status_style, status_tone,
    styled_line, text_span, to_uppercase, uppercase,
};
use crate::record::{EntrySnapshot, EntryView, RecordSummary, SummaryView, entry_views};
use crate::scanning::{ScanResult, path_scope, roots_view};
use crate::terminal::{inline_text, safe_inline};
use crate::terminal_markdown::{Backdrop, LineView, SpanStyle, SpanView, TextLine, TextSpan, Tone, line_views, plain, plain_style, span_views, with_fg};
use crate::text::{chars_of, last_segment, last_segment_seq, push_char, push_str, str_eq, strip_prefix, strip_prefix_seq};
use crate::tui::{index_of, parent_directory, parent_of};
use crate::work_item::{decimal, decimal_string};
use vstd::prelude::*;

verus! {

/// A run of spaces.
pub open spec fn spaces(n: nat) -> Seq<char> {
    Seq::new(n, |_i: int| ' ')
}

/// A text centred in a width, the odd space going to the right; a text as wide or
/// wider stays as it is.
pub open spec fn centered(s: Seq<char>, width: nat) -> Seq<char> {
    if s.len() >= width {
        s
    } else {
        let pad = (width - s.len()) as nat;
        spaces(pad / 2) + s + spaces((pad - pad / 2) as nat)
    }
}

fn push_spaces(s: &mut String, n: usize)
    ensures
        final(s)@ == old(s)@ + spaces(n as nat),
{
    let mut i: usize = 0;
    while i < n
        invariant
            i <= n,
            s@ == old(s)@ + spaces(i as nat),
        decreases n - i,
    {
        push_char(s, ' ');
        assert(old(s)@ + spaces((i + 1) as nat) =~= (old(s)@ + spaces(i as nat)).push(' '));
        i = i + 1;
    }
}

/// A text centred in a width.
pub fn centered_text(text: &str, width: usize) -> (r: String)
    ensures
        r@ == centered(text@, width as nat),
{
    let n = chars_of(text).len();
    if n >= width {
        return text.to_owned();
    }
    let pad = width - n;
    let left = pad / 2;
    let mut out = String::new();
    push_spaces(&mut out, left);
    push_str(&mut out, text);
    push_spaces(&mut out, pad - left);
    assert(out@ =~= centered(text@, width as nat));
    out
}

/// The label of an entry: a ticket by its status, identifier, title and rank; any
/// other entry by its classification, kind and file name.
pub open spec fn entry_label(e: EntryView, v: BrowseView) -> LineView {
    match (v, e.summary) {
        (BrowseView::Tickets, Some(SummaryView::WorkItem { id, title, status, rank })) => LineView {
            spans: seq![
                span(" "@ + centered(uppercase(inline_text(status)), 10) + " "@, bold_fg(status_tone(status))),
                span(" "@ + inline_text(id) + " "@, with_fg(plain_style(), Tone::Accent)),
                span(inline_text(title), plain_style()),
                span(
                    match rank {
                        Some(n) => "  #"@ + decimal(n as nat),
                        None => Seq::empty(),
                    },
                    with_fg(plain_style(), Tone::Muted),
                ),
            ],
            style: None,
        },
        _ => LineView {
            spans: seq![
                span(
                    " "@ + centered(uppercase(classification_word(e.classification)), 10) + " "@,
                    with_fg(plain_style(), classification_tone(e.classification)),
                ),
                span(
                    " "@ + match e.kind {
                        Some(k) => kind_word(k),
                        None => "file"@,
                    } + " "@,
                    with_fg(plain_style(), Tone::Muted),
                ),
                span(inline_text(last_segment_seq(e.path, '/')), with_fg(plain_style(), Tone::White)),
            ],
            style: None,
        },
    }
}

fn tone_of(c: crate::record::Classification) -> (r: Tone)
    ensures
        r == classification_tone(c),
{
    match c {
        crate::record::Classification::Governed => Tone::Good,
        crate::record::Classification::Ungoverned => Tone::Warn,
        crate::record::Classification::Invalid => Tone::Bad,
        crate::record::Classification::Raw => Tone::Raw,
    }
}

fn label_line(entry: &EntrySnapshot, view: BrowseView) -> (r: TextLine)
    ensures
        r@ == entry_label(entry@, view),
{
    proof {
        reveal_strlit(" ");
        reveal_strlit("  #");
        reveal_strlit("file");
        reveal_strlit("");
    }
    let ticket = match view {
        BrowseView::Tickets => true,
        _ => false,
    };
    if ticket {
        match &entry.summary {
            Some(RecordSummary::WorkItem { id, title, status, rank }) => {
                let mut badge = " ".to_owned();
                push_str(&mut badge, centered_text(to_uppercase(safe_inline(status.as_str()).as_str()).as_str(), 10).as_str());
                push_str(&mut badge, " ");
                let mut ident = " ".to_owned();
                push_str(&mut ident, safe_inline(id.as_str()).as_str());
                push_str(&mut ident, " ");
                let rank_text = match rank {
                    Some(n) => {
                        let mut t = "  #".to_owned();
                        push_str(&mut t, decimal_string(*n).as_str());
                        t
                    },
                    None => String::new(),
                };
                let spans = vec![
                    text_span(badge, status_style(status.as_str())),
                    text_span(ident, SpanStyle { fg: Tone::Accent, ..plain() }),
                    text_span(safe_inline(title.as_str()), plain()),
                    text_span(rank_text, SpanStyle { fg: Tone::Muted, ..plain() }),
                ];
                let r = TextLine { spans, style: None };
                assert(r@.spans =~= entry_label(entry@, view).spans);
                return r;
            },
            _ => {},
        }
    }
    let mut badge = " ".to_owned();
    push_str(&mut badge, centered_text(to_uppercase(classification_name(entry.classification)).as_str(), 10).as_str());
    push_str(&mut badge, " ");
    let mut kind = " ".to_owned();
    push_str(
        &mut kind,
        match entry.kind {
            Some(k) => kind_name(k),
            None => "file",
        },
    );
    push_str(&mut kind, " ");
    let spans = vec![
        text_span(badge, SpanStyle { fg: tone_of(entry.classification), ..plain() }),
        text_span(kind, SpanStyle { fg: Tone::Muted, ..plain() }),
        text_span(safe_inline(last_segment(entry.path.as_str(), '/').as_str()), SpanStyle { fg: Tone::White, ..plain() }),
    ];
    let r = TextLine { spans, style: None };
    assert(r@.spans =~= entry_label(entry@, view).spans);
    r
}

/// The directory of a listed entry relative to the selected investigation (for an
/// entry of an investigation) or project (for one outside every investigation).
pub open spec fn entry_dir(st: BrowserState, roots: Seq<(Seq<char>, Seq<Seq<char>>)>, e: EntryView) -> Seq<char> {
    let prefix: Option<Seq<char>> = match path_scope(roots, e.path) {
        Some((_, Some(_))) => match (st.project, st.investigation) {
            (Some(p), Some(i)) => Some("projects/"@ + p + "/investigations/"@ + i + "/"@),
            _ => None,
        },
        Some((_, None)) => match st.project {
            Some(p) => Some("projects/"@ + p + "/"@),
            None => None,
        },
        None => None,
    };
    let relative = match prefix {
        Some(x) => match strip_prefix_seq(e.path, x) {
            Some(r) => r,
            None => e.path,
        },
        None => e.path,
    };
    parent_of(relative)
}

/// The items of listed entries: each its label, after a heading with its directory
/// when directories are shown and it differs from that of the entry before.
pub open spec fn entry_items(st: BrowserState, roots: Seq<(Seq<char>, Seq<Seq<char>>)>, ls: Seq<EntryView>, directories: bool) -> Seq<Seq<LineView>>
    decreases ls.len(),
{
    if ls.len() == 0 {
        Seq::empty()
    } else {
        let previous = if ls.len() == 1 {
            Seq::empty()
        } else {
            entry_dir(st, roots, ls[ls.len() - 2])
        };
        let d = entry_dir(st, roots, ls.last());
        entry_items(st, roots, ls.drop_last(), directories).push(dir_heading(d, previous, directories).push(entry_label(ls.last(), st.view)))
    }
}

/// The heading of a directory, when directories are shown and it is not the one before.
pub open spec fn dir_heading(d: Seq<char>, previous: Seq<char>, directories: bool) -> Seq<LineView> {
    if directories && d != previous {
        seq![styled_line(" "@ + inline_text(d) + "/"@, bold_fg(Tone::Accent))]
    } else {
        Seq::empty()
    }
}

fn entry_item(view: BrowseView, entry: &EntrySnapshot, directory: &str, previous: &str, directories: bool) -> (r: Vec<TextLine>)
    ensures
        line_views(r@) == dir_heading(directory@, previous@, directories).push(entry_label(entry@, view)),
{
    proof {
        reveal_strlit(" ");
        reveal_strlit("/");
    }
    let show = directories && !str_eq(directory, previous);
    let mut lines: Vec<TextLine> = Vec::new();
    if show {
        let mut head = " ".to_owned();
        push_str(&mut head, safe_inline(directory).as_str());
        push_str(&mut head, "/");
        let line = TextLine { spans: vec![text_span(head, plain())], style: Some(SpanStyle { fg: Tone::Accent, bold: true, ..plain() }) };
        assert(line@.spans =~= styled_line(" "@ + inline_text(directory@) + "/"@, bold_fg(Tone::Accent)).spans);
        lines.push(line);
    }
    let ghost before = line_views(lines@);
    assert(before =~= dir_heading(directory@, previous@, directories));
    lines.push(label_line(entry, view));
    assert(line_views(lines@) =~= before.push(entry_label(entry@, view)));
    lines
}

fn entry_directory(browser: &Browser, scan: &ScanResult, entry: &EntrySnapshot) -> (r: String)
    ensures
        r@ == entry_dir(browser@, roots_view(scan.investigation_roots@), entry@),
{
    proof {
        reveal_strlit("projects/");
        reveal_strlit("/investigations/");
        reveal_strlit("/");
    }
    let prefix: Option<String> = match scan.scope_for_path(entry.path.as_str()) {
        Some((_, Some(_))) => match (browser.selected_project(), browser.selected_investigation()) {
            (Some(p), Some(i)) => {
                let mut x = "projects/".to_owned();
                push_str(&mut x, p);
                push_str(&mut x, "/investigations/");
                push_str(&mut x, i);
                push_str(&mut x, "/");
                Some(x)
            },
            _ => None,
        },
        Some((_, None)) => match browser.selected_project() {
            Some(p) => {
                let mut x = "projects/".to_owned();
                push_str(&mut x, p);
                push_str(&mut x, "/");
                Some(x)
            },
            None => None,
        },
        None => None,
    };
    let relative = match prefix {
        Some(x) => match strip_prefix(entry.path.as_str(), x.as_str()) {
            Some(r) => r,
            None => entry.path.clone(),
        },
        None => entry.path.clone(),
    };
    parent_directory(relative.as_str())
}

/// The views of list items.
pub open spec fn item_views(items: Seq<Vec<TextLine>>) -> Seq<Seq<LineView>> {
    items.map_values(|it: Vec<TextLine>| line_views(it@))
}

fn entry_item_lines(browser: &Browser, scan: &ScanResult, directories: bool) -> (r: Vec<Vec<TextLine>>)
    ensures
        item_views(r@) == entry_items(
            browser@,
            roots_view(scan.investigation_roots@),
            listed_entries(browser@, entry_views(scan.snapshot.entries@), roots_view(scan.investigation_roots@)),
            directories,
        ),
{
    let ghost roots = roots_view(scan.investigation_roots@);
    let entries = browser.entries(scan);
    let ghost ls = entry_refs(entries@);
    let mut items: Vec<Vec<TextLine>> = Vec::new();
    let mut previous = String::new();
    let mut i: usize = 0;
    assert(item_views(items@) =~= entry_items(browser@, roots, ls.take(0), directories));
    while i < entries.len()
        invariant
            roots == roots_view(scan.investigation_roots@),
            ls == entry_refs(entries@),
            i <= ls.len(),
            item_views(items@) == entry_items(browser@, roots, ls.take(i as int), directories),
            previous@ == if i == 0 {
                Seq::<char>::empty()
            } else {
                entry_dir(browser@, roots, ls[i - 1])
            },
        decreases entries.len() - i,
    {
        let entry = entries[i];
        assert(ls[i as int] == entry@);
        assert(ls.take(i + 1).drop_last() =~= ls.take(i as int));
        assert(ls.take(i + 1).last() == entry@);
        if i > 0 {
            assert(ls.take(i + 1)[i - 1] == ls[i - 1]);
        }
        let directory = entry_directory(browser, scan, entry);
        let lines = entry_item(browser.current_view(), entry, directory.as_str(), previous.as_str(), directories);
        let ghost want = entry_items(browser@, roots, ls.take(i + 1), directories);
        let ghost before = item_views(items@);
        items.push(lines);
        assert(item_views(items@) =~= before.push(line_views(lines@)));
        assert(line_views(lines@) =~= want.last());
        assert(item_views(items@) =~= want);
        previous = directory;
        i = i + 1;
    }
    assert(ls.take(i as int) =~= ls);
    items
}

/// The test for work items of a project.
pub open spec fn project_ticket_pred(roots: Seq<(Seq<char>, Seq<Seq<char>>)>, p: Seq<char>) -> spec_fn(EntryView) -> bool {
    |e: EntryView| is_work(e) && scope_project(path_scope(roots, e.path)) == Some(p)
}

/// The test for work items of an investigation of a project.
pub open spec fn investigation_ticket_pred(roots: Seq<(Seq<char>, Seq<Seq<char>>)>, p: Seq<char>, i: Seq<char>) -> spec_fn(EntryView) -> bool {
    |e: EntryView| is_work(e) && scope_investigation(path_scope(roots, e.path), p) == Some(i)
}

/// The item of a project: its name, and how many investigations and tickets it has.
pub open spec fn project_item(p: Seq<char>, investigations: nat, tickets: nat) -> Seq<LineView> {
    seq![
        LineView {
            spans: seq![
                span(" "@ + p + " "@, bold_fg(Tone::Accent)),
                span("  "@ + decimal(investigations) + " investigations  "@ + decimal(tickets) + " tickets"@, with_fg(plain_style(), Tone::Muted)),
            ],
            style: None,
        },
    ]
}

/// The item of an investigation: its name and how many tickets it has.
pub open spec fn investigation_item(i: Seq<char>, tickets: nat) -> Seq<LineView> {
    seq![
        LineView {
            spans: seq![
                span(" "@ + i + " "@, bold_fg(Tone::White)),
                span("  "@ + decimal(tickets) + " tickets"@, with_fg(plain_style(), Tone::Muted)),
            ],
            style: None,
        },
    ]
}

/// The items of the current list.
pub open spec fn list_items_of(st: BrowserState, es: Seq<EntryView>, roots: Seq<(Seq<char>, Seq<Seq<char>>)>) -> Seq<Seq<LineView>> {
    match st.view {
        BrowseView::Projects => visible_projects(st, es, roots).map_values(
            |p: Seq<char>| project_item(p, listing(investigation_names(es, roots, p)).len(), es.filter(project_ticket_pred(roots, p)).len()),
        ),
        BrowseView::Investigations => {
            let p = match st.project {
                Some(p) => p,
                None => Seq::empty(),
            };
            visible_investigations(st, es, roots).map_values(
                |i: Seq<char>| investigation_item(i, es.filter(investigation_ticket_pred(roots, p, i)).len()),
            )
        },
        BrowseView::Tickets => entry_items(st, roots, listed_entries(st, es, roots), false),
        BrowseView::Files => entry_items(st, roots, listed_entries(st, es, roots), true),
    }
}

/// The position of the selected item in the current list.
pub open spec fn list_selection(st: BrowserState, es: Seq<EntryView>, roots: Seq<(Seq<char>, Seq<Seq<char>>)>) -> Option<int> {
    match st.view {
        BrowseView::Projects => index_of(visible_projects(st, es, roots), st.project),
        BrowseView::Investigations => index_of(visible_investigations(st, es, roots), st.investigation),
        _ => index_of(paths(listed_entries(st, es, roots)), st.path),
    }
}

fn count_matching(scan: &ScanResult, project: &str, investigation: Option<&str>) -> (r: usize)
    ensures
        r == entry_views(scan.snapshot.entries@).filter(
            match investigation {
                Some(i) => investigation_ticket_pred(roots_view(scan.investigation_roots@), project@, i@),
                None => project_ticket_pred(roots_view(scan.investigation_roots@), project@),
            },
        ).len(),
{
    let ghost es = entry_views(scan.snapshot.entries@);
    let ghost pred = match investigation {
        Some(i) => investigation_ticket_pred(roots_view(scan.investigation_roots@), project@, i@),
        None => project_ticket_pred(roots_view(scan.investigation_roots@), project@),
    };
    let mut count: usize = 0;
    let mut k: usize = 0;
    proof {
        reveal(Seq::filter);
    }
    assert(es.take(0).filter(pred) =~= Seq::<EntryView>::empty());
    while k < scan.snapshot.entries.len()
        invariant
            es == entry_views(scan.snapshot.entries@),
            pred == match investigation {
                Some(i) => investigation_ticket_pred(roots_view(scan.investigation_roots@), project@, i@),
                None => project_ticket_pred(roots_view(scan.investigation_roots@), project@),
            },
            k <= es.len(),
            count == es.take(k as int).filter(pred).len(),
            count <= k,
        decreases scan.snapshot.entries.len() - k,
    {
        let e = &scan.snapshot.entries[k];
        proof {
            reveal(Seq::filter);
            assert(es.take(k + 1).drop_last() =~= es.take(k as int));
            assert(es.take(k + 1).last() == e@);
        }
        let hit = is_work_entry(e) && match scan.scope_for_path(e.path.as_str()) {
            Some((p, inv)) => str_eq(p.as_str(), project) && match investigation {
                None => true,
                Some(want) => match inv {
                    Some(v) => str_eq(v.as_str(), want),
                    None => false,
                },
            },
            None => false,
        };
        if hit {
            count = count + 1;
        }
        k = k + 1;
    }
    assert(es.take(k as int) =~= es);
    count
}

fn project_line(project: &str, investigations: usize, tickets: usize) -> (r: Vec<TextLine>)
    ensures
        line_views(r@) == project_item(project@, investigations as nat, tickets as nat),
{
    proof {
        reveal_strlit(" ");
        reveal_strlit("  ");
        reveal_strlit(" investigations  ");
        reveal_strlit(" tickets");
    }
    let mut name = " ".to_owned();
    push_str(&mut name, project);
    push_str(&mut name, " ");
    let mut counts = "  ".to_owned();
    push_str(&mut counts, decimal_string(investigations as u64).as_str());
    push_str(&mut counts, " investigations  ");
    push_str(&mut counts, decimal_string(tickets as u64).as_str());
    push_str(&mut counts, " tickets");
    let line = TextLine {
        spans: vec![text_span(name, SpanStyle { fg: Tone::Accent, bold: true, ..plain() }), text_span(counts, SpanStyle { fg: Tone::Muted, ..plain() })],
        style: None,
    };
    let ghost want = project_item(project@, investigations as nat, tickets as nat);
    assert(line@.spans =~= want[0].spans);
    assert(line@ == want[0]);
    let r = vec![line];
    assert(line_views(r@) =~= want);
    r
}

fn investigation_line(investigation: &str, tickets: usize) -> (r: Vec<TextLine>)
    ensures
        line_views(r@) == investigation_item(investigation@, tickets as nat),
{
    proof {
        reveal_strlit(" ");
        reveal_strlit("  ");
        reveal_strlit(" tickets");
    }
    let mut name = " ".to_owned();
    push_str(&mut name, investigation);
    push_str(&mut name, " ");
    let mut counts = "  ".to_owned();
    push_str(&mut counts, decimal_string(tickets as u64).as_str());
    push_str(&mut counts, " tickets");
    let line = TextLine {
        spans: vec![text_span(name, SpanStyle { fg: Tone::White, bold: true, ..plain() }), text_span(counts, SpanStyle { fg: Tone::Muted, ..plain() })],
        style: None,
    };
    let ghost want = investigation_item(investigation@, tickets as nat);
    assert(line@.spans =~= want[0].spans);
    assert(line@ == want[0]);
    let r = vec![line];
    assert(line_views(r@) =~= want);
    r
}

fn position_in(values: &Vec<String>, selected: Option<&str>) -> (r: Option<usize>)
    ensures
        match r {
            Some(i) => index_of(strs(values@), match selected {
                Some(s) => Some(s@),
                None => None,
            }) == Some(i as int),
            None => index_of(strs(values@), match selected {
                Some(s) => Some(s@),
                None => None,
            }) is None,
        },
{
    let owned: Option<String> = match selected {
        Some(s) => Some(s.to_owned()),
        None => None,
    };
    crate::tui::position_of(values, &owned)
}

/// The items of the current list, and the position of the selected one.
pub fn list_items(browser: &Browser, scan: &ScanResult) -> (r: (Vec<Vec<TextLine>>, Option<usize>))
    ensures
        item_views(r.0@) == list_items_of(browser@, entry_views(scan.snapshot.entries@), roots_view(scan.investigation_roots@)),
        match r.1 {
            Some(i) => list_selection(browser@, entry_views(scan.snapshot.entries@), roots_view(scan.investigation_roots@)) == Some(i as int),
            None => list_selection(browser@, entry_views(scan.snapshot.entries@), roots_view(scan.investigation_roots@)) is None,
        },
{
    let ghost es = entry_views(scan.snapshot.entries@);
    let ghost roots = roots_view(scan.investigation_roots@);
    match browser.current_view() {
        BrowseView::Projects => {
            let values = browser.projects(scan);
            let selected = position_in(&values, browser.selected_project());
            let ghost vs = strs(values@);
            let ghost want = list_items_of(browser@, es, roots);
            let mut items: Vec<Vec<TextLine>> = Vec::new();
            let mut k: usize = 0;
            while k < values.len()
                invariant
                    es == entry_views(scan.snapshot.entries@),
                    roots == roots_view(scan.investigation_roots@),
                    vs == strs(values@),
                    vs == visible_projects(browser@, es, roots),
                    browser@.view == BrowseView::Projects,
                    want == list_items_of(browser@, es, roots),
                    want.len() == vs.len(),
                    k <= vs.len(),
                    item_views(items@) == want.take(k as int),
                decreases values.len() - k,
            {
                let p = values[k].as_str();
                let all = crate::browser::all_investigations(scan, p);
                let investigations = all.len();
                assert(strs(all@).len() == all@.len());
                let tickets = count_matching(scan, p, None);
                let ghost before = item_views(items@);
                let item = project_line(p, investigations, tickets);
                let ghost iv = line_views(item@);
                items.push(item);
                assert(item_views(items@) =~= before.push(iv));
                assert(want[k as int] == project_item(vs[k as int], listing(investigation_names(es, roots, vs[k as int])).len(), es.filter(project_ticket_pred(roots, vs[k as int])).len()));
                assert(item_views(items@) =~= want.take(k + 1));
                k = k + 1;
            }
            assert(want.take(k as int) =~= want);
            (items, selected)
        },
        BrowseView::Investigations => {
            let values = browser.investigations(scan);
            let selected = position_in(&values, browser.selected_investigation());
            let project: &str = match browser.selected_project() {
                Some(p) => p,
                None => "",
            };
            proof {
                reveal_strlit("");
            }
            let ghost vs = strs(values@);
            let ghost want = list_items_of(browser@, es, roots);
            let mut items: Vec<Vec<TextLine>> = Vec::new();
            let mut k: usize = 0;
            while k < values.len()
                invariant
                    es == entry_views(scan.snapshot.entries@),
                    roots == roots_view(scan.investigation_roots@),
                    vs == strs(values@),
                    vs == visible_investigations(browser@, es, roots),
                    browser@.view == BrowseView::Investigations,
                    project@ == match browser@.project {
                        Some(p) => p,
                        None => Seq::empty(),
                    },
                    want == list_items_of(browser@, es, roots),
                    want.len() == vs.len(),
                    k <= vs.len(),
                    item_views(items@) == want.take(k as int),
                decreases values.len() - k,
            {
                let i = values[k].as_str();
                let tickets = count_matching(scan, project, Some(i));
                let ghost before = item_views(items@);
                let item = investigation_line(i, tickets);
                let ghost iv = line_views(item@);
                items.push(item);
                assert(item_views(items@) =~= before.push(iv));
                assert(want[k as int] == investigation_item(vs[k as int], es.filter(investigation_ticket_pred(roots, project@, vs[k as int])).len()));
                assert(item_views(items@) =~= want.take(k + 1));
                k = k + 1;
            }
            assert(want.take(k as int) =~= want);
            (items, selected)
        },
        view => {
            let items = entry_item_lines(browser, scan, view == BrowseView::Files);
            let values = browser.entry_paths(scan);
            let selected = position_in(&values, browser.selected_path());
            (items, selected)
        },
    }
}

/// The style of a tab: the selected one bold black on the accent, others muted.
pub open spec fn tab_style(selected: bool) -> SpanStyle {
    if selected {
        SpanStyle { fg: Tone::Black, bg: Backdrop::Accent, bold: true, ..plain_style() }
    } else {
        with_fg(plain_style(), Tone::Muted)
    }
}

/// The name of an activation state.
pub open spec fn activation_word(a: ActivationState) -> Seq<char> {
    match a {
        ActivationState::Active => "ACTIVE"@,
        ActivationState::Unactivated => "UNACTIVATED"@,
        ActivationState::Invalid => "INVALID ACTIVATION"@,
    }
}

/// The colour of an activation state.
pub open spec fn activation_tone(a: ActivationState) -> Tone {
    match a {
        ActivationState::Active => Tone::Good,
        ActivationState::Unactivated => Tone::Warn,
        ActivationState::Invalid => Tone::Bad,
    }
}

/// The spans of a tab: a gap, then its number, name and count.
pub open spec fn tab_spans(st: BrowserState, v: BrowseView, number: nat, count: nat) -> Seq<SpanView> {
    seq![
        span(" "@, plain_style()),
        span(" ["@ + decimal(number) + "] "@ + uppercase(view_title(v)) + " "@ + decimal(count) + " "@, tab_style(st.view == v)),
    ]
}

/// The selected scope as text.
pub open spec fn scope_text(st: BrowserState) -> Seq<char> {
    match (st.project, st.investigation) {
        (Some(p), Some(i)) => p + " / "@ + i,
        (Some(p), None) => p,
        _ => "none"@,
    }
}

/// The filter as shown: quoted, or `none`.
pub open spec fn shown_filter(st: BrowserState) -> Seq<char> {
    if st.filter.len() == 0 {
        "none"@
    } else {
        "\""@ + inline_text(st.filter) + "\""@
    }
}

/// The header: the tabs with their counts, the activation state and the number of
/// diagnostics; then the scope, the filter and whether it is being typed.
pub open spec fn header_of(
    st: BrowserState,
    es: Seq<EntryView>,
    roots: Seq<(Seq<char>, Seq<Seq<char>>)>,
    activation: ActivationState,
    diagnostics: nat,
) -> Seq<LineView> {
    seq![
        LineView {
            spans: seq![span(" CASEFILE "@, bold_fg(Tone::Accent))] + tab_spans(st, BrowseView::Projects, 1, visible_projects(st, es, roots).len())
                + tab_spans(st, BrowseView::Investigations, 2, visible_investigations(st, es, roots).len()) + tab_spans(
                st,
                BrowseView::Tickets,
                3,
                es.filter(crate::browser::ticket_pred(st, roots)).len(),
            ) + tab_spans(st, BrowseView::Files, 4, es.filter(crate::browser::file_pred(st, roots)).len()) + seq![
                span("   "@, plain_style()),
                span(activation_word(activation), bold_fg(activation_tone(activation))),
                span("  |  "@ + decimal(diagnostics) + " diagnostics"@, with_fg(plain_style(), Tone::Muted)),
            ],
            style: None,
        },
        LineView {
            spans: seq![
                span(" Scope "@, with_fg(plain_style(), Tone::Muted)),
                span(inline_text(scope_text(st)), with_fg(plain_style(), Tone::White)),
                span("  |  Filter "@, with_fg(plain_style(), Tone::Muted)),
                span(shown_filter(st), with_fg(plain_style(), Tone::White)),
                if st.entering {
                    span("  TYPE TO FILTER"@, bold_fg(Tone::Warn))
                } else {
                    span(Seq::empty(), plain_style())
                },
            ],
            style: None,
        },
    ]
}

fn push_tab(spans: &mut Vec<TextSpan>, browser: &Browser, view: BrowseView, number: u64, count: usize)
    requires
        1 <= number <= 4,
    ensures
        span_views(final(spans)@) == span_views(old(spans)@) + tab_spans(browser@, view, number as nat, count as nat),
{
    proof {
        reveal_strlit(" ");
        reveal_strlit(" [");
        reveal_strlit("] ");
    }
    let mut label = " [".to_owned();
    push_str(&mut label, decimal_string(number).as_str());
    push_str(&mut label, "] ");
    push_str(&mut label, to_uppercase(view.title()).as_str());
    push_str(&mut label, " ");
    push_str(&mut label, decimal_string(count as u64).as_str());
    push_str(&mut label, " ");
    let selected = browser.current_view() == view;
    let style = if selected {
        SpanStyle { fg: Tone::Black, bg: Backdrop::Accent, bold: true, ..plain() }
    } else {
        SpanStyle { fg: Tone::Muted, ..plain() }
    };
    let ghost before = span_views(spans@);
    spans.push(text_span(" ".to_owned(), plain()));
    spans.push(text_span(label, style));
    assert(span_views(spans@) =~= before + tab_spans(browser@, view, number as nat, count as nat));
}

/// The lines of the browser's header.
pub fn header_lines(browser: &Browser, scan: &ScanResult) -> (r: Vec<TextLine>)
    ensures
        line_views(r@) == header_of(
            browser@,
            entry_views(scan.snapshot.entries@),
            roots_view(scan.investigation_roots@),
            scan.activation,
            scan.diagnostics@.len(),
        ),
{
    proof {
        reveal_strlit(" CASEFILE ");
        reveal_strlit("   ");
        reveal_strlit("ACTIVE");
        reveal_strlit("UNACTIVATED");
        reveal_strlit("INVALID ACTIVATION");
        reveal_strlit("  |  ");
        reveal_strlit(" diagnostics");
        reveal_strlit(" Scope ");
        reveal_strlit("  |  Filter ");
        reveal_strlit("  TYPE TO FILTER");
        reveal_strlit("");
        reveal_strlit(" / ");
        reveal_strlit("none");
        reveal_strlit("\"");
    }
    let mut tabs: Vec<TextSpan> = vec![text_span(" CASEFILE ".to_owned(), SpanStyle { fg: Tone::Accent, bold: true, ..plain() })];
    let projects = browser.projects(scan);
    assert(strs(projects@).len() == projects@.len());
    let investigations = browser.investigations(scan);
    assert(strs(investigations@).len() == investigations@.len());
    let ghost head = span_views(tabs@);
    push_tab(&mut tabs, browser, BrowseView::Projects, 1, projects.len());
    push_tab(&mut tabs, browser, BrowseView::Investigations, 2, investigations.len());
    push_tab(&mut tabs, browser, BrowseView::Tickets, 3, browser.ticket_count(scan));
    push_tab(&mut tabs, browser, BrowseView::Files, 4, browser.file_count(scan));
    let (name, tone) = match scan.activation {
        ActivationState::Active => ("ACTIVE", Tone::Good),
        ActivationState::Unactivated => ("UNACTIVATED", Tone::Warn),
        ActivationState::Invalid => ("INVALID ACTIVATION", Tone::Bad),
    };
    let mut diagnostics = "  |  ".to_owned();
    push_str(&mut diagnostics, decimal_string(scan.diagnostics.len() as u64).as_str());
    push_str(&mut diagnostics, " diagnostics");
    let ghost with_tabs = span_views(tabs@);
    tabs.push(text_span("   ".to_owned(), plain()));
    tabs.push(text_span(name.to_owned(), SpanStyle { fg: tone, bold: true, ..plain() }));
    tabs.push(text_span(diagnostics, SpanStyle { fg: Tone::Muted, ..plain() }));
    assert(span_views(tabs@) =~= with_tabs + seq![
        span("   "@, plain_style()),
        span(activation_word(scan.activation), bold_fg(activation_tone(scan.activation))),
        span("  |  "@ + decimal(scan.diagnostics@.len()) + " diagnostics"@, with_fg(plain_style(), Tone::Muted)),
    ]);
    let scope = match (browser.selected_project(), browser.selected_investigation()) {
        (Some(p), Some(i)) => {
            let mut t = p.to_owned();
            push_str(&mut t, " / ");
            push_str(&mut t, i);
            t
        },
        (Some(p), None) => p.to_owned(),
        _ => "none".to_owned(),
    };
    let filter = if browser.filter_text().is_empty() {
        "none".to_owned()
    } else {
        let mut t = "\"".to_owned();
        push_str(&mut t, safe_inline(browser.filter_text()).as_str());
        push_str(&mut t, "\"");
        t
    };
    let typing = if browser.is_entering_filter() {
        text_span("  TYPE TO FILTER".to_owned(), SpanStyle { fg: Tone::Warn, bold: true, ..plain() })
    } else {
        text_span(String::new(), plain())
    };
    let second = vec![
        text_span(" Scope ".to_owned(), SpanStyle { fg: Tone::Muted, ..plain() }),
        text_span(safe_inline(scope.as_str()), SpanStyle { fg: Tone::White, ..plain() }),
        text_span("  |  Filter ".to_owned(), SpanStyle { fg: Tone::Muted, ..plain() }),
        text_span(filter, SpanStyle { fg: Tone::White, ..plain() }),
        typing,
    ];
    let ghost want = header_of(browser@, entry_views(scan.snapshot.entries@), roots_view(scan.investigation_roots@), scan.activation, scan.diagnostics@.len());
    let first = TextLine { spans: tabs, style: None };
    let next = TextLine { spans: second, style: None };
    assert(first@.spans =~= want[0].spans);
    assert(next@.spans =~= want[1].spans);
    let r = vec![first, next];
    assert(line_views(r@) =~= want);
    r
}

/// The title of the list: its name and the position of the selected item.
pub open spec fn list_title_of(v: BrowseView, count: nat, selected: Option<int>) -> Seq<char> {
    " "@ + view_title(v) + "  "@ + match selected {
        Some(i) => decimal((i + 1) as nat) + " / "@ + decimal(count),
        None => "0 / "@ + decimal(count),
    } + " "@
}

/// The title of the list.
pub fn list_title(view: BrowseView, count: usize, selected: Option<usize>) -> (r: String)
    requires
        selected matches Some(i) ==> i < count,
    ensures
        r@ == list_title_of(view, count as nat, match selected {
            Some(i) => Some(i as int),
            None => None,
        }),
{
    proof {
        reveal_strlit(" ");
        reveal_strlit("  ");
        reveal_strlit(" / ");
        reveal_strlit("0 / ");
    }
    let mut t = " ".to_owned();
    push_str(&mut t, view.title());
    push_str(&mut t, "  ");
    match selected {
        Some(i) => {
            push_str(&mut t, decimal_string((i + 1) as u64).as_str());
            push_str(&mut t, " / ");
        },
        None => push_str(&mut t, "0 / "),
    }
    push_str(&mut t, decimal_string(count as u64).as_str());
    push_str(&mut t, " ");
    t
}

/// What an empty list says: that nothing matches the filter, or that the scope has
/// nothing of the kind listed.
pub open spec fn empty_message(st: BrowserState) -> Seq<char> {
    if st.filter.len() == 0 {
        match st.view {
            BrowseView::Projects => "No projects are present in this Casefile root."@,
            BrowseView::Investigations => "This project has no investigations."@,
            BrowseView::Tickets => "This investigation has no governed tickets or epics."@,
            BrowseView::Files => "This scope has no non-ticket files."@,
        }
    } else {
        "Nothing matches the active filter. Press c to clear it."@
    }
}

/// What an empty list says.
pub fn empty_list_message(browser: &Browser) -> (r: &'static str)
    ensures
        r@ == empty_message(browser@),
{
    proof {
        reveal_strlit("No projects are present in this Casefile root.");
        reveal_strlit("This project has no investigations.");
        reveal_strlit("This investigation has no governed tickets or epics.");
        reveal_strlit("This scope has no non-ticket files.");
        reveal_strlit("Nothing matches the active filter. Press c to clear it.");
    }
    if browser.filter_text().is_empty() {
        match browser.current_view() {
            BrowseView::Projects => "No projects are present in this Casefile root.",
            BrowseView::Investigations => "This project has no investigations.",
            BrowseView::Tickets => "This investigation has no governed tickets or epics.",
            BrowseView::Files => "This scope has no non-ticket files.",
        }
    } else {
        "Nothing matches the active filter. Press c to clear it."
    }
}

} // verus!
