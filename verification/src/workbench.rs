//! The decisions of the terminal workbench: what a key does in each mode, which layout
//! a width gets, where the help sits, and the help and footer texts.

use crate::browser::BrowseView;
use crate::detail::span;
use crate::terminal_markdown::{LineView, SpanStyle, TextLine, Tone, line_views, plain, plain_style, with_fg};
use crate::tui::{Focus, Key, PAGE_SIZE};
use vstd::prelude::*;

verus! {

/// The narrowest body that shows the list and the detail side by side.
pub const WIDE_MINIMUM: u16 = 96;

/// Side by side, or stacked.
#[derive(Clone, Copy, Debug, PartialEq, Eq, Structural)]
pub enum LayoutMode {
    Wide,
    Narrow,
}

/// The layout for a body of a width.
pub fn layout_mode(width: u16) -> (r: LayoutMode)
    ensures
        r == if width >= WIDE_MINIMUM {
            LayoutMode::Wide
        } else {
            LayoutMode::Narrow
        },
{
    if width >= WIDE_MINIMUM {
        LayoutMode::Wide
    } else {
        LayoutMode::Narrow
    }
}

/// A box of at most `width` by `height` centred in an area, at least one cell each
/// way and leaving a cell of margin where it can: its left, top, width and height.
pub fn centred(x: u16, y: u16, area_width: u16, area_height: u16, width: u16, height: u16) -> (r: (u16, u16, u16, u16))
    requires
        x + area_width <= u16::MAX,
        y + area_height <= u16::MAX,
    ensures
        ({
            let w = if area_width >= 2 && width <= area_width - 2 {
                width as int
            } else if area_width >= 2 {
                area_width - 2
            } else {
                0
            };
            let w = if w < 1 {
                1
            } else {
                w
            };
            let h = if area_height >= 2 && height <= area_height - 2 {
                height as int
            } else if area_height >= 2 {
                area_height - 2
            } else {
                0
            };
            let h = if h < 1 {
                1
            } else {
                h
            };
            &&& r.2 == w
            &&& r.3 == h
            &&& r.0 == x + (if area_width >= w {
                area_width - w
            } else {
                0
            }) / 2
            &&& r.1 == y + (if area_height >= h {
                area_height - h
            } else {
                0
            }) / 2
        }),
{
    let room_w = if area_width >= 2 {
        area_width - 2
    } else {
        0
    };
    let room_h = if area_height >= 2 {
        area_height - 2
    } else {
        0
    };
    let w = if width < room_w {
        width
    } else {
        room_w
    };
    let w = if w < 1 {
        1
    } else {
        w
    };
    let h = if height < room_h {
        height
    } else {
        room_h
    };
    let h = if h < 1 {
        1
    } else {
        h
    };
    let free_w = if area_width >= w {
        area_width - w
    } else {
        0
    };
    let free_h = if area_height >= h {
        area_height - h
    } else {
        0
    };
    (x + free_w / 2, y + free_h / 2, w, h)
}

/// What a key asks of the workbench.
#[derive(Clone, Copy, Debug, PartialEq, Eq, Structural)]
pub enum Action {
    Nothing,
    Quit,
    ShowHelp,
    HideHelp,
    SetView(BrowseView),
    ShowBoards,
    CycleView,
    NextFocus,
    DrillDown,
    GoUp,
    StartFilter,
    CloseFilter,
    PopFilter,
    PushFilter(char),
    ClearFilter,
    SelectTab(i64),
    Move(i64),
    Edge(bool),
    Edit,
}

/// What a key does: with the help open it closes the help or quits; while the filter
/// is typed it edits the filter; otherwise it navigates, and drilling down and going up
/// act only from the list.
pub open spec fn action_of(key: Key, help: bool, filtering: bool, focus: Focus) -> Action {
    if help {
        match key {
            Key::Char('q') => Action::Quit,
            Key::Char('?') | Key::Esc | Key::Enter => Action::HideHelp,
            _ => Action::Nothing,
        }
    } else if filtering {
        match key {
            Key::Esc | Key::Enter => Action::CloseFilter,
            Key::Backspace => Action::PopFilter,
            Key::Char(c) => Action::PushFilter(c),
            _ => Action::Nothing,
        }
    } else {
        match key {
            Key::Char('q') | Key::Esc => Action::Quit,
            Key::Char('?') => Action::ShowHelp,
            Key::Char('1') => Action::SetView(BrowseView::Projects),
            Key::Char('2') => Action::SetView(BrowseView::Investigations),
            Key::Char('3') => Action::SetView(BrowseView::Tickets),
            Key::Char('4') => Action::SetView(BrowseView::Files),
            Key::Char('6') => Action::ShowBoards,
            Key::Char('t') => Action::CycleView,
            Key::Tab => Action::NextFocus,
            Key::Enter => if focus == Focus::List {
                Action::DrillDown
            } else {
                Action::Nothing
            },
            Key::Backspace => if focus == Focus::List {
                Action::GoUp
            } else {
                Action::Nothing
            },
            Key::Char('/') => Action::StartFilter,
            Key::Char('c') => Action::ClearFilter,
            Key::Left | Key::Char('h') => Action::SelectTab(-1i64),
            Key::Right | Key::Char('l') => Action::SelectTab(1i64),
            Key::Down | Key::Char('j') => Action::Move(1i64),
            Key::Up | Key::Char('k') => Action::Move(-1i64),
            Key::PageDown => Action::Move(PAGE_SIZE),
            Key::PageUp => Action::Move((-PAGE_SIZE) as i64),
            Key::Home => Action::Edge(false),
            Key::End => Action::Edge(true),
            Key::Char('e') => Action::Edit,
            _ => Action::Nothing,
        }
    }
}

/// What a key does in the current mode.
pub fn action(key: Key, help: bool, filtering: bool, focus: Focus) -> (r: Action)
    ensures
        r == action_of(key, help, filtering, focus),
{
    if help {
        return match key {
            Key::Char('q') => Action::Quit,
            Key::Char('?') | Key::Esc | Key::Enter => Action::HideHelp,
            _ => Action::Nothing,
        };
    }
    if filtering {
        return match key {
            Key::Esc | Key::Enter => Action::CloseFilter,
            Key::Backspace => Action::PopFilter,
            Key::Char(c) => Action::PushFilter(c),
            _ => Action::Nothing,
        };
    }
    let on_list = match focus {
        Focus::List => true,
        Focus::Detail => false,
    };
    match key {
        Key::Char('q') | Key::Esc => Action::Quit,
        Key::Char('?') => Action::ShowHelp,
        Key::Char('1') => Action::SetView(BrowseView::Projects),
        Key::Char('2') => Action::SetView(BrowseView::Investigations),
        Key::Char('3') => Action::SetView(BrowseView::Tickets),
        Key::Char('4') => Action::SetView(BrowseView::Files),
        Key::Char('6') => Action::ShowBoards,
        Key::Char('t') => Action::CycleView,
        Key::Tab => Action::NextFocus,
        Key::Enter => if on_list {
            Action::DrillDown
        } else {
            Action::Nothing
        },
        Key::Backspace => if on_list {
            Action::GoUp
        } else {
            Action::Nothing
        },
        Key::Char('/') => Action::StartFilter,
        Key::Char('c') => Action::ClearFilter,
        Key::Left | Key::Char('h') => Action::SelectTab(-1),
        Key::Right | Key::Char('l') => Action::SelectTab(1),
        Key::Down | Key::Char('j') => Action::Move(1),
        Key::Up | Key::Char('k') => Action::Move(-1),
        Key::PageDown => Action::Move(PAGE_SIZE),
        Key::PageUp => Action::Move(-PAGE_SIZE),
        Key::Home => Action::Edge(false),
        Key::End => Action::Edge(true),
        Key::Char('e') => Action::Edit,
        _ => Action::Nothing,
    }
}

/// The footer: the filter's keys while it is typed, else the last feedback, else the
/// keys of the workbench.
pub open spec fn footer_of(filtering: bool, feedback: Option<Seq<char>>) -> Seq<char> {
    if filtering {
        " Type to filter  Enter accept  Esc close "@
    } else {
        match feedback {
            Some(f) => f,
            None => " 1-4 views  6 boards  Enter drill down  Backspace up  Tab focus  j/k move  h/l detail  e edit  / filter  ? help  q quit "@,
        }
    }
}

/// The footer text.
pub fn footer<'a>(filtering: bool, feedback: Option<&'a str>) -> (r: &'a str)
    ensures
        r@ == footer_of(
            filtering,
            match feedback {
                Some(f) => Some(f@),
                None => None,
            },
        ),
{
    proof {
        reveal_strlit(" Type to filter  Enter accept  Esc close ");
        reveal_strlit(" 1-4 views  6 boards  Enter drill down  Backspace up  Tab focus  j/k move  h/l detail  e edit  / filter  ? help  q quit ");
    }
    if filtering {
        " Type to filter  Enter accept  Esc close "
    } else {
        match feedback {
            Some(f) => f,
            None => " 1-4 views  6 boards  Enter drill down  Backspace up  Tab focus  j/k move  h/l detail  e edit  / filter  ? help  q quit ",
        }
    }
}

/// A text padded with spaces on the right to a width.
pub open spec fn padded(s: Seq<char>, width: nat) -> Seq<char> {
    if s.len() >= width {
        s
    } else {
        s + Seq::new((width - s.len()) as nat, |_i: int| ' ')
    }
}

/// A line of the help: a key, padded, in the warning colour, and what it does.
pub open spec fn help_line_of(key: Seq<char>, description: Seq<char>) -> LineView {
    LineView { spans: seq![span(padded(key, 18), with_fg(plain_style(), Tone::Warn)), span(description, plain_style())], style: None }
}

fn help_line(key: &str, description: &str) -> (r: TextLine)
    ensures
        r@ == help_line_of(key@, description@),
{
    let mut k = key.to_owned();
    let n = crate::text::chars_of(key).len();
    let mut i = n;
    while i < 18
        invariant
            n == key@.len(),
            n <= i <= 18 || (n > 18 && i == n),
            k@ == if i <= n {
                key@
            } else {
                key@ + Seq::new((i - n) as nat, |_i: int| ' ')
            },
        decreases 18 - i,
    {
        crate::text::push_char(&mut k, ' ');
        assert(key@ + Seq::new((i + 1 - n) as nat, |_i: int| ' ') =~= (if i <= n {
            key@
        } else {
            key@ + Seq::new((i - n) as nat, |_i: int| ' ')
        }).push(' '));
        i = i + 1;
    }
    assert(k@ =~= padded(key@, 18));
    let r = TextLine {
        spans: vec![crate::detail::text_span(k, SpanStyle { fg: Tone::Warn, ..plain() }), crate::detail::text_span(description.to_owned(), plain())],
        style: None,
    };
    assert(r@.spans =~= help_line_of(key@, description@).spans);
    r
}

fn heading(text: &str) -> (r: TextLine)
    ensures
        r@ == crate::detail::styled_line(text@, crate::detail::bold_fg(Tone::Accent)),
{
    let r = TextLine {
        spans: if text.is_empty() {
            Vec::new()
        } else {
            vec![crate::detail::text_span(text.to_owned(), plain())]
        },
        style: Some(SpanStyle { fg: Tone::Accent, bold: true, ..plain() }),
    };
    assert(r@.spans =~= crate::detail::styled_line(text@, crate::detail::bold_fg(Tone::Accent)).spans);
    r
}

/// The keyboard help: how to move, how to change what is shown, and how to leave.
pub open spec fn help_of() -> Seq<LineView> {
    let blank = LineView { spans: Seq::empty(), style: None };
    let head = |t: Seq<char>| crate::detail::styled_line(t, crate::detail::bold_fg(Tone::Accent));
    seq![
        head("MOVE"@),
        help_line_of("j / k, Up / Down"@, "Move selection or scroll focused pane"@),
        help_line_of("PgUp / PgDn"@, "Page through the focused pane"@),
        help_line_of("Home / End"@, "Jump to the first or last position"@),
        help_line_of("Tab"@, "Switch focus between list and detail"@),
        blank,
        head("VIEW"@),
        help_line_of("1 / 2 / 3 / 4 / 6"@, "Open Projects, Investigations, Tickets, Files, or Boards"@),
        help_line_of("Enter / Backspace"@, "Drill into the selected scope or go up"@),
        help_line_of("h / l, Left / Right"@, "Switch Overview, Rendered, Source, Diagnostics"@),
        help_line_of("/"@, "Enter filter mode"@),
        help_line_of("c"@, "Clear the active filter"@),
        help_line_of("e"@, "Edit selected governed ticket, epic, or board"@),
        blank,
        help_line_of("? / Esc / Enter"@, "Close this help"@),
        help_line_of("q"@, "Quit Casefile"@),
    ]
}

/// The lines of the keyboard help.
pub fn help_lines() -> (r: Vec<TextLine>)
    ensures
        line_views(r@) == help_of(),
{
    let blank = TextLine { spans: Vec::new(), style: None };
    let blank2 = TextLine { spans: Vec::new(), style: None };
    assert(blank@.spans =~= Seq::<crate::terminal_markdown::SpanView>::empty());
    assert(blank2@.spans =~= Seq::<crate::terminal_markdown::SpanView>::empty());
    let r = vec![
        heading("MOVE"),
        help_line("j / k, Up / Down", "Move selection or scroll focused pane"),
        help_line("PgUp / PgDn", "Page through the focused pane"),
        help_line("Home / End", "Jump to the first or last position"),
        help_line("Tab", "Switch focus between list and detail"),
        blank,
        heading("VIEW"),
        help_line("1 / 2 / 3 / 4 / 6", "Open Projects, Investigations, Tickets, Files, or Boards"),
        help_line("Enter / Backspace", "Drill into the selected scope or go up"),
        help_line("h / l, Left / Right", "Switch Overview, Rendered, Source, Diagnostics"),
        help_line("/", "Enter filter mode"),
        help_line("c", "Clear the active filter"),
        help_line("e", "Edit selected governed ticket, epic, or board"),
        blank2,
        help_line("? / Esc / Enter", "Close this help"),
        help_line("q", "Quit Casefile"),
    ];
    assert(line_views(r@) =~= help_of());
    r
}

} // verus!
