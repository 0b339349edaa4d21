//! The decisions of the terminal workbench: what a key does to the loading screen,
//! the diff review, the record detail and the selection lists, and which records
//! may be opened for editing.

use crate::derived::{DerivedSnapshot, opt_text};
use crate::record::{Classification, EntrySnapshot, Kind};
use crate::scanning::ScanResult;
use crate::text::str_eq;
use vstd::prelude::*;

verus! {

/// A key as the workbench reads it.
#[derive(Clone, Copy, Debug, PartialEq, Eq, Structural)]
pub enum Key {
    Char(char),
    Esc,
    Enter,
    Backspace,
    Tab,
    BackTab,
    Up,
    Down,
    Left,
    Right,
    PageUp,
    PageDown,
    Home,
    End,
    Other,
}

/// A request to edit one supported governed record.
#[derive(Debug, PartialEq, Eq)]
pub struct EditIntent {
    pub path: String,
    pub kind: Kind,
}

/// The result of one workbench interaction.
#[derive(Debug, PartialEq, Eq)]
pub enum Interaction {
    Quit,
    Edit(EditIntent),
}

/// Why the selected record cannot be edited, or the edit it opens: governed tickets,
/// epics and boards only.
pub fn edit_selection(entry: Option<&EntrySnapshot>) -> (r: Result<Interaction, &'static str>)
    ensures
        match entry {
            None => r matches Err(m) && m@ == "No selected record to edit."@,
            Some(e) => if e.classification == Classification::Governed && e.kind is Some && e.kind->0.writable() {
                r matches Ok(Interaction::Edit(i)) && i.path == e.path && i.kind == e.kind->0
            } else {
                r matches Err(m) && m@ == "Read-only: e edits governed tickets, epics, and boards only."@
            },
        },
{
    let entry = match entry {
        Some(e) => e,
        None => return Err("No selected record to edit."),
    };
    match entry.kind {
        Some(kind) => {
            if entry.classification == Classification::Governed && kind.is_writable() {
                return Ok(Interaction::Edit(EditIntent { path: entry.path.clone(), kind }));
            }
        },
        None => {},
    }
    Err("Read-only: e edits governed tickets, epics, and boards only.")
}

/// How loading ends: with a scan and its read model, by the user's leave, or with a failure.
#[derive(Debug)]
pub enum Outcome {
    Ready(ScanResult, DerivedSnapshot),
    Quit,
    Failed(String),
}

/// What the loading screen found on its channel.
#[derive(Debug)]
pub enum Received {
    Message(Result<(ScanResult, DerivedSnapshot), String>),
    Disconnected,
    Empty,
}

/// What the loading screen does with what it received: a loaded root or a failure
/// ends it; a channel with nothing yet leaves it waiting.
pub fn receive(received: Received) -> (r: Option<Outcome>)
    ensures
        match received {
            Received::Message(Ok((s, d))) => r matches Some(Outcome::Ready(s2, d2)) && s2 == s && d2 == d,
            Received::Message(Err(m)) => r matches Some(Outcome::Failed(m2)) && m2 == m,
            Received::Disconnected => r matches Some(Outcome::Failed(m)) && m@
                == "Casefile background loading stopped unexpectedly"@,
            Received::Empty => r is None,
        },
{
    match received {
        Received::Message(Ok((scan, derived))) => Some(Outcome::Ready(scan, derived)),
        Received::Message(Err(message)) => Some(Outcome::Failed(message)),
        Received::Disconnected => Some(Outcome::Failed("Casefile background loading stopped unexpectedly".to_owned())),
        Received::Empty => None,
    }
}

/// A pressed `q` or Esc leaves the loading screen; nothing else does.
pub fn loading_key(key: Key, pressed: bool) -> (r: Option<Outcome>)
    ensures
        r is Some <==> pressed && (key == Key::Char('q') || key == Key::Esc),
        r matches Some(o) ==> o is Quit,
{
    if pressed && (key == Key::Char('q') || key == Key::Esc) {
        Some(Outcome::Quit)
    } else {
        None
    }
}

/// A decision made after inspecting a proposed diff.
#[derive(Clone, Copy, Debug, PartialEq, Eq, Structural)]
pub enum ReviewDecision {
    Apply,
    Cancel,
}

/// The lines a page scroll moves.
pub const PAGE_SIZE: i64 = 10;

/// A scroll position moved by `amount` and kept within `0..=max`.
pub open spec fn scrolled(position: u16, amount: int, max: u16) -> u16 {
    if position + amount < 0 {
        0
    } else if position + amount > max {
        max
    } else {
        (position + amount) as u16
    }
}

fn scroll_by(position: u16, amount: i64, max: u16) -> (r: u16)
    ensures
        r == scrolled(position, amount as int, max),
{
    let target: i128 = position as i128 + amount as i128;
    if target < 0 {
        0
    } else if target > max as i128 {
        max
    } else {
        target as u16
    }
}

/// The last scroll position of a text of `rows` lines.
pub open spec fn max_scroll(rows: u16) -> u16 {
    if rows == 0 {
        0
    } else {
        (rows - 1) as u16
    }
}

/// The review of a diff: its scroll position, the number of lines it was last shown
/// with, and the decision once made.
#[derive(Debug)]
pub struct ReviewState {
    pub diff: String,
    pub scroll: u16,
    pub rows: u16,
    pub decision: Option<ReviewDecision>,
}

impl ReviewState {
    /// A review of a diff, at its top, undecided.
    pub fn new(diff: &str) -> (r: ReviewState)
        ensures
            r.diff@ == diff@,
            r.scroll == 0,
            r.rows == 1,
            r.decision is None,
    {
        ReviewState { diff: diff.to_owned(), scroll: 0, rows: 1, decision: None }
    }

    /// Handles a key: `a` applies, `c` or Esc cancels, the movement keys scroll
    /// within the diff's lines.
    pub fn handle(&mut self, key: Key)
        ensures
            final(self).diff == old(self).diff,
            final(self).rows == old(self).rows,
            final(self).decision == if key == Key::Char('a') {
                Some(ReviewDecision::Apply)
            } else if key == Key::Char('c') || key == Key::Esc {
                Some(ReviewDecision::Cancel)
            } else {
                old(self).decision
            },
            final(self).scroll == if key == Key::Down || key == Key::Char('j') {
                scrolled(old(self).scroll, 1, max_scroll(old(self).rows))
            } else if key == Key::Up || key == Key::Char('k') {
                scrolled(old(self).scroll, -1, max_scroll(old(self).rows))
            } else if key == Key::PageDown {
                scrolled(old(self).scroll, PAGE_SIZE as int, max_scroll(old(self).rows))
            } else if key == Key::PageUp {
                scrolled(old(self).scroll, -PAGE_SIZE, max_scroll(old(self).rows))
            } else if key == Key::Home {
                0
            } else if key == Key::End {
                max_scroll(old(self).rows)
            } else {
                old(self).scroll
            },
    {
        let max = self.rows.saturating_sub(1);
        match key {
            Key::Char('a') => self.decision = Some(ReviewDecision::Apply),
            Key::Char('c') | Key::Esc => self.decision = Some(ReviewDecision::Cancel),
            Key::Down | Key::Char('j') => self.scroll = scroll_by(self.scroll, 1, max),
            Key::Up | Key::Char('k') => self.scroll = scroll_by(self.scroll, -1, max),
            Key::PageDown => self.scroll = scroll_by(self.scroll, PAGE_SIZE, max),
            Key::PageUp => self.scroll = scroll_by(self.scroll, -PAGE_SIZE, max),
            Key::Home => self.scroll = 0,
            Key::End => self.scroll = max,
            _ => {},
        }
    }

    /// Records how many lines the diff is shown with.
    pub fn set_rows(&mut self, rows: u16)
        ensures
            final(self).rows == rows,
            final(self).diff == old(self).diff,
            final(self).scroll == old(self).scroll,
            final(self).decision == old(self).decision,
    {
        self.rows = rows;
    }
}

/// A tab of the record detail.
#[derive(Clone, Copy, Debug, PartialEq, Eq, Structural)]
pub enum DetailTab {
    Overview,
    Rendered,
    Source,
    Diagnostics,
}

/// The position of a tab.
pub open spec fn tab_index(t: DetailTab) -> int {
    match t {
        DetailTab::Overview => 0,
        DetailTab::Rendered => 1,
        DetailTab::Source => 2,
        DetailTab::Diagnostics => 3,
    }
}

/// The tab at a position, counted round.
pub open spec fn tab_at(i: int) -> DetailTab {
    let k = i % 4;
    if k == 0 {
        DetailTab::Overview
    } else if k == 1 {
        DetailTab::Rendered
    } else if k == 2 {
        DetailTab::Source
    } else {
        DetailTab::Diagnostics
    }
}

impl DetailTab {
    /// The tab's title.
    pub fn title(self) -> (r: &'static str)
        ensures
            r@ == match self {
                DetailTab::Overview => "Overview"@,
                DetailTab::Rendered => "Rendered"@,
                DetailTab::Source => "Source"@,
                DetailTab::Diagnostics => "Diagnostics"@,
            },
    {
        match self {
            DetailTab::Overview => "Overview",
            DetailTab::Rendered => "Rendered",
            DetailTab::Source => "Source",
            DetailTab::Diagnostics => "Diagnostics",
        }
    }

    /// The tab `amount` places on, counted round.
    pub fn offset(self, amount: i64) -> (r: DetailTab)
        ensures
            r == tab_at(tab_index(self) + amount),
    {
        let index: i128 = match self {
            DetailTab::Overview => 0,
            DetailTab::Rendered => 1,
            DetailTab::Source => 2,
            DetailTab::Diagnostics => 3,
        };
        let k = (index + amount as i128) % 4;
        let k = if k < 0 {
            k + 4
        } else {
            k
        };
        assert(k == (tab_index(self) + amount) % 4) by (nonlinear_arith)
            requires
                index == tab_index(self),
                k == (if (index + amount) % 4 < 0 {
                    (index + amount) % 4 + 4
                } else {
                    (index + amount) % 4
                }),
                0 <= index <= 3,
        {
        }
        if k == 0 {
            DetailTab::Overview
        } else if k == 1 {
            DetailTab::Rendered
        } else if k == 2 {
            DetailTab::Source
        } else {
            DetailTab::Diagnostics
        }
    }
}

/// The record detail: its tab, its scroll position and the lines it was last shown with.
#[derive(Debug)]
pub struct RecordDetail {
    pub tab: DetailTab,
    pub scroll: u16,
    pub rows: u16,
}

impl RecordDetail {
    /// A detail on its overview, at the top.
    pub fn new() -> (r: RecordDetail)
        ensures
            r.tab == DetailTab::Overview,
            r.scroll == 0,
            r.rows == 1,
    {
        RecordDetail { tab: DetailTab::Overview, scroll: 0, rows: 1 }
    }

    /// Moves to another tab, at its top.
    pub fn select_tab(&mut self, offset: i64)
        ensures
            final(self).tab == tab_at(tab_index(old(self).tab) + offset),
            final(self).scroll == 0,
            final(self).rows == old(self).rows,
    {
        self.tab = self.tab.offset(offset);
        self.scroll = 0;
    }

    /// Back to the top.
    pub fn reset_scroll(&mut self)
        ensures
            final(self).scroll == 0,
            final(self).tab == old(self).tab,
            final(self).rows == old(self).rows,
    {
        self.scroll = 0;
    }

    /// Scrolls within the shown lines.
    pub fn scroll(&mut self, offset: i64)
        ensures
            final(self).scroll == scrolled(old(self).scroll, offset as int, max_scroll(old(self).rows)),
            final(self).tab == old(self).tab,
            final(self).rows == old(self).rows,
    {
        self.scroll = scroll_by(self.scroll, offset, self.rows.saturating_sub(1));
    }

    /// To the first or the last line.
    pub fn move_to_edge(&mut self, end: bool)
        ensures
            final(self).scroll == if end {
                max_scroll(old(self).rows)
            } else {
                0
            },
            final(self).tab == old(self).tab,
            final(self).rows == old(self).rows,
    {
        self.scroll = if end {
            self.rows.saturating_sub(1)
        } else {
            0
        };
    }

    /// Records how many lines the detail is shown with.
    pub fn set_rows(&mut self, rows: u16)
        ensures
            final(self).rows == rows,
            final(self).tab == old(self).tab,
            final(self).scroll == old(self).scroll,
    {
        self.rows = rows;
    }
}

/// Which pane has the keyboard.
#[derive(Clone, Copy, Debug, PartialEq, Eq, Structural)]
pub enum Focus {
    List,
    Detail,
}

impl Focus {
    /// The other pane.
    pub fn next(self) -> (r: Focus)
        ensures
            r != self,
    {
        match self {
            Focus::List => Focus::Detail,
            Focus::Detail => Focus::List,
        }
    }
}

/// The position of the first value equal to `selected`.
pub open spec fn index_of(values: Seq<Seq<char>>, selected: Option<Seq<char>>) -> Option<int> {
    match selected {
        None => None,
        Some(s) => if values.contains(s) {
            Some(choose|i: int| 0 <= i < values.len() && values[i] == s && forall|j: int| 0 <= j < i ==> values[j] != s)
        } else {
            None
        },
    }
}

pub(crate) fn position_of(values: &Vec<String>, selected: &Option<String>) -> (r: Option<usize>)
    ensures
        match r {
            Some(i) => i < values@.len() && index_of(crate::board::strs(values@), opt_text(*selected)) == Some(i as int),
            None => index_of(crate::board::strs(values@), opt_text(*selected)) is None,
        },
{
    let ghost vs = crate::board::strs(values@);
    let s = match selected {
        Some(s) => s,
        None => return None,
    };
    let mut i: usize = 0;
    while i < values.len()
        invariant
            vs == crate::board::strs(values@),
            opt_text(*selected) == Some(s@),
            i <= values@.len(),
            forall|j: int| 0 <= j < i ==> vs[j] != s@,
        decreases values.len() - i,
    {
        if str_eq(values[i].as_str(), s.as_str()) {
            proof {
                assert(vs[i as int] == s@);
                assert(vs.contains(s@));
                let c = choose|c: int| 0 <= c < vs.len() && vs[c] == s@ && forall|j: int| 0 <= j < c ==> vs[j] != s@;
                if c < i {
                    assert(vs[c] != s@);
                }
                if c > i {
                    assert(vs[i as int] != s@);
                }
                assert(c == i);
                assert(opt_text(*selected) == Some(s@));
                assert(index_of(vs, Some(s@)) == Some(c));
            }
            return Some(i);
        }
        i = i + 1;
    }
    proof {
        if vs.contains(s@) {
            let c = choose|c: int| 0 <= c < vs.len() && vs[c] == s@;
            assert(vs[c] != s@);
        }
    }
    None
}

/// The position a selection moves to among `n` values: the last for the largest
/// offset, the first for the smallest, else `offset` places on from the current
/// position (the first when there is none), kept within the list.
pub open spec fn moved_index(current: Option<int>, n: int, offset: i64) -> int {
    if offset == i64::MAX {
        n - 1
    } else if offset == i64::MIN {
        0
    } else {
        let start = match current {
            Some(i) => i,
            None => 0,
        };
        if start + offset < 0 {
            0
        } else if start + offset > n - 1 {
            n - 1
        } else {
            start + offset
        }
    }
}

/// Moves a selection among values by an offset; whether it changed.
pub fn select_value(selected: &mut Option<String>, values: &Vec<String>, offset: i64) -> (changed: bool)
    ensures
        values@.len() == 0 ==> *final(selected) is None && changed == (*old(selected) is Some),
        values@.len() > 0 ==> {
            let next = moved_index(index_of(crate::board::strs(values@), opt_text(*old(selected))), values@.len() as int, offset);
            &&& opt_text(*final(selected)) == Some(values@[next]@)
            &&& changed == (opt_text(*old(selected)) != Some(values@[next]@))
        },
{
    if values.len() == 0 {
        let was = selected.is_some();
        *selected = None;
        return was;
    }
    let index = match position_of(values, selected) {
        Some(i) => i,
        None => 0,
    };
    let n = values.len();
    let next: usize = if offset == i64::MAX {
        n - 1
    } else if offset == i64::MIN {
        0
    } else if offset < 0 {
        let back: u64 = (-(offset as i128)) as u64;
        if (index as u64) < back {
            0
        } else {
            index - back as usize
        }
    } else {
        let ahead = offset as u64;
        if (n - 1 - index) as u64 <= ahead {
            n - 1
        } else {
            index + ahead as usize
        }
    };
    let same = match selected {
        Some(s) => str_eq(s.as_str(), values[next].as_str()),
        None => false,
    };
    if same {
        false
    } else {
        *selected = Some(values[next].clone());
        true
    }
}

/// Keeps a selection that is among the values, else selects the first (none when
/// there are no values).
pub fn normalise_value(selected: &mut Option<String>, values: &Vec<String>)
    ensures
        if opt_text(*old(selected)) is Some && crate::board::strs(values@).contains(opt_text(*old(selected))->0) {
            *final(selected) == *old(selected)
        } else if values@.len() > 0 {
            opt_text(*final(selected)) == Some(values@[0]@)
        } else {
            *final(selected) is None
        },
{
    let keep = match position_of(values, selected) {
        Some(_) => true,
        None => false,
    };
    if !keep {
        *selected = if values.len() > 0 {
            Some(values[0].clone())
        } else {
            None
        };
    }
}

/// The text before the last `/` of a path, or `.` when it has none.
pub open spec fn parent_of(path: Seq<char>) -> Seq<char> {
    if exists|k: int| 0 <= k < path.len() && path[k] == '/' {
        path.take(choose|k: int| 0 <= k < path.len() && path[k] == '/' && forall|j: int| k < j < path.len() ==> path[j] != '/')
    } else {
        "."@
    }
}

/// The directory part of a path, or `.` when it has none.
pub fn parent_directory(path: &str) -> (r: String)
    ensures
        r@ == parent_of(path@),
{
    let cs = crate::text::chars_of(path);
    let mut k = cs.len();
    while k > 0
        invariant
            cs@ == path@,
            k <= cs@.len(),
            forall|j: int| k <= j < cs@.len() ==> cs@[j] != '/',
        decreases k,
    {
        if cs[k - 1] == '/' {
            proof {
                let w = (k - 1) as int;
                assert(0 <= w < path@.len() && path@[w] == '/');
                let c = choose|c: int| 0 <= c < path@.len() && path@[c] == '/' && forall|j: int| c < j < path@.len() ==> path@[j] != '/';
                assert(path@[w] == '/' && forall|j: int| w < j < path@.len() ==> path@[j] != '/');
                if c < w {
                    assert(path@[w] != '/');
                }
                if c > w {
                    assert(path@[c] != '/');
                }
            }
            let head = crate::text::copy_range(cs.as_slice(), 0, k - 1);
            return crate::text::string_of(head.as_slice());
        }
        k = k - 1;
    }
    proof {
        reveal_strlit(".");
        assert forall|c: int| !(0 <= c < path@.len() && path@[c] == '/') by {
            if 0 <= c < path@.len() {
                assert(cs@[c] != '/');
            }
        }
    }
    ".".to_owned()
}

} // verus!
