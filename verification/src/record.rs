//! Record kinds, classifications, summaries, drafts and snapshots.

use crate::board::{BoardDraft, BoardView, strs};
use crate::strategy::{BindingView, StrategyBinding};
use crate::work_item::{WorkItemDraft, WorkItemView};
use vstd::prelude::*;

verus! {

/// How the scanner classified one file.
#[derive(Clone, Copy, Debug, PartialEq, Eq, Structural)]
pub enum Classification {
    Governed,
    Ungoverned,
    Invalid,
    Raw,
}

/// The record kind that a governed path holds.
#[derive(Clone, Copy, Debug, PartialEq, Eq, Structural)]
pub enum Kind {
    Activation,
    ProjectMap,
    Request,
    Decision,
    Evidence,
    Review,
    Plan,
    Closeout,
    Strategy,
    StrategyBinding,
    Ticket,
    Epic,
    Board,
    Progress,
}

impl Kind {
    /// Tickets, epics and boards are the writable kinds.
    pub open spec fn writable(self) -> bool {
        self is Ticket || self is Epic || self is Board
    }

    /// Whether records of this kind may be written.
    pub fn is_writable(self) -> (b: bool)
        ensures
            b == self.writable(),
    {
        match self {
            Kind::Ticket | Kind::Epic | Kind::Board => true,
            _ => false,
        }
    }
}

/// What the scanner learned of a governed record.
#[derive(Debug, PartialEq, Eq)]
pub enum RecordSummary {
    Activation { projects: Vec<String> },
    ProjectMap { projects: Vec<String> },
    Markdown { title: String },
    Strategy { strategy_id: String, phase: String, adapter: String },
    StrategyBinding { binding: StrategyBinding },
    WorkItem { id: String, title: String, status: String, rank: Option<u64> },
    Board { id: String, title: String, columns: Vec<String> },
}

/// The plain content of a summary.
pub enum SummaryView {
    Activation(Seq<Seq<char>>),
    ProjectMap(Seq<Seq<char>>),
    Markdown(Seq<char>),
    Strategy { strategy_id: Seq<char>, phase: Seq<char>, adapter: Seq<char> },
    StrategyBinding(BindingView),
    WorkItem { id: Seq<char>, title: Seq<char>, status: Seq<char>, rank: Option<u64> },
    Board { id: Seq<char>, title: Seq<char>, columns: Seq<Seq<char>> },
}

impl View for RecordSummary {
    type V = SummaryView;

    open spec fn view(&self) -> SummaryView {
        match self {
            RecordSummary::Activation { projects } => SummaryView::Activation(strs(projects@)),
            RecordSummary::ProjectMap { projects } => SummaryView::ProjectMap(strs(projects@)),
            RecordSummary::Markdown { title } => SummaryView::Markdown(title@),
            RecordSummary::Strategy { strategy_id, phase, adapter } => SummaryView::Strategy {
                strategy_id: strategy_id@,
                phase: phase@,
                adapter: adapter@,
            },
            RecordSummary::StrategyBinding { binding } => SummaryView::StrategyBinding(binding@),
            RecordSummary::WorkItem { id, title, status, rank } => SummaryView::WorkItem {
                id: id@,
                title: title@,
                status: status@,
                rank: *rank,
            },
            RecordSummary::Board { id, title, columns } => SummaryView::Board {
                id: id@,
                title: title@,
                columns: strs(columns@),
            },
        }
    }
}

/// The view of an optional summary.
pub open spec fn opt_summary(s: Option<RecordSummary>) -> Option<SummaryView> {
    match s {
        Some(v) => Some(v@),
        None => None,
    }
}

/// A complete writable record.
#[derive(Debug, PartialEq, Eq)]
pub enum RecordDraft {
    Ticket(WorkItemDraft),
    Epic(WorkItemDraft),
    Board(BoardDraft),
}

/// The plain content of a draft.
pub enum DraftView {
    Ticket(WorkItemView),
    Epic(WorkItemView),
    Board(BoardView),
}

impl View for RecordDraft {
    type V = DraftView;

    open spec fn view(&self) -> DraftView {
        match self {
            RecordDraft::Ticket(w) => DraftView::Ticket(w@),
            RecordDraft::Epic(w) => DraftView::Epic(w@),
            RecordDraft::Board(b) => DraftView::Board(b@),
        }
    }
}

/// The kind of record a draft view holds.
pub open spec fn draft_view_kind(d: DraftView) -> Kind {
    match d {
        DraftView::Ticket(_) => Kind::Ticket,
        DraftView::Epic(_) => Kind::Epic,
        DraftView::Board(_) => Kind::Board,
    }
}

/// The kind of record a draft holds.
pub open spec fn draft_kind(d: RecordDraft) -> Kind {
    match d {
        RecordDraft::Ticket(_) => Kind::Ticket,
        RecordDraft::Epic(_) => Kind::Epic,
        RecordDraft::Board(_) => Kind::Board,
    }
}

/// The identity a draft declares.
pub open spec fn draft_identity(d: RecordDraft) -> Seq<char> {
    match d {
        RecordDraft::Ticket(w) => w.id@,
        RecordDraft::Epic(w) => w.id@,
        RecordDraft::Board(b) => b.id@,
    }
}

impl RecordDraft {
    /// The kind of record this draft holds.
    pub fn kind(&self) -> (k: Kind)
        ensures
            k == draft_kind(*self),
    {
        match self {
            RecordDraft::Ticket(_) => Kind::Ticket,
            RecordDraft::Epic(_) => Kind::Epic,
            RecordDraft::Board(_) => Kind::Board,
        }
    }

    /// The identity this draft declares.
    pub fn identity(&self) -> (id: &str)
        ensures
            id@ == draft_identity(*self),
    {
        match self {
            RecordDraft::Ticket(d) => d.id.as_str(),
            RecordDraft::Epic(d) => d.id.as_str(),
            RecordDraft::Board(d) => d.id.as_str(),
        }
    }
}

/// A content revision: `sha256:` and a lower-case hex digest.
#[derive(Debug, PartialEq, Eq)]
pub struct Revision(pub String);

impl Clone for Revision {
    fn clone(&self) -> (r: Self)
        ensures
            r == *self,
    {
        Revision(self.0.clone())
    }
}

/// One scanned file.
#[derive(Debug, PartialEq, Eq)]
pub struct EntrySnapshot {
    pub path: String,
    pub classification: Classification,
    pub kind: Option<Kind>,
    pub identity: Option<String>,
    pub content_revision: Revision,
    pub summary: Option<RecordSummary>,
    pub original_bytes: Vec<u8>,
}

/// The plain content of a scanned entry.
pub struct EntryView {
    pub path: Seq<char>,
    pub classification: Classification,
    pub kind: Option<Kind>,
    pub identity: Option<Seq<char>>,
    pub content_revision: Seq<char>,
    pub summary: Option<SummaryView>,
    pub original_bytes: Seq<u8>,
}

impl View for EntrySnapshot {
    type V = EntryView;

    open spec fn view(&self) -> EntryView {
        EntryView {
            path: self.path@,
            classification: self.classification,
            kind: self.kind,
            identity: match self.identity {
                Some(s) => Some(s@),
                None => None,
            },
            content_revision: self.content_revision.0@,
            summary: opt_summary(self.summary),
            original_bytes: self.original_bytes@,
        }
    }
}

/// The views of entries.
pub open spec fn entry_views(es: Seq<EntrySnapshot>) -> Seq<EntryView> {
    es.map_values(|e: EntrySnapshot| e@)
}

/// Every scanned file and the revision of the whole root.
#[derive(Debug, PartialEq, Eq)]
pub struct CasefileSnapshot {
    pub revision: Revision,
    pub entries: Vec<EntrySnapshot>,
}

} // verus!
