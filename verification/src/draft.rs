//! Writable records as a whole: reading, checking and canonical rendering of
//! tickets, epics and boards.

use crate::board::{self, BoardColumn, BoardDraft, board_fault, board_fault_code, board_fault_message, board_of_text, board_text, opt_strs};
use crate::diagnostic::{Diagnostic, diag};
use crate::record::{DraftView, Kind, RecordDraft, draft_view_kind};

use crate::verdict::{Verdict, describes, refuse, refuse_field, refused_with};
use crate::work_item::{self, WorkItemDraft, texts, work_item_fault, work_item_text, work_item_verdict};
use crate::frontmatter::{FrontMatterView, front_matter};
use crate::markdown::headings_of;
use vstd::prelude::*;
use vstd::string::StrSliceExecFns;

verus! {

/// A refusal carried over to another value type; an acceptance mapped by `f`.
pub open spec fn recast<A, B>(v: Verdict<A>, f: spec_fn(A) -> B) -> Verdict<B> {
    match v {
        Verdict::Accept(a) => Verdict::Accept(f(a)),
        Verdict::Refuse { code, message, field, section } => Verdict::Refuse { code, message, field, section },
    }
}

/// What reading a writable record of `kind` from `text` yields.
pub open spec fn draft_verdict(path: Seq<char>, kind: Kind, text: Seq<char>) -> Verdict<DraftView> {
    if !kind.writable() {
        refuse("read_only_kind"@, "only ticket, epic, and board records are writable"@)
    } else if kind is Board {
        recast(board_of_text(text), |b| DraftView::Board(b))
    } else if kind is Ticket {
        recast(work_item_verdict(path, kind, text), |w| DraftView::Ticket(w))
    } else {
        recast(work_item_verdict(path, kind, text), |w| DraftView::Epic(w))
    }
}

/// The checks of a draft: a work item's for its kind, or a board's.
pub open spec fn draft_check(path: Seq<char>, d: DraftView) -> Verdict<()> {
    match d {
        DraftView::Ticket(w) => match work_item_fault(path, Kind::Ticket, w) {
            Some(f) => refuse_field(f.0, f.1, f.2),
            None => Verdict::Accept(()),
        },
        DraftView::Epic(w) => match work_item_fault(path, Kind::Epic, w) {
            Some(f) => refuse_field(f.0, f.1, f.2),
            None => Verdict::Accept(()),
        },
        DraftView::Board(b) => match board_fault(b) {
            Some(f) => refuse(board_fault_code(f), board_fault_message(f)),
            None => Verdict::Accept(()),
        },
    }
}

/// The canonical text of a draft, when it can be written.
pub open spec fn draft_text(d: DraftView) -> Option<Seq<char>> {
    match d {
        DraftView::Ticket(w) => work_item_text(w),
        DraftView::Epic(w) => work_item_text(w),
        DraftView::Board(b) => Some(board_text(b)),
    }
}

/// What rendering a draft yields: its canonical text, when the draft passes its
/// checks and the text reads back as the same draft.
pub open spec fn render_verdict(path: Seq<char>, d: DraftView) -> Verdict<Seq<char>> {
    match draft_check(path, d) {
        Verdict::Refuse { code, message, field, section } => Verdict::Refuse { code, message, field, section },
        Verdict::Accept(_) => match draft_text(d) {
            None => refuse("render_invalid"@, "rendered record did not validate"@),
            Some(t) => match draft_verdict(path, draft_view_kind(d), t) {
                Verdict::Refuse { code, message, field, section } => Verdict::Refuse {
                    code,
                    message,
                    field,
                    section,
                },
                Verdict::Accept(p) => if p == d {
                    Verdict::Accept(t)
                } else {
                    refuse("render_round_trip"@, "rendered record did not round-trip"@)
                },
            },
        },
    }
}

/// Reads a ticket, epic or board of `kind` from its text; other kinds are read-only.
pub fn parse_draft(path: &str, kind: Kind, text: &str) -> (r: Result<RecordDraft, Vec<Diagnostic>>)
    ensures
        match r {
            Ok(d) => draft_verdict(path@, kind, text@) == Verdict::Accept(d@),
            Err(ds) => refused_with(ds@, path@, draft_verdict(path@, kind, text@)),
        },
{
    if !kind.is_writable() {
        return Err(vec![diag(path, "read_only_kind", "only ticket, epic, and board records are writable")]);
    }
    match kind {
        Kind::Board => board::parse(path, text),
        _ => work_item::parse(path, kind, text),
    }
}

/// A draft read from a record is of the kind asked for and passes the checks of its
/// kind; a ticket or epic is named by its file and titled by its identity.
pub proof fn law_read_drafts_pass_their_checks(path: Seq<char>, kind: Kind, text: Seq<char>, d: DraftView)
    requires
        draft_verdict(path, kind, text) == Verdict::Accept(d),
    ensures
        draft_view_kind(d) == kind,
        draft_check(path, d) == Verdict::<()>::Accept(()),
        match d {
            DraftView::Ticket(w) | DraftView::Epic(w) => {
                &&& crate::text::strip_suffix_seq(crate::text::last_segment_seq(path, '/'), ".md"@) == Some(w.id)
                &&& front_matter(text) matches FrontMatterView::Block(_, body) && headings_of(body).0[0] == w.id
            },
            DraftView::Board(_) => true,
        },
{
}

/// Checks a draft: a ticket or epic with its kind's rules, a board with the board rules.
pub fn validate_draft(path: &str, draft: &RecordDraft) -> (r: Result<(), Diagnostic>)
    ensures
        match r {
            Ok(()) => draft_check(path@, draft@) == Verdict::Accept(()),
            Err(d) => describes(d, path@, draft_check(path@, draft@)),
        },
{
    match draft {
        RecordDraft::Ticket(item) => work_item::validate(path, Kind::Ticket, item),
        RecordDraft::Epic(item) => work_item::validate(path, Kind::Epic, item),
        RecordDraft::Board(b) => board::validate(path, b),
    }
}

fn same_strings(a: &Vec<String>, b: &Vec<String>) -> (r: bool)
    ensures
        r == (texts(a@) == texts(b@)),
{
    if a.len() != b.len() {
        assert(texts(a@).len() != texts(b@).len());
        return false;
    }
    let mut i: usize = 0;
    while i < a.len()
        invariant
            a@.len() == b@.len(),
            i <= a@.len(),
            forall|j: int| 0 <= j < i ==> a@[j]@ == b@[j]@,
        decreases a.len() - i,
    {
        if a[i] != b[i] {
            assert(texts(a@)[i as int] != texts(b@)[i as int]);
            return false;
        }
        i = i + 1;
    }
    assert(texts(a@) =~= texts(b@));
    true
}

fn same_opt_strings(a: &Option<Vec<String>>, b: &Option<Vec<String>>) -> (r: bool)
    ensures
        r == (opt_strs(*a) == opt_strs(*b)),
{
    match (a, b) {
        (Some(x), Some(y)) => same_strings(x, y),
        (None, None) => true,
        _ => false,
    }
}

fn same_work_item(a: &WorkItemDraft, b: &WorkItemDraft) -> (r: bool)
    ensures
        r == (a@ == b@),
{
    let rank_same = match (a.rank, b.rank) {
        (Some(x), Some(y)) => x == y,
        (None, None) => true,
        _ => false,
    };
    let r = a.id == b.id && a.title == b.title && a.project == b.project && a.investigation == b.investigation
        && a.status == b.status && a.reported_by_role == b.reported_by_role && a.reported_by_agent
        == b.reported_by_agent && a.source_commit == b.source_commit && a.created_at == b.created_at
        && a.updated_at == b.updated_at && a.confidence == b.confidence && same_strings(
        &a.decision_refs,
        &b.decision_refs,
    ) && same_strings(&a.related_tickets, &b.related_tickets) && same_strings(&a.supersedes, &b.supersedes)
        && same_strings(&a.superseded_by, &b.superseded_by) && rank_same && a.requirement_and_evidence
        == b.requirement_and_evidence && a.impact == b.impact && a.resolution_boundary == b.resolution_boundary
        && a.acceptance_criteria == b.acceptance_criteria && a.verification == b.verification
        && a.relationships_and_duplicate_analysis == b.relationships_and_duplicate_analysis
        && a.review_and_disposition_history == b.review_and_disposition_history;
    proof {
        if r {
            assert(a@.sections =~= b@.sections);
        }
        if a@ == b@ {
            assert(a@.sections[0] == b@.sections[0]);
            assert(a@.sections[1] == b@.sections[1]);
            assert(a@.sections[2] == b@.sections[2]);
            assert(a@.sections[3] == b@.sections[3]);
            assert(a@.sections[4] == b@.sections[4]);
            assert(a@.sections[5] == b@.sections[5]);
            assert(a@.sections[6] == b@.sections[6]);
        }
    }
    r
}

fn same_board(a: &BoardDraft, b: &BoardDraft) -> (r: bool)
    ensures
        r == (a@ == b@),
{
    if !(a.id == b.id && a.title == b.title && same_opt_strings(&a.filter_statuses, &b.filter_statuses)
        && same_opt_strings(&a.filter_kinds, &b.filter_kinds)) {
        return false;
    }
    if a.columns.len() != b.columns.len() {
        assert(a@.columns.len() != b@.columns.len());
        return false;
    }
    let mut i: usize = 0;
    while i < a.columns.len()
        invariant
            a.columns@.len() == b.columns@.len(),
            i <= a.columns@.len(),
            forall|j: int| 0 <= j < i ==> a.columns@[j]@ == b.columns@[j]@,
        decreases a.columns.len() - i,
    {
        let x: &BoardColumn = &a.columns[i];
        let y: &BoardColumn = &b.columns[i];
        if !(x.name == y.name && same_strings(&x.statuses, &y.statuses)) {
            assert(a@.columns[i as int] != b@.columns[i as int]);
            return false;
        }
        i = i + 1;
    }
    assert(a@.columns =~= b@.columns);
    true
}

fn same_draft(a: &RecordDraft, b: &RecordDraft) -> (r: bool)
    ensures
        r == (a@ == b@),
{
    match (a, b) {
        (RecordDraft::Ticket(x), RecordDraft::Ticket(y)) => same_work_item(x, y),
        (RecordDraft::Epic(x), RecordDraft::Epic(y)) => same_work_item(x, y),
        (RecordDraft::Board(x), RecordDraft::Board(y)) => same_board(x, y),
        _ => false,
    }
}

/// `r` is what rendering `draft` at `path` gives: the UTF-8 bytes of its canonical
/// text, or the diagnostic that refuses it.
pub open spec fn render_outcome(path: Seq<char>, draft: DraftView, r: Result<Vec<u8>, Diagnostic>) -> bool {
    match r {
        Ok(bytes) => render_verdict(path, draft) is Accept && bytes@ == vstd::utf8::encode_utf8(
            render_verdict(path, draft)->Accept_0,
        ),
        Err(d) => describes(d, path, render_verdict(path, draft)),
    }
}

/// Renders a draft to its canonical bytes, after checking it and reading the
/// text back as the same draft.
pub fn render_draft(path: &str, draft: &RecordDraft) -> (r: Result<Vec<u8>, Diagnostic>)
    ensures
        render_outcome(path@, draft@, r),
{
    match validate_draft(path, draft) {
        Ok(()) => {}
        Err(d) => {
            return Err(d);
        }
    }
    let rendered = match draft {
        RecordDraft::Ticket(item) => work_item::render(item),
        RecordDraft::Epic(item) => work_item::render(item),
        RecordDraft::Board(b) => Some(board::render(b)),
    };
    let rendered = match rendered {
        Some(t) => t,
        None => {
            return Err(diag(path, "render_invalid", "rendered record did not validate"));
        }
    };
    let parsed = match parse_draft(path, draft.kind(), rendered.as_str()) {
        Ok(p) => p,
        Err(ds) => {
            let mut ds = ds;
            return Err(ds.remove(0));
        }
    };
    if !same_draft(&parsed, draft) {
        return Err(diag(path, "render_round_trip", "rendered record did not round-trip"));
    }
    Ok(rendered.as_str().as_bytes_vec())
}

/// A copy of some bytes.
pub fn copy_bytes(v: &Vec<u8>) -> (r: Vec<u8>)
    ensures
        r@ == v@,
{
    let mut out: Vec<u8> = Vec::new();
    let mut i: usize = 0;
    while i < v.len()
        invariant
            i <= v@.len(),
            out@ == v@.take(i as int),
        decreases v.len() - i,
    {
        out.push(v[i]);
        i = i + 1;
        assert(out@ =~= v@.take(i as int));
    }
    assert(v@.take(i as int) =~= v@);
    out
}

/// A draft that renders reads back as itself: its canonical text, read as a record of
/// the draft's kind, is the same draft, and the draft passes its checks.
pub proof fn law_render_round_trip(path: Seq<char>, d: DraftView)
    requires
        render_verdict(path, d) is Accept,
    ensures
        draft_verdict(path, draft_view_kind(d), render_verdict(path, d)->Accept_0) == Verdict::Accept(d),
        draft_check(path, d) == Verdict::Accept(()),
{
}

} // verus!
