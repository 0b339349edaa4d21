//! Progress logs: transitions of tickets between progress statuses, and notes.

use crate::diagnostic::{Diagnostic, diag, diagnostic_is};
use crate::text::{is_blank, is_blank_str, push_str, str_eq};
use crate::tree::{Tree, TomlOut, TomlOutView, get, lookup, parse_toml, toml_document, toml_text, toml_value_text};
use crate::verdict::{Verdict, refuse, refuse_field, refused_with};
use crate::work_item::{is_rfc3339, rfc3339_valid};
use vstd::prelude::*;

verus! {

/// Where a ticket stands in its work.
#[derive(Clone, Copy, Debug, PartialEq, Eq, Structural, PartialOrd, Ord, Hash)]
pub enum ProgressStatus {
    Unknown,
    InProgress,
    InReview,
    Verifying,
    Blocked,
    Complete,
}

/// What a progress note records.
#[derive(Clone, Copy, Debug, PartialEq, Eq, Structural, PartialOrd, Ord, Hash)]
pub enum ProgressNoteCategory {
    Deviation,
    Quirk,
}

/// The name of a progress status.
pub open spec fn status_name(s: ProgressStatus) -> Seq<char> {
    match s {
        ProgressStatus::Unknown => "unknown"@,
        ProgressStatus::InProgress => "in_progress"@,
        ProgressStatus::InReview => "in_review"@,
        ProgressStatus::Verifying => "verifying"@,
        ProgressStatus::Blocked => "blocked"@,
        ProgressStatus::Complete => "complete"@,
    }
}

/// The name of a note category.
pub open spec fn category_name(c: ProgressNoteCategory) -> Seq<char> {
    match c {
        ProgressNoteCategory::Deviation => "deviation"@,
        ProgressNoteCategory::Quirk => "quirk"@,
    }
}

impl ProgressStatus {
    /// The status's name in records.
    pub fn as_str(self) -> (r: &'static str)
        ensures
            r@ == status_name(self),
    {
        match self {
            ProgressStatus::Unknown => "unknown",
            ProgressStatus::InProgress => "in_progress",
            ProgressStatus::InReview => "in_review",
            ProgressStatus::Verifying => "verifying",
            ProgressStatus::Blocked => "blocked",
            ProgressStatus::Complete => "complete",
        }
    }
}

impl ProgressNoteCategory {
    /// The category's name in records.
    pub fn as_str(self) -> (r: &'static str)
        ensures
            r@ == category_name(self),
    {
        match self {
            ProgressNoteCategory::Deviation => "deviation",
            ProgressNoteCategory::Quirk => "quirk",
        }
    }
}

/// The status a name stands for.
pub open spec fn status_named(name: Seq<char>) -> Option<ProgressStatus> {
    if name == "unknown"@ {
        Some(ProgressStatus::Unknown)
    } else if name == "in_progress"@ {
        Some(ProgressStatus::InProgress)
    } else if name == "in_review"@ {
        Some(ProgressStatus::InReview)
    } else if name == "verifying"@ {
        Some(ProgressStatus::Verifying)
    } else if name == "blocked"@ {
        Some(ProgressStatus::Blocked)
    } else if name == "complete"@ {
        Some(ProgressStatus::Complete)
    } else {
        None
    }
}

/// The category a name stands for.
pub open spec fn category_named(name: Seq<char>) -> Option<ProgressNoteCategory> {
    if name == "deviation"@ {
        Some(ProgressNoteCategory::Deviation)
    } else if name == "quirk"@ {
        Some(ProgressNoteCategory::Quirk)
    } else {
        None
    }
}

/// The status a name stands for.
pub fn parse_status(name: &str) -> (r: Option<ProgressStatus>)
    ensures
        r == status_named(name@),
{
    if str_eq(name, "unknown") {
        Some(ProgressStatus::Unknown)
    } else if str_eq(name, "in_progress") {
        Some(ProgressStatus::InProgress)
    } else if str_eq(name, "in_review") {
        Some(ProgressStatus::InReview)
    } else if str_eq(name, "verifying") {
        Some(ProgressStatus::Verifying)
    } else if str_eq(name, "blocked") {
        Some(ProgressStatus::Blocked)
    } else if str_eq(name, "complete") {
        Some(ProgressStatus::Complete)
    } else {
        None
    }
}

/// The category a name stands for.
pub fn parse_category(name: &str) -> (r: Option<ProgressNoteCategory>)
    ensures
        r == category_named(name@),
{
    if str_eq(name, "deviation") {
        Some(ProgressNoteCategory::Deviation)
    } else if str_eq(name, "quirk") {
        Some(ProgressNoteCategory::Quirk)
    } else {
        None
    }
}

/// One operation of a progress log.
#[derive(Debug, PartialEq, Eq)]
pub enum ProgressEntry {
    Transition {
        id: String,
        recorded_at: String,
        recorded_by: String,
        ticket_id: String,
        from: ProgressStatus,
        to: ProgressStatus,
    },
    Note {
        id: String,
        recorded_at: String,
        recorded_by: String,
        ticket_id: String,
        category: ProgressNoteCategory,
        message: String,
    },
}

/// The plain content of a progress entry.
pub enum EntryView {
    Transition {
        id: Seq<char>,
        recorded_at: Seq<char>,
        recorded_by: Seq<char>,
        ticket_id: Seq<char>,
        from: ProgressStatus,
        to: ProgressStatus,
    },
    Note {
        id: Seq<char>,
        recorded_at: Seq<char>,
        recorded_by: Seq<char>,
        ticket_id: Seq<char>,
        category: ProgressNoteCategory,
        message: Seq<char>,
    },
}

impl View for ProgressEntry {
    type V = EntryView;

    open spec fn view(&self) -> EntryView {
        match self {
            ProgressEntry::Transition { id, recorded_at, recorded_by, ticket_id, from, to } => EntryView::Transition {
                id: id@,
                recorded_at: recorded_at@,
                recorded_by: recorded_by@,
                ticket_id: ticket_id@,
                from: *from,
                to: *to,
            },
            ProgressEntry::Note { id, recorded_at, recorded_by, ticket_id, category, message } => EntryView::Note {
                id: id@,
                recorded_at: recorded_at@,
                recorded_by: recorded_by@,
                ticket_id: ticket_id@,
                category: *category,
                message: message@,
            },
        }
    }
}

impl EntryView {
    /// The operation identity.
    pub open spec fn id(self) -> Seq<char> {
        match self {
            EntryView::Transition { id, .. } => id,
            EntryView::Note { id, .. } => id,
        }
    }

    /// The ticket the entry is about.
    pub open spec fn ticket_id(self) -> Seq<char> {
        match self {
            EntryView::Transition { ticket_id, .. } => ticket_id,
            EntryView::Note { ticket_id, .. } => ticket_id,
        }
    }

    /// When the entry was recorded.
    pub open spec fn recorded_at(self) -> Seq<char> {
        match self {
            EntryView::Transition { recorded_at, .. } => recorded_at,
            EntryView::Note { recorded_at, .. } => recorded_at,
        }
    }

    /// Who recorded the entry.
    pub open spec fn recorded_by(self) -> Seq<char> {
        match self {
            EntryView::Transition { recorded_by, .. } => recorded_by,
            EntryView::Note { recorded_by, .. } => recorded_by,
        }
    }
}

impl ProgressEntry {
    /// The operation identity.
    pub fn id(&self) -> (r: &str)
        ensures
            r@ == self@.id(),
    {
        match self {
            ProgressEntry::Transition { id, .. } => id.as_str(),
            ProgressEntry::Note { id, .. } => id.as_str(),
        }
    }

    /// The ticket the entry is about.
    pub fn ticket_id(&self) -> (r: &str)
        ensures
            r@ == self@.ticket_id(),
    {
        match self {
            ProgressEntry::Transition { ticket_id, .. } => ticket_id.as_str(),
            ProgressEntry::Note { ticket_id, .. } => ticket_id.as_str(),
        }
    }
}

/// A ticket-progress log: its entries in the order they were recorded.
#[derive(Debug, PartialEq, Eq)]
pub struct ProgressLog {
    pub entries: Vec<ProgressEntry>,
}

/// The views of the entries.
pub open spec fn entry_views(entries: Seq<ProgressEntry>) -> Seq<EntryView> {
    entries.map_values(|e: ProgressEntry| e@)
}

impl View for ProgressLog {
    type V = Seq<EntryView>;

    open spec fn view(&self) -> Seq<EntryView> {
        entry_views(self.entries@)
    }
}

/// A ticket's progress status after the given entries: the target of its last
/// transition, or `Unknown` when it has none.
pub open spec fn current_status(entries: Seq<EntryView>, ticket: Seq<char>) -> ProgressStatus
    decreases entries.len(),
{
    if entries.len() == 0 {
        ProgressStatus::Unknown
    } else {
        match entries.last() {
            EntryView::Transition { ticket_id, to, .. } if ticket_id == ticket => to,
            _ => current_status(entries.drop_last(), ticket),
        }
    }
}

/// Some earlier entry has this operation identity.
pub open spec fn id_taken(entries: Seq<EntryView>, id: Seq<char>) -> bool {
    exists|i: int| 0 <= i < entries.len() && #[trigger] entries[i].id() == id
}

/// What is wrong with entry `e` after the entries `prior`, as code and message.
pub open spec fn entry_fault(prior: Seq<EntryView>, e: EntryView) -> Option<(Seq<char>, Seq<char>)> {
    if is_blank(e.id()) || id_taken(prior, e.id()) {
        Some(("invalid_progress_operation_id"@, "operation IDs must be non-empty and unique"@))
    } else if !rfc3339_valid(e.recorded_at()) {
        Some(("invalid_progress_timestamp"@, "recorded_at must be RFC 3339"@))
    } else if is_blank(e.recorded_by()) || is_blank(e.ticket_id()) {
        Some(("invalid_progress_entry"@, "recorded_by and ticket_id must be non-empty"@))
    } else {
        match e {
            EntryView::Transition { ticket_id, from, to, .. } => if from != current_status(prior, ticket_id) {
                Some(("stale_progress_from"@, "transition from must match the ticket's current progress status"@))
            } else if from == to {
                Some(("no_op_progress_transition"@, "transition from and to must differ"@))
            } else {
                None
            },
            EntryView::Note { message, .. } => if is_blank(message) {
                Some(("invalid_progress_entry"@, "note message must be non-empty"@))
            } else {
                None
            },
        }
    }
}

/// The first fault of a log, in entry order.
pub open spec fn log_fault(entries: Seq<EntryView>) -> Option<(Seq<char>, Seq<char>)>
    decreases entries.len(),
{
    if entries.len() == 0 {
        None
    } else if log_fault(entries.drop_last()) is Some {
        log_fault(entries.drop_last())
    } else {
        entry_fault(entries.drop_last(), entries.last())
    }
}

proof fn lemma_log_fault_prefix(entries: Seq<EntryView>, n: int)
    requires
        0 <= n <= entries.len(),
        log_fault(entries.take(n)) is Some,
    ensures
        log_fault(entries) == log_fault(entries.take(n)),
    decreases entries.len() - n,
{
    if n == entries.len() {
        assert(entries.take(n) =~= entries);
    } else {
        assert(entries.drop_last().take(n) =~= entries.take(n));
        lemma_log_fault_prefix(entries.drop_last(), n);
    }
}

fn status_before(entries: &Vec<ProgressEntry>, n: usize, ticket: &str) -> (r: ProgressStatus)
    requires
        n <= entries@.len(),
    ensures
        r == current_status(entry_views(entries@).take(n as int), ticket@),
{
    let mut k: usize = n;
    while k > 0
        invariant
            k <= n <= entries@.len(),
            current_status(entry_views(entries@).take(n as int), ticket@) == current_status(
                entry_views(entries@).take(k as int),
                ticket@,
            ),
        decreases k,
    {
        let ghost pre = entry_views(entries@).take(k as int);
        proof {
            assert(pre.drop_last() =~= entry_views(entries@).take(k - 1));
            assert(pre.last() == entries@[k - 1]@);
        }
        match &entries[k - 1] {
            ProgressEntry::Transition { ticket_id, to, .. } => {
                if str_eq(ticket_id.as_str(), ticket) {
                    return *to;
                }
            }
            ProgressEntry::Note { .. } => {}
        }
        k = k - 1;
    }
    ProgressStatus::Unknown
}

fn id_used(entries: &Vec<ProgressEntry>, n: usize, id: &str) -> (r: bool)
    requires
        n <= entries@.len(),
    ensures
        r == id_taken(entry_views(entries@).take(n as int), id@),
{
    let ghost pre = entry_views(entries@).take(n as int);
    let mut k: usize = 0;
    while k < n
        invariant
            k <= n <= entries@.len(),
            pre == entry_views(entries@).take(n as int),
            forall|j: int| 0 <= j < k ==> #[trigger] pre[j].id() != id@,
        decreases n - k,
    {
        assert(pre[k as int] == entries@[k as int]@);
        if str_eq(entries[k].id(), id) {
            return true;
        }
        k = k + 1;
    }
    false
}

fn entry_check(path: &str, entries: &Vec<ProgressEntry>, n: usize) -> (r: Result<(), Diagnostic>)
    requires
        n < entries@.len(),
    ensures
        match entry_fault(entry_views(entries@).take(n as int), entries@[n as int]@) {
            None => r is Ok,
            Some(f) => r matches Err(d) && diagnostic_is(d, path@, f.0, f.1),
        },
{
    let entry = &entries[n];
    let (id, recorded_at, recorded_by, ticket_id) = match entry {
        ProgressEntry::Transition { id, recorded_at, recorded_by, ticket_id, .. } => (id, recorded_at, recorded_by, ticket_id),
        ProgressEntry::Note { id, recorded_at, recorded_by, ticket_id, .. } => (id, recorded_at, recorded_by, ticket_id),
    };
    if is_blank_str(id.as_str()) || id_used(entries, n, id.as_str()) {
        return Err(diag(path, "invalid_progress_operation_id", "operation IDs must be non-empty and unique"));
    }
    if !is_rfc3339(recorded_at.as_str()) {
        return Err(diag(path, "invalid_progress_timestamp", "recorded_at must be RFC 3339"));
    }
    if is_blank_str(recorded_by.as_str()) || is_blank_str(ticket_id.as_str()) {
        return Err(diag(path, "invalid_progress_entry", "recorded_by and ticket_id must be non-empty"));
    }
    match entry {
        ProgressEntry::Transition { from, to, .. } => {
            let prior = status_before(entries, n, ticket_id.as_str());
            if *from != prior {
                return Err(diag(path, "stale_progress_from", "transition from must match the ticket's current progress status"));
            }
            if *from == *to {
                return Err(diag(path, "no_op_progress_transition", "transition from and to must differ"));
            }
        }
        ProgressEntry::Note { message, .. } => {
            if is_blank_str(message.as_str()) {
                return Err(diag(path, "invalid_progress_entry", "note message must be non-empty"));
            }
        }
    }
    Ok(())
}

/// Checks a progress log: unique non-empty operation identities, RFC 3339 times,
/// named recorders and tickets, non-empty notes, and transitions that start at the
/// ticket's current status and change it.
pub fn validate_progress_log(path: &str, log: &ProgressLog) -> (r: Result<(), Diagnostic>)
    ensures
        match r {
            Ok(()) => log_fault(log@) is None,
            Err(d) => log_fault(log@) is Some && ({
                let f = log_fault(log@)->0;
                diagnostic_is(d, path@, f.0, f.1)
            }),
        },
{
    let mut n: usize = 0;
    assert(log@.take(0) =~= Seq::<EntryView>::empty());
    while n < log.entries.len()
        invariant
            n <= log@.len(),
            log@ == entry_views(log.entries@),
            log_fault(log@.take(n as int)) is None,
        decreases log.entries.len() - n,
    {
        let ghost pre = log@.take(n + 1);
        proof {
            assert(pre.drop_last() =~= log@.take(n as int));
            assert(pre.last() == log.entries@[n as int]@);
        }
        match entry_check(path, &log.entries, n) {
            Ok(()) => {}
            Err(d) => {
                proof {
                    lemma_log_fault_prefix(log@, n + 1);
                }
                return Err(d);
            }
        }
        n = n + 1;
    }
    assert(log@.take(n as int) =~= log@);
    Ok(())
}

/// An entry as written, before its kind is checked.
pub struct WireEntry {
    pub id: Seq<char>,
    pub recorded_at: Seq<char>,
    pub recorded_by: Seq<char>,
    pub ticket_id: Seq<char>,
    pub kind: Seq<char>,
    pub from: Option<ProgressStatus>,
    pub to: Option<ProgressStatus>,
    pub category: Option<ProgressNoteCategory>,
    pub message: Option<Seq<char>>,
}

/// A key that a progress log's top level may hold.
pub open spec fn log_key(k: Seq<char>) -> bool {
    k == "schema_version"@ || k == "entries"@
}

/// A key that a progress entry may hold.
pub open spec fn entry_key(k: Seq<char>) -> bool {
    k == "id"@ || k == "recorded_at"@ || k == "recorded_by"@ || k == "ticket_id"@ || k == "kind"@ || k
        == "from"@ || k == "to"@ || k == "category"@ || k == "message"@
}

/// A key of the log's top level (`top`) or of an entry.
pub open spec fn known_key(top: bool, k: Seq<char>) -> bool {
    if top {
        log_key(k)
    } else {
        entry_key(k)
    }
}

/// The first key of the entries that is not known at that level.
pub open spec fn first_unknown_key(entries: Seq<(String, Tree)>, top: bool) -> Option<Seq<char>>
    decreases entries.len(),
{
    if entries.len() == 0 {
        None
    } else if !known_key(top, entries[0].0@) {
        Some(entries[0].0@)
    } else {
        first_unknown_key(entries.drop_first(), top)
    }
}

/// A required string value.
pub open spec fn req_string(v: Option<Tree>) -> Option<Seq<char>> {
    match v {
        Some(Tree::Str(s)) => Some(s@),
        _ => None,
    }
}

/// An optional string value; `None` when present but not a string.
pub open spec fn opt_string(v: Option<Tree>) -> Option<Option<Seq<char>>> {
    match v {
        None => Some(None),
        Some(Tree::Str(s)) => Some(Some(s@)),
        _ => None,
    }
}

/// An optional status value; `None` when present but not a status name.
pub open spec fn opt_status(v: Option<Tree>) -> Option<Option<ProgressStatus>> {
    match v {
        None => Some(None),
        Some(Tree::Str(s)) => match status_named(s@) {
            Some(x) => Some(Some(x)),
            None => None,
        },
        _ => None,
    }
}

/// An optional category value; `None` when present but not a category name.
pub open spec fn opt_category(v: Option<Tree>) -> Option<Option<ProgressNoteCategory>> {
    match v {
        None => Some(None),
        Some(Tree::Str(s)) => match category_named(s@) {
            Some(x) => Some(Some(x)),
            None => None,
        },
        _ => None,
    }
}

/// One written entry, or why it cannot be read.
pub open spec fn wire_entry(t: Tree) -> Result<WireEntry, Seq<char>> {
    match t {
        Tree::Table(entries) => if first_unknown_key(entries@, false) is Some {
            Err("unknown progress entry field: "@ + first_unknown_key(entries@, false)->0)
        } else if req_string(get(t, "id"@)) is None || req_string(get(t, "recorded_at"@)) is None
            || req_string(get(t, "recorded_by"@)) is None || req_string(get(t, "ticket_id"@)) is None
            || req_string(get(t, "kind"@)) is None {
            Err("progress entries need string id, recorded_at, recorded_by, ticket_id and kind"@)
        } else if opt_status(get(t, "from"@)) is None || opt_status(get(t, "to"@)) is None {
            Err("from and to must be progress statuses"@)
        } else if opt_category(get(t, "category"@)) is None {
            Err("category must be deviation or quirk"@)
        } else if opt_string(get(t, "message"@)) is None {
            Err("message must be a string"@)
        } else {
            Ok(WireEntry {
                id: req_string(get(t, "id"@))->0,
                recorded_at: req_string(get(t, "recorded_at"@))->0,
                recorded_by: req_string(get(t, "recorded_by"@))->0,
                ticket_id: req_string(get(t, "ticket_id"@))->0,
                kind: req_string(get(t, "kind"@))->0,
                from: opt_status(get(t, "from"@))->0,
                to: opt_status(get(t, "to"@))->0,
                category: opt_category(get(t, "category"@))->0,
                message: opt_string(get(t, "message"@))->0,
            })
        },
        _ => Err("progress entries must be tables"@),
    }
}

/// The written entries, or the first reason one cannot be read.
pub open spec fn wire_entries(items: Seq<Tree>) -> Result<Seq<WireEntry>, Seq<char>>
    decreases items.len(),
{
    if items.len() == 0 {
        Ok(Seq::empty())
    } else {
        match wire_entries(items.drop_last()) {
            Err(m) => Err(m),
            Ok(ws) => match wire_entry(items.last()) {
                Err(m) => Err(m),
                Ok(w) => Ok(ws.push(w)),
            },
        }
    }
}

/// The schema version and written entries of a log document, or why it cannot be read.
pub open spec fn log_wire(t: Tree) -> Result<(i128, Seq<WireEntry>), Seq<char>> {
    match t {
        Tree::Table(entries) => if first_unknown_key(entries@, true) is Some {
            Err("unknown progress log field: "@ + first_unknown_key(entries@, true)->0)
        } else {
            match get(t, "schema_version"@) {
                Some(Tree::Int(n)) => if i64::MIN <= n <= i64::MAX {
                    match get(t, "entries"@) {
                        None => Ok((n, Seq::empty())),
                        Some(Tree::Array(items)) => match wire_entries(items@) {
                            Err(m) => Err(m),
                            Ok(ws) => Ok((n, ws)),
                        },
                        _ => Err("entries must be an array of tables"@),
                    }
                } else {
                    Err("schema_version must be a 64-bit integer"@)
                },
                _ => Err("schema_version must be a 64-bit integer"@),
            }
        },
        _ => Err("progress log must be a table"@),
    }
}

/// The entry a written entry stands for, by its kind.
pub open spec fn entry_of(w: WireEntry) -> Result<EntryView, Seq<char>> {
    if w.kind == "transition"@ {
        if w.category is Some || w.message is Some {
            Err("transition entries may not contain note fields"@)
        } else if w.from is None || w.to is None {
            Err("transition entries need from and to statuses"@)
        } else {
            Ok(EntryView::Transition {
                id: w.id,
                recorded_at: w.recorded_at,
                recorded_by: w.recorded_by,
                ticket_id: w.ticket_id,
                from: w.from->0,
                to: w.to->0,
            })
        }
    } else if w.kind == "note"@ {
        if w.from is Some || w.to is Some {
            Err("note entries may not contain transition fields"@)
        } else if w.category is None || w.message is None {
            Err("note entries need category and message"@)
        } else {
            Ok(EntryView::Note {
                id: w.id,
                recorded_at: w.recorded_at,
                recorded_by: w.recorded_by,
                ticket_id: w.ticket_id,
                category: w.category->0,
                message: w.message->0,
            })
        }
    } else {
        Err("entry kind must be transition or note"@)
    }
}

/// The entries the written entries stand for, or the first reason one is malformed.
pub open spec fn entries_of(ws: Seq<WireEntry>) -> Result<Seq<EntryView>, Seq<char>>
    decreases ws.len(),
{
    if ws.len() == 0 {
        Ok(Seq::empty())
    } else {
        match entries_of(ws.drop_last()) {
            Err(m) => Err(m),
            Ok(es) => match entry_of(ws.last()) {
                Err(m) => Err(m),
                Ok(e) => Ok(es.push(e)),
            },
        }
    }
}

/// What a progress log's text holds, or the diagnostic that refuses it.
pub open spec fn progress_verdict(text: Seq<char>) -> Verdict<Seq<EntryView>> {
    match toml_document(text) {
        Err(e) => refuse("invalid_progress_log"@, e),
        Ok(t) => progress_tree_verdict(t),
    }
}

/// What a progress log's parsed TOML document holds, or the diagnostic that refuses it.
pub open spec fn progress_tree_verdict(t: Tree) -> Verdict<Seq<EntryView>> {
    match log_wire(t) {
        Err(m) => refuse("invalid_progress_log"@, m),
        Ok((schema, ws)) => if schema != 1 {
            refuse_field("invalid_schema_version"@, "schema_version must be 1"@, "schema_version"@)
        } else {
            entries_verdict(ws)
        },
    }
}

/// What the written entries of a log with the right schema yield.
pub open spec fn entries_verdict(ws: Seq<WireEntry>) -> Verdict<Seq<EntryView>> {
    match entries_of(ws) {
        Err(m) => refuse("invalid_progress_entry"@, m),
        Ok(es) => match log_fault(es) {
            Some(f) => refuse(f.0, f.1),
            None => Verdict::Accept(es),
        },
    }
}

fn is_known_key(top: bool, k: &str) -> (r: bool)
    ensures
        r == known_key(top, k@),
{
    if top {
        str_eq(k, "schema_version") || str_eq(k, "entries")
    } else {
        str_eq(k, "id") || str_eq(k, "recorded_at") || str_eq(k, "recorded_by") || str_eq(k, "ticket_id")
            || str_eq(k, "kind") || str_eq(k, "from") || str_eq(k, "to") || str_eq(k, "category") || str_eq(
            k,
            "message",
        )
    }
}

fn unknown_key(entries: &Vec<(String, Tree)>, top: bool) -> (r: Option<String>)
    ensures
        match r {
            Some(k) => first_unknown_key(entries@, top) == Some(k@),
            None => first_unknown_key(entries@, top) is None,
        },
{
    let mut i: usize = 0;
    assert(entries@.skip(0) =~= entries@);
    while i < entries.len()
        invariant
            i <= entries@.len(),
            first_unknown_key(entries@, top) == first_unknown_key(entries@.skip(i as int), top),
        decreases entries.len() - i,
    {
        assert(entries@.skip(i as int).drop_first() =~= entries@.skip(i + 1));
        assert(entries@.skip(i as int)[0] == entries@[i as int]);
        if !is_known_key(top, entries[i].0.as_str()) {
            return Some(entries[i].0.clone());
        }
        i = i + 1;
    }
    None
}

fn read_req_string(v: Option<&Tree>) -> (r: Option<String>)
    ensures
        match r {
            Some(s) => req_string(match v { Some(t) => Some(*t), None => None }) == Some(s@),
            None => req_string(match v { Some(t) => Some(*t), None => None }) is None,
        },
{
    match v {
        Some(Tree::Str(s)) => Some(s.clone()),
        _ => None,
    }
}

fn read_opt_string(v: Option<&Tree>) -> (r: Option<Option<String>>)
    ensures
        match r {
            Some(Some(s)) => opt_string(match v { Some(t) => Some(*t), None => None }) == Some(Some(s@)),
            Some(None) => opt_string(match v { Some(t) => Some(*t), None => None }) == Some(None::<Seq<char>>),
            None => opt_string(match v { Some(t) => Some(*t), None => None }) is None,
        },
{
    match v {
        None => Some(None),
        Some(Tree::Str(s)) => Some(Some(s.clone())),
        _ => None,
    }
}

fn read_opt_status(v: Option<&Tree>) -> (r: Option<Option<ProgressStatus>>)
    ensures
        r == opt_status(match v { Some(t) => Some(*t), None => None }),
{
    match v {
        None => Some(None),
        Some(Tree::Str(s)) => match parse_status(s.as_str()) {
            Some(x) => Some(Some(x)),
            None => None,
        },
        _ => None,
    }
}

fn read_opt_category(v: Option<&Tree>) -> (r: Option<Option<ProgressNoteCategory>>)
    ensures
        r == opt_category(match v { Some(t) => Some(*t), None => None }),
{
    match v {
        None => Some(None),
        Some(Tree::Str(s)) => match parse_category(s.as_str()) {
            Some(x) => Some(Some(x)),
            None => None,
        },
        _ => None,
    }
}

/// An entry as written, before its kind is checked.
struct Wire {
    id: String,
    recorded_at: String,
    recorded_by: String,
    ticket_id: String,
    kind: String,
    from: Option<ProgressStatus>,
    to: Option<ProgressStatus>,
    category: Option<ProgressNoteCategory>,
    message: Option<String>,
}

impl View for Wire {
    type V = WireEntry;

    closed spec fn view(&self) -> WireEntry {
        WireEntry {
            id: self.id@,
            recorded_at: self.recorded_at@,
            recorded_by: self.recorded_by@,
            ticket_id: self.ticket_id@,
            kind: self.kind@,
            from: self.from,
            to: self.to,
            category: self.category,
            message: match self.message {
                Some(m) => Some(m@),
                None => None,
            },
        }
    }
}

fn read_entry(t: &Tree) -> (r: Result<Wire, String>)
    ensures
        match r {
            Ok(w) => wire_entry(*t) == Ok::<WireEntry, Seq<char>>(w@),
            Err(m) => wire_entry(*t) == Err::<WireEntry, Seq<char>>(m@),
        },
{
    let entries = match t {
        Tree::Table(entries) => entries,
        _ => {
            return Err(String::from_str("progress entries must be tables"));
        }
    };
    match unknown_key(entries, false) {
        Some(k) => {
            let mut m = String::from_str("unknown progress entry field: ");
            push_str(&mut m, k.as_str());
            return Err(m);
        }
        None => {}
    }
    let id = read_req_string(lookup(t, "id"));
    let recorded_at = read_req_string(lookup(t, "recorded_at"));
    let recorded_by = read_req_string(lookup(t, "recorded_by"));
    let ticket_id = read_req_string(lookup(t, "ticket_id"));
    let kind = read_req_string(lookup(t, "kind"));
    let (id, recorded_at, recorded_by, ticket_id, kind) = match (id, recorded_at, recorded_by, ticket_id, kind) {
        (Some(a), Some(b), Some(c), Some(d), Some(e)) => (a, b, c, d, e),
        _ => {
            return Err(String::from_str("progress entries need string id, recorded_at, recorded_by, ticket_id and kind"));
        }
    };
    let from = read_opt_status(lookup(t, "from"));
    let to = read_opt_status(lookup(t, "to"));
    let (from, to) = match (from, to) {
        (Some(a), Some(b)) => (a, b),
        _ => {
            return Err(String::from_str("from and to must be progress statuses"));
        }
    };
    let category = match read_opt_category(lookup(t, "category")) {
        Some(c) => c,
        None => {
            return Err(String::from_str("category must be deviation or quirk"));
        }
    };
    let message = match read_opt_string(lookup(t, "message")) {
        Some(m) => m,
        None => {
            return Err(String::from_str("message must be a string"));
        }
    };
    Ok(Wire { id, recorded_at, recorded_by, ticket_id, kind, from, to, category, message })
}

fn read_log(t: &Tree) -> (r: Result<(i64, Vec<Wire>), String>)
    ensures
        match r {
            Ok((n, ws)) => log_wire(*t) == Ok::<(i128, Seq<WireEntry>), Seq<char>>(
                (n as i128, ws@.map_values(|w: Wire| w@)),
            ),
            Err(m) => log_wire(*t) == Err::<(i128, Seq<WireEntry>), Seq<char>>(m@),
        },
{
    let entries = match t {
        Tree::Table(entries) => entries,
        _ => {
            return Err(String::from_str("progress log must be a table"));
        }
    };
    match unknown_key(entries, true) {
        Some(k) => {
            let mut m = String::from_str("unknown progress log field: ");
            push_str(&mut m, k.as_str());
            return Err(m);
        }
        None => {}
    }
    let schema: i64 = match lookup(t, "schema_version") {
        Some(Tree::Int(n)) => {
            if -0x8000_0000_0000_0000 <= *n && *n <= 0x7fff_ffff_ffff_ffff {
                *n as i64
            } else {
                return Err(String::from_str("schema_version must be a 64-bit integer"));
            }
        }
        _ => {
            return Err(String::from_str("schema_version must be a 64-bit integer"));
        }
    };
    let items = match lookup(t, "entries") {
        None => {
            let ws: Vec<Wire> = Vec::new();
            assert(ws@.map_values(|w: Wire| w@) =~= Seq::<WireEntry>::empty());
            return Ok((schema, ws));
        }
        Some(Tree::Array(items)) => items,
        Some(_) => {
            return Err(String::from_str("entries must be an array of tables"));
        }
    };
    let mut ws: Vec<Wire> = Vec::new();
    let mut i: usize = 0;
    let ghost whole = log_wire(*t);
    assert(whole == match wire_entries(items@) {
        Err(m) => Err(m),
        Ok(v) => Ok::<(i128, Seq<WireEntry>), Seq<char>>((schema as i128, v)),
    });
    assert(items@.take(0) =~= Seq::<Tree>::empty());
    assert(ws@.map_values(|w: Wire| w@) =~= Seq::<WireEntry>::empty());
    while i < items.len()
        invariant
            i <= items@.len(),
            wire_entries(items@.take(i as int)) == Ok::<Seq<WireEntry>, Seq<char>>(ws@.map_values(|w: Wire| w@)),
            whole == log_wire(*t),
            whole == match wire_entries(items@) {
                Err(m) => Err(m),
                Ok(v) => Ok::<(i128, Seq<WireEntry>), Seq<char>>((schema as i128, v)),
            },
        decreases items.len() - i,
    {
        proof {
            assert(items@.take(i + 1).drop_last() =~= items@.take(i as int));
            assert(items@.take(i + 1).last() == items@[i as int]);
        }
        match read_entry(&items[i]) {
            Ok(w) => {
                let ghost prior = ws@.map_values(|w: Wire| w@);
                ws.push(w);
                assert(ws@.map_values(|w: Wire| w@) =~= prior.push(ws@.last()@));
            }
            Err(m) => {
                proof {
                    lemma_wire_entries_prefix(items@, i + 1);
                }
                return Err(m);
            }
        }
        i = i + 1;
    }
    assert(items@.take(i as int) =~= items@);
    Ok((schema, ws))
}

proof fn lemma_wire_entries_prefix(items: Seq<Tree>, n: int)
    requires
        0 <= n <= items.len(),
        wire_entries(items.take(n)) is Err,
    ensures
        wire_entries(items) == wire_entries(items.take(n)),
    decreases items.len() - n,
{
    if n == items.len() {
        assert(items.take(n) =~= items);
    } else {
        assert(items.drop_last().take(n) =~= items.take(n));
        lemma_wire_entries_prefix(items.drop_last(), n);
    }
}

proof fn lemma_entries_of_prefix(ws: Seq<WireEntry>, n: int)
    requires
        0 <= n <= ws.len(),
        entries_of(ws.take(n)) is Err,
    ensures
        entries_of(ws) == entries_of(ws.take(n)),
    decreases ws.len() - n,
{
    if n == ws.len() {
        assert(ws.take(n) =~= ws);
    } else {
        assert(ws.drop_last().take(n) =~= ws.take(n));
        lemma_entries_of_prefix(ws.drop_last(), n);
    }
}

fn to_entry(w: &Wire) -> (r: Result<ProgressEntry, String>)
    ensures
        match r {
            Ok(e) => entry_of(w@) == Ok::<EntryView, Seq<char>>(e@),
            Err(m) => entry_of(w@) == Err::<EntryView, Seq<char>>(m@),
        },
{
    if str_eq(w.kind.as_str(), "transition") {
        if w.category.is_some() || w.message.is_some() {
            return Err(String::from_str("transition entries may not contain note fields"));
        }
        match (w.from, w.to) {
            (Some(from), Some(to)) => Ok(ProgressEntry::Transition {
                id: w.id.clone(),
                recorded_at: w.recorded_at.clone(),
                recorded_by: w.recorded_by.clone(),
                ticket_id: w.ticket_id.clone(),
                from,
                to,
            }),
            _ => Err(String::from_str("transition entries need from and to statuses")),
        }
    } else if str_eq(w.kind.as_str(), "note") {
        if w.from.is_some() || w.to.is_some() {
            return Err(String::from_str("note entries may not contain transition fields"));
        }
        match (w.category, &w.message) {
            (Some(category), Some(message)) => Ok(ProgressEntry::Note {
                id: w.id.clone(),
                recorded_at: w.recorded_at.clone(),
                recorded_by: w.recorded_by.clone(),
                ticket_id: w.ticket_id.clone(),
                category,
                message: message.clone(),
            }),
            _ => Err(String::from_str("note entries need category and message")),
        }
    } else {
        Err(String::from_str("entry kind must be transition or note"))
    }
}

/// Reads a progress log from its TOML text and checks it.
pub fn parse_progress_log(path: &str, text: &str) -> (r: Result<ProgressLog, Vec<Diagnostic>>)
    ensures
        match r {
            Ok(log) => progress_verdict(text@) == Verdict::Accept(log@),
            Err(ds) => refused_with(ds@, path@, progress_verdict(text@)),
        },
{
    match parse_toml(text) {
        Ok(t) => progress_log_from_tree(path, &t),
        Err(e) => Err(vec![diag(path, "invalid_progress_log", e.as_str())]),
    }
}

/// Reads a progress log from its parsed TOML document and checks it.
pub fn progress_log_from_tree(path: &str, t: &Tree) -> (r: Result<ProgressLog, Vec<Diagnostic>>)
    ensures
        match r {
            Ok(log) => progress_tree_verdict(*t) == Verdict::Accept(log@),
            Err(ds) => refused_with(ds@, path@, progress_tree_verdict(*t)),
        },
{
    let (schema, wires) = match read_log(t) {
        Ok(pair) => pair,
        Err(m) => {
            return Err(vec![diag(path, "invalid_progress_log", m.as_str())]);
        }
    };
    if schema != 1 {
        return Err(vec![crate::diagnostic::field_diag(path, "invalid_schema_version", "schema_version must be 1", "schema_version")]);
    }
    let ghost ws = wires@.map_values(|w: Wire| w@);
    assert(progress_tree_verdict(*t) == entries_verdict(ws));
    let mut entries: Vec<ProgressEntry> = Vec::new();
    let mut i: usize = 0;
    let n = wires.len();
    assert(ws.take(0) =~= Seq::<WireEntry>::empty());
    assert(entry_views(entries@) =~= Seq::<EntryView>::empty());
    while i < n
        invariant
            n == ws.len(),
            i <= n,
            wires@.len() == n,
            ws == wires@.map_values(|w: Wire| w@),
            entries_of(ws.take(i as int)) == Ok::<Seq<EntryView>, Seq<char>>(entry_views(entries@)),
            progress_tree_verdict(*t) == entries_verdict(ws),
        decreases n - i,
    {
        let w = &wires[i];
        proof {
            assert(ws.take(i + 1).drop_last() =~= ws.take(i as int));
            assert(ws.take(i + 1).last() == ws[i as int]);
        }
        match to_entry(w) {
            Ok(e) => {
                let ghost prior = entry_views(entries@);
                entries.push(e);
                assert(entry_views(entries@) =~= prior.push(entries@.last()@));
            }
            Err(m) => {
                proof {
                    lemma_entries_of_prefix(ws, i + 1);
                }
                return Err(vec![diag(path, "invalid_progress_entry", m.as_str())]);
            }
        }
        i = i + 1;
    }
    assert(ws.take(i as int) =~= ws);
    let log = ProgressLog { entries };
    match validate_progress_log(path, &log) {
        Ok(()) => Ok(log),
        Err(d) => Err(vec![d]),
    }
}

/// A string as a TOML value.
pub open spec fn toml_quoted(s: Seq<char>) -> Seq<char> {
    toml_value_text(TomlOutView::Str(s))
}

/// The TOML table of one entry.
pub open spec fn entry_text(e: EntryView) -> Seq<char> {
    match e {
        EntryView::Transition { id, recorded_at, recorded_by, ticket_id, from, to } => "\n[[entries]]\nid = "@
            + toml_quoted(id) + "\nrecorded_at = "@ + toml_quoted(recorded_at) + "\nrecorded_by = "@
            + toml_quoted(recorded_by) + "\nticket_id = "@ + toml_quoted(ticket_id)
            + "\nkind = \"transition\"\nfrom = "@ + toml_quoted(status_name(from)) + "\nto = "@
            + toml_quoted(status_name(to)) + "\n"@,
        EntryView::Note { id, recorded_at, recorded_by, ticket_id, category, message } => "\n[[entries]]\nid = "@
            + toml_quoted(id) + "\nrecorded_at = "@ + toml_quoted(recorded_at) + "\nrecorded_by = "@
            + toml_quoted(recorded_by) + "\nticket_id = "@ + toml_quoted(ticket_id)
            + "\nkind = \"note\"\ncategory = "@ + toml_quoted(category_name(category)) + "\nmessage = "@
            + toml_quoted(message) + "\n"@,
    }
}

/// The canonical TOML text of a progress log.
pub open spec fn log_text(entries: Seq<EntryView>) -> Seq<char>
    decreases entries.len(),
{
    if entries.len() == 0 {
        "schema_version = 1\n"@
    } else {
        log_text(entries.drop_last()) + entry_text(entries.last())
    }
}

fn push_quoted(out: &mut String, s: &str)
    ensures
        final(out)@ == old(out)@ + toml_quoted(s@),
{
    let q = toml_text(&TomlOut::Str(s.to_owned()));
    push_str(out, q.as_str());
}

/// The canonical TOML text of a progress log.
pub fn render_progress_log(log: &ProgressLog) -> (r: String)
    ensures
        r@ == log_text(log@),
{
    let mut out = String::from_str("schema_version = 1\n");
    let mut i: usize = 0;
    assert(log@.take(0) =~= Seq::<EntryView>::empty());
    while i < log.entries.len()
        invariant
            i <= log@.len(),
            log@ == entry_views(log.entries@),
            out@ == log_text(log@.take(i as int)),
        decreases log.entries.len() - i,
    {
        let ghost before = out@;
        match &log.entries[i] {
            ProgressEntry::Transition { id, recorded_at, recorded_by, ticket_id, from, to } => {
                push_str(&mut out, "\n[[entries]]\nid = ");
                push_quoted(&mut out, id.as_str());
                push_str(&mut out, "\nrecorded_at = ");
                push_quoted(&mut out, recorded_at.as_str());
                push_str(&mut out, "\nrecorded_by = ");
                push_quoted(&mut out, recorded_by.as_str());
                push_str(&mut out, "\nticket_id = ");
                push_quoted(&mut out, ticket_id.as_str());
                push_str(&mut out, "\nkind = \"transition\"\nfrom = ");
                push_quoted(&mut out, from.as_str());
                push_str(&mut out, "\nto = ");
                push_quoted(&mut out, to.as_str());
                push_str(&mut out, "\n");
            }
            ProgressEntry::Note { id, recorded_at, recorded_by, ticket_id, category, message } => {
                push_str(&mut out, "\n[[entries]]\nid = ");
                push_quoted(&mut out, id.as_str());
                push_str(&mut out, "\nrecorded_at = ");
                push_quoted(&mut out, recorded_at.as_str());
                push_str(&mut out, "\nrecorded_by = ");
                push_quoted(&mut out, recorded_by.as_str());
                push_str(&mut out, "\nticket_id = ");
                push_quoted(&mut out, ticket_id.as_str());
                push_str(&mut out, "\nkind = \"note\"\ncategory = ");
                push_quoted(&mut out, category.as_str());
                push_str(&mut out, "\nmessage = ");
                push_quoted(&mut out, message.as_str());
                push_str(&mut out, "\n");
            }
        }
        proof {
            assert(log@.take(i + 1).drop_last() =~= log@.take(i as int));
            assert(log@.take(i + 1).last() == log.entries@[i as int]@);
            assert(out@ =~= before + entry_text(log.entries@[i as int]@));
        }
        i = i + 1;
    }
    assert(log@.take(i as int) =~= log@);
    out
}

/// A valid log stays valid when cut short: every prefix of a valid log is valid.
pub proof fn law_valid_prefix(entries: Seq<EntryView>, n: int)
    requires
        log_fault(entries) is None,
        0 <= n <= entries.len(),
    ensures
        log_fault(entries.take(n)) is None,
    decreases entries.len() - n,
{
    if n < entries.len() {
        assert(log_fault(entries.drop_last()) is None);
        assert(entries.drop_last().take(n) =~= entries.take(n));
        law_valid_prefix(entries.drop_last(), n);
    } else {
        assert(entries.take(n) =~= entries);
    }
}

/// Appending an entry to a valid log gives a valid log exactly when the entry
/// itself has no fault after the entries before it.
pub proof fn law_append(entries: Seq<EntryView>, e: EntryView)
    requires
        log_fault(entries) is None,
    ensures
        log_fault(entries.push(e)) == entry_fault(entries, e),
{
    assert(entries.push(e).drop_last() =~= entries);
}

/// A transition sets its ticket's current status to its target and leaves every
/// other ticket's status as it was; a note changes no status.
pub proof fn law_current_status_after(entries: Seq<EntryView>, e: EntryView, ticket: Seq<char>)
    ensures
        current_status(entries.push(e), ticket) == match e {
            EntryView::Transition { ticket_id, to, .. } => if ticket_id == ticket {
                to
            } else {
                current_status(entries, ticket)
            },
            EntryView::Note { .. } => current_status(entries, ticket),
        },
{
    assert(entries.push(e).drop_last() =~= entries);
}

/// In a valid log every transition starts at the status its ticket had just before
/// and moves it to a different status.
pub proof fn law_transitions_chain(entries: Seq<EntryView>, i: int)
    requires
        log_fault(entries) is None,
        0 <= i < entries.len(),
        entries[i] is Transition,
    ensures
        entries[i]->Transition_from == current_status(entries.take(i), entries[i]->Transition_ticket_id),
        entries[i]->Transition_from != entries[i]->Transition_to,
{
    law_valid_prefix(entries, i + 1);
    let pre = entries.take(i + 1);
    assert(pre.drop_last() =~= entries.take(i));
    assert(pre.last() == entries[i]);
    assert(log_fault(pre) == entry_fault(entries.take(i), entries[i]));
}

/// In a valid log operation identities are non-empty and pairwise distinct.
pub proof fn law_unique_ids(entries: Seq<EntryView>, i: int, j: int)
    requires
        log_fault(entries) is None,
        0 <= i < j < entries.len(),
    ensures
        entries[i].id() != entries[j].id(),
        !is_blank(entries[j].id()),
{
    law_valid_prefix(entries, j + 1);
    let pre = entries.take(j + 1);
    assert(pre.drop_last() =~= entries.take(j));
    assert(pre.last() == entries[j]);
    assert(entries.take(j)[i] == entries[i]);
}

} // verus!
