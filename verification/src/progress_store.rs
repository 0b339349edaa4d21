//! Changes to an investigation's progress log: appending operations, replacing the
//! log, or adopting a scope, each previewed against the root and applied only while
//! the preview is still current.

use crate::activation::{ActivationState, ProjectView};
use crate::derived::opt_text;
use crate::diagnostic::{DiagView, Diagnostic, diag, diag_views, plain, stable_order_of};
use crate::progress::{
    EntryView as OpView, ProgressEntry, ProgressLog, entry_views as op_views, id_taken, log_fault, log_text, parse_progress_log,
    progress_verdict, render_progress_log, validate_progress_log,
};
use crate::project_map::{text_of, utf8_text};
use crate::record::{Classification, EntrySnapshot, EntryView, Kind, Revision, SummaryView, entry_views};
use crate::scanning::{FileView, overlaid, scan, scan_active, scan_entries, scan_revision, scan_state, scan_views};
use crate::store::{Store, StoreError, entry_at, find_entry, joined_messages, revision_of_entry, trim_end_slashes, trim_slashes};
use crate::text::{is_prefix, push_str, starts_with, str_eq};
use crate::verdict::Verdict;
use vstd::prelude::*;

verus! {

/// A requested change to an investigation's progress log.
#[derive(Debug, PartialEq, Eq)]
pub struct ProgressChangeRequest {
    pub investigation: String,
    pub entries: Vec<ProgressEntry>,
    pub replacement: Option<ProgressLog>,
    pub replacement_source: Option<String>,
    pub bootstrap: bool,
}

/// The plain content of a progress request.
pub struct ProgressRequestView {
    pub investigation: Seq<char>,
    pub entries: Seq<OpView>,
    pub replacement: Option<Seq<OpView>>,
    pub replacement_source: Option<Seq<char>>,
    pub bootstrap: bool,
}

impl View for ProgressChangeRequest {
    type V = ProgressRequestView;

    open spec fn view(&self) -> ProgressRequestView {
        ProgressRequestView {
            investigation: self.investigation@,
            entries: op_views(self.entries@),
            replacement: match self.replacement {
                Some(l) => Some(l@),
                None => None,
            },
            replacement_source: opt_text(self.replacement_source),
            bootstrap: self.bootstrap,
        }
    }
}

/// What a progress change would do, at the revisions it was previewed at.
#[derive(Debug, PartialEq, Eq)]
pub struct ProgressPreview {
    pub request: ProgressChangeRequest,
    pub path: String,
    pub expected_target_revision: Option<Revision>,
    pub expected_store_revision: Revision,
    pub proposed_store_revision: Revision,
    pub diagnostics: Vec<Diagnostic>,
    pub diff: String,
    pub no_op: bool,
    pub bootstrap_ticket_ids: Vec<String>,
}

/// What an applied progress change did.
#[derive(Debug, PartialEq, Eq)]
pub struct ProgressApplyResult {
    pub path: String,
    pub resulting_target_revision: Option<Revision>,
    pub resulting_store_revision: Revision,
    pub diff: String,
    pub no_op: bool,
}

fn same_entry(a: &ProgressEntry, b: &ProgressEntry) -> (r: bool)
    ensures
        r == (a@ == b@),
{
    match (a, b) {
        (
            ProgressEntry::Transition { id: i1, recorded_at: a1, recorded_by: b1, ticket_id: t1, from: f1, to: o1 },
            ProgressEntry::Transition { id: i2, recorded_at: a2, recorded_by: b2, ticket_id: t2, from: f2, to: o2 },
        ) => str_eq(i1.as_str(), i2.as_str()) && str_eq(a1.as_str(), a2.as_str()) && str_eq(b1.as_str(), b2.as_str()) && str_eq(
            t1.as_str(),
            t2.as_str(),
        ) && *f1 == *f2 && *o1 == *o2,
        (
            ProgressEntry::Note { id: i1, recorded_at: a1, recorded_by: b1, ticket_id: t1, category: c1, message: m1 },
            ProgressEntry::Note { id: i2, recorded_at: a2, recorded_by: b2, ticket_id: t2, category: c2, message: m2 },
        ) => str_eq(i1.as_str(), i2.as_str()) && str_eq(a1.as_str(), a2.as_str()) && str_eq(b1.as_str(), b2.as_str()) && str_eq(
            t1.as_str(),
            t2.as_str(),
        ) && *c1 == *c2 && str_eq(m1.as_str(), m2.as_str()),
        _ => false,
    }
}

fn copy_entry(e: &ProgressEntry) -> (r: ProgressEntry)
    ensures
        r@ == e@,
{
    match e {
        ProgressEntry::Transition { id, recorded_at, recorded_by, ticket_id, from, to } => ProgressEntry::Transition {
            id: id.clone(),
            recorded_at: recorded_at.clone(),
            recorded_by: recorded_by.clone(),
            ticket_id: ticket_id.clone(),
            from: *from,
            to: *to,
        },
        ProgressEntry::Note { id, recorded_at, recorded_by, ticket_id, category, message } => ProgressEntry::Note {
            id: id.clone(),
            recorded_at: recorded_at.clone(),
            recorded_by: recorded_by.clone(),
            ticket_id: ticket_id.clone(),
            category: *category,
            message: message.clone(),
        },
    }
}

fn copy_log(log: &ProgressLog) -> (r: ProgressLog)
    ensures
        r@ == log@,
{
    let mut out: Vec<ProgressEntry> = Vec::new();
    let mut i: usize = 0;
    while i < log.entries.len()
        invariant
            i <= log.entries@.len(),
            op_views(out@) == op_views(log.entries@).take(i as int),
        decreases log.entries.len() - i,
    {
        let ghost prior = op_views(out@);
        out.push(copy_entry(&log.entries[i]));
        assert(op_views(out@) =~= prior.push(log.entries@[i as int]@));
        assert(op_views(log.entries@).take(i + 1) =~= op_views(log.entries@).take(i as int).push(log.entries@[i as int]@));
        i = i + 1;
    }
    assert(op_views(log.entries@).take(i as int) =~= op_views(log.entries@));
    ProgressLog { entries: out }
}

/// The path of an investigation's progress log.
pub open spec fn progress_log_path(investigation: Seq<char>) -> Seq<char> {
    trim_slashes(investigation) + "/progress/log.toml"@
}

/// The path prefix of an investigation's records.
pub open spec fn scope_prefix(investigation: Seq<char>) -> Seq<char> {
    trim_slashes(investigation) + "/"@
}

/// Some activated project lists the investigation.
pub open spec fn investigation_listed(projects: Seq<(Seq<char>, ProjectView)>, investigation: Seq<char>) -> bool {
    exists|i: int, j: int|
        0 <= i < projects.len() && 0 <= j < projects[i].1.investigations.len() && #[trigger] projects[i].1.investigations[j]
            == investigation
}

/// Why an investigation cannot take progress changes, if it cannot: its path is not
/// contained, the root is not actively activated, or no project lists it.
pub open spec fn progress_path_refusal(text: Option<Seq<char>>, investigation: Seq<char>) -> Option<Seq<char>> {
    if !crate::layout::safe_relative_spec(investigation) {
        Some("investigation path must be contained"@)
    } else if scan_state(text) != ActivationState::Active {
        Some("progress mutations require an active Casefile activation"@)
    } else if !investigation_listed(scan_active(text).projects, investigation) {
        Some("investigation is not activated"@)
    } else {
        None
    }
}

fn investigation_activated(active: &crate::activation::Activation, investigation: &str) -> (r: bool)
    ensures
        r == investigation_listed(active@.projects, investigation@),
{
    let mut i: usize = 0;
    while i < active.projects.len()
        invariant
            i <= active.projects@.len(),
            forall|a: int, b: int|
                0 <= a < i && 0 <= b < active@.projects[a].1.investigations.len() ==> #[trigger] active@.projects[a].1.investigations[b]
                    != investigation@,
        decreases active.projects.len() - i,
    {
        let invs = &active.projects[i].1.investigations;
        let mut j: usize = 0;
        while j < invs.len()
            invariant
                i < active.projects@.len(),
                invs == active.projects@[i as int].1.investigations,
                j <= invs@.len(),
                forall|b: int| 0 <= b < j ==> #[trigger] active@.projects[i as int].1.investigations[b] != investigation@,
            decreases invs.len() - j,
        {
            assert(active@.projects[i as int].1.investigations[j as int] == invs@[j as int]@);
            if str_eq(invs[j].as_str(), investigation) {
                return true;
            }
            j = j + 1;
        }
        i = i + 1;
    }
    false
}

impl Store {
    /// The progress log path and the record prefix of an investigation that can take
    /// progress changes.
    pub fn progress_path(&self, investigation: &str) -> (r: Result<(String, String), StoreError>)
        ensures
            match progress_path_refusal(opt_text(self.activation_text), investigation@) {
                Some(m) => r matches Err(StoreError::Invalid(v)) && v@ == m,
                None => r matches Ok((p, s)) && p@ == progress_log_path(investigation@) && s@ == scope_prefix(investigation@),
            },
    {
        proof {
            reveal_strlit("/progress/log.toml");
            reveal_strlit("/");
        }
        if !crate::layout::safe_relative(investigation) {
            return Err(StoreError::Invalid("investigation path must be contained".to_owned()));
        }
        let text = match &self.activation_text {
            Some(t) => Some(t.as_str()),
            None => None,
        };
        let (state, active, _) = crate::activation::activation(text);
        if state != ActivationState::Active {
            return Err(StoreError::Invalid("progress mutations require an active Casefile activation".to_owned()));
        }
        proof {
            let o = crate::activation::activation_outcome(opt_text(self.activation_text));
            if o.1 is None {
                assert(active@.projects =~= Seq::<(Seq<char>, ProjectView)>::empty());
            }
            assert(active@ == scan_active(opt_text(self.activation_text)));
        }
        if !investigation_activated(&active, investigation) {
            return Err(StoreError::Invalid("investigation is not activated".to_owned()));
        }
        let base = trim_end_slashes(investigation);
        let mut path = base.clone();
        push_str(&mut path, "/progress/log.toml");
        let mut prefix = base;
        push_str(&mut prefix, "/");
        Ok((path, prefix))
    }

    /// Checks that an investigation can take progress changes.
    pub fn validate_investigation(&self, investigation: &str) -> (r: Result<(), StoreError>)
        ensures
            match progress_path_refusal(opt_text(self.activation_text), investigation@) {
                Some(m) => r matches Err(StoreError::Invalid(v)) && v@ == m,
                None => r is Ok,
            },
    {
        match self.progress_path(investigation) {
            Ok(_) => Ok(()),
            Err(e) => Err(e),
        }
    }

    /// The request that adopts an investigation's progress scope.
    pub fn bootstrap_progress(&self, investigation: &str) -> (r: Result<ProgressChangeRequest, StoreError>)
        ensures
            match progress_path_refusal(opt_text(self.activation_text), investigation@) {
                Some(m) => r matches Err(StoreError::Invalid(v)) && v@ == m,
                None => r matches Ok(q) && q@.investigation == investigation@ && q@.entries.len() == 0 && q@.replacement is None
                    && q@.replacement_source is None && q@.bootstrap,
            },
    {
        match self.progress_path(investigation) {
            Ok(_) => {
                let q = ProgressChangeRequest {
                    investigation: investigation.to_owned(),
                    entries: Vec::new(),
                    replacement: None,
                    replacement_source: None,
                    bootstrap: true,
                };
                assert(q@.entries =~= Seq::<OpView>::empty());
                Ok(q)
            },
            Err(e) => Err(e),
        }
    }
}

/// The operations that a stored progress log holds, or the message that refuses it.
pub open spec fn log_of_bytes(bytes: Seq<u8>) -> Result<Seq<OpView>, Seq<char>> {
    match text_of(bytes) {
        None => Err("progress log must be UTF-8"@),
        Some(t) => match progress_verdict(t) {
            Verdict::Accept(l) => Ok(l),
            Verdict::Refuse { message, .. } => Err(message),
        },
    }
}

fn read_log(path: &str, bytes: &Vec<u8>) -> (r: Result<ProgressLog, StoreError>)
    ensures
        match log_of_bytes(bytes@) {
            Ok(l) => r matches Ok(log) && log@ == l,
            Err(m) => r matches Err(StoreError::Invalid(v)) && v@ == m,
        },
{
    proof {
        reveal_strlit("progress log must be UTF-8");
    }
    let text = match utf8_text(bytes.as_slice()) {
        Some(t) => t,
        None => return Err(StoreError::Invalid("progress log must be UTF-8".to_owned())),
    };
    match parse_progress_log(path, text.as_str()) {
        Ok(log) => Ok(log),
        Err(ds) => {
            assert(diag_views(ds@) =~= seq![ds@[0]@]);
            Err(StoreError::Invalid(joined_messages(&ds)))
        },
    }
}

fn read_source(path: &str, source: &String) -> (r: Result<ProgressLog, StoreError>)
    ensures
        match progress_verdict(source@) {
            Verdict::Accept(l) => r matches Ok(log) && log@ == l,
            Verdict::Refuse { message, .. } => r matches Err(StoreError::Invalid(v)) && v@ == message,
        },
{
    match parse_progress_log(path, source.as_str()) {
        Ok(log) => Ok(log),
        Err(ds) => {
            assert(diag_views(ds@) =~= seq![ds@[0]@]);
            Err(StoreError::Invalid(joined_messages(&ds)))
        },
    }
}

/// The last recorded operation with this identity.
pub open spec fn last_with_id(entries: Seq<OpView>, id: Seq<char>) -> Option<OpView>
    decreases entries.len(),
{
    if entries.len() == 0 {
        None
    } else if entries.last().id() == id {
        Some(entries.last())
    } else {
        last_with_id(entries.drop_last(), id)
    }
}

/// A refusal of a progress request, reported at the log's canonical name.
pub open spec fn request_refusal(code: Seq<char>, message: Seq<char>) -> DiagView {
    plain("progress/log.toml"@, code, message)
}

/// The recorded operations with the requested ones appended: each requested identity
/// at most once, a recorded identity only with the same content (and then not again).
pub open spec fn merged(recorded: Seq<OpView>, requested: Seq<OpView>) -> Result<Seq<OpView>, DiagView>
    decreases requested.len(),
{
    if requested.len() == 0 {
        Ok(recorded)
    } else {
        match merged(recorded, requested.drop_last()) {
            Err(d) => Err(d),
            Ok(acc) => {
                let e = requested.last();
                if id_taken(requested.drop_last(), e.id()) {
                    Err(request_refusal("invalid_progress_operation_id"@, "operation IDs must be unique"@))
                } else {
                    match last_with_id(recorded, e.id()) {
                        Some(c) => if c == e {
                            Ok(acc)
                        } else {
                            Err(
                                request_refusal(
                                    "conflicting_progress_operation_id"@,
                                    "operation ID is already recorded with different content"@,
                                ),
                            )
                        },
                        None => Ok(acc.push(e)),
                    }
                }
            },
        }
    }
}

proof fn lemma_merged_err_stays(recorded: Seq<OpView>, requested: Seq<OpView>, n: int)
    requires
        0 <= n <= requested.len(),
        merged(recorded, requested.take(n)) is Err,
    ensures
        merged(recorded, requested) == merged(recorded, requested.take(n)),
    decreases requested.len() - n,
{
    if n < requested.len() {
        assert(requested.take(n + 1).drop_last() =~= requested.take(n));
        lemma_merged_err_stays(recorded, requested, n + 1);
    } else {
        assert(requested.take(n) =~= requested);
    }
}

fn find_last_with_id<'a>(entries: &'a Vec<ProgressEntry>, id: &str) -> (r: Option<&'a ProgressEntry>)
    ensures
        match r {
            Some(e) => last_with_id(op_views(entries@), id@) == Some(e@),
            None => last_with_id(op_views(entries@), id@) is None,
        },
{
    let ghost ev = op_views(entries@);
    let mut k: usize = entries.len();
    assert(ev.take(k as int) =~= ev);
    while k > 0
        invariant
            ev == op_views(entries@),
            k <= ev.len(),
            last_with_id(ev, id@) == last_with_id(ev.take(k as int), id@),
        decreases k,
    {
        assert(ev.take(k as int).last() == entries@[k - 1]@);
        if str_eq(entries[k - 1].id(), id) {
            return Some(&entries[k - 1]);
        }
        assert(ev.take(k as int).drop_last() =~= ev.take(k - 1));
        k = k - 1;
    }
    None
}

fn id_among(entries: &Vec<ProgressEntry>, n: usize, id: &str) -> (r: bool)
    requires
        n <= entries@.len(),
    ensures
        r == id_taken(op_views(entries@).take(n as int), id@),
{
    let ghost pre = op_views(entries@).take(n as int);
    let mut i: usize = 0;
    while i < n
        invariant
            n <= entries@.len(),
            pre == op_views(entries@).take(n as int),
            i <= n,
            forall|j: int| 0 <= j < i ==> #[trigger] pre[j].id() != id@,
        decreases n - i,
    {
        assert(pre[i as int] == entries@[i as int]@);
        if str_eq(entries[i].id(), id) {
            return true;
        }
        i = i + 1;
    }
    false
}

fn merge_entries(recorded: &ProgressLog, requested: &Vec<ProgressEntry>) -> (r: Result<ProgressLog, Diagnostic>)
    ensures
        match merged(recorded@, op_views(requested@)) {
            Ok(l) => r matches Ok(log) && log@ == l,
            Err(d) => r matches Err(x) && x@ == d,
        },
{
    let ghost rv = op_views(requested@);
    let mut out = copy_log(recorded);
    let mut i: usize = 0;
    assert(rv.take(0) =~= Seq::<OpView>::empty());
    while i < requested.len()
        invariant
            rv == op_views(requested@),
            i <= rv.len(),
            merged(recorded@, rv.take(i as int)) == Ok::<Seq<OpView>, DiagView>(out@),
        decreases requested.len() - i,
    {
        let e = &requested[i];
        proof {
            assert(rv.take(i + 1).drop_last() =~= rv.take(i as int));
            assert(rv.take(i + 1).last() == e@);
        }
        if id_among(requested, i, e.id()) {
            proof {
                lemma_merged_err_stays(recorded@, rv, i + 1);
            }
            return Err(diag("progress/log.toml", "invalid_progress_operation_id", "operation IDs must be unique"));
        }
        match find_last_with_id(&recorded.entries, e.id()) {
            Some(c) => {
                if !same_entry(c, e) {
                    proof {
                        lemma_merged_err_stays(recorded@, rv, i + 1);
                    }
                    return Err(
                        diag(
                            "progress/log.toml",
                            "conflicting_progress_operation_id",
                            "operation ID is already recorded with different content",
                        ),
                    );
                }
            },
            None => {
                let ghost prior = out@;
                out.entries.push(copy_entry(e));
                assert(out@ =~= prior.push(e@));
            },
        }
        i = i + 1;
    }
    assert(rv.take(i as int) =~= rv);
    Ok(out)
}

/// The diagnostics whose path starts with `prefix`, in order.
pub open spec fn scoped(ds: Seq<DiagView>, prefix: Seq<char>) -> Seq<DiagView>
    decreases ds.len(),
{
    if ds.len() == 0 {
        Seq::empty()
    } else if is_prefix(prefix, ds.last().path) {
        scoped(ds.drop_last(), prefix).push(ds.last())
    } else {
        scoped(ds.drop_last(), prefix)
    }
}

fn scoped_diagnostics(ds: &Vec<Diagnostic>, prefix: &str) -> (r: Vec<Diagnostic>)
    ensures
        diag_views(r@) == scoped(diag_views(ds@), prefix@),
{
    let ghost dv = diag_views(ds@);
    let mut out: Vec<Diagnostic> = Vec::new();
    let mut i: usize = 0;
    assert(dv.take(0) =~= Seq::<DiagView>::empty());
    assert(diag_views(out@) =~= Seq::<DiagView>::empty());
    while i < ds.len()
        invariant
            dv == diag_views(ds@),
            i <= dv.len(),
            diag_views(out@) == scoped(dv.take(i as int), prefix@),
        decreases ds.len() - i,
    {
        proof {
            assert(dv.take(i + 1).drop_last() =~= dv.take(i as int));
            assert(dv.take(i + 1).last() == ds@[i as int]@);
        }
        if starts_with(ds[i].path.as_str(), prefix) {
            let ghost prior = diag_views(out@);
            out.push(ds[i].clone());
            assert(diag_views(out@) =~= prior.push(ds@[i as int]@));
        }
        i = i + 1;
    }
    assert(dv.take(i as int) =~= dv);
    out
}

/// The identities of the accepted governed tickets under `prefix`, in entry order.
pub open spec fn accepted_ids(es: Seq<EntryView>, prefix: Seq<char>) -> Seq<Seq<char>>
    decreases es.len(),
{
    if es.len() == 0 {
        Seq::empty()
    } else {
        let rest = accepted_ids(es.drop_last(), prefix);
        let e = es.last();
        if is_prefix(prefix, e.path) && e.kind == Some(Kind::Ticket) && e.classification == Classification::Governed {
            match e.summary {
                Some(SummaryView::WorkItem { id, status, .. }) => if status == "accepted"@ {
                    rest.push(id)
                } else {
                    rest
                },
                _ => rest,
            }
        } else {
            rest
        }
    }
}

impl crate::order::Keyed for String {
    open spec fn sort_key(&self) -> Seq<i64> {
        crate::order::str_field(self@)
    }

    fn key(&self) -> (k: Vec<i64>) {
        let mut k: Vec<i64> = Vec::new();
        crate::order::push_str_field(&mut k, self.as_str());
        assert(k@ =~= crate::order::str_field(self@));
        k
    }
}

/// `ids` holds exactly these identities, sorted.
pub open spec fn sorted_ids(ids: Seq<String>, expected: Seq<Seq<char>>) -> bool {
    &&& crate::order::keys_sorted(ids)
    &&& exists|orig: Seq<String>| crate::board::strs(orig) == expected && orig.to_multiset() == ids.to_multiset()
}

fn accepted_ticket_ids(entries: &Vec<EntrySnapshot>, prefix: &str) -> (r: Vec<String>)
    ensures
        sorted_ids(r@, accepted_ids(entry_views(entries@), prefix@)),
{
    proof {
        reveal_strlit("accepted");
    }
    let ghost ev = entry_views(entries@);
    let mut out: Vec<String> = Vec::new();
    let mut i: usize = 0;
    assert(ev.take(0) =~= Seq::<EntryView>::empty());
    assert(crate::board::strs(out@) =~= Seq::<Seq<char>>::empty());
    while i < entries.len()
        invariant
            ev == entry_views(entries@),
            i <= ev.len(),
            crate::board::strs(out@) == accepted_ids(ev.take(i as int), prefix@),
        decreases entries.len() - i,
    {
        proof {
            assert(ev.take(i + 1).drop_last() =~= ev.take(i as int));
            assert(ev.take(i + 1).last() == entries@[i as int]@);
        }
        let e = &entries[i];
        if starts_with(e.path.as_str(), prefix) && e.kind == Some(Kind::Ticket) && e.classification == Classification::Governed {
            match &e.summary {
                Some(crate::record::RecordSummary::WorkItem { id, status, .. }) => {
                    if str_eq(status.as_str(), "accepted") {
                        let ghost prior = crate::board::strs(out@);
                        out.push(id.clone());
                        assert(crate::board::strs(out@) =~= prior.push(id@));
                    }
                },
                _ => {},
            }
        }
        i = i + 1;
    }
    assert(ev.take(i as int) =~= ev);
    let ghost unsorted = out@;
    let sorted = crate::order::sort_by_key(out);
    assert(crate::board::strs(unsorted) == accepted_ids(ev, prefix@));
    sorted
}

/// What a progress request comes to, once its investigation is known to take changes.
pub enum ProgressPlan {
    /// The request fails with this message.
    Fail(Seq<char>),
    /// The request is refused with this diagnostic.
    Refuse(DiagView),
    /// An adoption of a scope whose log already exists: nothing is written.
    Keep,
    /// The log that the request proposes.
    Propose(Seq<OpView>),
}

/// The plan of a progress request on a root.
pub open spec fn progress_plan(text: Option<Seq<char>>, files: Seq<FileView>, q: ProgressRequestView) -> ProgressPlan {
    let path = progress_log_path(q.investigation);
    let existing = entry_at(scan_entries(text, files), path);
    let replacing = q.replacement is Some || q.replacement_source is Some;
    let current = if replacing {
        Ok(Seq::empty())
    } else {
        match existing {
            Some(e) => log_of_bytes(e.original_bytes),
            None => Ok(Seq::empty()),
        }
    };
    match current {
        Err(m) => ProgressPlan::Fail(m),
        Ok(cur) => if q.bootstrap && (q.entries.len() > 0 || replacing) {
            ProgressPlan::Refuse(
                request_refusal("invalid_progress_request"@, "bootstrap cannot be combined with entries or replacement"@),
            )
        } else if q.bootstrap && existing is Some {
            ProgressPlan::Keep
        } else if replacing {
            if q.entries.len() > 0 || (q.replacement is Some && q.replacement_source is Some) {
                ProgressPlan::Refuse(
                    request_refusal("invalid_progress_request"@, "replacement cannot be combined with entries"@),
                )
            } else {
                match q.replacement {
                    Some(l) => ProgressPlan::Propose(l),
                    None => match progress_verdict(q.replacement_source->0) {
                        Verdict::Accept(l) => ProgressPlan::Propose(l),
                        Verdict::Refuse { message, .. } => ProgressPlan::Fail(message),
                    },
                }
            }
        } else {
            match merged(cur, q.entries) {
                Err(d) => ProgressPlan::Refuse(d),
                Ok(l) => ProgressPlan::Propose(l),
            }
        },
    }
}

/// `ds` are the diagnostics under `prefix` of some stable order of the root's diagnostics.
pub open spec fn scoped_scan(ds: Seq<Diagnostic>, text: Option<Seq<char>>, files: Seq<FileView>, prefix: Seq<char>) -> bool {
    exists|s: Seq<Diagnostic>| stable_order_of(s, scan_views(text, files)) && diag_views(ds) == scoped(diag_views(s), prefix)
}

/// A preview that refuses a progress request with one diagnostic.
pub open spec fn refused_progress(p: ProgressPreview, q: ProgressChangeRequest, path: Seq<char>, revision: Seq<char>, d: DiagView) -> bool {
    &&& p.request == q
    &&& p.path@ == path
    &&& p.expected_target_revision is None
    &&& p.expected_store_revision.0@ == revision
    &&& p.proposed_store_revision.0@ == revision
    &&& diag_views(p.diagnostics@) == seq![d]
    &&& p.diff@ == Seq::<char>::empty()
    &&& !p.no_op
    &&& p.bootstrap_ticket_ids@.len() == 0
}

/// A previewed progress change that awaits only its diff.
#[derive(Debug)]
pub struct PendingProgress {
    pub path: String,
    pub before: Option<Vec<u8>>,
    pub after: Vec<u8>,
    pub preview: ProgressPreview,
}

/// What previewing a progress change yields: a finished preview, or one that awaits
/// the diff of the log's bytes before and after.
#[derive(Debug)]
pub enum ProgressStep {
    Done(ProgressPreview),
    Diff(PendingProgress),
}

/// `p` proposes `log` for the request on the root: the root with the log written has
/// this revision, these scoped diagnostics and, for an adoption, these accepted tickets.
pub open spec fn proposed_progress(
    p: ProgressPreview,
    q: ProgressChangeRequest,
    text: Option<Seq<char>>,
    files: Seq<FileView>,
    log: Seq<OpView>,
) -> bool {
    let path = progress_log_path(q@.investigation);
    let prefix = scope_prefix(q@.investigation);
    let existing = entry_at(scan_entries(text, files), path);
    &&& p.request == q
    &&& p.path@ == path
    &&& revision_of_entry(p.expected_target_revision, existing)
    &&& p.expected_store_revision.0@ == scan_revision(text, files)
    &&& exists|after: Seq<FileView>|
        overlaid(files, after, path, Some(vstd::utf8::encode_utf8(log_text(log)))) && p.proposed_store_revision.0@
            == scan_revision(text, after) && scoped_scan(p.diagnostics@, text, after, prefix)
    &&& if q@.bootstrap {
        sorted_ids(p.bootstrap_ticket_ids@, accepted_ids(scan_entries(text, files), prefix))
    } else {
        p.bootstrap_ticket_ids@.len() == 0
    }
}

/// What previewing a progress request yields on a root.
pub open spec fn progress_previewed(r: Result<ProgressStep, StoreError>, q: ProgressChangeRequest, text: Option<Seq<char>>, files: Seq<FileView>) -> bool {
    let path = progress_log_path(q@.investigation);
    let prefix = scope_prefix(q@.investigation);
    let existing = entry_at(scan_entries(text, files), path);
    let revision = scan_revision(text, files);
    match progress_path_refusal(text, q@.investigation) {
        Some(m) => r matches Err(StoreError::Invalid(v)) && v@ == m,
        None => match progress_plan(text, files, q@) {
            ProgressPlan::Fail(m) => r matches Err(StoreError::Invalid(v)) && v@ == m,
            ProgressPlan::Refuse(d) => r matches Ok(ProgressStep::Done(p)) && refused_progress(p, q, path, revision, d),
            ProgressPlan::Keep => r matches Ok(ProgressStep::Done(p)) && {
                &&& p.request == q
                &&& p.path@ == path
                &&& revision_of_entry(p.expected_target_revision, existing)
                &&& p.expected_store_revision.0@ == revision
                &&& p.proposed_store_revision.0@ == revision
                &&& scoped_scan(p.diagnostics@, text, files, prefix)
                &&& p.no_op == (p.diagnostics@.len() == 0)
                &&& p.diff@ == Seq::<char>::empty()
                &&& p.bootstrap_ticket_ids@.len() == 0
            },
            ProgressPlan::Propose(log) => match log_fault(log) {
                Some(f) => r matches Ok(ProgressStep::Done(p)) && refused_progress(p, q, path, revision, plain(path, f.0, f.1)),
                None => {
                    let bytes = vstd::utf8::encode_utf8(log_text(log));
                    let same = existing is Some && existing->0.original_bytes == bytes;
                    match r {
                        Ok(ProgressStep::Done(p)) => proposed_progress(p, q, text, files, log) && p.diff@ == Seq::<char>::empty() && if p.diagnostics@.len()
                            > 0 {
                            !p.no_op
                        } else {
                            same && p.no_op
                        },
                        Ok(ProgressStep::Diff(d)) => {
                            &&& proposed_progress(d.preview, q, text, files, log)
                            &&& d.preview.diagnostics@.len() == 0
                            &&& !same
                            &&& !d.preview.no_op
                            &&& d.preview.diff@ == Seq::<char>::empty()
                            &&& d.path@ == path
                            &&& crate::scanning::opt_bytes(d.before) == match existing {
                                Some(e) => Some(e.original_bytes),
                                None => None,
                            }
                            &&& d.after@ == bytes
                        },
                        Err(_) => false,
                    }
                },
            },
        },
    }
}

/// Requested operations that the log already records, each with its recorded content
/// and each identity once, leave the log as it is.
proof fn lemma_merged_recorded(recorded: Seq<OpView>, requested: Seq<OpView>)
    requires
        forall|i: int| 0 <= i < requested.len() ==> last_with_id(recorded, (#[trigger] requested[i]).id()) == Some(requested[i]),
        forall|i: int, j: int| 0 <= i < j < requested.len() ==> (#[trigger] requested[i]).id() != (#[trigger] requested[j]).id(),
    ensures
        merged(recorded, requested) == Ok::<Seq<OpView>, DiagView>(recorded),
    decreases requested.len(),
{
    if requested.len() > 0 {
        let front = requested.drop_last();
        assert forall|i: int| 0 <= i < front.len() implies last_with_id(recorded, (#[trigger] front[i]).id()) == Some(front[i]) by {
            assert(front[i] == requested[i]);
        }
        assert forall|i: int, j: int| 0 <= i < j < front.len() implies (#[trigger] front[i]).id() != (#[trigger] front[j]).id() by {
            assert(front[i] == requested[i]);
            assert(front[j] == requested[j]);
        }
        lemma_merged_recorded(recorded, front);
        let e = requested.last();
        assert(last_with_id(recorded, e.id()) == Some(e)) by {
            assert(e == requested[requested.len() - 1]);
        }
        if id_taken(front, e.id()) {
            let k = choose|k: int| 0 <= k < front.len() && #[trigger] front[k].id() == e.id();
            assert(front[k] == requested[k]);
            assert(requested[requested.len() - 1].id() == e.id());
            assert(false);
        }
    }
}

/// Previewing operations that a log in its canonical form already records is a no-op:
/// nothing to write and an empty diff, and no-op exactly when the investigation has no
/// diagnostics. (A preview never writes: it reads the root.)
pub proof fn law_repeated_progress_preview_is_no_op(
    r: Result<ProgressStep, StoreError>,
    q: ProgressChangeRequest,
    text: Option<Seq<char>>,
    files: Seq<FileView>,
    e: EntryView,
    recorded: Seq<OpView>,
)
    requires
        progress_previewed(r, q, text, files),
        progress_path_refusal(text, q@.investigation) is None,
        !q@.bootstrap,
        q@.replacement is None,
        q@.replacement_source is None,
        entry_at(scan_entries(text, files), progress_log_path(q@.investigation)) == Some(e),
        log_of_bytes(e.original_bytes) == Ok::<Seq<OpView>, Seq<char>>(recorded),
        e.original_bytes == vstd::utf8::encode_utf8(log_text(recorded)),
        forall|i: int| 0 <= i < q@.entries.len() ==> last_with_id(recorded, (#[trigger] q@.entries[i]).id()) == Some(q@.entries[i]),
        forall|i: int, j: int| 0 <= i < j < q@.entries.len() ==> (#[trigger] q@.entries[i]).id() != (#[trigger] q@.entries[j]).id(),
    ensures
        r matches Ok(ProgressStep::Done(p)) && p.diff@ == Seq::<char>::empty() && p.no_op == (p.diagnostics@.len() == 0),
{
    lemma_merged_recorded(recorded, q@.entries);
    let t = text_of(e.original_bytes)->0;
    assert(crate::progress::progress_verdict(t) == Verdict::Accept(recorded));
    assert(log_fault(recorded) is None) by {
        match crate::tree::toml_document(t) {
            Ok(tree) => {
                match crate::progress::log_wire(tree) {
                    Ok((_, ws)) => {},
                    Err(_) => {},
                }
            },
            Err(_) => {},
        }
    }
}

impl PendingProgress {
    /// The preview with the diff of the log's two sides, given the diff of two files
    /// that hold them.
    pub fn finish(self, raw_diff: &str) -> (r: ProgressPreview)
        ensures
            r == (ProgressPreview { diff: r.diff, ..self.preview }),
            r.diff@ == crate::store::canonical_diff_text(raw_diff@, self.path@, self.before is Some, true, false),
    {
        let diff = crate::store::canonical_diff(raw_diff, self.path.as_str(), self.before.is_some(), true, false);
        let PendingProgress { path, before, after, preview } = self;
        ProgressPreview { diff, ..preview }
    }
}

fn rejected(q: ProgressChangeRequest, path: String, revision: Revision, d: Diagnostic) -> (r: ProgressPreview)
    ensures
        refused_progress(r, q, path@, revision.0@, d@),
{
    let p = ProgressPreview {
        request: q,
        path,
        expected_target_revision: None,
        expected_store_revision: revision.clone(),
        proposed_store_revision: revision,
        diagnostics: vec![d],
        diff: String::new(),
        no_op: false,
        bootstrap_ticket_ids: Vec::new(),
    };
    assert(diag_views(p.diagnostics@) =~= seq![d@]);
    p
}

fn same_bytes(a: &Vec<u8>, b: &Vec<u8>) -> (r: bool)
    ensures
        r == (a@ == b@),
{
    if a.len() != b.len() {
        return false;
    }
    let mut i: usize = 0;
    while i < a.len()
        invariant
            a@.len() == b@.len(),
            i <= a@.len(),
            forall|j: int| 0 <= j < i ==> a@[j] == b@[j],
        decreases a.len() - i,
    {
        if a[i] != b[i] {
            return false;
        }
        i = i + 1;
    }
    assert(a@ =~= b@);
    true
}

impl Store {
    /// Previews a progress change: the log it proposes written on a copy of the root,
    /// or the refusal of the request.
    #[verifier::rlimit(80)]
    pub fn preview_progress(&self, request: ProgressChangeRequest) -> (r: Result<ProgressStep, StoreError>)
        ensures
            progress_previewed(r, request, opt_text(self.activation_text), self.files@),
    {
        proof {
            use_type_invariant(&self.files);
        }
        let ghost text = opt_text(self.activation_text);
        let ghost fs = self.files@;
        let ghost q = request;
        let (path, prefix) = match self.progress_path(request.investigation.as_str()) {
            Ok(x) => x,
            Err(e) => return Err(e),
        };
        let before = self.scan();
        assert(entry_views(before.snapshot.entries@) == scan_entries(text, fs));
        let existing = find_entry(&before.snapshot.entries, path.as_str());
        let replacing = request.replacement.is_some() || request.replacement_source.is_some();
        let current = if replacing {
            ProgressLog { entries: Vec::new() }
        } else {
            match existing {
                Some(e) => match read_log(path.as_str(), &e.original_bytes) {
                    Ok(l) => l,
                    Err(err) => return Err(err),
                },
                None => ProgressLog { entries: Vec::new() },
            }
        };
        if request.bootstrap {
            if request.entries.len() > 0 || replacing {
                let d = diag("progress/log.toml", "invalid_progress_request", "bootstrap cannot be combined with entries or replacement");
                return Ok(ProgressStep::Done(rejected(request, path, before.snapshot.revision, d)));
            }
            match existing {
                Some(e) => {
                    let diagnostics = scoped_diagnostics(&before.diagnostics, prefix.as_str());
                    let no_op = diagnostics.len() == 0;
                    let p = ProgressPreview {
                        request,
                        path,
                        expected_target_revision: Some(e.content_revision.clone()),
                        expected_store_revision: before.snapshot.revision.clone(),
                        proposed_store_revision: before.snapshot.revision.clone(),
                        no_op,
                        diagnostics,
                        diff: String::new(),
                        bootstrap_ticket_ids: Vec::new(),
                    };
                    assert(scoped_scan(p.diagnostics@, text, fs, scope_prefix(q@.investigation)));
                    return Ok(ProgressStep::Done(p));
                },
                None => {},
            }
        }
        let proposed_log: ProgressLog = if replacing {
            if request.entries.len() > 0 || (request.replacement.is_some() && request.replacement_source.is_some()) {
                let d = diag("progress/log.toml", "invalid_progress_request", "replacement cannot be combined with entries");
                return Ok(ProgressStep::Done(rejected(request, path, before.snapshot.revision, d)));
            }
            match &request.replacement {
                Some(l) => copy_log(l),
                None => match &request.replacement_source {
                    Some(src) => match read_source(path.as_str(), src) {
                        Ok(l) => l,
                        Err(e) => return Err(e),
                    },
                    None => ProgressLog { entries: Vec::new() },
                },
            }
        } else {
            match merge_entries(&current, &request.entries) {
                Ok(l) => l,
                Err(d) => {
                    assert(!replacing);
                    assert(current@ == match existing {
                        Some(e) => log_of_bytes(e@.original_bytes)->Ok_0,
                        None => Seq::<OpView>::empty(),
                    });
                    assert(progress_plan(text, fs, q@) == ProgressPlan::Refuse(d@));
                    return Ok(ProgressStep::Done(rejected(request, path, before.snapshot.revision, d)));
                },
            }
        };
        proof {
            if !replacing {
                assert(current@ == match existing {
                    Some(e) => log_of_bytes(e@.original_bytes)->Ok_0,
                    None => Seq::<OpView>::empty(),
                });
            }
            assert(!(q@.bootstrap && existing is Some));
        }
        assert(progress_plan(text, fs, q@) == ProgressPlan::Propose(proposed_log@));
        match validate_progress_log(path.as_str(), &proposed_log) {
            Err(d) => return Ok(ProgressStep::Done(rejected(request, path, before.snapshot.revision, d))),
            Ok(()) => {},
        }
        let rendered = render_progress_log(&proposed_log);
        let bytes = rendered.as_str().as_bytes_vec();
        let same = match existing {
            Some(e) => same_bytes(&e.original_bytes, &bytes),
            None => false,
        };
        let proposed_files = self.files.overlay(path.as_str(), Some(crate::draft::copy_bytes(&bytes)));
        let text_ref = match &self.activation_text {
            Some(t) => Some(t.as_str()),
            None => None,
        };
        let proposed = scan(text_ref, &proposed_files);
        let ghost after = proposed_files@;
        let diagnostics = scoped_diagnostics(&proposed.diagnostics, prefix.as_str());
        let ids = if request.bootstrap {
            accepted_ticket_ids(&before.snapshot.entries, prefix.as_str())
        } else {
            Vec::new()
        };
        let target_revision = match existing {
            Some(e) => Some(e.content_revision.clone()),
            None => None,
        };
        let old_bytes = match existing {
            Some(e) => Some(crate::draft::copy_bytes(&e.original_bytes)),
            None => None,
        };
        assert(bytes@ == vstd::utf8::encode_utf8(log_text(proposed_log@)));
        assert(same == (existing is Some && existing->0@.original_bytes == bytes@));
        let has_diagnostics = diagnostics.len() > 0;
        let p = ProgressPreview {
            request,
            path: path.clone(),
            expected_target_revision: target_revision,
            expected_store_revision: before.snapshot.revision,
            proposed_store_revision: proposed.snapshot.revision,
            diagnostics,
            diff: String::new(),
            no_op: !has_diagnostics && same,
            bootstrap_ticket_ids: ids,
        };
        assert(scoped_scan(p.diagnostics@, text, after, scope_prefix(q@.investigation)));
        assert(overlaid(fs, after, path@, Some(vstd::utf8::encode_utf8(log_text(proposed_log@)))));
        assert(proposed_progress(p, q, text, fs, proposed_log@));
        if has_diagnostics || same {
            return Ok(ProgressStep::Done(p));
        }
        Ok(ProgressStep::Diff(PendingProgress { path, before: old_bytes, after: bytes, preview: p }))
    }
}

/// The recorded log with the requested operations appended, each checked against the
/// operations recorded before: the same content is not added again, different
/// content under a recorded identity is refused.
pub open spec fn appended(base: Seq<OpView>, reqs: Seq<OpView>) -> Result<Seq<OpView>, Seq<char>>
    decreases reqs.len(),
{
    if reqs.len() == 0 {
        Ok(base)
    } else {
        match appended(base, reqs.drop_last()) {
            Err(m) => Err(m),
            Ok(acc) => match last_with_id(base, reqs.last().id()) {
                Some(c) => if c == reqs.last() {
                    Ok(acc)
                } else {
                    Err("conflicting progress operation ID"@)
                },
                None => Ok(acc.push(reqs.last())),
            },
        }
    }
}

/// The log that applying a request writes over the current log entry.
pub open spec fn materialized(q: ProgressRequestView, current: Option<EntryView>) -> Result<Seq<OpView>, Seq<char>> {
    match q.replacement {
        Some(l) => Ok(l),
        None => match q.replacement_source {
            Some(src) => match progress_verdict(src) {
                Verdict::Accept(l) => Ok(l),
                Verdict::Refuse { message, .. } => Err(message),
            },
            None => match (match current {
                Some(e) => log_of_bytes(e.original_bytes),
                None => Ok(Seq::empty()),
            }) {
                Err(m) => Err(m),
                Ok(base) => appended(base, q.entries),
            },
        },
    }
}

/// Whether the current log already holds what the request asks for.
pub open spec fn completed(q: ProgressRequestView, current: Option<EntryView>) -> Result<bool, Seq<char>> {
    match current {
        None => Ok(false),
        Some(e) => match log_of_bytes(e.original_bytes) {
            Err(m) => Err(m),
            Ok(cur) => if q.bootstrap {
                Ok(true)
            } else {
                match q.replacement {
                    Some(l) => Ok(cur == l),
                    None => match q.replacement_source {
                        Some(src) => match progress_verdict(src) {
                            Verdict::Accept(l) => Ok(cur == l),
                            Verdict::Refuse { message, .. } => Err(message),
                        },
                        None => Ok(forall|i: int| 0 <= i < q.entries.len() ==> cur.contains(#[trigger] q.entries[i])),
                    },
                }
            },
        },
    }
}

fn same_log(a: &ProgressLog, b: &ProgressLog) -> (r: bool)
    ensures
        r == (a@ == b@),
{
    if a.entries.len() != b.entries.len() {
        assert(a@.len() != b@.len());
        return false;
    }
    let mut i: usize = 0;
    while i < a.entries.len()
        invariant
            a.entries@.len() == b.entries@.len(),
            i <= a.entries@.len(),
            forall|j: int| 0 <= j < i ==> a@[j] == b@[j],
        decreases a.entries.len() - i,
    {
        if !same_entry(&a.entries[i], &b.entries[i]) {
            assert(a@[i as int] != b@[i as int]);
            return false;
        }
        i = i + 1;
    }
    assert(a@ =~= b@);
    true
}

fn contains_entry(log: &ProgressLog, e: &ProgressEntry) -> (r: bool)
    ensures
        r == log@.contains(e@),
{
    let mut i: usize = 0;
    while i < log.entries.len()
        invariant
            i <= log.entries@.len(),
            forall|j: int| 0 <= j < i ==> log@[j] != e@,
        decreases log.entries.len() - i,
    {
        if same_entry(&log.entries[i], e) {
            assert(log@[i as int] == e@);
            return true;
        }
        i = i + 1;
    }
    false
}

proof fn lemma_appended_err_stays(base: Seq<OpView>, reqs: Seq<OpView>, n: int)
    requires
        0 <= n <= reqs.len(),
        appended(base, reqs.take(n)) is Err,
    ensures
        appended(base, reqs) == appended(base, reqs.take(n)),
    decreases reqs.len() - n,
{
    if n < reqs.len() {
        assert(reqs.take(n + 1).drop_last() =~= reqs.take(n));
        lemma_appended_err_stays(base, reqs, n + 1);
    } else {
        assert(reqs.take(n) =~= reqs);
    }
}

fn materialize(q: &ProgressChangeRequest, current: Option<&EntrySnapshot>) -> (r: Result<ProgressLog, StoreError>)
    ensures
        match materialized(
            q@,
            match current {
                Some(e) => Some(e@),
                None => None,
            },
        ) {
            Ok(l) => r matches Ok(log) && log@ == l,
            Err(m) => r matches Err(StoreError::Invalid(v)) && v@ == m,
        },
{
    proof {
        reveal_strlit("conflicting progress operation ID");
    }
    if let Some(l) = &q.replacement {
        return Ok(copy_log(l));
    }
    if let Some(src) = &q.replacement_source {
        return read_source("progress/log.toml", src);
    }
    let base = match current {
        Some(e) => match read_log("progress/log.toml", &e.original_bytes) {
            Ok(l) => l,
            Err(err) => return Err(err),
        },
        None => {
            let l = ProgressLog { entries: Vec::new() };
            assert(l@ =~= Seq::<OpView>::empty());
            l
        },
    };
    let ghost bv = base@;
    let ghost rv = q@.entries;
    let ghost cv = match current {
        Some(e) => Some(e@),
        None => None,
    };
    assert(q@.replacement is None);
    assert(q@.replacement_source is None);
    assert(match cv {
        Some(e) => log_of_bytes(e.original_bytes),
        None => Ok(Seq::<OpView>::empty()),
    } == Ok::<Seq<OpView>, Seq<char>>(bv));
    assert(materialized(q@, cv) == appended(bv, rv));
    let mut log = copy_log(&base);
    let mut i: usize = 0;
    assert(rv.take(0) =~= Seq::<OpView>::empty());
    while i < q.entries.len()
        invariant
            cv == match current {
                Some(e) => Some(e@),
                None => None,
            },
            materialized(q@, cv) == appended(bv, rv),
            bv == base@,
            rv == op_views(q.entries@),
            i <= rv.len(),
            appended(bv, rv.take(i as int)) == Ok::<Seq<OpView>, Seq<char>>(log@),
        decreases q.entries.len() - i,
    {
        let e = &q.entries[i];
        proof {
            assert(rv.take(i + 1).drop_last() =~= rv.take(i as int));
            assert(rv.take(i + 1).last() == e@);
        }
        match find_last_with_id(&base.entries, e.id()) {
            Some(c) => {
                if !same_entry(c, e) {
                    proof {
                        assert(last_with_id(bv, e@.id()) == Some(c@));
                        assert(appended(bv, rv.take(i + 1)) == Err::<Seq<OpView>, Seq<char>>("conflicting progress operation ID"@));
                        lemma_appended_err_stays(bv, rv, i + 1);
                        assert(materialized(q@, cv) == Err::<Seq<OpView>, Seq<char>>("conflicting progress operation ID"@));
                    }
                    let msg = "conflicting progress operation ID".to_owned();
                    assert(msg@ == "conflicting progress operation ID"@);

                    return Err(StoreError::Invalid(msg));
                }
            },
            None => {
                let ghost prior = log@;
                log.entries.push(copy_entry(e));
                assert(log@ =~= prior.push(e@));
            },
        }
        i = i + 1;
    }
    assert(rv.take(i as int) =~= rv);
    Ok(log)
}

fn completed_no_op(q: &ProgressChangeRequest, current: Option<&EntrySnapshot>) -> (r: Result<bool, StoreError>)
    ensures
        match completed(
            q@,
            match current {
                Some(e) => Some(e@),
                None => None,
            },
        ) {
            Ok(b) => r == Ok::<bool, StoreError>(b),
            Err(m) => r matches Err(StoreError::Invalid(v)) && v@ == m,
        },
{
    let e = match current {
        Some(e) => e,
        None => return Ok(false),
    };
    let cur = match read_log("progress/log.toml", &e.original_bytes) {
        Ok(l) => l,
        Err(err) => return Err(err),
    };
    if q.bootstrap {
        return Ok(true);
    }
    if let Some(l) = &q.replacement {
        return Ok(same_log(&cur, l));
    }
    if let Some(src) = &q.replacement_source {
        return match read_source("progress/log.toml", src) {
            Ok(l) => Ok(same_log(&cur, &l)),
            Err(err) => Err(err),
        };
    }
    let ghost cv = match current {
        Some(e) => Some(e@),
        None => None,
    };
    assert(completed(q@, cv) == Ok::<bool, Seq<char>>(forall|j: int| 0 <= j < q@.entries.len() ==> cur@.contains(#[trigger] q@.entries[j])));
    let mut i: usize = 0;
    while i < q.entries.len()
        invariant
            cv == match current {
                Some(e) => Some(e@),
                None => None,
            },
            completed(q@, cv) == Ok::<bool, Seq<char>>(forall|j: int| 0 <= j < q@.entries.len() ==> cur@.contains(#[trigger] q@.entries[j])),
            i <= q.entries@.len(),
            forall|j: int| 0 <= j < i ==> cur@.contains(#[trigger] q@.entries[j]),
        decreases q.entries.len() - i,
    {
        if !contains_entry(&cur, &q.entries[i]) {
            assert(!cur@.contains(q@.entries[i as int]));
            assert(!(forall|j: int| 0 <= j < q@.entries.len() ==> cur@.contains(#[trigger] q@.entries[j])));
            return Ok(false);
        }
        i = i + 1;
    }
    Ok(true)
}

/// The write that applying a progress preview asks for: the log's new bytes.
#[derive(Debug)]
pub struct ProgressWrite {
    pub path: String,
    pub bytes: Vec<u8>,
    pub scope_prefix: String,
    pub diff: String,
}

/// What applying a progress preview yields: a result with nothing to write, or the
/// write to make.
#[derive(Debug)]
pub enum ProgressApplyStep {
    Done(ProgressApplyResult),
    Write(ProgressWrite),
}

/// A result that writes nothing, at the root's current revisions.
pub open spec fn unchanged_result(r: ProgressApplyResult, path: Seq<char>, current: Option<EntryView>, revision: Seq<char>, diff: String) -> bool {
    &&& r.path@ == path
    &&& revision_of_entry(r.resulting_target_revision, current)
    &&& r.resulting_store_revision.0@ == revision
    &&& r.diff == diff
    &&& r.no_op
}

/// What applying a progress preview yields on a root.
pub open spec fn progress_applied(r: Result<ProgressApplyStep, StoreError>, p: ProgressPreview, text: Option<Seq<char>>, files: Seq<FileView>) -> bool {
    let q = p.request@;
    let path = progress_log_path(q.investigation);
    let current = entry_at(scan_entries(text, files), path);
    let revision = scan_revision(text, files);
    let stale_store = revision != p.expected_store_revision.0@;
    let stale_target = !revision_of_entry(p.expected_target_revision, current);
    if p.diagnostics@.len() > 0 {
        r matches Err(StoreError::Invalid(v)) && v@ == "progress preview contains validation diagnostics"@
    } else {
        match progress_path_refusal(text, q.investigation) {
            Some(m) => r matches Err(StoreError::Invalid(v)) && v@ == m,
            None => if p.path@ != path {
                r matches Err(StoreError::Invalid(v)) && v@ == "progress preview target does not match request"@
            } else if stale_store || stale_target {
                match completed(q, current) {
                    Err(m) => r matches Err(StoreError::Invalid(v)) && v@ == m,
                    Ok(true) => r matches Ok(ProgressApplyStep::Done(x)) && unchanged_result(x, path, current, revision, p.diff),
                    Ok(false) => if stale_store {
                        r matches Err(StoreError::StaleStoreRevision)
                    } else {
                        r matches Err(StoreError::StaleTargetRevision)
                    },
                }
            } else if p.no_op {
                r matches Ok(ProgressApplyStep::Done(x)) && unchanged_result(x, path, current, revision, p.diff)
            } else {
                match materialized(q, current) {
                    Err(m) => r matches Err(StoreError::Invalid(v)) && v@ == m,
                    Ok(log) => match log_fault(log) {
                        Some(f) => r matches Err(StoreError::Invalid(v)) && v@ == f.1,
                        None => r matches Ok(ProgressApplyStep::Write(w)) && w.path@ == path && w.bytes@
                            == vstd::utf8::encode_utf8(log_text(log)) && w.scope_prefix@ == scope_prefix(q.investigation)
                            && w.diff == p.diff,
                    },
                }
            },
        }
    }
}

impl ProgressWrite {
    /// The result of the write, read from the root as it is afterwards: refused when
    /// the written scope has diagnostics.
    pub fn result(self, after: &Store) -> (r: Result<ProgressApplyResult, StoreError>)
        ensures
            exists|s: Seq<Diagnostic>|
                stable_order_of(s, scan_views(opt_text(after.activation_text), after.files@)) && if scoped(
                    diag_views(s),
                    self.scope_prefix@,
                ).len() > 0 {
                    r matches Err(StoreError::Invalid(v)) && v@ == "post-write progress validation failed"@
                } else {
                    r matches Ok(x) && x.path == self.path && revision_of_entry(
                        x.resulting_target_revision,
                        entry_at(scan_entries(opt_text(after.activation_text), after.files@), self.path@),
                    ) && x.resulting_store_revision.0@ == scan_revision(opt_text(after.activation_text), after.files@)
                        && x.diff == self.diff && !x.no_op
                },
    {
        proof {
            reveal_strlit("post-write progress validation failed");
        }
        let resulting = after.scan();
        let diagnostics = scoped_diagnostics(&resulting.diagnostics, self.scope_prefix.as_str());
        if diagnostics.len() > 0 {
            return Err(StoreError::Invalid("post-write progress validation failed".to_owned()));
        }
        let target = match find_entry(&resulting.snapshot.entries, self.path.as_str()) {
            Some(e) => Some(e.content_revision.clone()),
            None => None,
        };
        Ok(
            ProgressApplyResult {
                path: self.path,
                resulting_target_revision: target,
                resulting_store_revision: resulting.snapshot.revision,
                diff: self.diff,
                no_op: false,
            },
        )
    }
}

fn unchanged(path: String, current: Option<&EntrySnapshot>, revision: &Revision, diff: String) -> (r: ProgressApplyResult)
    ensures
        r.path == path,
        revision_of_entry(
            r.resulting_target_revision,
            match current {
                Some(e) => Some(e@),
                None => None,
            },
        ),
        r.resulting_store_revision == *revision,
        r.diff == diff,
        r.no_op,
{
    ProgressApplyResult {
        path,
        resulting_target_revision: match current {
            Some(e) => Some(e.content_revision.clone()),
            None => None,
        },
        resulting_store_revision: revision.clone(),
        diff,
        no_op: true,
    }
}

impl Store {
    /// Checks that a progress preview still holds and says what to write.
    pub fn apply_progress(&self, preview: ProgressPreview) -> (r: Result<ProgressApplyStep, StoreError>)
        ensures
            progress_applied(r, preview, opt_text(self.activation_text), self.files@),
    {
        let ghost p = preview;
        let ghost text = opt_text(self.activation_text);
        let ghost fs = self.files@;
        proof {
            reveal_strlit("progress preview contains validation diagnostics");
            reveal_strlit("progress preview target does not match request");
        }
        if preview.diagnostics.len() > 0 {
            return Err(StoreError::Invalid("progress preview contains validation diagnostics".to_owned()));
        }
        let (path, prefix) = match self.progress_path(preview.request.investigation.as_str()) {
            Ok(x) => x,
            Err(e) => return Err(e),
        };
        if !str_eq(path.as_str(), preview.path.as_str()) {
            return Err(StoreError::Invalid("progress preview target does not match request".to_owned()));
        }
        let current = self.scan();
        assert(entry_views(current.snapshot.entries@) == scan_entries(text, fs));
        let current_entry = find_entry(&current.snapshot.entries, path.as_str());
        let stale_store = !str_eq(current.snapshot.revision.0.as_str(), preview.expected_store_revision.0.as_str());
        let current_revision = match current_entry {
            Some(e) => Some(&e.content_revision),
            None => None,
        };
        let stale_target = !crate::store::same_revision(&preview.expected_target_revision, current_revision);
        if stale_store || stale_target {
            match completed_no_op(&preview.request, current_entry) {
                Err(e) => return Err(e),
                Ok(true) => {
                    return Ok(ProgressApplyStep::Done(unchanged(path, current_entry, &current.snapshot.revision, preview.diff)));
                },
                Ok(false) => {
                    return Err(
                        if stale_store {
                            StoreError::StaleStoreRevision
                        } else {
                            StoreError::StaleTargetRevision
                        },
                    );
                },
            }
        }
        if preview.no_op {
            return Ok(ProgressApplyStep::Done(unchanged(path, current_entry, &current.snapshot.revision, preview.diff)));
        }
        let log = match materialize(&preview.request, current_entry) {
            Ok(l) => l,
            Err(e) => return Err(e),
        };
        match validate_progress_log(path.as_str(), &log) {
            Err(d) => return Err(StoreError::Invalid(d.message)),
            Ok(()) => {},
        }
        let rendered = render_progress_log(&log);
        let bytes = rendered.as_str().as_bytes_vec();
        Ok(ProgressApplyStep::Write(ProgressWrite { path, bytes, scope_prefix: prefix, diff: preview.diff }))
    }
}

proof fn lemma_last_with_id_recorded(entries: Seq<OpView>, id: Seq<char>)
    ensures
        last_with_id(entries, id) matches Some(c) ==> entries.contains(c),
    decreases entries.len(),
{
    if entries.len() > 0 {
        lemma_last_with_id_recorded(entries.drop_last(), id);
        if let Some(c) = last_with_id(entries, id) {
            if entries.last().id() == id {
                assert(entries[entries.len() - 1] == c);
            } else {
                let k = choose|k: int| 0 <= k < entries.drop_last().len() && entries.drop_last()[k] == c;
                assert(entries[k] == c);
            }
        }
    }
}

proof fn lemma_merged_keeps(recorded: Seq<OpView>, requested: Seq<OpView>)
    ensures
        merged(recorded, requested) matches Ok(l) ==> forall|e: OpView| recorded.contains(e) ==> l.contains(e),
    decreases requested.len(),
{
    if requested.len() > 0 {
        lemma_merged_keeps(recorded, requested.drop_last());
        if let Ok(l) = merged(recorded, requested) {
            let acc = merged(recorded, requested.drop_last())->Ok_0;
            assert forall|e: OpView| recorded.contains(e) implies l.contains(e) by {
                assert(acc.contains(e));
                if l != acc {
                    assert(l == acc.push(requested.last()));
                    let k = choose|k: int| 0 <= k < acc.len() && acc[k] == e;
                    assert(l[k] == e);
                }
            }
        }
    }
}

/// Appending operations is idempotent: the log that an append proposes holds every
/// requested operation, so asking for the same operations again finds them recorded
/// and proposes nothing new.
pub proof fn law_append_records_every_request(recorded: Seq<OpView>, requested: Seq<OpView>)
    ensures
        merged(recorded, requested) matches Ok(l) ==> forall|i: int| 0 <= i < requested.len() ==> l.contains(
            #[trigger] requested[i],
        ),
    decreases requested.len(),
{
    if requested.len() > 0 {
        law_append_records_every_request(recorded, requested.drop_last());
        if let Ok(l) = merged(recorded, requested) {
            let acc = merged(recorded, requested.drop_last())->Ok_0;
            let e = requested.last();
            lemma_merged_keeps(recorded, requested.drop_last());
            lemma_last_with_id_recorded(recorded, e.id());
            assert forall|i: int| 0 <= i < requested.len() implies l.contains(#[trigger] requested[i]) by {
                if i < requested.len() - 1 {
                    assert(requested[i] == requested.drop_last()[i]);
                    assert(acc.contains(requested[i]));
                    if l != acc {
                        let k = choose|k: int| 0 <= k < acc.len() && acc[k] == requested[i];
                        assert(l[k] == requested[i]);
                    }
                } else {
                    if l == acc {
                        assert(last_with_id(recorded, e.id()) == Some(e));
                        assert(recorded.contains(e));
                        assert(acc.contains(e));
                    } else {
                        assert(l[l.len() - 1] == e);
                    }
                }
            }
        }
    }
}

} // verus!
