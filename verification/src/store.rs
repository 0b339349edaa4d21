//! A planning root held in memory, and the checked changes to it: previews that
//! say what a change would do, and applications that check a preview is still current.

use crate::change::{ApplyResult, ChangeRequest, Preview, request_path};
use crate::derived::{DerivedSnapshot, derive_snapshot, opt_text};
use crate::diagnostic::{
    DiagView, Diagnostic, diag, diag_views, introduced, introduced_diagnostics, lemma_introduced_by_views, plain, stable_order_of,
};
use crate::draft::{render_verdict};
use crate::layout::{kind_for, kind_for_path, safe_relative, safe_relative_spec};
use crate::record::{EntrySnapshot, EntryView, Kind, Revision, draft_kind, entry_views};
use crate::scanning::{FileSet, FileView, ScanResult, overlaid, opt_bytes, refusal_view, scan, scan_active, scan_entries, scan_revision, scan_views, scanned};
use crate::text::{chars_of, is_prefix, push_str, split_chars, split_seq, starts_with, string_of};
use crate::verdict::Verdict;
use vstd::prelude::*;

verus! {

/// Why a store operation failed. An input or output failure carries the text the
/// operating system gave for it.
#[derive(Debug)]
pub enum StoreError {
    Io(String),
    Invalid(String),
    StaleStoreRevision,
    StaleTargetRevision,
}

/// A planning root as it was read: the text of its `casefile.toml`, if it has one,
/// and every file under it.
#[derive(Debug)]
pub struct Store {
    pub activation_text: Option<String>,
    pub files: FileSet,
}

/// The first entry with this path.
pub open spec fn entry_at(es: Seq<EntryView>, path: Seq<char>) -> Option<EntryView>
    decreases es.len(),
{
    if es.len() == 0 {
        None
    } else if es[0].path == path {
        Some(es[0])
    } else {
        entry_at(es.drop_first(), path)
    }
}

/// The first entry with this path.
pub fn find_entry<'a>(entries: &'a Vec<EntrySnapshot>, path: &str) -> (r: Option<&'a EntrySnapshot>)
    ensures
        match r {
            Some(e) => entry_at(entry_views(entries@), path@) == Some(e@),
            None => entry_at(entry_views(entries@), path@) is None,
        },
{
    let ghost ev = entry_views(entries@);
    let mut i: usize = 0;
    assert(ev.skip(0) =~= ev);
    while i < entries.len()
        invariant
            ev == entry_views(entries@),
            i <= ev.len(),
            entry_at(ev, path@) == entry_at(ev.skip(i as int), path@),
        decreases entries.len() - i,
    {
        assert(ev.skip(i as int)[0] == entries@[i as int]@);
        if crate::text::str_eq(entries[i].path.as_str(), path) {
            return Some(&entries[i]);
        }
        assert(ev.skip(i as int).drop_first() =~= ev.skip(i + 1));
        i = i + 1;
    }
    None
}

/// The text of `str::lines`: pieces between line feeds, each without the carriage
/// return that ends it, and no empty piece after a final line feed.
pub open spec fn lines_of(s: Seq<char>) -> Seq<Seq<char>> {
    if s.len() == 0 {
        Seq::empty()
    } else if s.last() == '\n' {
        split_seq(s.drop_last(), '\n').map_values(|l: Seq<char>| strip_cr(l))
    } else {
        let parts = split_seq(s, '\n');
        parts.drop_last().map_values(|l: Seq<char>| strip_cr(l)).push(parts.last())
    }
}

/// A line without the carriage return that ends it.
pub open spec fn strip_cr(l: Seq<char>) -> Seq<char> {
    if l.len() > 0 && l.last() == '\r' {
        l.drop_last()
    } else {
        l
    }
}

/// Lines joined by line feeds.
pub open spec fn join_lines(ls: Seq<Seq<char>>) -> Seq<char>
    decreases ls.len(),
{
    if ls.len() == 0 {
        Seq::empty()
    } else if ls.len() == 1 {
        ls[0]
    } else {
        join_lines(ls.drop_last()) + "\n"@ + ls.last()
    }
}

/// One line of a diff with its file names replaced by the record path: `a/` and `b/`
/// names for a side that exists, `/dev/null` for one that does not.
pub open spec fn canonical_line(line: Seq<char>, path: Seq<char>, before: bool, after: bool, binary: bool) -> Seq<char> {
    let old_name = if before {
        "a/"@ + path
    } else {
        "/dev/null"@
    };
    let new_name = if after {
        "b/"@ + path
    } else {
        "/dev/null"@
    };
    if is_prefix("diff --git "@, line) {
        "diff --git a/"@ + path + " b/"@ + path
    } else if is_prefix("--- "@, line) {
        "--- "@ + old_name
    } else if is_prefix("+++ "@, line) {
        "+++ "@ + new_name
    } else if binary && is_prefix("Binary files "@, line) {
        "Binary files "@ + old_name + " and "@ + new_name + " differ"@
    } else {
        line
    }
}

/// A diff between two temporary files rewritten to name the record path.
pub open spec fn canonical_diff_text(diff: Seq<char>, path: Seq<char>, before: bool, after: bool, binary: bool) -> Seq<char> {
    join_lines(lines_of(diff).map_values(|l: Seq<char>| canonical_line(l, path, before, after, binary))) + if diff.len() > 0
        && diff.last() == '\n' {
        "\n"@
    } else {
        Seq::empty()
    }
}

fn side_name(prefix: &str, path: &str, exists: bool) -> (r: String)
    ensures
        r@ == (if exists {
            prefix@ + path@
        } else {
            "/dev/null"@
        }),
{
    if exists {
        let mut r = prefix.to_owned();
        push_str(&mut r, path);
        r
    } else {
        proof {
            reveal_strlit("/dev/null");
        }
        "/dev/null".to_owned()
    }
}

fn canonical_line_text(line: &str, path: &str, before: bool, after: bool, binary: bool) -> (r: String)
    ensures
        r@ == canonical_line(line@, path@, before, after, binary),
{
    proof {
        reveal_strlit("a/");
        reveal_strlit("b/");
        reveal_strlit("diff --git ");
        reveal_strlit("diff --git a/");
        reveal_strlit(" b/");
        reveal_strlit("--- ");
        reveal_strlit("+++ ");
        reveal_strlit("Binary files ");
        reveal_strlit(" and ");
        reveal_strlit(" differ");
    }
    let old_name = side_name("a/", path, before);
    let new_name = side_name("b/", path, after);
    if starts_with(line, "diff --git ") {
        let mut r = "diff --git a/".to_owned();
        push_str(&mut r, path);
        push_str(&mut r, " b/");
        push_str(&mut r, path);
        r
    } else if starts_with(line, "--- ") {
        let mut r = "--- ".to_owned();
        push_str(&mut r, old_name.as_str());
        r
    } else if starts_with(line, "+++ ") {
        let mut r = "+++ ".to_owned();
        push_str(&mut r, new_name.as_str());
        r
    } else if binary && starts_with(line, "Binary files ") {
        let mut r = "Binary files ".to_owned();
        push_str(&mut r, old_name.as_str());
        push_str(&mut r, " and ");
        push_str(&mut r, new_name.as_str());
        push_str(&mut r, " differ");
        r
    } else {
        line.to_owned()
    }
}

/// Rewrites a diff of two temporary files so that it names the record path.
pub fn canonical_diff(diff: &str, path: &str, before: bool, after: bool, binary: bool) -> (r: String)
    ensures
        r@ == canonical_diff_text(diff@, path@, before, after, binary),
{
    proof {
        reveal_strlit("\n");
        reveal_strlit("");
    }
    let cs = chars_of(diff);
    let n = cs.len();
    if n == 0 {
        assert(lines_of(diff@) =~= Seq::<Seq<char>>::empty());
        assert(lines_of(diff@).map_values(|l: Seq<char>| canonical_line(l, path@, before, after, binary)) =~= Seq::<
            Seq<char>,
        >::empty());
        return "".to_owned();
    }
    let ends = cs[n - 1] == '\n';
    let body = if ends {
        crate::text::copy_range(cs.as_slice(), 0, n - 1)
    } else {
        crate::text::copy_range(cs.as_slice(), 0, n)
    };
    assert(body@ =~= if ends {
        diff@.drop_last()
    } else {
        diff@
    });
    let parts = split_chars(body.as_slice(), '\n');
    let ghost ps = split_seq(body@, '\n');
    proof {
        crate::text::lemma_split_nonempty(body@, '\n');
    }
    let ghost ls = lines_of(diff@);
    assert(ls.len() == ps.len());
    let ghost mapped = ls.map_values(|l: Seq<char>| canonical_line(l, path@, before, after, binary));
    let mut out = String::new();
    let mut k: usize = 0;
    while k < parts.len()
        invariant
            parts@.len() == ps.len(),
            forall|i: int| 0 <= i < parts@.len() ==> #[trigger] parts@[i]@ == ps[i],
            ps == split_seq(body@, '\n'),
            ls == lines_of(diff@),
            ls.len() == ps.len(),
            ps.len() >= 1,
            mapped == ls.map_values(|l: Seq<char>| canonical_line(l, path@, before, after, binary)),
            diff@.len() > 0,
            ends == (diff@.last() == '\n'),
            body@ == (if ends {
                diff@.drop_last()
            } else {
                diff@
            }),
            k <= parts@.len(),
            out@ == join_lines(mapped.take(k as int)),
        decreases parts.len() - k,
    {
        let piece = &parts[k];
        let line_chars = if (ends || k + 1 < parts.len()) && piece.len() > 0 && piece[piece.len() - 1] == '\r' {
            crate::text::copy_range(piece.as_slice(), 0, piece.len() - 1)
        } else {
            crate::text::copy_range(piece.as_slice(), 0, piece.len())
        };
        proof {
            assert(parts@[k as int]@ == ps[k as int]);
            if ends {
                assert(ls[k as int] == strip_cr(ps[k as int]));
            } else if k + 1 < parts@.len() {
                assert(ps.drop_last()[k as int] == ps[k as int]);
                assert(ls[k as int] == strip_cr(ps[k as int]));
            } else {
                assert(ls[k as int] == ps.last());
            }
            assert(line_chars@ =~= ls[k as int]);
        }
        let line = string_of(line_chars.as_slice());
        let mapped_line = canonical_line_text(line.as_str(), path, before, after, binary);
        let ghost prior = out@;
        if k > 0 {
            push_str(&mut out, "\n");
        }
        push_str(&mut out, mapped_line.as_str());
        proof {
            assert(mapped.take(k + 1).drop_last() =~= mapped.take(k as int));
            assert(mapped.take(k + 1).last() == mapped[k as int]);
            if k == 0 {
                assert(out@ =~= mapped.take(1)[0]);
            } else {
                assert(out@ =~= join_lines(mapped.take(k as int)) + "\n"@ + mapped[k as int]);
            }
        }
        k = k + 1;
    }
    assert(mapped.take(k as int) =~= mapped);
    if ends {
        push_str(&mut out, "\n");
    } else {
        assert(out@ =~= out@ + Seq::<char>::empty());
    }
    out
}

/// The bytes a change would leave at its path: the rendered record, or none for a delete.
pub open spec fn change_bytes(req: ChangeRequest) -> Option<Seq<u8>> {
    match req {
        ChangeRequest::Create { path, draft } => Some(vstd::utf8::encode_utf8(render_verdict(path@, draft@)->Accept_0)),
        ChangeRequest::Replace { path, draft } => Some(vstd::utf8::encode_utf8(render_verdict(path@, draft@)->Accept_0)),
        ChangeRequest::Delete { .. } => None,
    }
}

/// The kind a change writes: its draft's, or for a delete the existing record's.
pub open spec fn change_kind(req: ChangeRequest, existing: Option<EntryView>) -> Option<Kind> {
    match req {
        ChangeRequest::Create { draft, .. } => Some(draft_kind(draft)),
        ChangeRequest::Replace { draft, .. } => Some(draft_kind(draft)),
        ChangeRequest::Delete { .. } => match existing {
            Some(e) => e.kind,
            None => None,
        },
    }
}

/// The diagnostic that refuses a change to a root, if one does: the draft does not
/// render, the path is not the canonical place of a writable kind, or the target's
/// presence is not what the change needs.
pub open spec fn change_refusal(text: Option<Seq<char>>, files: Seq<FileView>, req: ChangeRequest) -> Option<DiagView> {
    let path = request_path(req);
    let existing = entry_at(scan_entries(text, files), path);
    let rendered = match req {
        ChangeRequest::Create { path, draft } => render_verdict(path@, draft@),
        ChangeRequest::Replace { path, draft } => render_verdict(path@, draft@),
        ChangeRequest::Delete { .. } => Verdict::Accept(Seq::empty()),
    };
    let kind = change_kind(req, existing);
    if rendered is Refuse {
        Some(refusal_view(path, rendered))
    } else if !(kind is Some && kind->0.writable()) || kind_for(path, scan_active(text)) != kind {
        Some(
            plain(
                path,
                "read_only_or_wrong_path"@,
                "only complete ticket, epic, and board drafts may target their canonical path"@,
            ),
        )
    } else if req is Create && existing is Some {
        Some(plain(path, "target_exists"@, "create requires an absent target"@))
    } else if req is Replace && existing is None {
        Some(plain(path, "target_missing"@, "replace requires an existing target"@))
    } else if req is Delete && existing is None {
        Some(plain(path, "target_missing"@, "delete requires an existing target"@))
    } else {
        None
    }
}

/// The expected revision of a target matches the entry it names.
pub open spec fn revision_of_entry(r: Option<Revision>, e: Option<EntryView>) -> bool {
    match r {
        Some(v) => e is Some && v.0@ == e->0.content_revision,
        None => e is None,
    }
}

/// A preview that refuses a change with one diagnostic, at the root's revision.
pub open spec fn refused_preview(p: Preview, req: ChangeRequest, d: DiagView, revision: Seq<char>) -> bool {
    &&& p.request == req
    &&& p.expected_target_revision is None
    &&& p.expected_store_revision.0@ == revision
    &&& p.proposed_store_revision.0@ == revision
    &&& diag_views(p.diagnostics@) == seq![d]
    &&& p.diff@ == Seq::<char>::empty()
}

/// A previewed change that awaits only its diff: the bytes before and after at its
/// path, and the preview with the revisions and diagnostics of the changed root.
#[derive(Debug)]
pub struct PendingPreview {
    pub path: String,
    pub before: Option<Vec<u8>>,
    pub after: Option<Vec<u8>>,
    pub preview: Preview,
}

/// What previewing a change yields: a refusal, or a preview that awaits the diff
/// between the bytes before and after.
#[derive(Debug)]
pub enum PreviewStep {
    Done(Preview),
    Diff(PendingPreview),
}

/// `d` previews `req` on the root: its bytes before and after, the revisions before,
/// and the revision of the root with the change made, with those of its diagnostics
/// that the root did not have before (in stable order).
pub open spec fn pending_preview(d: PendingPreview, req: ChangeRequest, text: Option<Seq<char>>, files: Seq<FileView>) -> bool {
    let path = request_path(req);
    let existing = entry_at(scan_entries(text, files), path);
    &&& d.path@ == path
    &&& opt_bytes(d.before) == match existing {
        Some(e) => Some(e.original_bytes),
        None => None,
    }
    &&& opt_bytes(d.after) == change_bytes(req)
    &&& d.preview.request == req
    &&& revision_of_entry(d.preview.expected_target_revision, existing)
    &&& d.preview.expected_store_revision.0@ == scan_revision(text, files)
    &&& d.preview.diff@ == Seq::<char>::empty()
    &&& exists|after: Seq<FileView>, full: Seq<Diagnostic>|
        overlaid(files, after, path, change_bytes(req)) && d.preview.proposed_store_revision.0@ == scan_revision(text, after)
            && stable_order_of(full, scan_views(text, after)) && d.preview.diagnostics@ == introduced(
            full,
            scan_views(text, files),
        )
}

impl PendingPreview {
    /// The preview with the diff of its two sides, given the diff of two files that
    /// hold them.
    pub fn finish(self, raw_diff: &str) -> (r: Preview)
        ensures
            r.request == self.preview.request,
            r.expected_target_revision == self.preview.expected_target_revision,
            r.expected_store_revision == self.preview.expected_store_revision,
            r.proposed_store_revision == self.preview.proposed_store_revision,
            r.diagnostics == self.preview.diagnostics,
            r.diff@ == canonical_diff_text(raw_diff@, self.path@, self.before is Some, self.after is Some, true),
    {
        let diff = canonical_diff(raw_diff, self.path.as_str(), self.before.is_some(), self.after.is_some(), true);
        let PendingPreview { path, before, after, preview } = self;
        Preview { diff, ..preview }
    }
}

/// The file write that applying a preview asks for: new bytes at a path (created
/// only if absent, when `create`), or its removal.
#[derive(Debug)]
pub struct WriteAction {
    pub path: String,
    pub bytes: Option<Vec<u8>>,
    pub create: bool,
    pub diff: String,
}

impl WriteAction {
    /// The result of the write, read from the root as it is afterwards.
    pub fn result(self, after: &Store) -> (r: ApplyResult)
        ensures
            r.path == self.path,
            r.diff == self.diff,
            revision_of_entry(
                r.resulting_target_revision,
                entry_at(scan_entries(opt_text(after.activation_text), after.files@), self.path@),
            ),
            r.resulting_store_revision.0@ == scan_revision(opt_text(after.activation_text), after.files@),
    {
        let resulting = after.scan();
        let target = match find_entry(&resulting.snapshot.entries, self.path.as_str()) {
            Some(e) => Some(e.content_revision.clone()),
            None => None,
        };
        ApplyResult { path: self.path, resulting_target_revision: target, resulting_store_revision: resulting.snapshot.revision, diff: self.diff }
    }
}

pub fn same_revision(a: &Option<Revision>, b: Option<&Revision>) -> (r: bool)
    ensures
        r == match (a, b) {
            (Some(x), Some(y)) => x.0@ == y.0@,
            (None, None) => true,
            _ => false,
        },
{
    match (a, b) {
        (Some(x), Some(y)) => crate::text::str_eq(x.0.as_str(), y.0.as_str()),
        (None, None) => true,
        _ => false,
    }
}

/// What applying a preview yields on a root: refused when the preview has
/// diagnostics, when the root or the target changed since it, or when its path is not
/// contained; else the write of the draft's rendering, or the removal of the file.
pub open spec fn applied(r: Result<WriteAction, StoreError>, preview: Preview, text: Option<Seq<char>>, files: Seq<FileView>) -> bool {
    let path = request_path(preview.request);
    let existing = entry_at(scan_entries(text, files), path);
    if preview.diagnostics@.len() > 0 {
        r matches Err(StoreError::Invalid(m)) && m@ == "preview contains validation diagnostics"@
    } else if scan_revision(text, files) != preview.expected_store_revision.0@ {
        r matches Err(StoreError::StaleStoreRevision)
    } else if !safe_relative_spec(path) {
        r matches Err(StoreError::Invalid(m)) && m@ == "path must be a contained relative path"@
    } else if !revision_of_entry(preview.expected_target_revision, existing) {
        r matches Err(StoreError::StaleTargetRevision)
    } else {
        match preview.request {
            ChangeRequest::Delete { .. } => r matches Ok(w) && w.path@ == path && w.bytes is None && !w.create
                && w.diff == preview.diff,
            ChangeRequest::Create { path: p, draft } | ChangeRequest::Replace { path: p, draft } => match render_verdict(
                p@,
                draft@,
            ) {
                Verdict::Refuse { message, .. } => r matches Err(StoreError::Invalid(m)) && m@ == message,
                Verdict::Accept(t) => r matches Ok(w) && w.path@ == path && opt_bytes(w.bytes) == Some(
                    vstd::utf8::encode_utf8(t),
                ) && w.create == (preview.request is Create) && w.diff == preview.diff,
            },
        }
    }
}

/// Scanning is repeatable: two scans of the same root agree on the activation state,
/// the entries, the store revision and the diagnostics in their order.
pub proof fn law_scan_is_repeatable(text: Option<Seq<char>>, files: Seq<FileView>, r1: ScanResult, r2: ScanResult)
    requires
        scanned(text, files, r1),
        scanned(text, files, r2),
    ensures
        r1.activation == r2.activation,
        entry_views(r1.snapshot.entries@) == entry_views(r2.snapshot.entries@),
        r1.snapshot.revision.0@ == r2.snapshot.revision.0@,
        diag_views(r1.diagnostics@) == diag_views(r2.diagnostics@),
{
    crate::schema::lemma_scan_views_current(text, files);
    crate::diagnostic::lemma_stable_order_unique(r1.diagnostics@, r2.diagnostics@, scan_views(text, files));
}

/// The read model of a root agrees with any scan of it: the same store revision, the
/// same diagnostics in the same order, and one record per entry with the entry's path,
/// classification and kind.
pub proof fn law_read_model_agrees_with_scan(
    text: Option<Seq<char>>,
    files: Seq<FileView>,
    d: DerivedSnapshot,
    s: ScanResult,
)
    requires
        exists|s0: ScanResult| scanned(text, files, s0) && crate::derived::derived_from(d, s0, scan_active(text)),
        scanned(text, files, s),
    ensures
        d.source_revision.0@ == s.snapshot.revision.0@,
        diag_views(d.diagnostics@) == diag_views(s.diagnostics@),
        crate::derived::record_views(d.records@).len() == s.snapshot.entries@.len(),
        forall|i: int|
            0 <= i < s.snapshot.entries@.len() ==> {
                let rec = #[trigger] crate::derived::record_views(d.records@)[i];
                let e = s.snapshot.entries@[i]@;
                rec.path == e.path && rec.classification == e.classification && rec.kind == e.kind
            },
{
    let s0 = choose|s0: ScanResult| scanned(text, files, s0) && crate::derived::derived_from(d, s0, scan_active(text));
    law_scan_is_repeatable(text, files, s0, s);
    let es = entry_views(s.snapshot.entries@);
    assert forall|i: int| 0 <= i < s.snapshot.entries@.len() implies {
        let rec = #[trigger] crate::derived::record_views(d.records@)[i];
        let e = s.snapshot.entries@[i]@;
        rec.path == e.path && rec.classification == e.classification && rec.kind == e.kind
    } by {
        assert(es[i] == s.snapshot.entries@[i]@);
    }
}

impl Store {
    /// Scans the root.
    pub fn scan(&self) -> (r: ScanResult)
        ensures
            scanned(opt_text(self.activation_text), self.files@, r),
            crate::scanning::entry_paths_ascend(entry_views(r.snapshot.entries@)),
    {
        let text = match &self.activation_text {
            Some(t) => Some(t.as_str()),
            None => None,
        };
        scan(text, &self.files)
    }

    fn active(&self) -> (r: crate::activation::Activation)
        ensures
            r@ == scan_active(opt_text(self.activation_text)),
    {
        let text = match &self.activation_text {
            Some(t) => Some(t.as_str()),
            None => None,
        };
        let (_, active, _) = crate::activation::activation(text);
        proof {
            let o = crate::activation::activation_outcome(opt_text(self.activation_text));
            if o.1 is None {
                assert(active@.projects =~= Seq::<(Seq<char>, crate::activation::ProjectView)>::empty());
            }
        }
        active
    }

    /// The read model of the root.
    pub fn derived_snapshot(&self) -> (r: DerivedSnapshot)
        ensures
            exists|s: ScanResult|
                scanned(opt_text(self.activation_text), self.files@, s) && crate::derived::derived_from(
                    r,
                    s,
                    scan_active(opt_text(self.activation_text)),
                ),
    {
        let s = self.scan();
        let active = self.active();
        let r = derive_snapshot(&s, &active);
        assert(crate::derived::derived_from(r, s, scan_active(opt_text(self.activation_text))));
        r
    }

    /// Previews a change: refused when the path is not contained; otherwise either a
    /// preview that refuses it with one diagnostic, or the change made on a copy of the
    /// root, awaiting only its diff.
    pub fn preview(&self, request: ChangeRequest) -> (r: Result<PreviewStep, StoreError>)
        ensures
            r is Err <==> !safe_relative_spec(request_path(request)),
            r matches Err(e) ==> e matches StoreError::Invalid(m) && m@ == "path must be a contained relative path"@,
            r matches Ok(PreviewStep::Done(p)) ==> change_refusal(opt_text(self.activation_text), self.files@, request) matches Some(
                d,
            ) && refused_preview(p, request, d, scan_revision(opt_text(self.activation_text), self.files@)),
            r matches Ok(PreviewStep::Diff(d)) ==> change_refusal(opt_text(self.activation_text), self.files@, request) is None
                && pending_preview(d, request, opt_text(self.activation_text), self.files@),
    {
        proof {
            use_type_invariant(&self.files);
        }
        let ghost text = opt_text(self.activation_text);
        let ghost fs = self.files@;
        let before = self.scan();
        if !safe_relative(request.path()) {
            proof {
                reveal_strlit("path must be a contained relative path");
            }
            return Err(StoreError::Invalid("path must be a contained relative path".to_owned()));
        }
        let path = request.path().to_owned();
        let existing = find_entry(&before.snapshot.entries, path.as_str());
        let ghost ex = entry_at(scan_entries(text, fs), path@);
        assert(entry_views(before.snapshot.entries@) == scan_entries(text, fs));
        let rendered = request.rendered();
        let proposed_bytes: Option<Vec<u8>> = match rendered {
            Some(Ok(bytes)) => Some(bytes),
            Some(Err(d)) => {
                let revision = before.snapshot.revision;
                let p = Preview {
                    request,
                    expected_target_revision: None,
                    expected_store_revision: revision.clone(),
                    proposed_store_revision: revision,
                    diagnostics: vec![d],
                    diff: String::new(),
                };
                assert(diag_views(p.diagnostics@) =~= seq![d@]);
                return Ok(PreviewStep::Done(p));
            },
            None => None,
        };
        let writable: Option<Kind> = match &request {
            ChangeRequest::Create { draft, .. } => Some(draft.kind()),
            ChangeRequest::Replace { draft, .. } => Some(draft.kind()),
            ChangeRequest::Delete { .. } => match existing {
                Some(e) => e.kind,
                None => None,
            },
        };
        let active = self.active();
        let path_kind = kind_for_path(path.as_str(), &active);
        let refusal: Option<Diagnostic> = if !(match writable {
            Some(k) => k.is_writable(),
            None => false,
        }) || path_kind != writable {
            Some(diag(path.as_str(), "read_only_or_wrong_path", "only complete ticket, epic, and board drafts may target their canonical path"))
        } else {
            match (&request, existing) {
                (ChangeRequest::Create { .. }, Some(_)) => Some(diag(path.as_str(), "target_exists", "create requires an absent target")),
                (ChangeRequest::Replace { .. }, None) => Some(diag(path.as_str(), "target_missing", "replace requires an existing target")),
                (ChangeRequest::Delete { .. }, None) => Some(diag(path.as_str(), "target_missing", "delete requires an existing target")),
                _ => None,
            }
        };
        if let Some(d) = refusal {
            let revision = before.snapshot.revision;
            let p = Preview {
                request,
                expected_target_revision: None,
                expected_store_revision: revision.clone(),
                proposed_store_revision: revision,
                diagnostics: vec![d],
                diff: String::new(),
            };
            assert(diag_views(p.diagnostics@) =~= seq![d@]);
            return Ok(PreviewStep::Done(p));
        }
        let old_bytes = match existing {
            Some(e) => Some(crate::draft::copy_bytes(&e.original_bytes)),
            None => None,
        };
        let target_revision = match existing {
            Some(e) => Some(e.content_revision.clone()),
            None => None,
        };
        let overlay_bytes = match &proposed_bytes {
            Some(b) => Some(crate::draft::copy_bytes(b)),
            None => None,
        };
        let proposed_files = self.files.overlay(path.as_str(), overlay_bytes);
        let text_ref = match &self.activation_text {
            Some(t) => Some(t.as_str()),
            None => None,
        };
        let proposed = scan(text_ref, &proposed_files);
        let ghost after = proposed_files@;
        let fresh = introduced_diagnostics(&proposed.diagnostics, &before.diagnostics);
        proof {
            lemma_introduced_by_views(proposed.diagnostics@, before.diagnostics@, scan_views(opt_text(self.activation_text), fs));
        }
        let ghost full = proposed.diagnostics@;
        let p = Preview {
            request,
            expected_target_revision: target_revision,
            expected_store_revision: before.snapshot.revision,
            proposed_store_revision: proposed.snapshot.revision,
            diagnostics: fresh,
            diff: String::new(),
        };
        let d = PendingPreview { path, before: old_bytes, after: proposed_bytes, preview: p };
        assert(overlaid(fs, after, request_path(request), change_bytes(request)));
        Ok(PreviewStep::Diff(d))
    }

    /// Checks that a preview still holds and says what to write: refused when it has
    /// diagnostics, when the root or the target changed since, or when its path is not
    /// contained; a create or replace writes the draft's rendering, a delete removes
    /// the file.
    pub fn apply(&self, preview: Preview) -> (r: Result<WriteAction, StoreError>)
        ensures
            applied(r, preview, opt_text(self.activation_text), self.files@),
    {
        if preview.diagnostics.len() > 0 {
            proof {
                reveal_strlit("preview contains validation diagnostics");
            }
            return Err(StoreError::Invalid("preview contains validation diagnostics".to_owned()));
        }
        let current = self.scan();
        if !crate::text::str_eq(current.snapshot.revision.0.as_str(), preview.expected_store_revision.0.as_str()) {
            return Err(StoreError::StaleStoreRevision);
        }
        if !safe_relative(preview.request.path()) {
            proof {
                reveal_strlit("path must be a contained relative path");
            }
            return Err(StoreError::Invalid("path must be a contained relative path".to_owned()));
        }
        let path = preview.request.path().to_owned();
        let current_entry = find_entry(&current.snapshot.entries, path.as_str());
        let current_revision = match current_entry {
            Some(e) => Some(&e.content_revision),
            None => None,
        };
        if !same_revision(&preview.expected_target_revision, current_revision) {
            return Err(StoreError::StaleTargetRevision);
        }
        let create = match &preview.request {
            ChangeRequest::Create { .. } => true,
            _ => false,
        };
        match preview.request.rendered() {
            Some(Ok(bytes)) => Ok(WriteAction { path, bytes: Some(bytes), create, diff: preview.diff }),
            Some(Err(d)) => Err(StoreError::Invalid(d.message)),
            None => Ok(WriteAction { path, bytes: None, create: false, diff: preview.diff }),
        }
    }
}

/// Messages joined by `; `.
pub open spec fn join_messages(ds: Seq<DiagView>) -> Seq<char>
    decreases ds.len(),
{
    if ds.len() == 0 {
        Seq::empty()
    } else if ds.len() == 1 {
        ds[0].message
    } else {
        join_messages(ds.drop_last()) + "; "@ + ds.last().message
    }
}

/// The messages of diagnostics joined by `; `.
pub fn joined_messages(ds: &Vec<Diagnostic>) -> (r: String)
    ensures
        r@ == join_messages(diag_views(ds@)),
{
    proof {
        reveal_strlit("; ");
    }
    let ghost dv = diag_views(ds@);
    let mut out = String::new();
    let mut i: usize = 0;
    assert(dv.take(0) =~= Seq::<DiagView>::empty());
    while i < ds.len()
        invariant
            dv == diag_views(ds@),
            i <= ds@.len(),
            out@ == join_messages(dv.take(i as int)),
        decreases ds.len() - i,
    {
        if i > 0 {
            push_str(&mut out, "; ");
        }
        push_str(&mut out, ds[i].message.as_str());
        proof {
            assert(dv.take(i + 1).drop_last() =~= dv.take(i as int));
            assert(dv.take(i + 1).last() == ds@[i as int]@);
            if i == 0 {
                assert(out@ =~= dv.take(1)[0].message);
            }
        }
        i = i + 1;
    }
    assert(dv.take(i as int) =~= dv);
    out
}

/// `s` without the `/` characters that end it.
pub open spec fn trim_slashes(s: Seq<char>) -> Seq<char>
    decreases s.len(),
{
    if s.len() > 0 && s.last() == '/' {
        trim_slashes(s.drop_last())
    } else {
        s
    }
}

/// `str::trim_end_matches('/')`.
pub fn trim_end_slashes(s: &str) -> (r: String)
    ensures
        r@ == trim_slashes(s@),
{
    let cs = chars_of(s);
    let mut n = cs.len();
    assert(cs@.take(n as int) =~= s@);
    while n > 0 && cs[n - 1] == '/'
        invariant
            cs@ == s@,
            n <= cs@.len(),
            trim_slashes(s@) == trim_slashes(cs@.take(n as int)),
        decreases n,
    {
        assert(cs@.take(n as int).drop_last() =~= cs@.take(n - 1));
        n = n - 1;
    }
    let t = crate::text::copy_range(cs.as_slice(), 0, n);
    assert(t@ =~= cs@.take(n as int));
    string_of(t.as_slice())
}

/// The relative path of an investigation's writer binding file.
pub open spec fn binding_target(investigation: Seq<char>) -> Seq<char> {
    trim_slashes(investigation) + "/strategy/bindings.toml"@
}

/// Why replacing an investigation's writer binding with `source` is refused, if it is:
/// implementation work is active, the path is not contained or not an activated
/// investigation's binding, or the source is not a valid binding.
pub open spec fn binding_refusal(text: Option<Seq<char>>, investigation: Seq<char>, source: Seq<char>, implementation_active: bool) -> Option<Seq<char>> {
    if implementation_active {
        Some("cannot replace a writer binding while implementation work is active"@)
    } else if !safe_relative_spec(investigation) {
        Some("investigation path must be contained"@)
    } else if kind_for(binding_target(investigation), scan_active(text)) != Some(Kind::StrategyBinding) {
        Some("binding path is not an activated investigation binding"@)
    } else {
        match crate::strategy::binding_result(source) {
            Err(f) => Some(f.message),
            Ok(_) => None,
        }
    }
}

impl Store {
    /// Checks a replacement of an investigation's writer binding; on success, the
    /// strategy directory whose `bindings.toml` is to be replaced with `source`.
    pub fn replace_strategy_binding(&self, investigation: &str, source: &str, implementation_active: bool) -> (r: Result<String, StoreError>)
        ensures
            match binding_refusal(opt_text(self.activation_text), investigation@, source@, implementation_active) {
                Some(m) => r matches Err(StoreError::Invalid(v)) && v@ == m,
                None => r matches Ok(dir) && dir@ == trim_slashes(investigation@) + "/strategy"@,
            },
    {
        proof {
            reveal_strlit("/strategy/bindings.toml");
            reveal_strlit("/strategy");
        }
        if implementation_active {
            return Err(StoreError::Invalid("cannot replace a writer binding while implementation work is active".to_owned()));
        }
        if !safe_relative(investigation) {
            return Err(StoreError::Invalid("investigation path must be contained".to_owned()));
        }
        let binding = trim_end_slashes(investigation);
        let mut target = binding.clone();
        push_str(&mut target, "/strategy/bindings.toml");
        let active = self.active();
        if kind_for_path(target.as_str(), &active) != Some(Kind::StrategyBinding) {
            return Err(StoreError::Invalid("binding path is not an activated investigation binding".to_owned()));
        }
        match crate::strategy::parse_binding(target.as_str(), source) {
            Err(ds) => {
                let m = joined_messages(&ds);
                proof {
                    assert(diag_views(ds@) =~= seq![ds@[0]@]);
                }
                return Err(StoreError::Invalid(m));
            },
            Ok(_) => {},
        }
        let mut dir = binding;
        push_str(&mut dir, "/strategy");
        Ok(dir)
    }
}

/// A change previewed on a root and applied to the same root is written as previewed:
/// when the preview raised no diagnostics, applying it writes the previewed bytes at
/// the previewed path (or removes the file for a delete), creating only for a create.
pub proof fn law_preview_then_apply(
    text: Option<Seq<char>>,
    files: Seq<FileView>,
    q: ChangeRequest,
    d: PendingPreview,
    r: Result<WriteAction, StoreError>,
)
    requires
        safe_relative_spec(request_path(q)),
        change_refusal(text, files, q) is None,
        pending_preview(d, q, text, files),
        d.preview.diagnostics@.len() == 0,
        applied(r, d.preview, text, files),
    ensures
        r matches Ok(w) && w.path@ == d.path@ && opt_bytes(w.bytes) == opt_bytes(d.after) && w.create == (q is Create),
{
    match q {
        ChangeRequest::Create { path, draft } => {
            assert(!(render_verdict(path@, draft@) is Refuse));
        },
        ChangeRequest::Replace { path, draft } => {
            assert(!(render_verdict(path@, draft@) is Refuse));
        },
        ChangeRequest::Delete { .. } => {},
    }
}

} // verus!
