//! Rules across records: unique identities, project prefixes, references that
//! resolve in scope, contained attachments, and supersession without cycles.

use crate::activation::{
    Activation, ActivationView, ProjectView, project_for, project_in, scope_for, scope_of, slugs,
};
use crate::diagnostic::{DiagView, Diagnostic, diag, diag_views, plain};
use crate::draft::{draft_verdict, parse_draft};
use crate::frontmatter::{arrays_verdict, arrays};
use crate::layout::{safe_relative, safe_relative_spec};
use crate::project_map::{text_of, utf8_text};
use crate::record::{Classification, DraftView, EntrySnapshot, EntryView, Kind, RecordDraft, RecordSummary, SummaryView, entry_views};
use crate::text::{chars_of, is_prefix, push_str, starts_with, str_eq};
use crate::verdict::Verdict;
use crate::work_item::WorkItemView;
use vstd::prelude::*;

verus! {

/// The identity a governed entry declares.
pub open spec fn governed_id(e: EntryView) -> Option<Seq<char>> {
    if e.classification == Classification::Governed {
        e.identity
    } else {
        None
    }
}

/// The last of the first `n` entries that is governed with this identity.
pub open spec fn last_with_id(es: Seq<EntryView>, n: int, id: Seq<char>) -> Option<int>
    decreases n,
{
    if n <= 0 {
        None
    } else if governed_id(es[n - 1]) == Some(id) {
        Some(n - 1)
    } else {
        last_with_id(es, n - 1, id)
    }
}

/// The entry an identity resolves to: the last governed entry that declares it.
pub open spec fn target_of(es: Seq<EntryView>, id: Seq<char>) -> Option<EntryView> {
    match last_with_id(es, es.len() as int, id) {
        Some(j) => Some(es[j]),
        None => None,
    }
}

/// The first project (in activation order) with an investigation directory holding the path.
pub open spec fn holding_project(path: Seq<char>, projects: Seq<(Seq<char>, ProjectView)>) -> Option<ProjectView>
    decreases projects.len(),
{
    if projects.len() == 0 {
        None
    } else if exists|k: int|
        0 <= k < projects[0].1.investigations.len() && is_prefix(
            #[trigger] projects[0].1.investigations[k] + "/"@,
            path,
        ) {
        Some(projects[0].1)
    } else {
        holding_project(path, projects.drop_first())
    }
}

/// The identity and prefix diagnostics of entry `i`.
pub open spec fn identity_problems(es: Seq<EntryView>, i: int, a: ActivationView) -> Seq<DiagView> {
    let e = es[i];
    let governed = e.classification == Classification::Governed;
    (if governed && e.identity is Some && last_with_id(es, i, e.identity->0) is Some {
        seq![
            plain(
                e.path,
                "duplicate_identity"@,
                "identity also appears at "@ + es[last_with_id(es, i, e.identity->0)->0].path,
            ),
        ]
    } else {
        Seq::empty()
    }) + (if governed && e.kind is Some && e.kind->0.writable() && holding_project(e.path, a.projects) is Some
        && !(e.identity is Some && is_prefix(holding_project(e.path, a.projects)->0.prefix + "-"@, e.identity->0)) {
        seq![plain(e.path, "project_prefix"@, "record identity must use the configured project prefix"@)]
    } else {
        Seq::empty()
    })
}

/// A record's text, or the empty text when its bytes are not UTF-8.
pub open spec fn text_or_empty(bytes: Seq<u8>) -> Seq<char> {
    match text_of(bytes) {
        Some(t) => t,
        None => Seq::empty(),
    }
}

/// The work item an entry with a work-item summary reads as, when it parses.
pub open spec fn work_draft(e: EntryView) -> Option<WorkItemView> {
    match (e.summary, e.kind) {
        (Some(SummaryView::WorkItem { .. }), Some(k)) => match draft_verdict(e.path, k, text_or_empty(e.original_bytes)) {
            Verdict::Accept(DraftView::Ticket(w)) => Some(w),
            Verdict::Accept(DraftView::Epic(w)) => Some(w),
            _ => None,
        },
        _ => None,
    }
}

/// The identity of an entry's work-item summary.
pub open spec fn summary_id(e: EntryView) -> Seq<char> {
    match e.summary {
        Some(SummaryView::WorkItem { id, .. }) => id,
        _ => Seq::empty(),
    }
}

/// A decision reference resolves: to a decision of the same project, in the same
/// investigation or at project level.
pub open spec fn decision_resolves(es: Seq<EntryView>, a: ActivationView, e: EntryView, r: Seq<char>) -> bool {
    match target_of(es, r) {
        Some(t) => t.kind == Some(Kind::Decision) && project_in(t.path, slugs(a)) == project_in(e.path, slugs(a)) && (
        scope_of(t.path, a) is None || scope_of(t.path, a) == scope_of(e.path, a)),
        None => false,
    }
}

/// A reference resolves to a record in the same investigation scope.
pub open spec fn scoped_resolves(es: Seq<EntryView>, a: ActivationView, e: EntryView, r: Seq<char>) -> bool {
    match target_of(es, r) {
        Some(t) => scope_of(t.path, a) == scope_of(e.path, a),
        None => false,
    }
}

/// The diagnostics of a work item's decision references.
pub open spec fn decision_ref_problems(es: Seq<EntryView>, a: ActivationView, e: EntryView, refs: Seq<Seq<char>>) -> Seq<DiagView>
    decreases refs.len(),
{
    if refs.len() == 0 {
        Seq::empty()
    } else {
        decision_ref_problems(es, a, e, refs.drop_last()) + if refs.last() == summary_id(e) || !decision_resolves(
            es,
            a,
            e,
            refs.last(),
        ) {
            seq![
                plain(
                    e.path,
                    "unresolved_reference"@,
                    "decision references must resolve in the same project or investigation"@,
                ),
            ]
        } else {
            Seq::empty()
        }
    }
}

/// The diagnostics of references that must resolve in scope; with `own`, a reference
/// to the entry's own identity is refused too.
pub open spec fn scoped_ref_problems(es: Seq<EntryView>, a: ActivationView, e: EntryView, refs: Seq<Seq<char>>, own: bool) -> Seq<DiagView>
    decreases refs.len(),
{
    if refs.len() == 0 {
        Seq::empty()
    } else {
        scoped_ref_problems(es, a, e, refs.drop_last(), own) + if (own && refs.last() == summary_id(e)) || !scoped_resolves(
            es,
            a,
            e,
            refs.last(),
        ) {
            seq![
                plain(
                    e.path,
                    "unresolved_reference"@,
                    "references must resolve within the governed project/investigation scope"@,
                ),
            ]
        } else {
            Seq::empty()
        }
    }
}

/// The reference diagnostics of entry `i` when it is a work item that parses.
pub open spec fn work_problems(es: Seq<EntryView>, i: int, a: ActivationView) -> Seq<DiagView> {
    match work_draft(es[i]) {
        Some(w) => decision_ref_problems(es, a, es[i], w.decision_refs) + scoped_ref_problems(
            es,
            a,
            es[i],
            w.related_tickets + w.supersedes + w.superseded_by,
            true,
        ),
        None => Seq::empty(),
    }
}

/// The directory part of a path: everything before its last `/`, or empty.
pub open spec fn parent_seq(s: Seq<char>) -> Seq<char>
    decreases s.len(),
{
    if s.len() == 0 {
        s
    } else if s.last() == '/' {
        s.drop_last()
    } else {
        parent_seq(s.drop_last())
    }
}

/// Where an attachment of the record at `path` points, as `Path::parent` and
/// `Path::join` compose it for a relative record path.
pub open spec fn attachment_target(path: Seq<char>, att: Seq<char>) -> Seq<char> {
    let parent = parent_seq(path);
    if att.len() > 0 && att[0] == '/' {
        att
    } else if parent.len() == 0 {
        att
    } else {
        parent + "/"@ + att
    }
}

/// Some entry has this path.
pub open spec fn has_path(es: Seq<EntryView>, p: Seq<char>) -> bool {
    exists|j: int| 0 <= j < es.len() && #[trigger] es[j].path == p
}

/// The diagnostics of a record's attachments: each must be a contained path of a scanned file.
pub open spec fn attachment_problems(es: Seq<EntryView>, path: Seq<char>, atts: Seq<Seq<char>>) -> Seq<DiagView>
    decreases atts.len(),
{
    if atts.len() == 0 {
        Seq::empty()
    } else {
        let t = attachment_target(path, atts.last());
        attachment_problems(es, path, atts.drop_last()) + if !(safe_relative_spec(t) && has_path(es, t)) {
            seq![plain(path, "missing_attachment"@, "attachments must be contained regular files"@)]
        } else {
            Seq::empty()
        }
    }
}

/// The reference and attachment diagnostics of entry `i` when it is evidence or a review.
pub open spec fn evidence_problems(es: Seq<EntryView>, i: int, a: ActivationView) -> Seq<DiagView> {
    let e = es[i];
    if e.kind == Some(Kind::Evidence) || e.kind == Some(Kind::Review) {
        match text_of(e.original_bytes) {
            Some(t) => match arrays_verdict(t) {
                Verdict::Accept((refs, atts)) => scoped_ref_problems(es, a, e, refs, false) + attachment_problems(
                    es,
                    e.path,
                    atts,
                ),
                _ => Seq::empty(),
            },
            None => Seq::empty(),
        }
    } else {
        Seq::empty()
    }
}

/// The diagnostics that one kind of rule (`stage` 0: identities, 1: work items,
/// 2: evidence) finds in the first `n` entries.
pub open spec fn stage_problems(es: Seq<EntryView>, n: int, a: ActivationView, stage: int) -> Seq<DiagView>
    decreases n,
{
    if n <= 0 {
        Seq::empty()
    } else {
        stage_problems(es, n - 1, a, stage) + if stage == 0 {
            identity_problems(es, n - 1, a)
        } else if stage == 1 {
            work_problems(es, n - 1, a)
        } else {
            evidence_problems(es, n - 1, a)
        }
    }
}

/// The identities of the parsed work items among the first `n` entries, in order.
pub open spec fn work_ids(es: Seq<EntryView>, n: int) -> Seq<Seq<char>>
    decreases n,
{
    if n <= 0 {
        Seq::empty()
    } else if work_draft(es[n - 1]) is Some {
        work_ids(es, n - 1).push(summary_id(es[n - 1]))
    } else {
        work_ids(es, n - 1)
    }
}

/// Each identity once, at its first occurrence.
pub open spec fn first_occurrences(ids: Seq<Seq<char>>) -> Seq<Seq<char>>
    decreases ids.len(),
{
    if ids.len() == 0 {
        Seq::empty()
    } else if first_occurrences(ids.drop_last()).contains(ids.last()) {
        first_occurrences(ids.drop_last())
    } else {
        first_occurrences(ids.drop_last()).push(ids.last())
    }
}

/// What the last parsed work item with this identity (among the first `n`) supersedes.
pub open spec fn successors(es: Seq<EntryView>, n: int, id: Seq<char>) -> Seq<Seq<char>>
    decreases n,
{
    if n <= 0 {
        Seq::empty()
    } else if work_draft(es[n - 1]) is Some && summary_id(es[n - 1]) == id {
        work_draft(es[n - 1])->0.supersedes
    } else {
        successors(es, n - 1, id)
    }
}

/// `x` is reached from `start` by exactly `steps` supersession edges.
pub open spec fn reach(es: Seq<EntryView>, start: Seq<char>, steps: nat, x: Seq<char>) -> bool
    decreases steps,
{
    if steps == 0 {
        x == start
    } else {
        exists|y: Seq<char>| reach(es, start, (steps - 1) as nat, y) && #[trigger] successors(es, es.len() as int, y).contains(x)
    }
}

/// A supersession walk from `start` is longer than the number of superseding
/// records, so it must revisit one: a cycle is reachable from `start`.
pub open spec fn cyclic(es: Seq<EntryView>, start: Seq<char>) -> bool {
    exists|x: Seq<char>| #[trigger] reach(es, start, (first_occurrences(work_ids(es, es.len() as int)).len() + 1) as nat, x)
}

/// The cycle diagnostics of the given identities, in order.
pub open spec fn cycle_problems(es: Seq<EntryView>, keys: Seq<Seq<char>>) -> Seq<DiagView>
    decreases keys.len(),
{
    if keys.len() == 0 {
        Seq::empty()
    } else {
        cycle_problems(es, keys.drop_last()) + if cyclic(es, keys.last()) {
            seq![
                plain(
                    match target_of(es, keys.last()) {
                        Some(t) => t.path,
                        None => Seq::empty(),
                    },
                    "supersession_cycle"@,
                    "supersession references must not form a cycle"@,
                ),
            ]
        } else {
            Seq::empty()
        }
    }
}

/// Every cross-record diagnostic of a scan: identities and prefixes, work-item
/// references, evidence references and attachments, then supersession cycles (in
/// the order the superseding records first appear).
pub open spec fn cross_problems(es: Seq<EntryView>, a: ActivationView) -> Seq<DiagView> {
    stage_problems(es, es.len() as int, a, 0) + stage_problems(es, es.len() as int, a, 1) + stage_problems(
        es,
        es.len() as int,
        a,
        2,
    ) + cycle_problems(es, first_occurrences(work_ids(es, es.len() as int)))
}

fn resolve(entries: &Vec<EntrySnapshot>, n: usize, id: &str) -> (r: Option<usize>)
    requires
        n <= entries@.len(),
    ensures
        match r {
            Some(j) => last_with_id(entry_views(entries@), n as int, id@) == Some(j as int) && j < n,
            None => last_with_id(entry_views(entries@), n as int, id@) is None,
        },
{
    let ghost ev = entry_views(entries@);
    let mut k: usize = n;
    while k > 0
        invariant
            k <= n <= entries@.len(),
            ev == entry_views(entries@),
            last_with_id(ev, n as int, id@) == last_with_id(ev, k as int, id@),
        decreases k,
    {
        let e = &entries[k - 1];
        assert(ev[k - 1] == e@);
        let hit = match (&e.classification, &e.identity) {
            (Classification::Governed, Some(x)) => str_eq(x.as_str(), id),
            _ => false,
        };
        if hit {
            return Some(k - 1);
        }
        k = k - 1;
    }
    None
}

fn same_opt(a: &Option<String>, b: &Option<String>) -> (r: bool)
    ensures
        r == (crate::diagnostic::opt_view(*a) == crate::diagnostic::opt_view(*b)),
{
    match (a, b) {
        (Some(x), Some(y)) => str_eq(x.as_str(), y.as_str()),
        (None, None) => true,
        _ => false,
    }
}

fn holding(path: &str, active: &Activation) -> (r: Option<usize>)
    ensures
        match r {
            Some(i) => i < active@.projects.len() && holding_project(path@, active@.projects) == Some(active@.projects[i as int].1),
            None => holding_project(path@, active@.projects) is None,
        },
{
    let ghost ps = active@.projects;
    let mut i: usize = 0;
    assert(ps.skip(0) =~= ps);
    while i < active.projects.len()
        invariant
            ps == active@.projects,
            i <= ps.len(),
            holding_project(path@, ps) == holding_project(path@, ps.skip(i as int)),
        decreases active.projects.len() - i,
    {
        let invs = &active.projects[i].1.investigations;
        let ghost p = ps[i as int];
        assert(p == (active.projects@[i as int].0@, active.projects@[i as int].1@));
        assert(ps.skip(i as int).drop_first() =~= ps.skip(i + 1));
        assert(ps.skip(i as int)[0] == p);
        let mut k: usize = 0;
        let mut found = false;
        while k < invs.len() && !found
            invariant
                k <= invs@.len(),
                p.1.investigations == crate::board::strs(invs@),
                !found ==> forall|m: int| 0 <= m < k ==> !is_prefix(#[trigger] p.1.investigations[m] + "/"@, path@),
                found ==> exists|m: int| 0 <= m < p.1.investigations.len() && is_prefix(#[trigger] p.1.investigations[m] + "/"@, path@),
                found ==> k < invs@.len(),
            decreases (invs.len() - k) as int + (if found { 0int } else { 1int }),
        {
            let mut base = invs[k].clone();
            push_str(&mut base, "/");
            assert(p.1.investigations[k as int] == invs@[k as int]@);
            if starts_with(path, base.as_str()) {
                found = true;
            } else {
                k = k + 1;
            }
        }
        if found {
            return Some(i);
        }
        i = i + 1;
    }
    None
}

fn prefix_dash(prefix: &String) -> (r: String)
    ensures
        r@ == prefix@ + "-"@,
{
    let mut r = prefix.clone();
    push_str(&mut r, "-");
    r
}

fn duplicate_message(previous: &String) -> (r: String)
    ensures
        r@ == "identity also appears at "@ + previous@,
{
    let mut m = "identity also appears at ".to_owned();
    push_str(&mut m, previous.as_str());
    m
}

fn identity_stage(entries: &Vec<EntrySnapshot>, active: &Activation, out: &mut Vec<Diagnostic>)
    ensures
        diag_views(final(out)@) == diag_views(old(out)@) + stage_problems(entry_views(entries@), entries@.len() as int, active@, 0),
{
    let ghost ev = entry_views(entries@);
    let ghost start = diag_views(out@);
    let mut i: usize = 0;
    assert(start + stage_problems(ev, 0, active@, 0) =~= start);
    while i < entries.len()
        invariant
            ev == entry_views(entries@),
            i <= entries@.len(),
            diag_views(out@) == start + stage_problems(ev, i as int, active@, 0),
        decreases entries.len() - i,
    {
        let e = &entries[i];
        assert(ev[i as int] == e@);
        let ghost before = diag_views(out@);
        let governed = match e.classification {
            Classification::Governed => true,
            _ => false,
        };
        if governed {
            match &e.identity {
                Some(id) => match resolve(entries, i, id.as_str()) {
                    Some(j) => {
                        let m = duplicate_message(&entries[j].path);
                        assert(ev[j as int] == entries@[j as int]@);
                        out.push(diag(e.path.as_str(), "duplicate_identity", m.as_str()));
                    }
                    None => {}
                },
                None => {}
            }
        }
        let ghost mid = diag_views(out@);
        let writable = match e.kind {
            Some(k) => k.is_writable(),
            None => false,
        };
        if governed && writable {
            match holding(e.path.as_str(), active) {
                Some(pi) => {
                    let prefix = prefix_dash(&active.projects[pi].1.prefix);
                    let ok = match &e.identity {
                        Some(id) => starts_with(id.as_str(), prefix.as_str()),
                        None => false,
                    };
                    if !ok {
                        out.push(diag(e.path.as_str(), "project_prefix", "record identity must use the configured project prefix"));
                    }
                }
                None => {}
            }
        }
        proof {
            assert(diag_views(out@) =~= before + identity_problems(ev, i as int, active@));
        }
        i = i + 1;
        assert(diag_views(out@) =~= start + stage_problems(ev, i as int, active@, 0));
    }
}

fn decision_ok(entries: &Vec<EntrySnapshot>, active: &Activation, i: usize, r: &str) -> (b: bool)
    requires
        i < entries@.len(),
    ensures
        b == decision_resolves(entry_views(entries@), active@, entry_views(entries@)[i as int], r@),
{
    let ghost ev = entry_views(entries@);
    let e = &entries[i];
    assert(ev[i as int] == e@);
    match resolve(entries, entries.len(), r) {
        None => false,
        Some(j) => {
            let t = &entries[j];
            assert(ev[j as int] == t@);
            let is_decision = match t.kind {
                Some(Kind::Decision) => true,
                _ => false,
            };
            if !is_decision {
                return false;
            }
            if !same_opt(&project_for(t.path.as_str(), active), &project_for(e.path.as_str(), active)) {
                return false;
            }
            let ts = scope_for(t.path.as_str(), active);
            match ts {
                None => true,
                Some(_) => same_opt(&ts, &scope_for(e.path.as_str(), active)),
            }
        }
    }
}

fn scoped_ok(entries: &Vec<EntrySnapshot>, active: &Activation, i: usize, r: &str) -> (b: bool)
    requires
        i < entries@.len(),
    ensures
        b == scoped_resolves(entry_views(entries@), active@, entry_views(entries@)[i as int], r@),
{
    let ghost ev = entry_views(entries@);
    let e = &entries[i];
    assert(ev[i as int] == e@);
    match resolve(entries, entries.len(), r) {
        None => false,
        Some(j) => {
            let t = &entries[j];
            assert(ev[j as int] == t@);
            same_opt(&scope_for(t.path.as_str(), active), &scope_for(e.path.as_str(), active))
        }
    }
}

fn push_decision_refs(
    entries: &Vec<EntrySnapshot>,
    active: &Activation,
    i: usize,
    id: &str,
    refs: &Vec<String>,
    out: &mut Vec<Diagnostic>,
)
    requires
        i < entries@.len(),
        summary_id(entry_views(entries@)[i as int]) == id@,
    ensures
        diag_views(final(out)@) == diag_views(old(out)@) + decision_ref_problems(
            entry_views(entries@),
            active@,
            entry_views(entries@)[i as int],
            crate::board::strs(refs@),
        ),
{
    let ghost ev = entry_views(entries@);
    let ghost e = ev[i as int];
    let ghost rs = crate::board::strs(refs@);
    let ghost start = diag_views(out@);
    let mut k: usize = 0;
    assert(rs.take(0) =~= Seq::<Seq<char>>::empty());
    assert(start + decision_ref_problems(ev, active@, e, Seq::empty()) =~= start);
    while k < refs.len()
        invariant
            i < entries@.len(),
            ev == entry_views(entries@),
            e == ev[i as int],
            summary_id(e) == id@,
            rs == crate::board::strs(refs@),
            k <= refs@.len(),
            diag_views(out@) == start + decision_ref_problems(ev, active@, e, rs.take(k as int)),
        decreases refs.len() - k,
    {
        let ghost before = diag_views(out@);
        proof {
            assert(rs.take(k + 1).drop_last() =~= rs.take(k as int));
            assert(rs.take(k + 1).last() == refs@[k as int]@);
        }
        let r = refs[k].as_str();
        let bad = str_eq(r, id) || !decision_ok(entries, active, i, r);
        let ghost step = if bad {
            seq![
                plain(
                    e.path,
                    "unresolved_reference"@,
                    "decision references must resolve in the same project or investigation"@,
                ),
            ]
        } else {
            Seq::<DiagView>::empty()
        };
        assert(decision_ref_problems(ev, active@, e, rs.take(k + 1)) == decision_ref_problems(ev, active@, e, rs.take(k as int)) + step);
        if bad {
            let d = diag(entries[i].path.as_str(), "unresolved_reference", "decision references must resolve in the same project or investigation");
            assert(entries@[i as int]@ == e);
            out.push(d);
            assert(diag_views(out@) =~= before.push(d@));
        } else {
            assert(before + step =~= before);
        }
        k = k + 1;
        assert(diag_views(out@) =~= start + decision_ref_problems(ev, active@, e, rs.take(k as int)));
    }
    assert(rs.take(k as int) =~= rs);
}

fn push_scoped_refs(
    entries: &Vec<EntrySnapshot>,
    active: &Activation,
    i: usize,
    own: bool,
    id: &str,
    refs: &Vec<String>,
    out: &mut Vec<Diagnostic>,
)
    requires
        i < entries@.len(),
        own ==> summary_id(entry_views(entries@)[i as int]) == id@,
    ensures
        diag_views(final(out)@) == diag_views(old(out)@) + scoped_ref_problems(
            entry_views(entries@),
            active@,
            entry_views(entries@)[i as int],
            crate::board::strs(refs@),
            own,
        ),
{
    let ghost ev = entry_views(entries@);
    let ghost e = ev[i as int];
    let ghost rs = crate::board::strs(refs@);
    let ghost start = diag_views(out@);
    let mut k: usize = 0;
    assert(rs.take(0) =~= Seq::<Seq<char>>::empty());
    assert(start + scoped_ref_problems(ev, active@, e, Seq::empty(), own) =~= start);
    while k < refs.len()
        invariant
            i < entries@.len(),
            ev == entry_views(entries@),
            e == ev[i as int],
            own ==> summary_id(e) == id@,
            rs == crate::board::strs(refs@),
            k <= refs@.len(),
            diag_views(out@) == start + scoped_ref_problems(ev, active@, e, rs.take(k as int), own),
        decreases refs.len() - k,
    {
        proof {
            assert(rs.take(k + 1).drop_last() =~= rs.take(k as int));
            assert(rs.take(k + 1).last() == refs@[k as int]@);
        }
        let ghost before = diag_views(out@);
        let r = refs[k].as_str();
        let bad = (own && str_eq(r, id)) || !scoped_ok(entries, active, i, r);
        let ghost step = if bad {
            seq![
                plain(
                    e.path,
                    "unresolved_reference"@,
                    "references must resolve within the governed project/investigation scope"@,
                ),
            ]
        } else {
            Seq::<DiagView>::empty()
        };
        assert(scoped_ref_problems(ev, active@, e, rs.take(k + 1), own) == scoped_ref_problems(ev, active@, e, rs.take(k as int), own) + step);
        if bad {
            let d = diag(entries[i].path.as_str(), "unresolved_reference", "references must resolve within the governed project/investigation scope");
            assert(entries@[i as int]@ == e);
            out.push(d);
            assert(diag_views(out@) =~= before.push(d@));
        } else {
            assert(before + step =~= before);
        }
        k = k + 1;
        assert(diag_views(out@) =~= start + scoped_ref_problems(ev, active@, e, rs.take(k as int), own));
    }
    assert(rs.take(k as int) =~= rs);
}

fn text_of_bytes(bytes: &Vec<u8>) -> (r: String)
    ensures
        r@ == text_or_empty(bytes@),
{
    match utf8_text(bytes.as_slice()) {
        Some(t) => t,
        None => String::new(),
    }
}

fn append_all(a: &mut Vec<String>, b: &Vec<String>)
    ensures
        crate::board::strs(final(a)@) == crate::board::strs(old(a)@) + crate::board::strs(b@),
{
    let ghost start = crate::board::strs(a@);
    let mut k: usize = 0;
    while k < b.len()
        invariant
            k <= b@.len(),
            crate::board::strs(a@) == start + crate::board::strs(b@).take(k as int),
        decreases b.len() - k,
    {
        let ghost prior = crate::board::strs(a@);
        a.push(b[k].clone());
        assert(crate::board::strs(a@) =~= prior.push(b@[k as int]@));
        assert(crate::board::strs(b@).take(k + 1) =~= crate::board::strs(b@).take(k as int).push(b@[k as int]@));
        k = k + 1;
        assert(crate::board::strs(a@) =~= start + crate::board::strs(b@).take(k as int));
    }
    assert(crate::board::strs(b@).take(k as int) =~= crate::board::strs(b@));
}

/// The parsed work item of entry `i` and its summary identity, when it has one.
fn work_item_of(entries: &Vec<EntrySnapshot>, i: usize) -> (r: Option<(crate::work_item::WorkItemDraft, String)>)
    requires
        i < entries@.len(),
    ensures
        match r {
            Some((w, id)) => work_draft(entry_views(entries@)[i as int]) == Some(w@) && summary_id(
                entry_views(entries@)[i as int],
            ) == id@,
            None => work_draft(entry_views(entries@)[i as int]) is None,
        },
{
    let e = &entries[i];
    assert(entry_views(entries@)[i as int] == e@);
    let id = match &e.summary {
        Some(RecordSummary::WorkItem { id, .. }) => id.clone(),
        _ => {
            return None;
        }
    };
    let k = match e.kind {
        Some(k) => k,
        None => {
            return None;
        }
    };
    let text = text_of_bytes(&e.original_bytes);
    match parse_draft(e.path.as_str(), k, text.as_str()) {
        Ok(RecordDraft::Ticket(w)) => Some((w, id)),
        Ok(RecordDraft::Epic(w)) => Some((w, id)),
        _ => None,
    }
}

fn work_stage(entries: &Vec<EntrySnapshot>, active: &Activation, out: &mut Vec<Diagnostic>)
    ensures
        diag_views(final(out)@) == diag_views(old(out)@) + stage_problems(entry_views(entries@), entries@.len() as int, active@, 1),
{
    let ghost ev = entry_views(entries@);
    let ghost start = diag_views(out@);
    let mut i: usize = 0;
    assert(start + stage_problems(ev, 0, active@, 1) =~= start);
    while i < entries.len()
        invariant
            ev == entry_views(entries@),
            i <= entries@.len(),
            diag_views(out@) == start + stage_problems(ev, i as int, active@, 1),
        decreases entries.len() - i,
    {
        let ghost before = diag_views(out@);
        match work_item_of(entries, i) {
            Some((w, id)) => {
                push_decision_refs(entries, active, i, id.as_str(), &w.decision_refs, out);
                let mut rest: Vec<String> = Vec::new();
                append_all(&mut rest, &w.related_tickets);
                append_all(&mut rest, &w.supersedes);
                append_all(&mut rest, &w.superseded_by);
                assert(crate::board::strs(rest@) =~= w@.related_tickets + w@.supersedes + w@.superseded_by);
                push_scoped_refs(entries, active, i, true, id.as_str(), &rest, out);
                assert(diag_views(out@) =~= before + work_problems(ev, i as int, active@));
            }
            None => {
                assert(before + work_problems(ev, i as int, active@) =~= before);
            }
        }
        i = i + 1;
        assert(diag_views(out@) =~= start + stage_problems(ev, i as int, active@, 1));
    }
}

fn parent_of(path: &str) -> (r: String)
    ensures
        r@ == parent_seq(path@),
{
    let cs = chars_of(path);
    let mut end: usize = cs.len();
    assert(cs@.take(end as int) =~= path@);
    while end > 0 && cs[end - 1] != '/'
        invariant
            cs@ == path@,
            end <= cs@.len(),
            parent_seq(path@) == parent_seq(cs@.take(end as int)),
        decreases end,
    {
        proof {
            let t = cs@.take(end as int);
            assert(t.drop_last() =~= cs@.take(end - 1));
            assert(t.last() == cs@[end - 1]);
        }
        end = end - 1;
    }
    if end == 0 {
        assert(cs@.take(0) =~= Seq::<char>::empty());
        return String::new();
    }
    proof {
        let t = cs@.take(end as int);
        assert(t.last() == cs@[end - 1]);
        assert(t.drop_last() =~= cs@.take(end - 1));
    }
    let prefix = crate::text::copy_range(cs.as_slice(), 0, end - 1);
    assert(prefix@ =~= cs@.take(end - 1));
    crate::text::string_of(prefix.as_slice())
}

fn attachment_path(path: &str, att: &str) -> (r: String)
    ensures
        r@ == attachment_target(path@, att@),
{
    let parent = parent_of(path);
    let ac = chars_of(att);
    if ac.len() > 0 && ac[0] == '/' {
        return att.to_owned();
    }
    if chars_of(parent.as_str()).len() == 0 {
        return att.to_owned();
    }
    let mut t = parent;
    push_str(&mut t, "/");
    push_str(&mut t, att);
    t
}

fn path_present(entries: &Vec<EntrySnapshot>, p: &str) -> (r: bool)
    ensures
        r == has_path(entry_views(entries@), p@),
{
    let ghost ev = entry_views(entries@);
    let mut j: usize = 0;
    while j < entries.len()
        invariant
            ev == entry_views(entries@),
            j <= entries@.len(),
            forall|m: int| 0 <= m < j ==> #[trigger] ev[m].path != p@,
        decreases entries.len() - j,
    {
        assert(ev[j as int] == entries@[j as int]@);
        if str_eq(entries[j].path.as_str(), p) {
            assert(ev[j as int].path == p@);
            return true;
        }
        j = j + 1;
    }
    false
}

fn push_attachments(entries: &Vec<EntrySnapshot>, path: &str, atts: &Vec<String>, out: &mut Vec<Diagnostic>)
    ensures
        diag_views(final(out)@) == diag_views(old(out)@) + attachment_problems(
            entry_views(entries@),
            path@,
            crate::board::strs(atts@),
        ),
{
    let ghost ev = entry_views(entries@);
    let ghost rs = crate::board::strs(atts@);
    let ghost start = diag_views(out@);
    let mut k: usize = 0;
    assert(rs.take(0) =~= Seq::<Seq<char>>::empty());
    assert(start + attachment_problems(ev, path@, Seq::empty()) =~= start);
    while k < atts.len()
        invariant
            ev == entry_views(entries@),
            rs == crate::board::strs(atts@),
            k <= atts@.len(),
            diag_views(out@) == start + attachment_problems(ev, path@, rs.take(k as int)),
        decreases atts.len() - k,
    {
        let ghost before = diag_views(out@);
        proof {
            assert(rs.take(k + 1).drop_last() =~= rs.take(k as int));
            assert(rs.take(k + 1).last() == atts@[k as int]@);
        }
        let t = attachment_path(path, atts[k].as_str());
        let bad = !(safe_relative(t.as_str()) && path_present(entries, t.as_str()));
        let ghost step = if bad {
            seq![plain(path@, "missing_attachment"@, "attachments must be contained regular files"@)]
        } else {
            Seq::<DiagView>::empty()
        };
        assert(attachment_problems(ev, path@, rs.take(k + 1)) == attachment_problems(ev, path@, rs.take(k as int)) + step);
        if bad {
            let d = diag(path, "missing_attachment", "attachments must be contained regular files");
            out.push(d);
            assert(diag_views(out@) =~= before.push(d@));
        } else {
            assert(before + step =~= before);
        }
        k = k + 1;
        assert(diag_views(out@) =~= start + attachment_problems(ev, path@, rs.take(k as int)));
    }
    assert(rs.take(k as int) =~= rs);
}

fn evidence_stage(entries: &Vec<EntrySnapshot>, active: &Activation, out: &mut Vec<Diagnostic>)
    ensures
        diag_views(final(out)@) == diag_views(old(out)@) + stage_problems(entry_views(entries@), entries@.len() as int, active@, 2),
{
    let ghost ev = entry_views(entries@);
    let ghost start = diag_views(out@);
    let mut i: usize = 0;
    assert(start + stage_problems(ev, 0, active@, 2) =~= start);
    while i < entries.len()
        invariant
            ev == entry_views(entries@),
            i <= entries@.len(),
            diag_views(out@) == start + stage_problems(ev, i as int, active@, 2),
        decreases entries.len() - i,
    {
        let ghost before = diag_views(out@);
        let e = &entries[i];
        assert(ev[i as int] == e@);
        let relevant = match e.kind {
            Some(Kind::Evidence) | Some(Kind::Review) => true,
            _ => false,
        };
        let mut done = false;
        if relevant {
            match utf8_text(e.original_bytes.as_slice()) {
                Some(text) => match arrays(e.path.as_str(), text.as_str()) {
                    Ok((refs, atts)) => {
                        push_scoped_refs(entries, active, i, false, "", &refs, out);
                        push_attachments(entries, e.path.as_str(), &atts, out);
                        assert(diag_views(out@) =~= before + evidence_problems(ev, i as int, active@));
                        done = true;
                    }
                    Err(_) => {}
                },
                None => {}
            }
        }
        if !done {
            assert(before + evidence_problems(ev, i as int, active@) =~= before);
        }
        i = i + 1;
        assert(diag_views(out@) =~= start + stage_problems(ev, i as int, active@, 2));
    }
}

proof fn lemma_first_occurrences_contains(ids: Seq<Seq<char>>, x: Seq<char>)
    ensures
        first_occurrences(ids).contains(x) == ids.contains(x),
    decreases ids.len(),
{
    if ids.len() > 0 {
        lemma_first_occurrences_contains(ids.drop_last(), x);
        let f = first_occurrences(ids.drop_last());
        if ids.drop_last().contains(x) {
            let k = choose|k: int| 0 <= k < ids.drop_last().len() && ids.drop_last()[k] == x;
            assert(ids[k] == x);
        }
        if ids.contains(x) {
            let k = choose|k: int| 0 <= k < ids.len() && ids[k] == x;
            if k < ids.len() - 1 {
                assert(ids.drop_last()[k] == x);
            }
        }
        if !f.contains(ids.last()) {
            assert(f.push(ids.last()).contains(ids.last())) by {
                assert(f.push(ids.last())[f.len() as int] == ids.last());
            }
            if f.push(ids.last()).contains(x) {
                let k = choose|k: int| 0 <= k < f.push(ids.last()).len() && f.push(ids.last())[k] == x;
                if k < f.len() {
                    assert(f[k] == x);
                }
            }
            if f.contains(x) {
                let k = choose|k: int| 0 <= k < f.len() && f[k] == x;
                assert(f.push(ids.last())[k] == x);
            }
        }
    }
}

proof fn lemma_successors_absent(es: Seq<EntryView>, n: int, id: Seq<char>)
    requires
        !work_ids(es, n).contains(id),
    ensures
        successors(es, n, id) == Seq::<Seq<char>>::empty(),
    decreases n,
{
    if n > 0 {
        if work_draft(es[n - 1]) is Some {
            let w = work_ids(es, n - 1);
            assert(work_ids(es, n) == w.push(summary_id(es[n - 1])));
            assert(w.push(summary_id(es[n - 1]))[w.len() as int] == summary_id(es[n - 1]));
            if w.contains(id) {
                let k = choose|k: int| 0 <= k < w.len() && w[k] == id;
                assert(w.push(summary_id(es[n - 1]))[k] == id);
            }
        }
        lemma_successors_absent(es, n - 1, id);
    }
}

/// The supersession graph of the first entries: each superseding identity once, in
/// first-appearance order, with what its last parsed record supersedes.
fn supersession_graph(entries: &Vec<EntrySnapshot>) -> (g: Vec<(String, Vec<String>)>)
    ensures
        g@.map_values(|p: (String, Vec<String>)| p.0@) == first_occurrences(work_ids(entry_views(entries@), entries@.len() as int)),
        forall|k: int| 0 <= k < g@.len() ==> crate::board::strs(#[trigger] g@[k].1@) == successors(
            entry_views(entries@),
            entries@.len() as int,
            g@[k].0@,
        ),
{
    let ghost ev = entry_views(entries@);
    let mut g: Vec<(String, Vec<String>)> = Vec::new();
    let mut i: usize = 0;
    assert(g@.map_values(|p: (String, Vec<String>)| p.0@) =~= Seq::<Seq<char>>::empty());
    while i < entries.len()
        invariant
            ev == entry_views(entries@),
            i <= entries@.len(),
            g@.map_values(|p: (String, Vec<String>)| p.0@) == first_occurrences(work_ids(ev, i as int)),
            forall|k: int| 0 <= k < g@.len() ==> crate::board::strs(#[trigger] g@[k].1@) == successors(ev, i as int, g@[k].0@),
        decreases entries.len() - i,
    {
        let ghost keys = g@.map_values(|p: (String, Vec<String>)| p.0@);
        match work_item_of(entries, i) {
            Some((w, id)) => {
                let mut m: usize = 0;
                let mut found = false;
                while m < g.len() && !found
                    invariant
                        m <= g@.len(),
                        keys == g@.map_values(|p: (String, Vec<String>)| p.0@),
                        !found ==> forall|q: int| 0 <= q < m ==> #[trigger] keys[q] != id@,
                        found ==> m < g@.len() && keys[m as int] == id@,
                    decreases (g.len() - m) as int + (if found { 0int } else { 1int }),
                {
                    assert(keys[m as int] == g@[m as int].0@);
                    if str_eq(g[m].0.as_str(), id.as_str()) {
                        found = true;
                    } else {
                        m = m + 1;
                    }
                }
                let ghost old_g = g@;
                let sup = w.supersedes;
                proof {
                    assert(work_ids(ev, i + 1) == work_ids(ev, i as int).push(id@));
                    assert(work_ids(ev, i as int).push(id@).drop_last() =~= work_ids(ev, i as int));
                    assert(crate::work_item::texts(sup@) =~= crate::board::strs(sup@));
                    assert(successors(ev, i + 1, id@) == w@.supersedes);
                    lemma_first_occurrences_contains(work_ids(ev, i as int), id@);
                }
                if found {
                    let key = g[m].0.clone();
                    g.remove(m);
                    g.insert(m, (key, sup));
                    proof {
                        assert(g@ =~= old_g.update(m as int, (old_g[m as int].0, sup)));
                        assert(first_occurrences(work_ids(ev, i as int)).contains(id@)) by {
                            assert(keys[m as int] == id@);
                        }
                        assert(g@.map_values(|p: (String, Vec<String>)| p.0@) =~= keys);
                    }
                } else {
                    g.push((id, sup));
                    proof {
                        assert(!keys.contains(id@));
                        assert(g@.map_values(|p: (String, Vec<String>)| p.0@) =~= keys.push(id@));
                    }
                }
                proof {
                    assert forall|k: int| 0 <= k < g@.len() implies crate::board::strs(#[trigger] g@[k].1@) == successors(
                        ev,
                        i + 1,
                        g@[k].0@,
                    ) by {
                        if k < old_g.len() && !(found && k == m) {
                            assert(g@[k] == old_g[k]);
                            assert(old_g[k].0@ == keys[k]);
                            if keys[k] == id@ {
                                assert(found);
                                assert(keys[m as int] == id@);
                                lemma_first_occurrences_distinct(work_ids(ev, i as int));
                                assert(false);
                            }
                            assert(successors(ev, i + 1, g@[k].0@) == successors(ev, i as int, g@[k].0@));
                        } else if found && k == m {
                            assert(g@[k].0@ == keys[m as int]);
                        } else {
                            assert(g@[k].0@ == id@);
                        }
                    }
                }
            }
            None => {
                proof {
                    assert(work_ids(ev, i + 1) == work_ids(ev, i as int));
                    assert forall|k: int| 0 <= k < g@.len() implies crate::board::strs(#[trigger] g@[k].1@) == successors(
                        ev,
                        i + 1,
                        g@[k].0@,
                    ) by {}
                }
            }
        }
        i = i + 1;
    }
    g
}

fn successors_in(g: &Vec<(String, Vec<String>)>, y: &String, Ghost(ev): Ghost<Seq<EntryView>>) -> (r: Vec<String>)
    requires
        g@.map_values(|p: (String, Vec<String>)| p.0@) == first_occurrences(work_ids(ev, ev.len() as int)),
        forall|k: int| 0 <= k < g@.len() ==> crate::board::strs(#[trigger] g@[k].1@) == successors(ev, ev.len() as int, g@[k].0@),
    ensures
        crate::board::strs(r@) == successors(ev, ev.len() as int, y@),
{
    let ghost keys = g@.map_values(|p: (String, Vec<String>)| p.0@);
    let mut m: usize = 0;
    while m < g.len()
        invariant
            m <= g@.len(),
            keys == g@.map_values(|p: (String, Vec<String>)| p.0@),
            forall|q: int| 0 <= q < m ==> #[trigger] keys[q] != y@,
            keys == first_occurrences(work_ids(ev, ev.len() as int)),
            forall|k: int| 0 <= k < g@.len() ==> crate::board::strs(#[trigger] g@[k].1@) == successors(ev, ev.len() as int, g@[k].0@),
        decreases g.len() - m,
    {
        assert(keys[m as int] == g@[m as int].0@);
        if str_eq(g[m].0.as_str(), y.as_str()) {
            assert(g@[m as int].0@ == y@);
            let mut out: Vec<String> = Vec::new();
            let list = &g[m].1;
            assert(*list == g@[m as int].1);
            append_all(&mut out, list);
            assert(crate::board::strs(out@) =~= crate::board::strs(g@[m as int].1@));
            assert(crate::board::strs(g@[m as int].1@) == successors(ev, ev.len() as int, g@[m as int].0@));
            return out;
        }
        m = m + 1;
    }
    proof {
        assert(!keys.contains(y@));
        lemma_first_occurrences_contains(work_ids(ev, ev.len() as int), y@);
        lemma_successors_absent(ev, ev.len() as int, y@);
    }
    let out: Vec<String> = Vec::new();
    assert(crate::board::strs(out@) =~= Seq::<Seq<char>>::empty());
    out
}

proof fn lemma_reach_dead(es: Seq<EntryView>, start: Seq<char>, s: nat, n: nat)
    requires
        s <= n,
        forall|x: Seq<char>| !#[trigger] reach(es, start, s, x),
    ensures
        forall|x: Seq<char>| !#[trigger] reach(es, start, n, x),
    decreases n - s,
{
    if s < n {
        assert forall|x: Seq<char>| !#[trigger] reach(es, start, (s + 1) as nat, x) by {
            if reach(es, start, (s + 1) as nat, x) {
                let y = choose|y: Seq<char>| reach(es, start, s, y) && #[trigger] successors(es, es.len() as int, y).contains(x);
                assert(reach(es, start, s, y));
            }
        }
        lemma_reach_dead(es, start, (s + 1) as nat, n);
    }
}

/// The identities one supersession edge leads to from the frontier.
fn step(g: &Vec<(String, Vec<String>)>, frontier: &Vec<String>, Ghost(ev): Ghost<Seq<EntryView>>) -> (next: Vec<String>)
    requires
        g@.map_values(|p: (String, Vec<String>)| p.0@) == first_occurrences(work_ids(ev, ev.len() as int)),
        forall|k: int| 0 <= k < g@.len() ==> crate::board::strs(#[trigger] g@[k].1@) == successors(ev, ev.len() as int, g@[k].0@),
    ensures
        forall|x: Seq<char>| crate::board::strs(next@).contains(x) == exists|b: int|
            0 <= b < frontier@.len() && #[trigger] successors(ev, ev.len() as int, frontier@[b]@).contains(x),
{
    let mut next: Vec<String> = Vec::new();
    let mut a: usize = 0;
    while a < frontier.len()
        invariant
            g@.map_values(|p: (String, Vec<String>)| p.0@) == first_occurrences(work_ids(ev, ev.len() as int)),
            forall|k: int| 0 <= k < g@.len() ==> crate::board::strs(#[trigger] g@[k].1@) == successors(ev, ev.len() as int, g@[k].0@),
            a <= frontier@.len(),
            forall|x: Seq<char>| crate::board::strs(next@).contains(x) == exists|b: int|
                0 <= b < a && #[trigger] successors(ev, ev.len() as int, frontier@[b]@).contains(x),
        decreases frontier.len() - a,
    {
        let succ = successors_in(g, &frontier[a], Ghost(ev));
        add_new(&mut next, &succ);
        proof {
            assert forall|x: Seq<char>| crate::board::strs(next@).contains(x) == exists|b: int|
                0 <= b < a + 1 && #[trigger] successors(ev, ev.len() as int, frontier@[b]@).contains(x) by {
                if successors(ev, ev.len() as int, frontier@[a as int]@).contains(x) {
                    assert(0 <= a < a + 1);
                }
                if exists|b: int| 0 <= b < a + 1 && #[trigger] successors(ev, ev.len() as int, frontier@[b]@).contains(x) {
                    let b = choose|b: int| 0 <= b < a + 1 && #[trigger] successors(ev, ev.len() as int, frontier@[b]@).contains(x);
                    if b < a {
                        assert(exists|b: int| 0 <= b < a && #[trigger] successors(ev, ev.len() as int, frontier@[b]@).contains(x));
                    }
                }
            }
        }
        a = a + 1;
    }
    next
}

proof fn lemma_step_reach(ev: Seq<EntryView>, start: Seq<char>, frontier: Seq<Seq<char>>, next: Seq<Seq<char>>, n: nat)
    requires
        forall|x: Seq<char>| frontier.contains(x) == #[trigger] reach(ev, start, n, x),
        forall|x: Seq<char>| next.contains(x) == exists|b: int|
            0 <= b < frontier.len() && #[trigger] successors(ev, ev.len() as int, frontier[b]).contains(x),
    ensures
        forall|x: Seq<char>| next.contains(x) == #[trigger] reach(ev, start, n + 1, x),
{
    assert forall|x: Seq<char>| next.contains(x) == #[trigger] reach(ev, start, n + 1, x) by {
        if next.contains(x) {
            let b = choose|b: int| 0 <= b < frontier.len() && #[trigger] successors(ev, ev.len() as int, frontier[b]).contains(x);
            let y = frontier[b];
            assert(frontier.contains(y));
            assert(reach(ev, start, n, y));
            assert(reach(ev, start, n + 1, x));
        }
        if reach(ev, start, n + 1, x) {
            let y = choose|y: Seq<char>| reach(ev, start, n, y) && #[trigger] successors(ev, ev.len() as int, y).contains(x);
            assert(frontier.contains(y));
            let b = choose|b: int| 0 <= b < frontier.len() && frontier[b] == y;
            assert(successors(ev, ev.len() as int, frontier[b]).contains(x));
        }
    }
}

/// Whether a supersession walk of `extra + 1` edges leaves `start`.
fn walks_from(g: &Vec<(String, Vec<String>)>, start: &String, extra: usize, Ghost(ev): Ghost<Seq<EntryView>>) -> (r: bool)
    requires
        g@.map_values(|p: (String, Vec<String>)| p.0@) == first_occurrences(work_ids(ev, ev.len() as int)),
        forall|k: int| 0 <= k < g@.len() ==> crate::board::strs(#[trigger] g@[k].1@) == successors(ev, ev.len() as int, g@[k].0@),
    ensures
        r == exists|x: Seq<char>| #[trigger] reach(ev, start@, (extra + 1) as nat, x),
{
    let mut first: Vec<String> = Vec::new();
    first.push(start.clone());
    proof {
        assert forall|x: Seq<char>| crate::board::strs(first@).contains(x) == #[trigger] reach(ev, start@, 0, x) by {
            if x == start@ {
                assert(crate::board::strs(first@)[0] == x);
            }
        }
    }
    let mut frontier = step(g, &first, Ghost(ev));
    proof {
        assert forall|x: Seq<char>| crate::board::strs(frontier@).contains(x) == exists|b: int|
            0 <= b < crate::board::strs(first@).len() && #[trigger] successors(ev, ev.len() as int, crate::board::strs(first@)[b]).contains(x) by {
            if exists|b: int| 0 <= b < first@.len() && #[trigger] successors(ev, ev.len() as int, first@[b]@).contains(x) {
                let b = choose|b: int| 0 <= b < first@.len() && #[trigger] successors(ev, ev.len() as int, first@[b]@).contains(x);
                assert(crate::board::strs(first@)[b] == first@[b]@);
            }
            if exists|b: int| 0 <= b < crate::board::strs(first@).len() && #[trigger] successors(ev, ev.len() as int, crate::board::strs(first@)[b]).contains(x) {
                let b = choose|b: int| 0 <= b < crate::board::strs(first@).len() && #[trigger] successors(ev, ev.len() as int, crate::board::strs(first@)[b]).contains(x);
                assert(crate::board::strs(first@)[b] == first@[b]@);
            }
        }
        lemma_step_reach(ev, start@, crate::board::strs(first@), crate::board::strs(frontier@), 0);
    }
    let mut count: usize = 0;
    while count < extra && frontier.len() > 0
        invariant
            g@.map_values(|p: (String, Vec<String>)| p.0@) == first_occurrences(work_ids(ev, ev.len() as int)),
            forall|k: int| 0 <= k < g@.len() ==> crate::board::strs(#[trigger] g@[k].1@) == successors(ev, ev.len() as int, g@[k].0@),
            count <= extra,
            forall|x: Seq<char>| crate::board::strs(frontier@).contains(x) == #[trigger] reach(ev, start@, (count + 1) as nat, x),
        decreases extra - count,
    {
        let next = step(g, &frontier, Ghost(ev));
        let ghost n1: nat = (count + 1) as nat;
        proof {
            assert forall|x: Seq<char>| crate::board::strs(next@).contains(x) == exists|b: int|
                0 <= b < crate::board::strs(frontier@).len() && #[trigger] successors(ev, ev.len() as int, crate::board::strs(frontier@)[b]).contains(x) by {
                if exists|b: int| 0 <= b < frontier@.len() && #[trigger] successors(ev, ev.len() as int, frontier@[b]@).contains(x) {
                    let b = choose|b: int| 0 <= b < frontier@.len() && #[trigger] successors(ev, ev.len() as int, frontier@[b]@).contains(x);
                    assert(crate::board::strs(frontier@)[b] == frontier@[b]@);
                }
                if exists|b: int| 0 <= b < crate::board::strs(frontier@).len() && #[trigger] successors(ev, ev.len() as int, crate::board::strs(frontier@)[b]).contains(x) {
                    let b = choose|b: int| 0 <= b < crate::board::strs(frontier@).len() && #[trigger] successors(ev, ev.len() as int, crate::board::strs(frontier@)[b]).contains(x);
                    assert(crate::board::strs(frontier@)[b] == frontier@[b]@);
                }
            }
            assert forall|x: Seq<char>| crate::board::strs(frontier@).contains(x) == #[trigger] reach(ev, start@, n1, x) by {}
            lemma_step_reach(ev, start@, crate::board::strs(frontier@), crate::board::strs(next@), n1);
        }
        let ghost reached = crate::board::strs(next@);
        frontier = next;
        count = count + 1;
        assert((count + 1) as nat == n1 + 1);
        assert forall|x: Seq<char>| crate::board::strs(frontier@).contains(x) == #[trigger] reach(ev, start@, (count + 1) as nat, x) by {
            assert(reached.contains(x) == reach(ev, start@, n1 + 1, x));
        }
    }
    if frontier.len() == 0 {
        proof {
            assert forall|x: Seq<char>| !#[trigger] reach(ev, start@, (count + 1) as nat, x) by {
                assert(crate::board::strs(frontier@).len() == 0);
            }
            lemma_reach_dead(ev, start@, (count + 1) as nat, (extra + 1) as nat);
        }
        false
    } else {
        proof {
            let y = frontier@[0]@;
            assert(crate::board::strs(frontier@)[0] == y);
            assert(reach(ev, start@, (count + 1) as nat, y));
        }
        true
    }
}

proof fn lemma_push_contains(s: Seq<Seq<char>>, v: Seq<char>, x: Seq<char>)
    ensures
        s.push(v).contains(x) == (s.contains(x) || x == v),
{
    if s.push(v).contains(x) {
        let k = choose|k: int| 0 <= k < s.push(v).len() && s.push(v)[k] == x;
        if k < s.len() {
            assert(s[k] == x);
        }
    }
    if s.contains(x) {
        let k = choose|k: int| 0 <= k < s.len() && s[k] == x;
        assert(s.push(v)[k] == x);
    }
    if x == v {
        assert(s.push(v)[s.len() as int] == x);
    }
}

/// Adds the strings of `more` that `into` lacks.
fn add_new(into: &mut Vec<String>, more: &Vec<String>)
    ensures
        forall|x: Seq<char>| #[trigger] crate::board::strs(final(into)@).contains(x) == (crate::board::strs(old(into)@).contains(x)
            || crate::board::strs(more@).contains(x)),
{
    let ghost base = crate::board::strs(into@);
    let ghost ms = crate::board::strs(more@);
    let mut c: usize = 0;
    while c < more.len()
        invariant
            c <= more@.len(),
            ms == crate::board::strs(more@),
            forall|x: Seq<char>| #[trigger] crate::board::strs(into@).contains(x) == (base.contains(x) || ms.take(c as int).contains(x)),
        decreases more.len() - c,
    {
        let x = &more[c];
        let ghost before = crate::board::strs(into@);
        if !crate::board::list_contains(into, x) {
            into.push(x.clone());
            assert(crate::board::strs(into@) =~= before.push(x@));
        }
        proof {
            assert(ms.take(c + 1) =~= ms.take(c as int).push(x@));
            assert forall|y: Seq<char>| #[trigger] crate::board::strs(into@).contains(y) == (base.contains(y) || ms.take(c + 1).contains(y)) by {
                lemma_push_contains(ms.take(c as int), x@, y);
                lemma_push_contains(before, x@, y);
            }
        }
        c = c + 1;
    }
    assert(ms.take(c as int) =~= ms);
}

proof fn lemma_first_occurrences_distinct(ids: Seq<Seq<char>>)
    ensures
        forall|a: int, b: int|
            0 <= a < b < first_occurrences(ids).len() ==> #[trigger] first_occurrences(ids)[a] != #[trigger] first_occurrences(
                ids,
            )[b],
    decreases ids.len(),
{
    if ids.len() > 0 {
        lemma_first_occurrences_distinct(ids.drop_last());
        let f = first_occurrences(ids.drop_last());
        if !f.contains(ids.last()) {
            assert forall|a: int, b: int| 0 <= a < b < f.push(ids.last()).len() implies #[trigger] f.push(ids.last())[a]
                != #[trigger] f.push(ids.last())[b] by {
                if b == f.len() {
                    assert(f[a] != ids.last()) by {
                        if f[a] == ids.last() {
                            assert(f.contains(ids.last()));
                        }
                    }
                } else {
                    assert(f[a] != f[b]);
                }
            }
        }
    }
}

fn cycle_stage(entries: &Vec<EntrySnapshot>, out: &mut Vec<Diagnostic>)
    ensures
        diag_views(final(out)@) == diag_views(old(out)@) + cycle_problems(
            entry_views(entries@),
            first_occurrences(work_ids(entry_views(entries@), entries@.len() as int)),
        ),
{
    let ghost ev = entry_views(entries@);
    let g = supersession_graph(entries);
    let ghost keys = first_occurrences(work_ids(ev, ev.len() as int));
    let ghost start = diag_views(out@);
    let extra = g.len();
    assert(g@.map_values(|p: (String, Vec<String>)| p.0@).len() == g@.len());
    let mut k: usize = 0;
    assert(keys.take(0) =~= Seq::<Seq<char>>::empty());
    assert(start + cycle_problems(ev, Seq::empty()) =~= start);
    while k < g.len()
        invariant
            ev == entry_views(entries@),
            keys == first_occurrences(work_ids(ev, ev.len() as int)),
            g@.map_values(|p: (String, Vec<String>)| p.0@) == keys,
            forall|q: int| 0 <= q < g@.len() ==> crate::board::strs(#[trigger] g@[q].1@) == successors(ev, ev.len() as int, g@[q].0@),
            extra == g@.len(),
            keys.len() == g@.len(),
            k <= g@.len(),
            diag_views(out@) == start + cycle_problems(ev, keys.take(k as int)),
        decreases g.len() - k,
    {
        let ghost before = diag_views(out@);
        let key = &g[k].0;
        proof {
            assert(keys[k as int] == g@[k as int].0@);
            assert(keys.take(k + 1).drop_last() =~= keys.take(k as int));
            assert(keys.take(k + 1).last() == key@);
        }
        let cyc = walks_from(&g, key, extra, Ghost(ev));
        if cyc {
            let path = match resolve(entries, entries.len(), key.as_str()) {
                Some(j) => {
                    assert(ev[j as int] == entries@[j as int]@);
                    entries[j].path.clone()
                }
                None => String::new(),
            };
            let d = diag(path.as_str(), "supersession_cycle", "supersession references must not form a cycle");
            out.push(d);
            assert(diag_views(out@) =~= before.push(d@));
        }
        k = k + 1;
        assert(diag_views(out@) =~= start + cycle_problems(ev, keys.take(k as int)));
    }
    assert(keys.take(k as int) =~= keys);
}

/// Every cross-record diagnostic of a scan's entries under an activation.
pub fn cross_validate(entries: &Vec<EntrySnapshot>, active: &Activation) -> (r: Vec<Diagnostic>)
    ensures
        diag_views(r@) == cross_problems(entry_views(entries@), active@),
{
    let mut out: Vec<Diagnostic> = Vec::new();
    assert(diag_views(out@) =~= Seq::<DiagView>::empty());
    identity_stage(entries, active, &mut out);
    work_stage(entries, active, &mut out);
    evidence_stage(entries, active, &mut out);
    cycle_stage(entries, &mut out);
    assert(diag_views(out@) =~= cross_problems(entry_views(entries@), active@));
    out
}

/// The last position at or before `k` where `needle` occurs in `s`.
pub open spec fn last_from(s: Seq<char>, needle: Seq<char>, k: int) -> Option<int>
    decreases k + 1,
{
    if k < 0 {
        None
    } else if crate::text::occurs_at(s, needle, k) {
        Some(k)
    } else {
        last_from(s, needle, k - 1)
    }
}

/// The part of a path before its last `/strategy/`, as `rsplit_once` finds it.
pub open spec fn strategy_scope(path: Seq<char>) -> Option<Seq<char>> {
    match last_from(path, "/strategy/"@, path.len() - 10) {
        Some(k) => Some(path.take(k)),
        None => None,
    }
}

/// The entry is a governed implementation strategy in this scope.
pub open spec fn implementation_in(e: EntryView, scope: Option<Seq<char>>) -> bool {
    e.classification == Classification::Governed && strategy_scope(e.path) == scope && match e.summary {
        Some(SummaryView::Strategy { phase, .. }) => phase == "implementation"@,
        _ => false,
    }
}

/// The first entry that is a governed implementation strategy in this scope.
pub open spec fn first_implementation(es: Seq<EntryView>, scope: Option<Seq<char>>) -> Option<EntryView>
    decreases es.len(),
{
    if es.len() == 0 {
        None
    } else if implementation_in(es[0], scope) {
        Some(es[0])
    } else {
        first_implementation(es.drop_first(), scope)
    }
}

/// How many workers have the implementation-writer role.
pub open spec fn writer_count(ws: Seq<crate::strategy::WorkerView>) -> nat
    decreases ws.len(),
{
    if ws.len() == 0 {
        0
    } else {
        writer_count(ws.drop_last()) + if ws.last().role == "implementation-writer"@ {
            1nat
        } else {
            0nat
        }
    }
}

/// The diagnostics of entry `i` when it is a writer binding: its adapter must match
/// its scope's implementation strategy, whose matrix needs exactly one writer.
pub open spec fn binding_problems_at(es: Seq<EntryView>, i: int) -> Seq<DiagView> {
    let e = es[i];
    match (e.kind, e.summary) {
        (Some(Kind::StrategyBinding), Some(SummaryView::StrategyBinding(b))) => match first_implementation(
            es,
            strategy_scope(e.path),
        ) {
            None => Seq::empty(),
            Some(t) => {
                let adapter = match t.summary {
                    Some(SummaryView::Strategy { adapter, .. }) => adapter,
                    _ => Seq::empty(),
                };
                if b.adapter != adapter {
                    seq![
                        crate::diagnostic::with_field(
                            e.path,
                            "binding_adapter"@,
                            "binding adapter does not match implementation strategy"@,
                            "adapter"@,
                        ),
                    ]
                } else {
                    match text_of(t.original_bytes) {
                        None => Seq::empty(),
                        Some(text) => match crate::strategy::projection_result(text) {
                            Ok(Some(p)) => if writer_count(p.workers) != 1 {
                                seq![
                                    crate::diagnostic::with_field(
                                        e.path,
                                        "binding_writer_match"@,
                                        "implementation strategy must declare exactly one implementation-writer"@,
                                        "role"@,
                                    ),
                                ]
                            } else {
                                Seq::empty()
                            },
                            _ => seq![
                                crate::diagnostic::with_field(
                                    e.path,
                                    "binding_writer_match"@,
                                    "implementation strategy has no graphable implementation-writer match"@,
                                    "role"@,
                                ),
                            ],
                        },
                    }
                }
            },
        },
        _ => Seq::empty(),
    }
}

/// The binding diagnostics of the first `n` entries.
pub open spec fn binding_problems(es: Seq<EntryView>, n: int) -> Seq<DiagView>
    decreases n,
{
    if n <= 0 {
        Seq::empty()
    } else {
        binding_problems(es, n - 1) + binding_problems_at(es, n - 1)
    }
}

fn strategy_scope_of(path: &str) -> (r: Option<String>)
    ensures
        match r {
            Some(s) => strategy_scope(path@) == Some(s@),
            None => strategy_scope(path@) is None,
        },
{
    let cs = chars_of(path);
    let needle = chars_of("/strategy/");
    proof {
        reveal_strlit("/strategy/");
    }
    if cs.len() < 10 {
        assert(last_from(path@, "/strategy/"@, path@.len() - 10) is None);
        return None;
    }
    let mut k: usize = cs.len() - 10 + 1;
    while k > 0
        invariant
            cs@ == path@,
            needle@ == "/strategy/"@,
            needle@.len() == 10,
            cs@.len() >= 10,
            k <= cs@.len() - 10 + 1,
            last_from(path@, "/strategy/"@, path@.len() - 10) == last_from(path@, "/strategy/"@, k - 1),
        decreases k,
    {
        if crate::text::seq_occurs_at(cs.as_slice(), needle.as_slice(), k - 1) {
            let head = crate::text::copy_range(cs.as_slice(), 0, k - 1);
            assert(head@ =~= path@.take(k - 1));
            return Some(crate::text::string_of(head.as_slice()));
        }
        k = k - 1;
    }
    None
}

fn find_implementation(entries: &Vec<EntrySnapshot>, scope: &Option<String>) -> (r: Option<usize>)
    ensures
        match r {
            Some(j) => j < entries@.len() && first_implementation(entry_views(entries@), crate::diagnostic::opt_view(*scope))
                == Some(entry_views(entries@)[j as int]),
            None => first_implementation(entry_views(entries@), crate::diagnostic::opt_view(*scope)) is None,
        },
{
    let ghost ev = entry_views(entries@);
    let ghost sc = crate::diagnostic::opt_view(*scope);
    let mut j: usize = 0;
    assert(ev.skip(0) =~= ev);
    while j < entries.len()
        invariant
            ev == entry_views(entries@),
            sc == crate::diagnostic::opt_view(*scope),
            j <= ev.len(),
            first_implementation(ev, sc) == first_implementation(ev.skip(j as int), sc),
        decreases entries.len() - j,
    {
        let e = &entries[j];
        assert(ev[j as int] == e@);
        assert(ev.skip(j as int).drop_first() =~= ev.skip(j + 1));
        assert(ev.skip(j as int)[0] == e@);
        let governed = match e.classification {
            Classification::Governed => true,
            _ => false,
        };
        let implementation = match &e.summary {
            Some(RecordSummary::Strategy { phase, .. }) => str_eq(phase.as_str(), "implementation"),
            _ => false,
        };
        let ss = strategy_scope_of(e.path.as_str());
        assert(crate::diagnostic::opt_view(ss) == strategy_scope(e@.path));
        if governed && implementation && same_opt(&ss, scope) {
            assert(ev[j as int].classification == Classification::Governed);
            assert(strategy_scope(ev[j as int].path) == sc);
            assert(match ev[j as int].summary {
                Some(SummaryView::Strategy { phase, .. }) => phase == "implementation"@,
                _ => false,
            });
            assert(implementation_in(ev[j as int], sc));
            return Some(j);
        }
        assert(!implementation_in(ev[j as int], sc));
        j = j + 1;
    }
    None
}

fn count_writers(ws: &Vec<crate::strategy::StrategyWorker>) -> (n: usize)
    ensures
        n == writer_count(ws@.map_values(|w: crate::strategy::StrategyWorker| w@)),
{
    let ghost wv = ws@.map_values(|w: crate::strategy::StrategyWorker| w@);
    let mut n: usize = 0;
    let mut i: usize = 0;
    assert(wv.take(0) =~= Seq::<crate::strategy::WorkerView>::empty());
    while i < ws.len()
        invariant
            wv == ws@.map_values(|w: crate::strategy::StrategyWorker| w@),
            i <= ws@.len(),
            n == writer_count(wv.take(i as int)),
            n <= i,
        decreases ws.len() - i,
    {
        proof {
            assert(wv.take(i + 1).drop_last() =~= wv.take(i as int));
            assert(wv.take(i + 1).last() == ws@[i as int]@);
        }
        if str_eq(ws[i].role.as_str(), "implementation-writer") {
            n = n + 1;
        }
        i = i + 1;
    }
    assert(wv.take(i as int) =~= wv);
    n
}

fn binding_at(entries: &Vec<EntrySnapshot>, i: usize, out: &mut Vec<Diagnostic>)
    requires
        i < entries@.len(),
    ensures
        diag_views(final(out)@) == diag_views(old(out)@) + binding_problems_at(entry_views(entries@), i as int),
{
    let ghost ev = entry_views(entries@);
    let ghost before = diag_views(out@);
    let e = &entries[i];
    assert(ev[i as int] == e@);
    let is_binding = match e.kind {
        Some(Kind::StrategyBinding) => true,
        _ => false,
    };
    let b = match &e.summary {
        Some(RecordSummary::StrategyBinding { binding }) => binding,
        _ => {
            assert(before + binding_problems_at(ev, i as int) =~= before);
            return;
        }
    };
    if !is_binding {
        assert(before + binding_problems_at(ev, i as int) =~= before);
        return;
    }
    let scope = strategy_scope_of(e.path.as_str());
    assert(crate::diagnostic::opt_view(scope) == strategy_scope(e@.path));
    let j = match find_implementation(entries, &scope) {
        Some(j) => j,
        None => {
            assert(before + binding_problems_at(ev, i as int) =~= before);
            return;
        }
    };
    let t = &entries[j];
    assert(ev[j as int] == t@);
    proof {
        reveal_strlit("");
        assert(""@ =~= Seq::<char>::empty());
    }
    let adapter_same = match &t.summary {
        Some(RecordSummary::Strategy { adapter, .. }) => str_eq(b.adapter.as_str(), adapter.as_str()),
        _ => str_eq(b.adapter.as_str(), ""),
    };
    assert(first_implementation(ev, strategy_scope(ev[i as int].path)) == Some(t@));
    assert(ev[i as int].summary == Some(SummaryView::StrategyBinding(b@)));
    assert(ev[i as int].kind == Some(Kind::StrategyBinding));
    let ghost t_adapter = match t@.summary {
        Some(SummaryView::Strategy { adapter, .. }) => adapter,
        _ => Seq::<char>::empty(),
    };
    assert(adapter_same == (b@.adapter == t_adapter));
    if !adapter_same {
        let d = crate::diagnostic::field_diag(e.path.as_str(), "binding_adapter", "binding adapter does not match implementation strategy", "adapter");
        assert(d@ == crate::diagnostic::with_field(e@.path, "binding_adapter"@, "binding adapter does not match implementation strategy"@, "adapter"@));
        assert(binding_problems_at(ev, i as int) == seq![d@]);
        out.push(d);
        assert(diag_views(out@) =~= before + binding_problems_at(ev, i as int));
        return;
    }
    let text = match utf8_text(t.original_bytes.as_slice()) {
        Some(text) => text,
        None => {
            assert(before + binding_problems_at(ev, i as int) =~= before);
            return;
        }
    };
    match crate::strategy::parse_projection(t.path.as_str(), text.as_str()) {
        Ok(Some(p)) => {
            if count_writers(&p.workers) != 1 {
                let d = crate::diagnostic::field_diag(
                    e.path.as_str(),
                    "binding_writer_match",
                    "implementation strategy must declare exactly one implementation-writer",
                    "role",
                );
                out.push(d);
                assert(diag_views(out@) =~= before + binding_problems_at(ev, i as int));
            } else {
                assert(before + binding_problems_at(ev, i as int) =~= before);
            }
        }
        _ => {
            let d = crate::diagnostic::field_diag(
                e.path.as_str(),
                "binding_writer_match",
                "implementation strategy has no graphable implementation-writer match",
                "role",
            );
            out.push(d);
            assert(diag_views(out@) =~= before + binding_problems_at(ev, i as int));
        }
    }
}

/// The writer-binding diagnostics of a scan's entries.
pub fn binding_diagnostics(entries: &Vec<EntrySnapshot>) -> (r: Vec<Diagnostic>)
    ensures
        diag_views(r@) == binding_problems(entry_views(entries@), entries@.len() as int),
{
    let ghost ev = entry_views(entries@);
    let mut out: Vec<Diagnostic> = Vec::new();
    let mut i: usize = 0;
    assert(diag_views(out@) =~= Seq::<DiagView>::empty());
    while i < entries.len()
        invariant
            ev == entry_views(entries@),
            i <= entries@.len(),
            diag_views(out@) == binding_problems(ev, i as int),
        decreases entries.len() - i,
    {
        binding_at(entries, i, &mut out);
        i = i + 1;
    }
    out
}

} // verus!
