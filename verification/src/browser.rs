//! Browsing a scanned root: the projects, investigations, tickets and files in view,
//! a case-insensitive filter over them, and a selection that always points at
//! something listed.

use crate::board::strs;
use crate::derived::opt_text;
use crate::detail::{classification_name, classification_word, kind_name, kind_word};
use crate::index::{lowercase, to_lowercase};
use crate::record::{Classification, EntrySnapshot, EntryView, RecordSummary, SummaryView, entry_views};
use crate::scanning::{ScanResult, path_scope, roots_view};
use crate::text::{chars_of, contains, contains_seq, str_eq};
use crate::tui::{index_of, moved_index, normalise_value, select_value};
use vstd::prelude::*;

verus! {

/// Code-point lexicographic order on texts, the order of `str`'s `Ord`.
pub open spec fn text_lt(a: Seq<char>, b: Seq<char>) -> bool
    decreases a.len(),
{
    if b.len() == 0 {
        false
    } else if a.len() == 0 {
        true
    } else if a[0] != b[0] {
        (a[0] as int) < (b[0] as int)
    } else {
        text_lt(a.drop_first(), b.drop_first())
    }
}

proof fn lemma_text_lt_irreflexive(a: Seq<char>)
    ensures
        !text_lt(a, a),
    decreases a.len(),
{
    if a.len() > 0 {
        lemma_text_lt_irreflexive(a.drop_first());
    }
}

proof fn lemma_text_lt_transitive(a: Seq<char>, b: Seq<char>, c: Seq<char>)
    requires
        text_lt(a, b),
        text_lt(b, c),
    ensures
        text_lt(a, c),
    decreases a.len(),
{
    if a.len() > 0 && b.len() > 0 && c.len() > 0 && a[0] == b[0] && b[0] == c[0] {
        lemma_text_lt_transitive(a.drop_first(), b.drop_first(), c.drop_first());
    }
}

proof fn lemma_text_lt_total(a: Seq<char>, b: Seq<char>)
    requires
        a != b,
    ensures
        text_lt(a, b) || text_lt(b, a),
    decreases a.len(),
{
    if a.len() > 0 && b.len() > 0 && a[0] == b[0] {
        if a.drop_first() == b.drop_first() {
            assert(a =~= seq![a[0]] + a.drop_first());
            assert(b =~= seq![b[0]] + b.drop_first());
        }
        lemma_text_lt_total(a.drop_first(), b.drop_first());
    } else if a.len() > 0 && b.len() > 0 {
        assert((a[0] as int) != (b[0] as int));
    } else if a.len() == 0 && b.len() == 0 {
        assert(a =~= b);
    }
}

/// Whether a text comes before another in code-point order.
pub fn text_less(a: &str, b: &str) -> (r: bool)
    ensures
        r == text_lt(a@, b@),
{
    let x = chars_of(a);
    let y = chars_of(b);
    let mut i: usize = 0;
    assert(a@.skip(0) =~= a@ && b@.skip(0) =~= b@);
    while i < x.len() && i < y.len() && x[i] == y[i]
        invariant
            x@ == a@,
            y@ == b@,
            i <= x@.len(),
            i <= y@.len(),
            text_lt(a@, b@) == text_lt(a@.skip(i as int), b@.skip(i as int)),
        decreases x.len() - i,
    {
        assert(a@.skip(i as int).drop_first() =~= a@.skip(i + 1));
        assert(b@.skip(i as int).drop_first() =~= b@.skip(i + 1));
        i = i + 1;
    }
    let ghost rest_a = a@.skip(i as int);
    let ghost rest_b = b@.skip(i as int);
    if i == y.len() {
        assert(rest_b.len() == 0);
        false
    } else if i == x.len() {
        assert(rest_a.len() == 0 && rest_b.len() > 0);
        true
    } else {
        assert(rest_a[0] == x@[i as int] && rest_b[0] == y@[i as int]);
        x[i] < y[i]
    }
}

/// Texts in strictly increasing order, so each occurs once.
pub open spec fn ascending(s: Seq<Seq<char>>) -> bool {
    forall|i: int, j: int| 0 <= i < j < s.len() ==> text_lt(#[trigger] s[i], #[trigger] s[j])
}

/// The members of a set of texts in increasing order.
pub open spec fn listing(set: Set<Seq<char>>) -> Seq<Seq<char>> {
    choose|s: Seq<Seq<char>>| ascending(s) && s.to_set() == set
}

/// Two increasing sequences with the same members are the same.
pub proof fn lemma_ascending_unique(s: Seq<Seq<char>>, t: Seq<Seq<char>>)
    requires
        ascending(s),
        ascending(t),
        s.to_set() == t.to_set(),
    ensures
        s == t,
    decreases s.len(),
{
    if s.len() == 0 {
        if t.len() > 0 {
            assert(t.to_set().contains(t[0]));
        }
        assert(s =~= t);
    } else {
        assert(s.to_set().contains(s[0]));
        assert(t.contains(s[0]));
        assert(t.len() > 0);
        assert(t.to_set().contains(t[0]));
        assert(s.contains(t[0]));
        let k = choose|k: int| 0 <= k < t.len() && t[k] == s[0];
        let m = choose|m: int| 0 <= m < s.len() && s[m] == t[0];
        if s[0] != t[0] {
            assert(k > 0);
            assert(m > 0);
            assert(text_lt(t[0], t[k]));
            assert(text_lt(s[0], s[m]));
            lemma_text_lt_transitive(s[0], t[0], s[0]);
            lemma_text_lt_irreflexive(s[0]);
        }
        let a = s[0];
        let s1 = s.drop_first();
        let t1 = t.drop_first();
        assert forall|x: Seq<char>| s1.to_set().contains(x) == t1.to_set().contains(x) by {
            if s1.contains(x) {
                let i = choose|i: int| 0 <= i < s1.len() && s1[i] == x;
                assert(s[i + 1] == x);
                assert(text_lt(s[0], s[i + 1]));
                if x == a {
                    lemma_text_lt_irreflexive(a);
                }
                assert(s.to_set().contains(x));
                assert(t.contains(x));
                let j = choose|j: int| 0 <= j < t.len() && t[j] == x;
                assert(j != 0);
                assert(t1[j - 1] == x);
            }
            if t1.contains(x) {
                let i = choose|i: int| 0 <= i < t1.len() && t1[i] == x;
                assert(t[i + 1] == x);
                assert(text_lt(t[0], t[i + 1]));
                if x == a {
                    lemma_text_lt_irreflexive(a);
                }
                assert(t.to_set().contains(x));
                assert(s.contains(x));
                let j = choose|j: int| 0 <= j < s.len() && s[j] == x;
                assert(j != 0);
                assert(s1[j - 1] == x);
            }
        }
        assert(s1.to_set() =~= t1.to_set());
        assert(ascending(s1)) by {
            assert forall|i: int, j: int| 0 <= i < j < s1.len() implies text_lt(#[trigger] s1[i], #[trigger] s1[j]) by {
                assert(s1[i] == s[i + 1] && s1[j] == s[j + 1]);
            }
        }
        assert(ascending(t1)) by {
            assert forall|i: int, j: int| 0 <= i < j < t1.len() implies text_lt(#[trigger] t1[i], #[trigger] t1[j]) by {
                assert(t1[i] == t[i + 1] && t1[j] == t[j + 1]);
            }
        }
        lemma_ascending_unique(s1, t1);
        assert(s =~= seq![a] + s1);
        assert(t =~= seq![a] + t1);
    }
}

/// An increasing sequence is the listing of its members.
pub proof fn lemma_listing_of(s: Seq<Seq<char>>)
    requires
        ascending(s),
    ensures
        listing(s.to_set()) == s,
{
    let l = listing(s.to_set());
    assert(ascending(l) && l.to_set() == s.to_set());
    lemma_ascending_unique(l, s);
}

/// Adds a text to an increasing list of texts, keeping it increasing.
fn insert_sorted(values: &mut Vec<String>, x: String)
    requires
        ascending(strs(old(values)@)),
    ensures
        ascending(strs(final(values)@)),
        strs(final(values)@).to_set() == strs(old(values)@).to_set().insert(x@),
{
    let ghost vs = strs(values@);
    let mut j: usize = 0;
    while j < values.len() && text_less(values[j].as_str(), x.as_str())
        invariant
            vs == strs(values@),
            j <= values@.len(),
            forall|k: int| 0 <= k < j ==> text_lt(#[trigger] vs[k], x@),
        decreases values.len() - j,
    {
        j = j + 1;
    }
    if j < values.len() && crate::text::str_eq(values[j].as_str(), x.as_str()) {
        assert(vs.to_set().insert(x@) =~= vs.to_set()) by {
            assert(vs[j as int] == x@);
        }
        return;
    }
    proof {
        if j < vs.len() {
            assert(vs[j as int] != x@);
            lemma_text_lt_total(vs[j as int], x@);
        }
    }
    let ghost xv = x@;
    values.insert(j, x);
    let ghost ns = strs(values@);
    assert(ns =~= vs.insert(j as int, xv));
    assert forall|a: int, b: int| 0 <= a < b < ns.len() implies text_lt(#[trigger] ns[a], #[trigger] ns[b]) by {
        if b < j {
        } else if b == j {
            assert(ns[a] == vs[a]);
        } else if a < j {
            assert(ns[a] == vs[a] && ns[b] == vs[b - 1]);
            assert(text_lt(vs[a], xv));
            assert(text_lt(xv, vs[j as int]));
            lemma_text_lt_transitive(vs[a], xv, vs[j as int]);
            if b - 1 > j {
                lemma_text_lt_transitive(vs[a], vs[j as int], vs[b - 1]);
            }
        } else if a == j {
            assert(ns[b] == vs[b - 1]);
            if b - 1 > j {
                lemma_text_lt_transitive(xv, vs[j as int], vs[b - 1]);
            }
        } else {
            assert(ns[a] == vs[a - 1] && ns[b] == vs[b - 1]);
        }
    }
    assert forall|y: Seq<char>| ns.to_set().contains(y) == vs.to_set().insert(xv).contains(y) by {
        if ns.contains(y) {
            let i = choose|i: int| 0 <= i < ns.len() && ns[i] == y;
            if i < j {
                assert(vs[i] == y);
            } else if i > j {
                assert(vs[i - 1] == y);
            }
        }
        if vs.contains(y) {
            let i = choose|i: int| 0 <= i < vs.len() && vs[i] == y;
            if i < j {
                assert(ns[i] == y);
            } else {
                assert(ns[i + 1] == y);
            }
        }
        if y == xv {
            assert(ns[j as int] == y);
        }
    }
    assert(ns.to_set() =~= vs.to_set().insert(xv));
}

/// The project that a scope names, when there is one.
pub open spec fn scope_project(s: Option<(Seq<char>, Option<Seq<char>>)>) -> Option<Seq<char>> {
    match s {
        Some((p, _)) => Some(p),
        None => None,
    }
}

/// The projects that entries of a scan belong to.
pub open spec fn project_names(es: Seq<EntryView>, roots: Seq<(Seq<char>, Seq<Seq<char>>)>) -> Set<Seq<char>> {
    Set::new(|p: Seq<char>| exists|k: int| 0 <= k < es.len() && #[trigger] scope_project(path_scope(roots, es[k].path)) == Some(p))
}

/// The investigation of a project that a scope names, when there is one.
pub open spec fn scope_investigation(s: Option<(Seq<char>, Option<Seq<char>>)>, project: Seq<char>) -> Option<Seq<char>> {
    match s {
        Some((p, Some(i))) => if p == project {
            Some(i)
        } else {
            None
        },
        _ => None,
    }
}

/// The investigations of a project that entries of a scan belong to.
pub open spec fn investigation_names(es: Seq<EntryView>, roots: Seq<(Seq<char>, Seq<Seq<char>>)>, project: Seq<char>) -> Set<Seq<char>> {
    Set::new(|i: Seq<char>| exists|k: int| 0 <= k < es.len() && #[trigger] scope_investigation(path_scope(roots, es[k].path), project) == Some(i))
}

/// Every project of the scanned entries, once each, in order.
pub fn all_projects(scan: &ScanResult) -> (r: Vec<String>)
    ensures
        strs(r@) == listing(project_names(entry_views(scan.snapshot.entries@), roots_view(scan.investigation_roots@))),
{
    let ghost es = entry_views(scan.snapshot.entries@);
    let ghost roots = roots_view(scan.investigation_roots@);
    let mut out: Vec<String> = Vec::new();
    let mut i: usize = 0;
    assert(strs(out@).to_set() =~= project_names(es.take(0), roots));
    while i < scan.snapshot.entries.len()
        invariant
            es == entry_views(scan.snapshot.entries@),
            roots == roots_view(scan.investigation_roots@),
            i <= es.len(),
            ascending(strs(out@)),
            strs(out@).to_set() == project_names(es.take(i as int), roots),
        decreases scan.snapshot.entries.len() - i,
    {
        let e = &scan.snapshot.entries[i];
        let ghost before = project_names(es.take(i as int), roots);
        let ghost after = project_names(es.take(i + 1), roots);
        assert(es[i as int] == e@);
        match scan.scope_for_path(e.path.as_str()) {
            Some((p, _)) => {
                let ghost pv = p@;
                insert_sorted(&mut out, p);
                assert forall|q: Seq<char>| after.contains(q) == before.insert(pv).contains(q) by {
                    if after.contains(q) {
                        let k = choose|k: int| 0 <= k < i + 1 && #[trigger] scope_project(path_scope(roots, es.take(i + 1)[k].path)) == Some(q);
                        if k < i {
                            assert(es.take(i as int)[k] == es.take(i + 1)[k]);
                        }
                    }
                    if before.contains(q) {
                        let k = choose|k: int| 0 <= k < i && #[trigger] scope_project(path_scope(roots, es.take(i as int)[k].path)) == Some(q);
                        assert(es.take(i as int)[k] == es.take(i + 1)[k]);
                    }
                    if q == pv {
                        assert(es.take(i + 1)[i as int] == e@);
                        assert(scope_project(path_scope(roots, es.take(i + 1)[i as int].path)) == Some(q));
                    }
                }
                assert(after =~= before.insert(pv));
            },
            None => {
                assert forall|q: Seq<char>| after.contains(q) == before.contains(q) by {
                    if after.contains(q) {
                        let k = choose|k: int| 0 <= k < i + 1 && #[trigger] scope_project(path_scope(roots, es.take(i + 1)[k].path)) == Some(q);
                        if k < i {
                            assert(es.take(i as int)[k] == es.take(i + 1)[k]);
                        } else {
                            assert(es.take(i + 1)[k] == e@);
                        }
                    }
                    if before.contains(q) {
                        let k = choose|k: int| 0 <= k < i && #[trigger] scope_project(path_scope(roots, es.take(i as int)[k].path)) == Some(q);
                        assert(es.take(i as int)[k] == es.take(i + 1)[k]);
                    }
                }
                assert(after =~= before);
            },
        }
        i = i + 1;
    }
    assert(es.take(i as int) =~= es);
    proof {
        lemma_listing_of(strs(out@));
    }
    out
}

/// Every investigation of a project among the scanned entries, once each, in order.
pub fn all_investigations(scan: &ScanResult, project: &str) -> (r: Vec<String>)
    ensures
        strs(r@) == listing(investigation_names(entry_views(scan.snapshot.entries@), roots_view(scan.investigation_roots@), project@)),
{
    let ghost es = entry_views(scan.snapshot.entries@);
    let ghost roots = roots_view(scan.investigation_roots@);
    let mut out: Vec<String> = Vec::new();
    let mut i: usize = 0;
    assert(strs(out@).to_set() =~= investigation_names(es.take(0), roots, project@));
    while i < scan.snapshot.entries.len()
        invariant
            es == entry_views(scan.snapshot.entries@),
            roots == roots_view(scan.investigation_roots@),
            i <= es.len(),
            ascending(strs(out@)),
            strs(out@).to_set() == investigation_names(es.take(i as int), roots, project@),
        decreases scan.snapshot.entries.len() - i,
    {
        let e = &scan.snapshot.entries[i];
        let ghost before = investigation_names(es.take(i as int), roots, project@);
        let ghost after = investigation_names(es.take(i + 1), roots, project@);
        assert(es[i as int] == e@);
        let found = match scan.scope_for_path(e.path.as_str()) {
            Some((p, Some(inv))) => if crate::text::str_eq(p.as_str(), project) {
                Some(inv)
            } else {
                None
            },
            _ => None,
        };
        assert(found matches Some(v) ==> scope_investigation(path_scope(roots, e@.path), project@) == Some(v@));
        assert(found is None ==> scope_investigation(path_scope(roots, e@.path), project@) is None);
        match found {
            Some(inv) => {
                let ghost iv = inv@;
                insert_sorted(&mut out, inv);
                assert forall|q: Seq<char>| after.contains(q) == before.insert(iv).contains(q) by {
                    if after.contains(q) {
                        let k = choose|k: int| 0 <= k < i + 1 && #[trigger] scope_investigation(path_scope(roots, es.take(i + 1)[k].path), project@) == Some(q);
                        if k < i {
                            assert(es.take(i as int)[k] == es.take(i + 1)[k]);
                        }
                    }
                    if before.contains(q) {
                        let k = choose|k: int| 0 <= k < i && #[trigger] scope_investigation(path_scope(roots, es.take(i as int)[k].path), project@) == Some(q);
                        assert(es.take(i as int)[k] == es.take(i + 1)[k]);
                    }
                    if q == iv {
                        assert(es.take(i + 1)[i as int] == e@);
                        assert(scope_investigation(path_scope(roots, es.take(i + 1)[i as int].path), project@) == Some(q));
                    }
                }
                assert(after =~= before.insert(iv));
            },
            None => {
                assert forall|q: Seq<char>| after.contains(q) == before.contains(q) by {
                    if after.contains(q) {
                        let k = choose|k: int| 0 <= k < i + 1 && #[trigger] scope_investigation(path_scope(roots, es.take(i + 1)[k].path), project@) == Some(q);
                        if k < i {
                            assert(es.take(i as int)[k] == es.take(i + 1)[k]);
                        } else {
                            assert(es.take(i + 1)[k] == e@);
                        }
                    }
                    if before.contains(q) {
                        let k = choose|k: int| 0 <= k < i && #[trigger] scope_investigation(path_scope(roots, es.take(i as int)[k].path), project@) == Some(q);
                        assert(es.take(i as int)[k] == es.take(i + 1)[k]);
                    }
                }
                assert(after =~= before);
            },
        }
        i = i + 1;
    }
    assert(es.take(i as int) =~= es);
    proof {
        lemma_listing_of(strs(out@));
    }
    out
}

/// What the browser lists.
#[derive(Clone, Copy, Debug, PartialEq, Eq, Structural)]
pub enum BrowseView {
    Projects,
    Investigations,
    Tickets,
    Files,
}

/// The view after another, in a cycle.
pub open spec fn next_view(v: BrowseView) -> BrowseView {
    match v {
        BrowseView::Projects => BrowseView::Investigations,
        BrowseView::Investigations => BrowseView::Tickets,
        BrowseView::Tickets => BrowseView::Files,
        BrowseView::Files => BrowseView::Projects,
    }
}

/// The heading of a view.
pub open spec fn view_title(v: BrowseView) -> Seq<char> {
    match v {
        BrowseView::Projects => "Projects"@,
        BrowseView::Investigations => "Investigations"@,
        BrowseView::Tickets => "Tickets"@,
        BrowseView::Files => "Files"@,
    }
}

impl BrowseView {
    pub fn title(self) -> (r: &'static str)
        ensures
            r@ == view_title(self),
    {
        proof {
            reveal_strlit("Projects");
            reveal_strlit("Investigations");
            reveal_strlit("Tickets");
            reveal_strlit("Files");
        }
        match self {
            BrowseView::Projects => "Projects",
            BrowseView::Investigations => "Investigations",
            BrowseView::Tickets => "Tickets",
            BrowseView::Files => "Files",
        }
    }

    pub fn next(self) -> (r: BrowseView)
        ensures
            r == next_view(self),
    {
        match self {
            BrowseView::Projects => BrowseView::Investigations,
            BrowseView::Investigations => BrowseView::Tickets,
            BrowseView::Tickets => BrowseView::Files,
            BrowseView::Files => BrowseView::Projects,
        }
    }
}

/// The state of the browser: the view, what is selected in each list, and the filter.
pub struct Browser {
    view: BrowseView,
    selected_project: Option<String>,
    selected_investigation: Option<String>,
    selected_path: Option<String>,
    filter: String,
    entering_filter: bool,
}

/// The plain content of a browser.
pub struct BrowserState {
    pub view: BrowseView,
    pub project: Option<Seq<char>>,
    pub investigation: Option<Seq<char>>,
    pub path: Option<Seq<char>>,
    pub filter: Seq<char>,
    pub entering: bool,
}

impl View for Browser {
    type V = BrowserState;

    closed spec fn view(&self) -> BrowserState {
        BrowserState {
            view: self.view,
            project: opt_text(self.selected_project),
            investigation: opt_text(self.selected_investigation),
            path: opt_text(self.selected_path),
            filter: self.filter@,
            entering: self.entering_filter,
        }
    }
}

/// A governed work item.
pub open spec fn is_work(e: EntryView) -> bool {
    e.classification == Classification::Governed && e.summary matches Some(SummaryView::WorkItem { .. })
}

/// The title a summary shows in lists: that of a document, work item or board.
pub open spec fn title_text(s: Option<SummaryView>) -> Seq<char> {
    match s {
        Some(SummaryView::Markdown(t)) => t,
        Some(SummaryView::WorkItem { title, .. }) => title,
        Some(SummaryView::Board { title, .. }) => title,
        _ => Seq::empty(),
    }
}

/// The status of a work item's summary.
pub open spec fn status_text(s: Option<SummaryView>) -> Seq<char> {
    match s {
        Some(SummaryView::WorkItem { status, .. }) => status,
        _ => Seq::empty(),
    }
}

/// The texts of an entry that the filter searches.
pub open spec fn filter_fields(e: EntryView) -> Seq<Seq<char>> {
    seq![
        e.path,
        classification_word(e.classification),
        match e.kind {
            Some(k) => kind_word(k),
            None => Seq::empty(),
        },
        match e.identity {
            Some(i) => i,
            None => Seq::empty(),
        },
        title_text(e.summary),
        status_text(e.summary),
    ]
}

/// An entry passes a filter when the filter is empty or, ignoring case, one of its
/// searched texts contains it.
pub open spec fn passes_filter(e: EntryView, filter: Seq<char>) -> bool {
    lowercase(filter).len() == 0 || exists|k: int| 0 <= k < 6 && #[trigger] contains_seq(lowercase(filter_fields(e)[k]), lowercase(filter))
}

/// An entry belongs to the selected project and, for tickets, to the selected
/// investigation; files outside every investigation stay in view too.
pub open spec fn in_scope(st: BrowserState, roots: Seq<(Seq<char>, Seq<Seq<char>>)>, e: EntryView) -> bool {
    match path_scope(roots, e.path) {
        None => false,
        Some((p, i)) => st.project == Some(p) && match st.view {
            BrowseView::Projects | BrowseView::Investigations => true,
            BrowseView::Tickets => st.investigation == i,
            BrowseView::Files => i is None || st.investigation == i,
        },
    }
}

/// Tickets list work items; files list the rest.
pub open spec fn in_view(v: BrowseView, e: EntryView) -> bool {
    match v {
        BrowseView::Tickets => is_work(e),
        BrowseView::Files => !is_work(e),
        _ => false,
    }
}

/// Whether an entry is listed.
pub open spec fn listed(st: BrowserState, roots: Seq<(Seq<char>, Seq<Seq<char>>)>, e: EntryView) -> bool {
    in_scope(st, roots, e) && in_view(st.view, e) && passes_filter(e, st.filter)
}

/// The test for listed entries.
pub open spec fn listed_pred(st: BrowserState, roots: Seq<(Seq<char>, Seq<Seq<char>>)>) -> spec_fn(EntryView) -> bool {
    |e: EntryView| listed(st, roots, e)
}

/// The entries listed, in scan order.
pub open spec fn listed_entries(st: BrowserState, es: Seq<EntryView>, roots: Seq<(Seq<char>, Seq<Seq<char>>)>) -> Seq<EntryView> {
    es.filter(listed_pred(st, roots))
}

/// The paths of entries.
pub open spec fn paths(es: Seq<EntryView>) -> Seq<Seq<char>> {
    es.map_values(|e: EntryView| e.path)
}

/// An entry of a project that passes the filter.
pub open spec fn project_entry(filter: Seq<char>, roots: Seq<(Seq<char>, Seq<Seq<char>>)>, e: EntryView, p: Seq<char>) -> bool {
    scope_project(path_scope(roots, e.path)) == Some(p) && passes_filter(e, filter)
}

/// A project is shown when the filter is empty, its name contains the filter
/// ignoring case, or one of its entries passes the filter.
pub open spec fn project_shown(filter: Seq<char>, es: Seq<EntryView>, roots: Seq<(Seq<char>, Seq<Seq<char>>)>, p: Seq<char>) -> bool {
    filter.len() == 0 || contains_seq(lowercase(p), lowercase(filter)) || exists|k: int| 0 <= k < es.len() && #[trigger] project_entry(filter, roots, es[k], p)
}

/// The test for shown projects.
pub open spec fn project_pred(filter: Seq<char>, es: Seq<EntryView>, roots: Seq<(Seq<char>, Seq<Seq<char>>)>) -> spec_fn(Seq<char>) -> bool {
    |p: Seq<char>| project_shown(filter, es, roots, p)
}

/// The projects listed, in order.
pub open spec fn visible_projects(st: BrowserState, es: Seq<EntryView>, roots: Seq<(Seq<char>, Seq<Seq<char>>)>) -> Seq<Seq<char>> {
    listing(project_names(es, roots)).filter(project_pred(st.filter, es, roots))
}

/// An entry of an investigation of a project that passes the filter.
pub open spec fn investigation_entry(filter: Seq<char>, roots: Seq<(Seq<char>, Seq<Seq<char>>)>, e: EntryView, p: Seq<char>, i: Seq<char>) -> bool {
    scope_investigation(path_scope(roots, e.path), p) == Some(i) && passes_filter(e, filter)
}

/// An investigation is shown when the filter is empty, its name contains the filter
/// ignoring case, or one of its entries passes the filter.
pub open spec fn investigation_shown(filter: Seq<char>, es: Seq<EntryView>, roots: Seq<(Seq<char>, Seq<Seq<char>>)>, p: Seq<char>, i: Seq<char>) -> bool {
    filter.len() == 0 || contains_seq(lowercase(i), lowercase(filter)) || exists|k: int| 0 <= k < es.len() && #[trigger] investigation_entry(filter, roots, es[k], p, i)
}

/// The test for shown investigations.
pub open spec fn investigation_pred(filter: Seq<char>, es: Seq<EntryView>, roots: Seq<(Seq<char>, Seq<Seq<char>>)>, p: Seq<char>) -> spec_fn(Seq<char>) -> bool {
    |i: Seq<char>| investigation_shown(filter, es, roots, p, i)
}

/// The investigations of the selected project listed, in order.
pub open spec fn visible_investigations(st: BrowserState, es: Seq<EntryView>, roots: Seq<(Seq<char>, Seq<Seq<char>>)>) -> Seq<Seq<char>> {
    match st.project {
        None => Seq::empty(),
        Some(p) => listing(investigation_names(es, roots, p)).filter(investigation_pred(st.filter, es, roots, p)),
    }
}

/// A selection kept when it is listed, else the first listed value.
pub open spec fn keep_or_first(sel: Option<Seq<char>>, values: Seq<Seq<char>>) -> Option<Seq<char>> {
    if sel is Some && values.contains(sel->0) {
        sel
    } else if values.len() > 0 {
        Some(values[0])
    } else {
        None
    }
}

/// The state with each selection made to point at something listed: the project,
/// then the investigation, then the entry.
pub open spec fn normalised(st: BrowserState, es: Seq<EntryView>, roots: Seq<(Seq<char>, Seq<Seq<char>>)>) -> BrowserState {
    let a = BrowserState { project: keep_or_first(st.project, visible_projects(st, es, roots)), ..st };
    let b = BrowserState { investigation: keep_or_first(a.investigation, visible_investigations(a, es, roots)), ..a };
    BrowserState { path: keep_or_first(b.path, paths(listed_entries(b, es, roots))), ..b }
}

fn same_text(a: &Option<String>, b: &Option<String>) -> (r: bool)
    ensures
        r == (opt_text(*a) == opt_text(*b)),
{
    match (a, b) {
        (Some(x), Some(y)) => str_eq(x.as_str(), y.as_str()),
        (None, None) => true,
        _ => false,
    }
}

fn title_of(summary: &Option<RecordSummary>) -> (r: &str)
    ensures
        r@ == title_text(match summary {
            Some(s) => Some(s@),
            None => None,
        }),
{
    proof {
        reveal_strlit("");
    }
    match summary {
        Some(RecordSummary::Markdown { title }) => title.as_str(),
        Some(RecordSummary::WorkItem { title, .. }) => title.as_str(),
        Some(RecordSummary::Board { title, .. }) => title.as_str(),
        _ => "",
    }
}

fn status_of(summary: &Option<RecordSummary>) -> (r: &str)
    ensures
        r@ == status_text(match summary {
            Some(s) => Some(s@),
            None => None,
        }),
{
    proof {
        reveal_strlit("");
    }
    match summary {
        Some(RecordSummary::WorkItem { status, .. }) => status.as_str(),
        _ => "",
    }
}

/// Whether an entry passes a filter.
pub fn entry_passes(entry: &EntrySnapshot, filter: &str) -> (r: bool)
    ensures
        r == passes_filter(entry@, filter@),
{
    proof {
        reveal_strlit("");
    }
    let wanted = to_lowercase(filter);
    if wanted.as_str().is_empty() {
        return true;
    }
    let fields: Vec<&str> = vec![
        entry.path.as_str(),
        classification_name(entry.classification),
        match entry.kind {
            Some(k) => kind_name(k),
            None => "",
        },
        match &entry.identity {
            Some(i) => i.as_str(),
            None => "",
        },
        title_of(&entry.summary),
        status_of(&entry.summary),
    ];
    let ghost ff = filter_fields(entry@);
    assert(fields@.len() == 6);
    assert(forall|j: int| 0 <= j < 6 ==> fields@[j]@ == #[trigger] ff[j]);
    let mut k: usize = 0;
    while k < fields.len()
        invariant
            ff == filter_fields(entry@),
            fields@.len() == 6,
            forall|j: int| 0 <= j < 6 ==> fields@[j]@ == #[trigger] ff[j],
            wanted@ == lowercase(filter@),
            k <= 6,
            forall|j: int| 0 <= j < k ==> !#[trigger] contains_seq(lowercase(ff[j]), lowercase(filter@)),
        decreases fields.len() - k,
    {
        let lowered = to_lowercase(fields[k]);
        if contains(lowered.as_str(), wanted.as_str()) {
            assert(contains_seq(lowercase(ff[k as int]), lowercase(filter@)));
            return true;
        }
        k = k + 1;
    }
    false
}

/// The views of borrowed entries.
pub open spec fn entry_refs(s: Seq<&EntrySnapshot>) -> Seq<EntryView> {
    s.map_values(|e: &EntrySnapshot| e@)
}

/// Whether an entry is a governed work item.
pub fn is_work_entry(entry: &EntrySnapshot) -> (r: bool)
    ensures
        r == is_work(entry@),
{
    matches!(entry.classification, Classification::Governed) && matches!(entry.summary, Some(RecordSummary::WorkItem { .. }))
}

fn copy_text(a: &Option<String>) -> (r: Option<String>)
    ensures
        opt_text(r) == opt_text(*a),
{
    match a {
        Some(s) => Some(s.clone()),
        None => None,
    }
}

/// The state a browser starts from, before its selections are made.
pub open spec fn initial_state() -> BrowserState {
    BrowserState { view: BrowseView::Projects, project: None, investigation: None, path: None, filter: Seq::empty(), entering: false }
}

/// Whether any selection differs between two states.
pub open spec fn selection_changed(a: BrowserState, b: BrowserState) -> bool {
    a.project != b.project || a.investigation != b.investigation || a.path != b.path
}

impl Browser {
    fn in_scope_of(&self, scan: &ScanResult, entry: &EntrySnapshot) -> (r: bool)
        ensures
            r == in_scope(self@, roots_view(scan.investigation_roots@), entry@),
    {
        match scan.scope_for_path(entry.path.as_str()) {
            None => false,
            Some((p, i)) => {
                let same_project = same_text(&self.selected_project, &Some(p));
                same_project && match self.view {
                    BrowseView::Projects | BrowseView::Investigations => true,
                    BrowseView::Tickets => same_text(&self.selected_investigation, &i),
                    BrowseView::Files => i.is_none() || same_text(&self.selected_investigation, &i),
                }
            },
        }
    }

    fn in_view_of(&self, entry: &EntrySnapshot) -> (r: bool)
        ensures
            r == in_view(self@.view, entry@),
    {
        match self.view {
            BrowseView::Tickets => is_work_entry(entry),
            BrowseView::Files => !is_work_entry(entry),
            _ => false,
        }
    }

    /// The entries listed in the current view, in scan order.
    pub fn entries<'a>(&self, scan: &'a ScanResult) -> (r: Vec<&'a EntrySnapshot>)
        ensures
            entry_refs(r@) == listed_entries(self@, entry_views(scan.snapshot.entries@), roots_view(scan.investigation_roots@)),
    {
        let ghost es = entry_views(scan.snapshot.entries@);
        let ghost roots = roots_view(scan.investigation_roots@);
        let ghost pred = listed_pred(self@, roots);
        let mut out: Vec<&'a EntrySnapshot> = Vec::new();
        let mut i: usize = 0;
        assert(es.take(0) =~= Seq::<EntryView>::empty());
        proof {
            reveal(Seq::filter);
        }
        assert(entry_refs(out@) =~= es.take(0).filter(pred));
        while i < scan.snapshot.entries.len()
            invariant
                es == entry_views(scan.snapshot.entries@),
                roots == roots_view(scan.investigation_roots@),
                pred == listed_pred(self@, roots),
                i <= es.len(),
                entry_refs(out@) == es.take(i as int).filter(pred),
            decreases scan.snapshot.entries.len() - i,
        {
            let e = &scan.snapshot.entries[i];
            proof {
                reveal(Seq::filter);
                assert(es.take(i + 1).drop_last() =~= es.take(i as int));
                assert(es.take(i + 1).last() == e@);
            }
            let ghost before = entry_refs(out@);
            if self.in_scope_of(scan, e) && self.in_view_of(e) && entry_passes(e, self.filter.as_str()) {
                out.push(e);
                assert(entry_refs(out@) =~= before.push(e@));
            }
            i = i + 1;
        }
        assert(es.take(i as int) =~= es);
        out
    }

    pub fn entry_paths(&self, scan: &ScanResult) -> (r: Vec<String>)
        ensures
            strs(r@) == paths(listed_entries(self@, entry_views(scan.snapshot.entries@), roots_view(scan.investigation_roots@))),
    {
        let listed = self.entries(scan);
        let ghost ls = entry_refs(listed@);
        let mut out: Vec<String> = Vec::new();
        let mut i: usize = 0;
        while i < listed.len()
            invariant
                ls == entry_refs(listed@),
                i <= listed@.len(),
                strs(out@) == paths(ls.take(i as int)),
            decreases listed.len() - i,
        {
            let ghost before = strs(out@);
            out.push(listed[i].path.clone());
            assert(ls.take(i + 1) =~= ls.take(i as int).push(listed@[i as int]@));
            assert(strs(out@) =~= before.push(listed@[i as int].path@));
            assert(paths(ls.take(i + 1)) =~= paths(ls.take(i as int)).push(ls[i as int].path));
            assert(strs(out@) =~= paths(ls.take(i + 1)));
            i = i + 1;
        }
        assert(ls.take(i as int) =~= ls);
        out
    }

    fn project_shown_in(&self, scan: &ScanResult, project: &str) -> (r: bool)
        ensures
            r == project_shown(self@.filter, entry_views(scan.snapshot.entries@), roots_view(scan.investigation_roots@), project@),
    {
        let ghost es = entry_views(scan.snapshot.entries@);
        let ghost roots = roots_view(scan.investigation_roots@);
        if self.filter.as_str().is_empty() {
            return true;
        }
        if contains(to_lowercase(project).as_str(), to_lowercase(self.filter.as_str()).as_str()) {
            return true;
        }
        let mut k: usize = 0;
        while k < scan.snapshot.entries.len()
            invariant
                es == entry_views(scan.snapshot.entries@),
                roots == roots_view(scan.investigation_roots@),
                k <= es.len(),
                forall|j: int| 0 <= j < k ==> !#[trigger] project_entry(self@.filter, roots, es[j], project@),
            decreases scan.snapshot.entries.len() - k,
        {
            let e = &scan.snapshot.entries[k];
            assert(es[k as int] == e@);
            let same = match scan.scope_for_path(e.path.as_str()) {
                Some((p, _)) => str_eq(p.as_str(), project),
                None => false,
            };
            if same && entry_passes(e, self.filter.as_str()) {
                assert(project_entry(self@.filter, roots, es[k as int], project@));
                return true;
            }
            k = k + 1;
        }
        false
    }

    fn investigation_shown_in(&self, scan: &ScanResult, project: &str, investigation: &str) -> (r: bool)
        ensures
            r == investigation_shown(self@.filter, entry_views(scan.snapshot.entries@), roots_view(scan.investigation_roots@), project@, investigation@),
    {
        let ghost es = entry_views(scan.snapshot.entries@);
        let ghost roots = roots_view(scan.investigation_roots@);
        if self.filter.as_str().is_empty() {
            return true;
        }
        if contains(to_lowercase(investigation).as_str(), to_lowercase(self.filter.as_str()).as_str()) {
            return true;
        }
        let mut k: usize = 0;
        while k < scan.snapshot.entries.len()
            invariant
                es == entry_views(scan.snapshot.entries@),
                roots == roots_view(scan.investigation_roots@),
                k <= es.len(),
                forall|j: int| 0 <= j < k ==> !#[trigger] investigation_entry(self@.filter, roots, es[j], project@, investigation@),
            decreases scan.snapshot.entries.len() - k,
        {
            let e = &scan.snapshot.entries[k];
            assert(es[k as int] == e@);
            let same = match scan.scope_for_path(e.path.as_str()) {
                Some((p, Some(i))) => str_eq(p.as_str(), project) && str_eq(i.as_str(), investigation),
                _ => false,
            };
            if same && entry_passes(e, self.filter.as_str()) {
                assert(investigation_entry(self@.filter, roots, es[k as int], project@, investigation@));
                return true;
            }
            k = k + 1;
        }
        false
    }

    /// The projects listed, in order.
    pub fn projects(&self, scan: &ScanResult) -> (r: Vec<String>)
        ensures
            strs(r@) == visible_projects(self@, entry_views(scan.snapshot.entries@), roots_view(scan.investigation_roots@)),
    {
        let ghost es = entry_views(scan.snapshot.entries@);
        let ghost roots = roots_view(scan.investigation_roots@);
        let ghost pred = project_pred(self@.filter, es, roots);
        let all = all_projects(scan);
        let ghost l = strs(all@);
        let mut out: Vec<String> = Vec::new();
        let mut i: usize = 0;
        proof {
            reveal(Seq::filter);
        }
        assert(l.take(0).filter(pred) =~= Seq::<Seq<char>>::empty());
        while i < all.len()
            invariant
                es == entry_views(scan.snapshot.entries@),
                roots == roots_view(scan.investigation_roots@),
                pred == project_pred(self@.filter, es, roots),
                l == strs(all@),
                i <= l.len(),
                strs(out@) == l.take(i as int).filter(pred),
            decreases all.len() - i,
        {
            proof {
                reveal(Seq::filter);
                assert(l.take(i + 1).drop_last() =~= l.take(i as int));
                assert(l.take(i + 1).last() == all@[i as int]@);
            }
            let ghost before = strs(out@);
            if self.project_shown_in(scan, all[i].as_str()) {
                out.push(all[i].clone());
                assert(strs(out@) =~= before.push(all@[i as int]@));
            }
            i = i + 1;
        }
        assert(l.take(i as int) =~= l);
        out
    }

    /// The investigations of the selected project listed, in order.
    pub fn investigations(&self, scan: &ScanResult) -> (r: Vec<String>)
        ensures
            strs(r@) == visible_investigations(self@, entry_views(scan.snapshot.entries@), roots_view(scan.investigation_roots@)),
    {
        let ghost es = entry_views(scan.snapshot.entries@);
        let ghost roots = roots_view(scan.investigation_roots@);
        let project = match &self.selected_project {
            Some(p) => p,
            None => {
                let out: Vec<String> = Vec::new();
                assert(strs(out@) =~= Seq::<Seq<char>>::empty());
                return out;
            },
        };
        let ghost pred = investigation_pred(self@.filter, es, roots, project@);
        let all = all_investigations(scan, project.as_str());
        let ghost l = strs(all@);
        let mut out: Vec<String> = Vec::new();
        let mut i: usize = 0;
        proof {
            reveal(Seq::filter);
        }
        assert(l.take(0).filter(pred) =~= Seq::<Seq<char>>::empty());
        while i < all.len()
            invariant
                es == entry_views(scan.snapshot.entries@),
                roots == roots_view(scan.investigation_roots@),
                self@.project == Some(project@),
                pred == investigation_pred(self@.filter, es, roots, project@),
                l == strs(all@),
                i <= l.len(),
                strs(out@) == l.take(i as int).filter(pred),
            decreases all.len() - i,
        {
            proof {
                reveal(Seq::filter);
                assert(l.take(i + 1).drop_last() =~= l.take(i as int));
                assert(l.take(i + 1).last() == all@[i as int]@);
            }
            let ghost before = strs(out@);
            if self.investigation_shown_in(scan, project.as_str(), all[i].as_str()) {
                out.push(all[i].clone());
                assert(strs(out@) =~= before.push(all@[i as int]@));
            }
            i = i + 1;
        }
        assert(l.take(i as int) =~= l);
        out
    }
}

/// Where a selection moves among values by an offset; none when there are no values.
pub open spec fn moved(sel: Option<Seq<char>>, values: Seq<Seq<char>>, offset: i64) -> Option<Seq<char>> {
    if values.len() == 0 {
        None
    } else {
        Some(values[moved_index(index_of(values, sel), values.len() as int, offset)])
    }
}

/// The state after moving the selection of the current list by an offset; moving to
/// another project clears the investigation and entry.
pub open spec fn offset_target(st: BrowserState, es: Seq<EntryView>, roots: Seq<(Seq<char>, Seq<Seq<char>>)>, offset: i64) -> BrowserState {
    match st.view {
        BrowseView::Projects => BrowserState {
            project: moved(st.project, visible_projects(st, es, roots), offset),
            investigation: None,
            path: None,
            ..st
        },
        BrowseView::Investigations => BrowserState {
            investigation: moved(st.investigation, visible_investigations(st, es, roots), offset),
            ..st
        },
        _ => BrowserState { path: moved(st.path, paths(listed_entries(st, es, roots)), offset), ..st },
    }
}

/// Whether moving by an offset changes the selection of the current list.
pub open spec fn offset_changes(st: BrowserState, es: Seq<EntryView>, roots: Seq<(Seq<char>, Seq<Seq<char>>)>, offset: i64) -> bool {
    match st.view {
        BrowseView::Projects => st.project != moved(st.project, visible_projects(st, es, roots), offset),
        BrowseView::Investigations => st.investigation != moved(st.investigation, visible_investigations(st, es, roots), offset),
        _ => st.path != moved(st.path, paths(listed_entries(st, es, roots)), offset),
    }
}

/// The first entry with a path, when there is one.
pub open spec fn first_with_path(es: Seq<EntryView>, path: Seq<char>, k: int) -> bool {
    0 <= k < es.len() && es[k].path == path && forall|j: int| 0 <= j < k ==> es[j].path != path
}

impl Browser {
    /// Points each selection at something listed; whether any selection changed.
    fn normalise_selection(&mut self, scan: &ScanResult) -> (changed: bool)
        ensures
            final(self)@ == normalised(old(self)@, entry_views(scan.snapshot.entries@), roots_view(scan.investigation_roots@)),
            changed == selection_changed(old(self)@, final(self)@),
    {
        let ghost es = entry_views(scan.snapshot.entries@);
        let ghost roots = roots_view(scan.investigation_roots@);
        let ghost st = self@;
        let previous_project = copy_text(&self.selected_project);
        let previous_investigation = copy_text(&self.selected_investigation);
        let previous_path = copy_text(&self.selected_path);
        let projects = self.projects(scan);
        normalise_value(&mut self.selected_project, &projects);
        let ghost a = BrowserState { project: keep_or_first(st.project, visible_projects(st, es, roots)), ..st };
        assert(self@ == a);
        let investigations = self.investigations(scan);
        normalise_value(&mut self.selected_investigation, &investigations);
        let ghost b = BrowserState { investigation: keep_or_first(a.investigation, visible_investigations(a, es, roots)), ..a };
        assert(self@ == b);
        let listed = self.entry_paths(scan);
        normalise_value(&mut self.selected_path, &listed);
        assert(self@ == normalised(st, es, roots));
        !(same_text(&previous_project, &self.selected_project) && same_text(&previous_investigation, &self.selected_investigation)
            && same_text(&previous_path, &self.selected_path))
    }

    /// A browser over a scan, listing its projects with the first selected.
    pub fn new(scan: &ScanResult) -> (r: Browser)
        ensures
            r@ == normalised(initial_state(), entry_views(scan.snapshot.entries@), roots_view(scan.investigation_roots@)),
    {
        let mut browser = Browser {
            view: BrowseView::Projects,
            selected_project: None,
            selected_investigation: None,
            selected_path: None,
            filter: String::new(),
            entering_filter: false,
        };
        assert(browser@ == initial_state());
        browser.normalise_selection(scan);
        browser
    }

    /// What the browser lists.
    pub fn current_view(&self) -> (r: BrowseView)
        ensures
            r == self@.view,
    {
        self.view
    }

    /// The selected project and investigation, when both are selected.
    pub fn scope(&self) -> (r: Option<(&str, &str)>)
        ensures
            match r {
                Some((p, i)) => self@.project == Some(p@) && self@.investigation == Some(i@),
                None => self@.project is None || self@.investigation is None,
            },
    {
        match (&self.selected_project, &self.selected_investigation) {
            (Some(p), Some(i)) => Some((p.as_str(), i.as_str())),
            _ => None,
        }
    }

    /// The selected project.
    pub fn selected_project(&self) -> (r: Option<&str>)
        ensures
            match r {
                Some(p) => self@.project == Some(p@),
                None => self@.project is None,
            },
    {
        match &self.selected_project {
            Some(p) => Some(p.as_str()),
            None => None,
        }
    }

    /// The selected investigation.
    pub fn selected_investigation(&self) -> (r: Option<&str>)
        ensures
            match r {
                Some(i) => self@.investigation == Some(i@),
                None => self@.investigation is None,
            },
    {
        match &self.selected_investigation {
            Some(i) => Some(i.as_str()),
            None => None,
        }
    }

    /// The selected path.
    pub fn selected_path(&self) -> (r: Option<&str>)
        ensures
            match r {
                Some(p) => self@.path == Some(p@),
                None => self@.path is None,
            },
    {
        match &self.selected_path {
            Some(p) => Some(p.as_str()),
            None => None,
        }
    }

    /// The filter text.
    pub fn filter_text(&self) -> (r: &str)
        ensures
            r@ == self@.filter,
    {
        self.filter.as_str()
    }

    /// Lists another view and points the selections at what it lists.
    pub fn set_view(&mut self, scan: &ScanResult, view: BrowseView)
        ensures
            final(self)@ == normalised(BrowserState { view, ..old(self)@ }, entry_views(scan.snapshot.entries@), roots_view(scan.investigation_roots@)),
    {
        self.view = view;
        self.normalise_selection(scan);
    }

    /// Lists the next view in the cycle.
    pub fn cycle_view(&mut self, scan: &ScanResult)
        ensures
            final(self)@ == normalised(BrowserState { view: next_view(old(self)@.view), ..old(self)@ }, entry_views(scan.snapshot.entries@), roots_view(scan.investigation_roots@)),
    {
        let next = self.view.next();
        self.set_view(scan, next);
    }

    /// From projects to investigations to tickets; whether there was a level below.
    pub fn drill_down(&mut self, scan: &ScanResult) -> (r: bool)
        ensures
            r == (old(self)@.view == BrowseView::Projects || old(self)@.view == BrowseView::Investigations),
            r ==> final(self)@ == normalised(
                BrowserState {
                    view: if old(self)@.view == BrowseView::Projects {
                        BrowseView::Investigations
                    } else {
                        BrowseView::Tickets
                    },
                    ..old(self)@
                },
                entry_views(scan.snapshot.entries@),
                roots_view(scan.investigation_roots@),
            ),
            !r ==> final(self)@ == old(self)@,
    {
        let next = match self.view {
            BrowseView::Projects => BrowseView::Investigations,
            BrowseView::Investigations => BrowseView::Tickets,
            _ => return false,
        };
        self.set_view(scan, next);
        true
    }

    /// From tickets or files to investigations to projects; whether there was a level
    /// above.
    pub fn go_up(&mut self, scan: &ScanResult) -> (r: bool)
        ensures
            r == (old(self)@.view != BrowseView::Projects),
            r ==> final(self)@ == normalised(
                BrowserState {
                    view: if old(self)@.view == BrowseView::Investigations {
                        BrowseView::Projects
                    } else {
                        BrowseView::Investigations
                    },
                    ..old(self)@
                },
                entry_views(scan.snapshot.entries@),
                roots_view(scan.investigation_roots@),
            ),
            !r ==> final(self)@ == old(self)@,
    {
        let next = match self.view {
            BrowseView::Projects => return false,
            BrowseView::Investigations => BrowseView::Projects,
            _ => BrowseView::Investigations,
        };
        self.set_view(scan, next);
        true
    }

    /// Whether keys are typed into the filter.
    pub fn is_entering_filter(&self) -> (r: bool)
        ensures
            r == self@.entering,
    {
        self.entering_filter
    }

    /// Starts typing into the filter.
    pub fn start_filter(&mut self)
        ensures
            final(self)@ == (BrowserState { entering: true, ..old(self)@ }),
    {
        self.entering_filter = true;
    }

    /// Stops typing into the filter.
    pub fn close_filter(&mut self)
        ensures
            final(self)@ == (BrowserState { entering: false, ..old(self)@ }),
    {
        self.entering_filter = false;
    }

    /// Adds a character to the filter; whether a selection changed.
    pub fn push_filter(&mut self, scan: &ScanResult, character: char) -> (r: bool)
        ensures
            final(self)@ == normalised(
                BrowserState { filter: old(self)@.filter.push(character), ..old(self)@ },
                entry_views(scan.snapshot.entries@),
                roots_view(scan.investigation_roots@),
            ),
            r == selection_changed(old(self)@, final(self)@),
    {
        crate::text::push_char(&mut self.filter, character);
        self.normalise_selection(scan)
    }

    /// Removes the last character of the filter, if any; whether a selection changed.
    pub fn pop_filter(&mut self, scan: &ScanResult) -> (r: bool)
        ensures
            final(self)@ == normalised(
                BrowserState {
                    filter: if old(self)@.filter.len() > 0 {
                        old(self)@.filter.drop_last()
                    } else {
                        old(self)@.filter
                    },
                    ..old(self)@
                },
                entry_views(scan.snapshot.entries@),
                roots_view(scan.investigation_roots@),
            ),
            r == selection_changed(old(self)@, final(self)@),
    {
        let mut cs = chars_of(self.filter.as_str());
        if cs.len() > 0 {
            cs.pop();
            self.filter = crate::text::string_of(cs.as_slice());
            assert(self.filter@ =~= old(self)@.filter.drop_last());
        }
        self.normalise_selection(scan)
    }

    /// Empties the filter; whether a selection changed.
    pub fn clear_filter(&mut self, scan: &ScanResult) -> (r: bool)
        ensures
            final(self)@ == normalised(
                BrowserState { filter: Seq::empty(), ..old(self)@ },
                entry_views(scan.snapshot.entries@),
                roots_view(scan.investigation_roots@),
            ),
            r == selection_changed(old(self)@, final(self)@),
    {
        self.filter = String::new();
        assert(self.filter@ =~= Seq::<char>::empty());
        self.normalise_selection(scan)
    }

    /// The selected entry: in the tickets and files views, the first scanned entry
    /// with the selected path.
    pub fn selected<'a>(&self, scan: &'a ScanResult) -> (r: Option<&'a EntrySnapshot>)
        ensures
            match r {
                Some(e) => (self@.view == BrowseView::Tickets || self@.view == BrowseView::Files) && exists|k: int|
                    first_with_path(entry_views(scan.snapshot.entries@), self@.path->0, k) && #[trigger] scan.snapshot.entries@[k] == *e
                    && self@.path is Some,
                None => self@.view == BrowseView::Projects || self@.view == BrowseView::Investigations || self@.path is None || forall|k: int|
                    0 <= k < scan.snapshot.entries@.len() ==> #[trigger] scan.snapshot.entries@[k]@.path != self@.path->0,
            },
    {
        match self.view {
            BrowseView::Tickets | BrowseView::Files => {},
            _ => return None,
        }
        let path = match &self.selected_path {
            Some(p) => p,
            None => return None,
        };
        let ghost es = entry_views(scan.snapshot.entries@);
        let mut k: usize = 0;
        while k < scan.snapshot.entries.len()
            invariant
                es == entry_views(scan.snapshot.entries@),
                self@.path == Some(path@),
                self@.view == BrowseView::Tickets || self@.view == BrowseView::Files,
                k <= es.len(),
                forall|j: int| 0 <= j < k ==> es[j].path != path@,
            decreases scan.snapshot.entries.len() - k,
        {
            let e = &scan.snapshot.entries[k];
            if str_eq(e.path.as_str(), path.as_str()) {
                assert(first_with_path(es, path@, k as int));
                assert(scan.snapshot.entries@[k as int] == *e);
                return Some(e);
            }
            k = k + 1;
        }
        assert forall|j: int| 0 <= j < scan.snapshot.entries@.len() implies #[trigger] scan.snapshot.entries@[j]@.path != self@.path->0 by {
            assert(es[j] == scan.snapshot.entries@[j]@);
        }
        None
    }

    /// Moves the selection of the current list by an offset (to the end for the
    /// largest, to the start for the smallest); whether it changed.
    pub fn select_offset(&mut self, scan: &ScanResult, offset: i64) -> (r: bool)
        ensures
            r == offset_changes(old(self)@, entry_views(scan.snapshot.entries@), roots_view(scan.investigation_roots@), offset),
            final(self)@ == if r {
                normalised(
                    offset_target(old(self)@, entry_views(scan.snapshot.entries@), roots_view(scan.investigation_roots@), offset),
                    entry_views(scan.snapshot.entries@),
                    roots_view(scan.investigation_roots@),
                )
            } else {
                old(self)@
            },
    {
        let ghost es = entry_views(scan.snapshot.entries@);
        let ghost roots = roots_view(scan.investigation_roots@);
        let ghost st = self@;
        let changed = match self.view {
            BrowseView::Projects => {
                let values = self.projects(scan);
                let changed = select_value(&mut self.selected_project, &values, offset);
                if changed {
                    self.selected_investigation = None;
                    self.selected_path = None;
                }
                changed
            },
            BrowseView::Investigations => {
                let values = self.investigations(scan);
                select_value(&mut self.selected_investigation, &values, offset)
            },
            _ => {
                let values = self.entry_paths(scan);
                select_value(&mut self.selected_path, &values, offset)
            },
        };
        if changed {
            assert(self@ == offset_target(st, es, roots, offset));
            self.normalise_selection(scan);
        } else {
            assert(self@ == st);
        }
        changed
    }

    /// Selects the last entry of the current list, or the first; whether it changed.
    pub fn select_edge(&mut self, scan: &ScanResult, end: bool) -> (r: bool)
        ensures
            ({
                let offset = if end {
                    i64::MAX
                } else {
                    i64::MIN
                };
                &&& r == offset_changes(old(self)@, entry_views(scan.snapshot.entries@), roots_view(scan.investigation_roots@), offset)
                &&& final(self)@ == if r {
                    normalised(
                        offset_target(old(self)@, entry_views(scan.snapshot.entries@), roots_view(scan.investigation_roots@), offset),
                        entry_views(scan.snapshot.entries@),
                        roots_view(scan.investigation_roots@),
                    )
                } else {
                    old(self)@
                }
            }),
    {
        let offset = if end {
            i64::MAX
        } else {
            i64::MIN
        };
        self.select_offset(scan, offset)
    }
}

/// The test for work items in scope.
pub open spec fn ticket_pred(st: BrowserState, roots: Seq<(Seq<char>, Seq<Seq<char>>)>) -> spec_fn(EntryView) -> bool {
    |e: EntryView| is_work(e) && in_scope(st, roots, e)
}

/// The test for other entries in scope.
pub open spec fn file_pred(st: BrowserState, roots: Seq<(Seq<char>, Seq<Seq<char>>)>) -> spec_fn(EntryView) -> bool {
    |e: EntryView| !is_work(e) && in_scope(st, roots, e)
}

impl Browser {
    fn count_in_scope(&self, scan: &ScanResult, work: bool) -> (r: usize)
        ensures
            r == entry_views(scan.snapshot.entries@).filter(
                if work {
                    ticket_pred(self@, roots_view(scan.investigation_roots@))
                } else {
                    file_pred(self@, roots_view(scan.investigation_roots@))
                },
            ).len(),
    {
        let ghost es = entry_views(scan.snapshot.entries@);
        let ghost pred = if work {
            ticket_pred(self@, roots_view(scan.investigation_roots@))
        } else {
            file_pred(self@, roots_view(scan.investigation_roots@))
        };
        let mut count: usize = 0;
        let mut i: usize = 0;
        proof {
            reveal(Seq::filter);
        }
        assert(es.take(0).filter(pred) =~= Seq::<EntryView>::empty());
        while i < scan.snapshot.entries.len()
            invariant
                es == entry_views(scan.snapshot.entries@),
                pred == if work {
                    ticket_pred(self@, roots_view(scan.investigation_roots@))
                } else {
                    file_pred(self@, roots_view(scan.investigation_roots@))
                },
                i <= es.len(),
                count == es.take(i as int).filter(pred).len(),
                count <= i,
            decreases scan.snapshot.entries.len() - i,
        {
            let e = &scan.snapshot.entries[i];
            proof {
                reveal(Seq::filter);
                assert(es.take(i + 1).drop_last() =~= es.take(i as int));
                assert(es.take(i + 1).last() == e@);
            }
            if is_work_entry(e) == work && self.in_scope_of(scan, e) {
                count = count + 1;
            }
            i = i + 1;
        }
        assert(es.take(i as int) =~= es);
        count
    }

    /// The number of work items in the selected scope.
    pub fn ticket_count(&self, scan: &ScanResult) -> (r: usize)
        ensures
            r == entry_views(scan.snapshot.entries@).filter(ticket_pred(self@, roots_view(scan.investigation_roots@))).len(),
    {
        self.count_in_scope(scan, true)
    }

    /// The number of other entries in the selected scope.
    pub fn file_count(&self, scan: &ScanResult) -> (r: usize)
        ensures
            r == entry_views(scan.snapshot.entries@).filter(file_pred(self@, roots_view(scan.investigation_roots@))).len(),
    {
        self.count_in_scope(scan, false)
    }
}

/// A selection that `keep_or_first` chose is kept by it again.
proof fn lemma_keep_or_first_stable(sel: Option<Seq<char>>, values: Seq<Seq<char>>)
    ensures
        keep_or_first(keep_or_first(sel, values), values) == keep_or_first(sel, values),
        keep_or_first(sel, values) is None <==> values.len() == 0,
        keep_or_first(sel, values) matches Some(v) ==> values.contains(v),
{
    if !(sel is Some && values.contains(sel->0)) && values.len() > 0 {
        assert(values.contains(values[0]));
    }
    if sel is Some && values.contains(sel->0) {
        assert(values.len() > 0);
    }
}

/// After the selections are made, each points at something listed (the project at a
/// listed project, the investigation at a listed investigation of it, the entry at a
/// listed entry), and is empty only when its list is.
pub proof fn law_selection_is_listed(st: BrowserState, es: Seq<EntryView>, roots: Seq<(Seq<char>, Seq<Seq<char>>)>)
    ensures
        ({
            let n = normalised(st, es, roots);
            &&& (n.project is None <==> visible_projects(n, es, roots).len() == 0)
            &&& (n.project matches Some(p) ==> visible_projects(n, es, roots).contains(p))
            &&& (n.investigation is None <==> visible_investigations(n, es, roots).len() == 0)
            &&& (n.investigation matches Some(i) ==> visible_investigations(n, es, roots).contains(i))
            &&& (n.path is None <==> paths(listed_entries(n, es, roots)).len() == 0)
            &&& (n.path matches Some(p) ==> paths(listed_entries(n, es, roots)).contains(p))
        }),
{
    let a = BrowserState { project: keep_or_first(st.project, visible_projects(st, es, roots)), ..st };
    let b = BrowserState { investigation: keep_or_first(a.investigation, visible_investigations(a, es, roots)), ..a };
    let n = normalised(st, es, roots);
    lemma_keep_or_first_stable(st.project, visible_projects(st, es, roots));
    lemma_keep_or_first_stable(a.investigation, visible_investigations(a, es, roots));
    lemma_keep_or_first_stable(b.path, paths(listed_entries(b, es, roots)));
    assert(visible_projects(n, es, roots) == visible_projects(st, es, roots));
    assert(visible_investigations(n, es, roots) == visible_investigations(a, es, roots));
    assert(listed_pred(n, roots) == listed_pred(b, roots));
}

/// Making the selections twice changes nothing the first time did not.
pub proof fn law_normalising_is_idempotent(st: BrowserState, es: Seq<EntryView>, roots: Seq<(Seq<char>, Seq<Seq<char>>)>)
    ensures
        normalised(normalised(st, es, roots), es, roots) == normalised(st, es, roots),
{
    let a = BrowserState { project: keep_or_first(st.project, visible_projects(st, es, roots)), ..st };
    let b = BrowserState { investigation: keep_or_first(a.investigation, visible_investigations(a, es, roots)), ..a };
    let n = normalised(st, es, roots);
    lemma_keep_or_first_stable(st.project, visible_projects(st, es, roots));
    lemma_keep_or_first_stable(a.investigation, visible_investigations(a, es, roots));
    lemma_keep_or_first_stable(b.path, paths(listed_entries(b, es, roots)));
    assert(visible_projects(n, es, roots) == visible_projects(st, es, roots));
    let a2 = BrowserState { project: keep_or_first(n.project, visible_projects(n, es, roots)), ..n };
    assert(a2 == n);
    assert(visible_investigations(n, es, roots) == visible_investigations(a, es, roots));
    let b2 = BrowserState { investigation: keep_or_first(a2.investigation, visible_investigations(a2, es, roots)), ..a2 };
    assert(b2 == n);
    assert(listed_pred(n, roots) == listed_pred(b, roots));
}

} // verus!
