//! The derived read model of a scanned root: records with their scope and parsed
//! drafts, the relationships between work items, and boards with their cards.

use crate::activation::{
    Activation, ActivationView, investigation_identity, investigations_dir, project_for, project_in, scope_for,
    scope_of, slugs,
};
use crate::board::{BoardDraft, BoardView, ColumnView, strs, opt_strs};
use crate::diagnostic::Diagnostic;
use crate::draft::{draft_verdict, parse_draft};
use crate::order::{Keyed, keys_sorted, stably_ordered, lex_le, opt_field, push_opt_field, push_str_field, push_u64_field, sort_by_key,
    str_field, u64_field};
use crate::project_map::{text_of, utf8_text};
use crate::record::{
    Classification, DraftView, EntrySnapshot, EntryView, Kind, RecordDraft, RecordSummary, Revision, SummaryView,
    entry_views,
};
use crate::rendering::{markdown_html, render_markdown_html};
use crate::scanning::ScanResult;
use crate::text::{ends_with, is_suffix, push_str, strip_prefix_seq};
use crate::verdict::Verdict;
use crate::work_item::{WorkItemDraft, WorkItemView};
use vstd::prelude::*;

verus! {

broadcast use vstd::seq_lib::group_to_multiset_ensures;

/// The project, and the investigation within it, that a record belongs to.
#[derive(Debug, PartialEq, Eq)]
pub struct RecordScope {
    pub project: String,
    pub investigation: Option<String>,
}

/// The plain content of a scope.
pub struct ScopeView {
    pub project: Seq<char>,
    pub investigation: Option<Seq<char>>,
}

impl View for RecordScope {
    type V = ScopeView;

    open spec fn view(&self) -> ScopeView {
        ScopeView {
            project: self.project@,
            investigation: match self.investigation {
                Some(v) => Some(v@),
                None => None,
            },
        }
    }
}

impl Clone for RecordScope {
    fn clone(&self) -> (r: Self)
        ensures
            r == *self,
    {
        RecordScope { project: self.project.clone(), investigation: crate::diagnostic::copy_opt(&self.investigation) }
    }
}

/// A record identity within its scope.
#[derive(Debug, PartialEq, Eq)]
pub struct ScopedIdentity {
    pub scope: RecordScope,
    pub identity: String,
}

/// The plain content of a scoped identity.
pub struct IdentityView {
    pub scope: ScopeView,
    pub identity: Seq<char>,
}

impl View for ScopedIdentity {
    type V = IdentityView;

    open spec fn view(&self) -> IdentityView {
        IdentityView { scope: self.scope@, identity: self.identity@ }
    }
}

impl Clone for ScopedIdentity {
    fn clone(&self) -> (r: Self)
        ensures
            r == *self,
    {
        ScopedIdentity { scope: self.scope.clone(), identity: self.identity.clone() }
    }
}

/// The order key of a scoped identity: project, then investigation (absent first), then identity.
pub open spec fn identity_key(i: IdentityView) -> Seq<i64> {
    str_field(i.scope.project) + opt_field(i.scope.investigation) + str_field(i.identity)
}

fn push_identity_key(k: &mut Vec<i64>, i: &ScopedIdentity)
    ensures
        final(k)@ == old(k)@ + identity_key(i@),
{
    push_str_field(k, i.scope.project.as_str());
    push_opt_field(k, &i.scope.investigation);
    push_str_field(k, i.identity.as_str());
    assert(final(k)@ =~= old(k)@ + identity_key(i@));
}

/// One scanned record as the read model shows it.
#[derive(Debug, PartialEq, Eq)]
pub struct DerivedRecord {
    pub path: String,
    pub scope: Option<RecordScope>,
    pub classification: Classification,
    pub kind: Option<Kind>,
    pub identity: Option<ScopedIdentity>,
    pub title: String,
    pub content: Option<String>,
    pub rendered_markdown: Option<String>,
    pub search_text: String,
    pub work_item: Option<WorkItemDraft>,
    pub board: Option<BoardDraft>,
}

/// The plain content of a derived record.
pub struct RecordView {
    pub path: Seq<char>,
    pub scope: Option<ScopeView>,
    pub classification: Classification,
    pub kind: Option<Kind>,
    pub identity: Option<IdentityView>,
    pub title: Seq<char>,
    pub content: Option<Seq<char>>,
    pub rendered_markdown: Option<Seq<char>>,
    pub search_text: Seq<char>,
    pub work_item: Option<WorkItemView>,
    pub board: Option<BoardView>,
}

/// The view of an optional string.
pub open spec fn opt_text(s: Option<String>) -> Option<Seq<char>> {
    match s {
        Some(v) => Some(v@),
        None => None,
    }
}

impl View for DerivedRecord {
    type V = RecordView;

    open spec fn view(&self) -> RecordView {
        RecordView {
            path: self.path@,
            scope: match self.scope {
                Some(s) => Some(s@),
                None => None,
            },
            classification: self.classification,
            kind: self.kind,
            identity: match self.identity {
                Some(i) => Some(i@),
                None => None,
            },
            title: self.title@,
            content: opt_text(self.content),
            rendered_markdown: opt_text(self.rendered_markdown),
            search_text: self.search_text@,
            work_item: match self.work_item {
                Some(w) => Some(w@),
                None => None,
            },
            board: match self.board {
                Some(b) => Some(b@),
                None => None,
            },
        }
    }
}

/// The views of derived records.
pub open spec fn record_views(rs: Seq<DerivedRecord>) -> Seq<RecordView> {
    rs.map_values(|r: DerivedRecord| r@)
}

/// How one work item refers to another record.
#[derive(Clone, Copy, Debug, PartialEq, Eq, Structural)]
pub enum RelationshipKind {
    Decision,
    Related,
    Supersedes,
    SupersededBy,
}

/// The position of a relationship kind in the order of kinds.
pub open spec fn kind_rank(k: RelationshipKind) -> i64 {
    match k {
        RelationshipKind::Decision => 0,
        RelationshipKind::Related => 1,
        RelationshipKind::Supersedes => 2,
        RelationshipKind::SupersededBy => 3,
    }
}

/// A resolved reference from one work item to another record.
#[derive(Debug, PartialEq, Eq)]
pub struct DerivedRelationship {
    pub source: ScopedIdentity,
    pub target: ScopedIdentity,
    pub kind: RelationshipKind,
}

/// The plain content of a relationship.
pub struct RelationView {
    pub source: IdentityView,
    pub target: IdentityView,
    pub kind: RelationshipKind,
}

impl View for DerivedRelationship {
    type V = RelationView;

    open spec fn view(&self) -> RelationView {
        RelationView { source: self.source@, target: self.target@, kind: self.kind }
    }
}

/// The order key of a relationship: source, kind, then target.
pub open spec fn relation_key(r: RelationView) -> Seq<i64> {
    identity_key(r.source) + seq![kind_rank(r.kind)] + identity_key(r.target)
}

impl Keyed for DerivedRelationship {
    open spec fn sort_key(&self) -> Seq<i64> {
        relation_key(self@)
    }

    fn key(&self) -> (k: Vec<i64>) {
        let mut k: Vec<i64> = Vec::new();
        push_identity_key(&mut k, &self.source);
        let rank: i64 = match self.kind {
            RelationshipKind::Decision => 0,
            RelationshipKind::Related => 1,
            RelationshipKind::Supersedes => 2,
            RelationshipKind::SupersededBy => 3,
        };
        k.push(rank);
        push_identity_key(&mut k, &self.target);
        assert(k@ =~= relation_key(self@));
        k
    }
}

/// The views of relationships.
pub open spec fn relation_views(rs: Seq<DerivedRelationship>) -> Seq<RelationView> {
    rs.map_values(|r: DerivedRelationship| r@)
}

/// A work item placed on a board column.
#[derive(Debug, PartialEq, Eq)]
pub struct DerivedCard {
    pub identity: ScopedIdentity,
    pub kind: Kind,
    pub title: String,
    pub status: String,
    pub rank: Option<u64>,
}

/// The plain content of a card.
pub struct CardView {
    pub identity: IdentityView,
    pub kind: Kind,
    pub title: Seq<char>,
    pub status: Seq<char>,
    pub rank: Option<u64>,
}

impl View for DerivedCard {
    type V = CardView;

    open spec fn view(&self) -> CardView {
        CardView {
            identity: self.identity@,
            kind: self.kind,
            title: self.title@,
            status: self.status@,
            rank: self.rank,
        }
    }
}

/// The order key of a card: its rank (unranked last), then its identity.
pub open spec fn card_key(c: CardView) -> Seq<i64> {
    u64_field(
        match c.rank {
            Some(r) => r,
            None => u64::MAX,
        },
    ) + str_field(c.identity.identity)
}

impl Keyed for DerivedCard {
    open spec fn sort_key(&self) -> Seq<i64> {
        card_key(self@)
    }

    fn key(&self) -> (k: Vec<i64>) {
        let mut k: Vec<i64> = Vec::new();
        let rank: u64 = match self.rank {
            Some(r) => r,
            None => u64::MAX,
        };
        push_u64_field(&mut k, rank);
        push_str_field(&mut k, self.identity.identity.as_str());
        assert(k@ =~= card_key(self@));
        k
    }
}

/// The views of cards.
pub open spec fn card_views(cs: Seq<DerivedCard>) -> Seq<CardView> {
    cs.map_values(|c: DerivedCard| c@)
}

/// A board column with its cards.
#[derive(Debug, PartialEq, Eq)]
pub struct DerivedBoardColumn {
    pub name: String,
    pub statuses: Vec<String>,
    pub cards: Vec<DerivedCard>,
}

/// The plain content of a board column.
pub struct BoardColumnView {
    pub name: Seq<char>,
    pub statuses: Seq<Seq<char>>,
    pub cards: Seq<CardView>,
}

impl View for DerivedBoardColumn {
    type V = BoardColumnView;

    open spec fn view(&self) -> BoardColumnView {
        BoardColumnView { name: self.name@, statuses: strs(self.statuses@), cards: card_views(self.cards@) }
    }
}

/// A board with its columns filled.
#[derive(Debug, PartialEq, Eq)]
pub struct DerivedBoard {
    pub identity: ScopedIdentity,
    pub title: String,
    pub filter_statuses: Option<Vec<String>>,
    pub filter_kinds: Option<Vec<String>>,
    pub columns: Vec<DerivedBoardColumn>,
}

/// The plain content of a derived board.
pub struct DerivedBoardView {
    pub identity: IdentityView,
    pub title: Seq<char>,
    pub filter_statuses: Option<Seq<Seq<char>>>,
    pub filter_kinds: Option<Seq<Seq<char>>>,
    pub columns: Seq<BoardColumnView>,
}

impl View for DerivedBoard {
    type V = DerivedBoardView;

    open spec fn view(&self) -> DerivedBoardView {
        DerivedBoardView {
            identity: self.identity@,
            title: self.title@,
            filter_statuses: opt_strs(self.filter_statuses),
            filter_kinds: opt_strs(self.filter_kinds),
            columns: self.columns@.map_values(|c: DerivedBoardColumn| c@),
        }
    }
}

impl Keyed for DerivedBoard {
    open spec fn sort_key(&self) -> Seq<i64> {
        identity_key(self.identity@)
    }

    fn key(&self) -> (k: Vec<i64>) {
        let mut k: Vec<i64> = Vec::new();
        push_identity_key(&mut k, &self.identity);
        assert(k@ =~= identity_key(self.identity@));
        k
    }
}

/// The views of derived boards.
pub open spec fn board_views(bs: Seq<DerivedBoard>) -> Seq<DerivedBoardView> {
    bs.map_values(|b: DerivedBoard| b@)
}

/// The read model of a whole root.
#[derive(Debug, PartialEq, Eq)]
pub struct DerivedSnapshot {
    pub source_revision: Revision,
    pub records: Vec<DerivedRecord>,
    pub relationships: Vec<DerivedRelationship>,
    pub boards: Vec<DerivedBoard>,
    pub diagnostics: Vec<Diagnostic>,
}

/// The title that a summary gives its record.
pub open spec fn summary_title_of(s: SummaryView) -> Seq<char> {
    match s {
        SummaryView::Markdown(title) => title,
        SummaryView::WorkItem { title, .. } => title,
        SummaryView::Board { title, .. } => title,
        SummaryView::Strategy { strategy_id, .. } => strategy_id,
        SummaryView::StrategyBinding(_) => "Implementation writer binding"@,
        SummaryView::Activation(_) => "Casefile activation"@,
        SummaryView::ProjectMap(_) => "Project map"@,
    }
}

/// The title that a summary gives its record.
pub fn summary_title(summary: &RecordSummary) -> (r: String)
    ensures
        r@ == summary_title_of(summary@),
{
    match summary {
        RecordSummary::Markdown { title } => title.clone(),
        RecordSummary::WorkItem { title, .. } => title.clone(),
        RecordSummary::Board { title, .. } => title.clone(),
        RecordSummary::Strategy { strategy_id, .. } => strategy_id.clone(),
        RecordSummary::StrategyBinding { .. } => {
            let t = "Implementation writer binding";
            proof {
                reveal_strlit("Implementation writer binding");
            }
            t.to_owned()
        },
        RecordSummary::Activation { .. } => {
            proof {
                reveal_strlit("Casefile activation");
            }
            "Casefile activation".to_owned()
        },
        RecordSummary::ProjectMap { .. } => {
            proof {
                reveal_strlit("Project map");
            }
            "Project map".to_owned()
        },
    }
}

/// The scope of a path: the first activated project whose directory holds it, and
/// the identity of the investigation that holds it, if one does and lies in that project.
pub open spec fn scope_view_of(path: Seq<char>, a: ActivationView) -> Option<ScopeView> {
    match project_in(path, slugs(a)) {
        None => None,
        Some(p) => Some(
            ScopeView {
                project: p,
                investigation: match scope_of(path, a) {
                    Some(v) => strip_prefix_seq(v, investigations_dir(p)),
                    None => None,
                },
            },
        ),
    }
}

/// The scope of a path under an activation.
pub fn record_scope(path: &str, active: &Activation) -> (r: Option<RecordScope>)
    ensures
        match r {
            Some(s) => scope_view_of(path@, active@) == Some(s@),
            None => scope_view_of(path@, active@) is None,
        },
{
    let project = match project_for(path, active) {
        Some(p) => p,
        None => return None,
    };
    let investigation = match scope_for(path, active) {
        Some(value) => investigation_identity(project.as_str(), value.as_str()),
        None => None,
    };
    let r = RecordScope { project, investigation };
    assert(scope_view_of(path@, active@) == Some(r@));
    Some(r)
}

/// The draft that a governed writable record's text reads as, if it reads.
pub open spec fn record_draft(e: EntryView) -> Option<DraftView> {
    match (text_of(e.original_bytes), e.kind) {
        (Some(text), Some(k)) => if k.writable() && e.classification == Classification::Governed {
            match draft_verdict(e.path, k, text) {
                Verdict::Accept(d) => Some(d),
                _ => None,
            }
        } else {
            None
        },
        _ => None,
    }
}

/// The title of an entry: its summary's, else its identity, else its path.
pub open spec fn entry_title(e: EntryView) -> Seq<char> {
    match e.summary {
        Some(s) => summary_title_of(s),
        None => match e.identity {
            Some(i) => i,
            None => e.path,
        },
    }
}

/// The read model of one scanned entry.
pub open spec fn record_of(e: EntryView, a: ActivationView) -> RecordView {
    let content = text_of(e.original_bytes);
    let scope = scope_view_of(e.path, a);
    let title = entry_title(e);
    RecordView {
        path: e.path,
        scope,
        classification: e.classification,
        kind: e.kind,
        identity: match (e.identity, scope) {
            (Some(id), Some(s)) => Some(IdentityView { scope: s, identity: id }),
            _ => None,
        },
        title,
        content,
        rendered_markdown: match content {
            Some(c) => if is_suffix(".md"@, e.path) {
                Some(markdown_html(c))
            } else {
                None
            },
            None => None,
        },
        search_text: title + "\n"@ + match content {
            Some(c) => c,
            None => Seq::empty(),
        },
        work_item: match record_draft(e) {
            Some(DraftView::Ticket(w)) => Some(w),
            Some(DraftView::Epic(w)) => Some(w),
            _ => None,
        },
        board: match record_draft(e) {
            Some(DraftView::Board(b)) => Some(b),
            _ => None,
        },
    }
}

fn entry_draft(entry: &EntrySnapshot, content: &Option<String>) -> (r: Option<RecordDraft>)
    requires
        opt_text(*content) == text_of(entry@.original_bytes),
    ensures
        match r {
            Some(d) => record_draft(entry@) == Some(d@),
            None => record_draft(entry@) is None,
        },
{
    match (content, entry.kind) {
        (Some(text), Some(kind)) => {
            if kind.is_writable() && entry.classification == Classification::Governed {
                match parse_draft(entry.path.as_str(), kind, text.as_str()) {
                    Ok(d) => Some(d),
                    Err(_) => None,
                }
            } else {
                None
            }
        },
        _ => None,
    }
}

/// Derives the read model of one scanned entry.
pub fn derive_record(entry: &EntrySnapshot, active: &Activation) -> (r: DerivedRecord)
    ensures
        r@ == record_of(entry@, active@),
{
    let content = utf8_text(entry.original_bytes.as_slice());
    let rendered_markdown = match &content {
        Some(text) => if ends_with(entry.path.as_str(), ".md") {
            Some(render_markdown_html(text.as_str()))
        } else {
            None
        },
        None => None,
    };
    let title = match &entry.summary {
        Some(s) => summary_title(s),
        None => match &entry.identity {
            Some(i) => i.clone(),
            None => entry.path.clone(),
        },
    };
    let draft = entry_draft(entry, &content);
    let (work_item, board) = match draft {
        Some(RecordDraft::Ticket(item)) => (Some(item), None),
        Some(RecordDraft::Epic(item)) => (Some(item), None),
        Some(RecordDraft::Board(b)) => (None, Some(b)),
        None => (None, None),
    };
    let scope = record_scope(entry.path.as_str(), active);
    let identity = match (&entry.identity, &scope) {
        (Some(id), Some(s)) => Some(ScopedIdentity { scope: s.clone(), identity: id.clone() }),
        _ => None,
    };
    let mut search_text = title.clone();
    push_str(&mut search_text, "\n");
    match &content {
        Some(c) => push_str(&mut search_text, c.as_str()),
        None => {},
    }
    proof {
        reveal_strlit("\n");
        if content is None {
            assert(search_text@ =~= title@ + "\n"@ + Seq::<char>::empty());
        }
    }
    let r = DerivedRecord {
        path: entry.path.clone(),
        scope,
        classification: entry.classification,
        kind: entry.kind,
        identity,
        title,
        content,
        rendered_markdown,
        search_text,
        work_item,
        board,
    };
    assert(r@.identity == record_of(entry@, active@).identity);
    r
}

/// The views of scoped identities.
pub open spec fn identity_views(is: Seq<ScopedIdentity>) -> Seq<IdentityView> {
    is.map_values(|i: ScopedIdentity| i@)
}

/// `t` is a record that `reference`, made by `source` as a reference of `kind`, names:
/// a decision in the source's project and in its investigation or at project level,
/// or a ticket or epic in the source's own scope.
pub open spec fn targets_match(t: RecordView, reference: Seq<char>, kind: RelationshipKind, source: IdentityView) -> bool {
    match t.identity {
        None => false,
        Some(id) => id.identity == reference && if kind is Decision {
            &&& t.kind == Some(Kind::Decision)
            &&& id.scope.project == source.scope.project
            &&& (id.scope.investigation is None || id.scope.investigation == source.scope.investigation)
        } else {
            &&& (t.kind == Some(Kind::Ticket) || t.kind == Some(Kind::Epic))
            &&& id.scope == source.scope
        },
    }
}

/// The identities, in record order, of the records that a reference names.
pub open spec fn targets_of(recs: Seq<RecordView>, reference: Seq<char>, kind: RelationshipKind, source: IdentityView) -> Seq<IdentityView>
    decreases recs.len(),
{
    if recs.len() == 0 {
        Seq::empty()
    } else {
        let rest = targets_of(recs.drop_last(), reference, kind, source);
        if targets_match(recs.last(), reference, kind, source) {
            rest.push(recs.last().identity->0)
        } else {
            rest
        }
    }
}

/// The relationships that a list of references of one kind resolves to: one for each
/// reference that names exactly one record.
pub open spec fn refs_relations(recs: Seq<RecordView>, source: IdentityView, refs: Seq<Seq<char>>, kind: RelationshipKind) -> Seq<RelationView>
    decreases refs.len(),
{
    if refs.len() == 0 {
        Seq::empty()
    } else {
        let rest = refs_relations(recs, source, refs.drop_last(), kind);
        let ts = targets_of(recs, refs.last(), kind, source);
        if ts.len() == 1 {
            rest.push(RelationView { source, target: ts[0], kind })
        } else {
            rest
        }
    }
}

/// The relationships of one record: those of its work item's decision references,
/// related tickets, superseded and superseding items, when it has an identity.
pub open spec fn record_relations(recs: Seq<RecordView>, r: RecordView) -> Seq<RelationView> {
    match (r.identity, r.work_item) {
        (Some(s), Some(w)) => refs_relations(recs, s, w.decision_refs, RelationshipKind::Decision)
            + refs_relations(recs, s, w.related_tickets, RelationshipKind::Related)
            + refs_relations(recs, s, w.supersedes, RelationshipKind::Supersedes)
            + refs_relations(recs, s, w.superseded_by, RelationshipKind::SupersededBy),
        _ => Seq::empty(),
    }
}

/// The relationships of the records in `upto`, resolved among `recs`, in record order.
pub open spec fn raw_relations(recs: Seq<RecordView>, upto: Seq<RecordView>) -> Seq<RelationView>
    decreases upto.len(),
{
    if upto.len() == 0 {
        Seq::empty()
    } else {
        raw_relations(recs, upto.drop_last()) + record_relations(recs, upto.last())
    }
}

/// Keys that strictly ascend: sorted, with no value twice.
pub open spec fn strictly_ordered(rs: Seq<RelationView>) -> bool {
    forall|i: int, j: int|
        0 <= i < j < rs.len() ==> lex_le(#[trigger] relation_key(rs[i]), #[trigger] relation_key(rs[j])) && relation_key(rs[i])
            != relation_key(rs[j])
}

fn opt_str_eq(a: &Option<String>, b: &Option<String>) -> (r: bool)
    ensures
        r == (opt_text(*a) == opt_text(*b)),
{
    match (a, b) {
        (None, None) => true,
        (Some(x), Some(y)) => crate::text::str_eq(x.as_str(), y.as_str()),
        _ => false,
    }
}

fn scope_eq(a: &RecordScope, b: &RecordScope) -> (r: bool)
    ensures
        r == (a@ == b@),
{
    crate::text::str_eq(a.project.as_str(), b.project.as_str()) && opt_str_eq(&a.investigation, &b.investigation)
}

fn target_matches(t: &DerivedRecord, reference: &String, kind: RelationshipKind, source: &ScopedIdentity) -> (r: bool)
    ensures
        r == targets_match(t@, reference@, kind, source@),
{
    match &t.identity {
        None => false,
        Some(id) => {
            if !crate::text::str_eq(id.identity.as_str(), reference.as_str()) {
                return false;
            }
            match kind {
                RelationshipKind::Decision => {
                    t.kind == Some(Kind::Decision) && crate::text::str_eq(
                        id.scope.project.as_str(),
                        source.scope.project.as_str(),
                    ) && (id.scope.investigation.is_none() || opt_str_eq(
                        &id.scope.investigation,
                        &source.scope.investigation,
                    ))
                },
                _ => (t.kind == Some(Kind::Ticket) || t.kind == Some(Kind::Epic)) && scope_eq(&id.scope, &source.scope),
            }
        },
    }
}

fn targets(records: &Vec<DerivedRecord>, reference: &String, kind: RelationshipKind, source: &ScopedIdentity) -> (r: Vec<
    ScopedIdentity,
>)
    ensures
        identity_views(r@) == targets_of(record_views(records@), reference@, kind, source@),
{
    let ghost rv = record_views(records@);
    let mut out: Vec<ScopedIdentity> = Vec::new();
    let mut i: usize = 0;
    assert(rv.take(0) =~= Seq::<RecordView>::empty());
    assert(identity_views(out@) =~= Seq::<IdentityView>::empty());
    while i < records.len()
        invariant
            rv == record_views(records@),
            i <= records@.len(),
            identity_views(out@) == targets_of(rv.take(i as int), reference@, kind, source@),
        decreases records.len() - i,
    {
        proof {
            assert(rv.take(i + 1).drop_last() =~= rv.take(i as int));
            assert(rv.take(i + 1).last() == records@[i as int]@);
        }
        if target_matches(&records[i], reference, kind, source) {
            match &records[i].identity {
                Some(id) => {
                    let ghost prior = identity_views(out@);
                    out.push(id.clone());
                    assert(identity_views(out@) =~= prior.push(id@));
                },
                None => {},
            }
        }
        i = i + 1;
    }
    assert(rv.take(i as int) =~= rv);
    out
}

fn push_refs_relations(
    records: &Vec<DerivedRecord>,
    source: &ScopedIdentity,
    refs: &Vec<String>,
    kind: RelationshipKind,
    out: &mut Vec<DerivedRelationship>,
)
    ensures
        relation_views(final(out)@) == relation_views(old(out)@) + refs_relations(record_views(records@), source@, strs(refs@), kind),
{
    let ghost rv = record_views(records@);
    let ghost start = relation_views(out@);
    let mut i: usize = 0;
    assert(strs(refs@).take(0) =~= Seq::<Seq<char>>::empty());
    assert(relation_views(out@) =~= start + Seq::<RelationView>::empty());
    while i < refs.len()
        invariant
            rv == record_views(records@),
            i <= refs@.len(),
            relation_views(out@) == start + refs_relations(rv, source@, strs(refs@).take(i as int), kind),
        decreases refs.len() - i,
    {
        proof {
            assert(strs(refs@).take(i + 1).drop_last() =~= strs(refs@).take(i as int));
            assert(strs(refs@).take(i + 1).last() == refs@[i as int]@);
        }
        let ts = targets(records, &refs[i], kind, source);
        if ts.len() == 1 {
            let ghost prior = relation_views(out@);
            let target = ts[0].clone();
            out.push(DerivedRelationship { source: source.clone(), target, kind });
            assert(identity_views(ts@)[0] == ts@[0]@);
            assert(relation_views(out@) =~= prior.push(RelationView { source: source@, target: ts@[0]@, kind }));
        }
        i = i + 1;
    }
    assert(strs(refs@).take(i as int) =~= strs(refs@));
}

fn raw_relationships(records: &Vec<DerivedRecord>) -> (r: Vec<DerivedRelationship>)
    ensures
        relation_views(r@) == raw_relations(record_views(records@), record_views(records@)),
{
    let ghost rv = record_views(records@);
    let mut out: Vec<DerivedRelationship> = Vec::new();
    let mut i: usize = 0;
    assert(rv.take(0) =~= Seq::<RecordView>::empty());
    assert(relation_views(out@) =~= Seq::<RelationView>::empty());
    while i < records.len()
        invariant
            rv == record_views(records@),
            i <= records@.len(),
            relation_views(out@) == raw_relations(rv, rv.take(i as int)),
        decreases records.len() - i,
    {
        proof {
            assert(rv.take(i + 1).drop_last() =~= rv.take(i as int));
            assert(rv.take(i + 1).last() == records@[i as int]@);
        }
        let ghost before = relation_views(out@);
        let record = &records[i];
        match (&record.identity, &record.work_item) {
            (Some(source), Some(item)) => {
                push_refs_relations(records, source, &item.decision_refs, RelationshipKind::Decision, &mut out);
                push_refs_relations(records, source, &item.related_tickets, RelationshipKind::Related, &mut out);
                push_refs_relations(records, source, &item.supersedes, RelationshipKind::Supersedes, &mut out);
                push_refs_relations(records, source, &item.superseded_by, RelationshipKind::SupersededBy, &mut out);
                proof {
                    let w = item@;
                    assert(strs(item.decision_refs@) == w.decision_refs);
                    assert(relation_views(out@) =~= before + record_relations(rv, record@));
                }
            },
            _ => {
                assert(relation_views(out@) =~= before + record_relations(rv, record@));
            },
        }
        i = i + 1;
    }
    assert(rv.take(i as int) =~= rv);
    out
}

proof fn lemma_identity_key_split(a: IdentityView, b: IdentityView, x: Seq<i64>, y: Seq<i64>)
    requires
        identity_key(a) + x == identity_key(b) + y,
    ensures
        a == b,
        x == y,
{
    let ta = opt_field(a.scope.investigation) + str_field(a.identity) + x;
    let tb = opt_field(b.scope.investigation) + str_field(b.identity) + y;
    assert(identity_key(a) + x =~= str_field(a.scope.project) + ta);
    assert(identity_key(b) + y =~= str_field(b.scope.project) + tb);
    crate::order::lemma_str_field_split(a.scope.project, b.scope.project, ta, tb);
    let ua = str_field(a.identity) + x;
    let ub = str_field(b.identity) + y;
    assert(ta =~= opt_field(a.scope.investigation) + ua);
    assert(tb =~= opt_field(b.scope.investigation) + ub);
    crate::order::lemma_opt_field_split(a.scope.investigation, b.scope.investigation, ua, ub);
    crate::order::lemma_str_field_split(a.identity, b.identity, x, y);
}

/// Distinct relationships have distinct keys.
proof fn lemma_relation_key_injective(a: RelationView, b: RelationView)
    requires
        relation_key(a) == relation_key(b),
    ensures
        a == b,
{
    let ta = seq![kind_rank(a.kind)] + identity_key(a.target);
    let tb = seq![kind_rank(b.kind)] + identity_key(b.target);
    assert(relation_key(a) =~= identity_key(a.source) + ta);
    assert(relation_key(b) =~= identity_key(b.source) + tb);
    lemma_identity_key_split(a.source, b.source, ta, tb);
    assert(ta[0] == tb[0]);
    assert(identity_key(a.target) + Seq::<i64>::empty() =~= ta.drop_first());
    assert(identity_key(b.target) + Seq::<i64>::empty() =~= tb.drop_first());
    lemma_identity_key_split(a.target, b.target, Seq::<i64>::empty(), Seq::<i64>::empty());
}

/// Resolves the references of every work item to relationships: sorted by source,
/// kind and target, each once.
pub fn derive_relationships(records: &Vec<DerivedRecord>) -> (r: Vec<DerivedRelationship>)
    ensures
        strictly_ordered(relation_views(r@)),
        forall|x: RelationView|
            relation_views(r@).contains(x) <==> raw_relations(record_views(records@), record_views(records@)).contains(x),
{
    let raw = raw_relationships(records);
    let ghost rawv = relation_views(raw@);
    let sorted = sort_by_key(raw);
    let ghost sv = relation_views(sorted@);
    proof {
        assert forall|x: RelationView| sv.contains(x) <==> rawv.contains(x) by {
            if sv.contains(x) {
                let i = choose|i: int| 0 <= i < sv.len() && sv[i] == x;
                assert(sorted@.to_multiset().count(sorted@[i]) > 0);
                assert(raw@.to_multiset().count(sorted@[i]) > 0);
                assert(raw@.contains(sorted@[i]));
                let j = choose|j: int| 0 <= j < raw@.len() && raw@[j] == sorted@[i];
                assert(rawv[j] == x);
            }
            if rawv.contains(x) {
                let j = choose|j: int| 0 <= j < rawv.len() && rawv[j] == x;
                assert(raw@.to_multiset().count(raw@[j]) > 0);
                assert(sorted@.to_multiset().count(raw@[j]) > 0);
                assert(sorted@.contains(raw@[j]));
                let i = choose|i: int| 0 <= i < sorted@.len() && sorted@[i] == raw@[j];
                assert(sv[i] == x);
            }
        }
    }
    let mut out: Vec<DerivedRelationship> = Vec::new();
    let mut last_key: Vec<i64> = Vec::new();
    let mut i: usize = 0;
    while i < sorted.len()
        invariant
            sv == relation_views(sorted@),
            keys_sorted(sorted@),
            i <= sorted@.len(),
            strictly_ordered(relation_views(out@)),
            out@.len() > 0 ==> last_key@ == relation_key(relation_views(out@).last()),
            i == 0 ==> out@.len() == 0,
            i > 0 ==> out@.len() > 0 && relation_views(out@).last() == sv[i - 1],
            forall|x: RelationView| relation_views(out@).contains(x) <==> sv.take(i as int).contains(x),
        decreases sorted.len() - i,
    {
        let item = &sorted[i];
        let k = item.key();
        let ghost ov = relation_views(out@);
        if out.len() > 0 && crate::order::key_le(k.as_slice(), last_key.as_slice()) {
            proof {
                assert(sorted@[i - 1].sort_key() == relation_key(sv[i - 1]));
                assert(lex_le(relation_key(sv[i - 1]), relation_key(sv[i as int])));
                crate::order::lemma_lex_le_antisymmetric(relation_key(sv[i - 1]), relation_key(sv[i as int]));
                lemma_relation_key_injective(sv[i - 1], sv[i as int]);
                assert(sv.take(i + 1) =~= sv.take(i as int).push(sv[i as int]));
                assert forall|x: RelationView| relation_views(out@).contains(x) <==> sv.take(i + 1).contains(x) by {
                    if x == sv[i as int] {
                        assert(ov[ov.len() - 1] == x);
                    }
                    if sv.take(i + 1).contains(x) && x != sv[i as int] {
                        let j = choose|j: int| 0 <= j < i + 1 && #[trigger] sv.take(i + 1)[j] == x;
                        assert(sv.take(i as int)[j] == x);
                    }
                }
            }
        } else {
            proof {
                if out@.len() > 0 {
                    crate::order::lemma_lex_le_total(k@, last_key@);
                    assert(lex_le(relation_key(sv[i - 1]), relation_key(sv[i as int])));
                    assert forall|a: int| 0 <= a < ov.len() implies lex_le(#[trigger] relation_key(ov[a]), relation_key(sv[i as int]))
                        && relation_key(ov[a]) != relation_key(sv[i as int]) by {
                        if a < ov.len() - 1 {
                            crate::order::lemma_lex_le_transitive(relation_key(ov[a]), relation_key(ov.last()), relation_key(sv[i as int]));
                            if relation_key(ov[a]) == relation_key(sv[i as int]) {
                                crate::order::lemma_lex_le_antisymmetric(relation_key(ov[a]), relation_key(ov.last()));
                            }
                        }
                    }
                }
            }
            let copy = DerivedRelationship { source: item.source.clone(), target: item.target.clone(), kind: item.kind };
            out.push(copy);
            last_key = k;
            proof {
                assert(relation_views(out@) =~= ov.push(sv[i as int]));
                assert(sv.take(i + 1) =~= sv.take(i as int).push(sv[i as int]));
                assert forall|x: RelationView| relation_views(out@).contains(x) <==> sv.take(i + 1).contains(x) by {
                    if relation_views(out@).contains(x) && x != sv[i as int] {
                        let j = choose|j: int| 0 <= j < relation_views(out@).len() && relation_views(out@)[j] == x;
                        assert(ov[j] == x);
                        assert(ov.contains(x));
                        assert(sv.take(i as int).contains(x));
                        let k = choose|k: int| 0 <= k < i && #[trigger] sv.take(i as int)[k] == x;
                        assert(sv.take(i + 1)[k] == x);
                    }
                    if sv.take(i + 1).contains(x) && x != sv[i as int] {
                        let j = choose|j: int| 0 <= j < i + 1 && #[trigger] sv.take(i + 1)[j] == x;
                        assert(sv.take(i as int)[j] == x);
                        assert(sv.take(i as int).contains(x));
                        assert(ov.contains(x));
                        let k = choose|k: int| 0 <= k < ov.len() && #[trigger] ov[k] == x;
                        assert(relation_views(out@)[k] == x);
                    }
                    if x == sv[i as int] {
                        assert(relation_views(out@)[ov.len() as int] == x);
                        assert(sv.take(i + 1)[i as int] == x);
                    }
                }
            }
        }
        i = i + 1;
    }
    assert(sv.take(i as int) =~= sv);
    out
}

/// The filter name of a card's kind.
pub open spec fn kind_name_of(k: Kind) -> Seq<char> {
    if k is Ticket {
        "ticket"@
    } else {
        "epic"@
    }
}

/// A card of `status` and kind `k` passes a board's status and kind filters.
pub open spec fn card_passes(b: BoardView, status: Seq<char>, k: Kind) -> bool {
    &&& match b.filter_statuses {
        Some(v) => v.contains(status),
        None => true,
    }
    &&& match b.filter_kinds {
        Some(v) => v.contains(kind_name_of(k)),
        None => true,
    }
}

/// The index of the first column that holds `status`; the number of columns when none does.
pub open spec fn first_column(columns: Seq<ColumnView>, status: Seq<char>) -> int
    decreases columns.len(),
{
    if columns.len() == 0 {
        0
    } else if columns[0].statuses.contains(status) {
        0
    } else {
        1 + first_column(columns.drop_first(), status)
    }
}

/// The card that a work item record shows.
pub open spec fn card_of(c: RecordView) -> CardView {
    CardView {
        identity: c.identity->0,
        kind: c.kind->0,
        title: c.work_item->0.title,
        status: c.work_item->0.status,
        rank: c.work_item->0.rank,
    }
}

/// `c` is a work item of the board's scope that passes its filters and lands in column `j`.
pub open spec fn card_in_column(c: RecordView, scope: ScopeView, b: BoardView, j: int) -> bool {
    &&& c.identity is Some
    &&& c.identity->0.scope == scope
    &&& c.work_item is Some
    &&& c.kind is Some
    &&& card_passes(b, c.work_item->0.status, c.kind->0)
    &&& first_column(b.columns, c.work_item->0.status) == j
}

/// The cards of column `j`, in record order.
pub open spec fn column_cards(recs: Seq<RecordView>, scope: ScopeView, b: BoardView, j: int) -> Seq<CardView>
    decreases recs.len(),
{
    if recs.len() == 0 {
        Seq::empty()
    } else {
        let rest = column_cards(recs.drop_last(), scope, b, j);
        if card_in_column(recs.last(), scope, b, j) {
            rest.push(card_of(recs.last()))
        } else {
            rest
        }
    }
}

/// `cards` holds the cards of `expected`, sorted by rank and identity, cards with equal
/// keys in the order of `expected`.
pub open spec fn cards_arranged(cards: Seq<DerivedCard>, expected: Seq<CardView>) -> bool {
    &&& keys_sorted(cards)
    &&& exists|orig: Seq<DerivedCard>|
        card_views(orig) == expected && orig.to_multiset() == cards.to_multiset() && stably_ordered(cards, orig)
}

/// The board that a record defines, with its scope: a governed board record whose
/// text reads as a board and whose path lies in an activated project.
pub open spec fn board_source(r: RecordView, a: ActivationView) -> Option<(ScopeView, BoardView)> {
    if r.kind == Some(Kind::Board) && r.classification == Classification::Governed {
        match r.content {
            Some(t) => match draft_verdict(r.path, Kind::Board, t) {
                Verdict::Accept(DraftView::Board(b)) => match scope_view_of(r.path, a) {
                    Some(s) => Some((s, b)),
                    None => None,
                },
                _ => None,
            },
            None => None,
        }
    } else {
        None
    }
}

/// `d` is the board that `b`, in scope `s`, shows over `recs`.
pub open spec fn board_matches(d: DerivedBoard, s: ScopeView, b: BoardView, recs: Seq<RecordView>) -> bool {
    &&& d.identity@ == IdentityView { scope: s, identity: b.id }
    &&& d.title@ == b.title
    &&& opt_strs(d.filter_statuses) == b.filter_statuses
    &&& opt_strs(d.filter_kinds) == b.filter_kinds
    &&& d.columns@.len() == b.columns.len()
    &&& forall|j: int|
        0 <= j < b.columns.len() ==> {
            &&& (#[trigger] d.columns@[j]).name@ == b.columns[j].name
            &&& strs(d.columns@[j].statuses@) == b.columns[j].statuses
            &&& cards_arranged(d.columns@[j].cards@, column_cards(recs, s, b, j))
        }
}

/// The board sources among `upto`, in record order.
pub open spec fn board_sources(upto: Seq<RecordView>, a: ActivationView) -> Seq<(ScopeView, BoardView)>
    decreases upto.len(),
{
    if upto.len() == 0 {
        Seq::empty()
    } else {
        let rest = board_sources(upto.drop_last(), a);
        match board_source(upto.last(), a) {
            Some(x) => rest.push(x),
            None => rest,
        }
    }
}

/// `boards` shows one board per source, in the sources' order.
pub open spec fn boards_for(boards: Seq<DerivedBoard>, sources: Seq<(ScopeView, BoardView)>, recs: Seq<RecordView>) -> bool {
    &&& boards.len() == sources.len()
    &&& forall|i: int| 0 <= i < sources.len() ==> board_matches(#[trigger] boards[i], sources[i].0, sources[i].1, recs)
}

proof fn lemma_first_column_nonnegative(columns: Seq<ColumnView>, status: Seq<char>)
    ensures
        first_column(columns, status) >= 0,
    decreases columns.len(),
{
    if columns.len() > 0 {
        lemma_first_column_nonnegative(columns.drop_first(), status);
    }
}

/// A column holds a status when it is the first column whose statuses include it.
proof fn lemma_first_column(columns: Seq<ColumnView>, status: Seq<char>, j: int)
    requires
        0 <= j < columns.len(),
    ensures
        first_column(columns, status) == j <==> (columns[j].statuses.contains(status) && forall|m: int|
            0 <= m < j ==> !(#[trigger] columns[m]).statuses.contains(status)),
    decreases j,
{
    lemma_first_column_nonnegative(columns.drop_first(), status);
    if j > 0 {
        let rest = columns.drop_first();
        lemma_first_column(rest, status, j - 1);
        assert(rest[j - 1] == columns[j]);
        assert forall|m: int| 0 <= m < j - 1 implies #[trigger] rest[m] == columns[m + 1] by {}
        if columns[j].statuses.contains(status) && forall|m: int| 0 <= m < j ==> !(#[trigger] columns[m]).statuses.contains(status) {
            assert(!columns[0].statuses.contains(status));
            assert forall|m: int| 0 <= m < j - 1 implies !(#[trigger] rest[m]).statuses.contains(status) by {
                assert(rest[m] == columns[m + 1]);
            }
            assert(first_column(rest, status) == j - 1);
            assert(first_column(columns, status) == 1 + first_column(rest, status));
        }
        if first_column(columns, status) == j {
            assert(!columns[0].statuses.contains(status));
            assert(first_column(columns, status) == 1 + first_column(rest, status));
            assert(first_column(rest, status) == j - 1);
            assert forall|m: int| 0 <= m < j implies !(#[trigger] columns[m]).statuses.contains(status) by {
                if m > 0 {
                    assert(rest[m - 1] == columns[m]);
                }
            }
        }
    }
}

/// The cards of a column are exactly the cards of the records that land in it.
proof fn lemma_column_cards_members(recs: Seq<RecordView>, scope: ScopeView, b: BoardView, j: int)
    ensures
        forall|i: int|
            0 <= i < recs.len() && card_in_column(#[trigger] recs[i], scope, b, j) ==> column_cards(recs, scope, b, j).contains(
                card_of(recs[i]),
            ),
        forall|k: int|
            #![trigger column_cards(recs, scope, b, j)[k]]
            0 <= k < column_cards(recs, scope, b, j).len() ==> exists|i: int|
                #![trigger recs[i]]
                0 <= i < recs.len() && card_in_column(recs[i], scope, b, j) && card_of(recs[i]) == column_cards(recs, scope, b, j)[k],
    decreases recs.len(),
{
    if recs.len() > 0 {
        let front = recs.drop_last();
        lemma_column_cards_members(front, scope, b, j);
        let rest = column_cards(front, scope, b, j);
        let all = column_cards(recs, scope, b, j);
        let last = recs.len() - 1;
        assert(recs[last] == recs.last());
        assert forall|i: int|
            0 <= i < recs.len() && card_in_column(#[trigger] recs[i], scope, b, j) implies all.contains(card_of(recs[i])) by {
            if i < last {
                assert(front[i] == recs[i]);
                let k = choose|k: int| 0 <= k < rest.len() && rest[k] == card_of(front[i]);
                assert(all[k] == rest[k]);
            } else {
                assert(all[all.len() - 1] == card_of(recs[i]));
            }
        }
        assert forall|k: int| #![trigger all[k]] 0 <= k < all.len() implies exists|i: int|
            #![trigger recs[i]]
            0 <= i < recs.len() && card_in_column(recs[i], scope, b, j) && card_of(recs[i]) == all[k] by {
            if k < rest.len() {
                assert(all[k] == rest[k]);
                assert(rest[k] == rest[k]);
                let i = choose|i: int| 0 <= i < front.len() && card_in_column(#[trigger] front[i], scope, b, j) && card_of(front[i]) == rest[k];
                assert(front[i] == recs[i]);
            } else {
                assert(card_in_column(recs[last], scope, b, j));
            }
        }
    }
}

/// Cards with the same multiset show the same card views.
proof fn lemma_card_views_members(a: Seq<DerivedCard>, b: Seq<DerivedCard>)
    requires
        a.to_multiset() == b.to_multiset(),
    ensures
        forall|v: CardView| card_views(a).contains(v) <==> card_views(b).contains(v),
{
    broadcast use vstd::seq_lib::group_to_multiset_ensures;

    assert forall|v: CardView| card_views(a).contains(v) implies card_views(b).contains(v) by {
        let k = choose|k: int| 0 <= k < card_views(a).len() && card_views(a)[k] == v;
        assert(a.to_multiset().count(a[k]) > 0);
        assert(b.contains(a[k]));
        let m = choose|m: int| 0 <= m < b.len() && b[m] == a[k];
        assert(card_views(b)[m] == v);
    }
    assert forall|v: CardView| card_views(b).contains(v) implies card_views(a).contains(v) by {
        let k = choose|k: int| 0 <= k < card_views(b).len() && card_views(b)[k] == v;
        assert(b.to_multiset().count(b[k]) > 0);
        assert(a.contains(b[k]));
        let m = choose|m: int| 0 <= m < a.len() && a[m] == b[k];
        assert(card_views(a)[m] == v);
    }
}

/// Every work item of a board's scope that its kind filter (by the item's kind alone)
/// and its status filter let through shows as a card in the first column that lists its
/// status.
pub proof fn law_board_shows_every_filtered_work_item(d: DerivedBoard, s: ScopeView, b: BoardView, recs: Seq<RecordView>, i: int, j: int)
    requires
        board_matches(d, s, b, recs),
        0 <= i < recs.len(),
        recs[i].identity matches Some(id) && id.scope == s,
        recs[i].work_item is Some,
        recs[i].kind is Some,
        (b.filter_kinds matches Some(v) ==> if recs[i].kind->0 is Ticket { v.contains("ticket"@) } else { v.contains("epic"@) }),
        (b.filter_statuses matches Some(v) ==> v.contains(recs[i].work_item->0.status)),
        0 <= j < b.columns.len(),
        b.columns[j].statuses.contains(recs[i].work_item->0.status),
        forall|m: int| 0 <= m < j ==> !(#[trigger] b.columns[m]).statuses.contains(recs[i].work_item->0.status),
    ensures
        exists|k: int|
            0 <= k < d.columns@[j].cards@.len() && {
                let c = (#[trigger] d.columns@[j].cards@[k])@;
                c.identity == recs[i].identity->0 && c.kind == recs[i].kind->0 && c.status == recs[i].work_item->0.status
            },
{
    let r = recs[i];
    lemma_first_column(b.columns, r.work_item->0.status, j);
    assert(card_in_column(r, s, b, j));
    lemma_column_cards_members(recs, s, b, j);
    let expected = column_cards(recs, s, b, j);
    assert(expected.contains(card_of(r)));
    let cards = d.columns@[j].cards@;
    let orig = choose|orig: Seq<DerivedCard>|
        card_views(orig) == expected && orig.to_multiset() == cards.to_multiset() && stably_ordered(cards, orig);
    lemma_card_views_members(orig, cards);
    assert(card_views(cards).contains(card_of(r)));
    let k = choose|k: int| 0 <= k < card_views(cards).len() && card_views(cards)[k] == card_of(r);
    assert(cards[k]@ == card_of(r));
}

/// Every card of a board's column is a work item of the board's scope, with the item's
/// identity, kind and status, that the kind filter (by its kind alone) and the status
/// filter let through, and whose status the column is the first to list.
pub proof fn law_board_cards_are_filtered_work_items(d: DerivedBoard, s: ScopeView, b: BoardView, recs: Seq<RecordView>, j: int, k: int)
    requires
        board_matches(d, s, b, recs),
        0 <= j < b.columns.len(),
        0 <= k < d.columns@[j].cards@.len(),
    ensures
        exists|i: int|
            0 <= i < recs.len() && {
                let r = #[trigger] recs[i];
                let c = d.columns@[j].cards@[k]@;
                &&& r.identity == Some(c.identity)
                &&& c.identity.scope == s
                &&& r.kind == Some(c.kind)
                &&& r.work_item matches Some(w) && w.status == c.status
                &&& (b.filter_kinds matches Some(v) ==> if c.kind is Ticket { v.contains("ticket"@) } else { v.contains("epic"@) })
                &&& (b.filter_statuses matches Some(v) ==> v.contains(c.status))
                &&& b.columns[j].statuses.contains(c.status)
                &&& forall|m: int| 0 <= m < j ==> !(#[trigger] b.columns[m]).statuses.contains(c.status)
            },
{
    let expected = column_cards(recs, s, b, j);
    let cards = d.columns@[j].cards@;
    let orig = choose|orig: Seq<DerivedCard>|
        card_views(orig) == expected && orig.to_multiset() == cards.to_multiset() && stably_ordered(cards, orig);
    lemma_card_views_members(orig, cards);
    let c = cards[k]@;
    assert(card_views(cards)[k] == c);
    assert(expected.contains(c));
    let e = choose|e: int| 0 <= e < expected.len() && expected[e] == c;
    lemma_column_cards_members(recs, s, b, j);
    let i = choose|i: int| 0 <= i < recs.len() && card_in_column(#[trigger] recs[i], s, b, j) && card_of(recs[i]) == expected[e];
    lemma_first_column(b.columns, c.status, j);
    assert(recs[i].identity == Some(c.identity));
}

fn kind_filter_name(k: Kind) -> (r: &'static str)
    ensures
        r@ == kind_name_of(k),
{
    proof {
        reveal_strlit("ticket");
        reveal_strlit("epic");
    }
    if k == Kind::Ticket {
        "ticket"
    } else {
        "epic"
    }
}

fn passes_filters(board: &BoardDraft, status: &String, k: Kind) -> (r: bool)
    ensures
        r == card_passes(board@, status@, k),
{
    let by_status = match &board.filter_statuses {
        Some(values) => crate::board::list_contains(values, status),
        None => true,
    };
    if !by_status {
        return false;
    }
    match &board.filter_kinds {
        Some(values) => {
            let name = kind_filter_name(k).to_owned();
            crate::board::list_contains(values, &name)
        },
        None => true,
    }
}

fn column_of(board: &BoardDraft, status: &String) -> (r: usize)
    ensures
        r as int == first_column(board@.columns, status@),
        r <= board.columns@.len(),
{
    let ghost cs = board@.columns;
    let mut j: usize = 0;
    assert(cs.skip(0) =~= cs);
    while j < board.columns.len()
        invariant
            cs == board@.columns,
            j <= cs.len(),
            first_column(cs, status@) == j + first_column(cs.skip(j as int), status@),
        decreases board.columns.len() - j,
    {
        assert(cs.skip(j as int)[0] == cs[j as int]);
        if crate::board::list_contains(&board.columns[j].statuses, status) {
            return j;
        }
        assert(cs.skip(j as int).drop_first() =~= cs.skip(j + 1));
        j = j + 1;
    }
    j
}

fn column_card_list(records: &Vec<DerivedRecord>, scope: &RecordScope, board: &BoardDraft, j: usize) -> (r: Vec<DerivedCard>)
    ensures
        card_views(r@) == column_cards(record_views(records@), scope@, board@, j as int),
{
    let ghost rv = record_views(records@);
    let mut out: Vec<DerivedCard> = Vec::new();
    let mut i: usize = 0;
    assert(rv.take(0) =~= Seq::<RecordView>::empty());
    assert(card_views(out@) =~= Seq::<CardView>::empty());
    while i < records.len()
        invariant
            rv == record_views(records@),
            i <= records@.len(),
            card_views(out@) == column_cards(rv.take(i as int), scope@, board@, j as int),
        decreases records.len() - i,
    {
        proof {
            assert(rv.take(i + 1).drop_last() =~= rv.take(i as int));
            assert(rv.take(i + 1).last() == records@[i as int]@);
        }
        let candidate = &records[i];
        match (&candidate.identity, &candidate.work_item, candidate.kind) {
            (Some(card_id), Some(item), Some(kind)) => {
                if scope_eq(&card_id.scope, scope) && passes_filters(board, &item.status, kind) && column_of(board, &item.status)
                    == j {
                    let ghost prior = card_views(out@);
                    let card = DerivedCard {
                        identity: card_id.clone(),
                        kind,
                        title: item.title.clone(),
                        status: item.status.clone(),
                        rank: item.rank,
                    };
                    out.push(card);
                    assert(card_views(out@) =~= prior.push(card_of(candidate@)));
                }
            },
            _ => {},
        }
        i = i + 1;
    }
    assert(rv.take(i as int) =~= rv);
    out
}

fn copy_opt_strings(v: &Option<Vec<String>>) -> (r: Option<Vec<String>>)
    ensures
        opt_strs(r) == opt_strs(*v),
{
    match v {
        Some(items) => Some(crate::board::copy_strings(items)),
        None => None,
    }
}

/// The board that a record defines, filled with the cards of its scope.
pub fn derive_board(record: &DerivedRecord, records: &Vec<DerivedRecord>, active: &Activation) -> (r: Option<DerivedBoard>)
    ensures
        match r {
            Some(d) => match board_source(record@, active@) {
                Some(x) => board_matches(d, x.0, x.1, record_views(records@)),
                None => false,
            },
            None => board_source(record@, active@) is None,
        },
{
    if !(record.kind == Some(Kind::Board) && record.classification == Classification::Governed) {
        return None;
    }
    let text = match &record.content {
        Some(t) => t,
        None => return None,
    };
    let board = match parse_draft(record.path.as_str(), Kind::Board, text.as_str()) {
        Ok(RecordDraft::Board(b)) => b,
        _ => return None,
    };
    let scope = match record_scope(record.path.as_str(), active) {
        Some(s) => s,
        None => return None,
    };
    let ghost bv = board@;
    let mut columns: Vec<DerivedBoardColumn> = Vec::new();
    let mut j: usize = 0;
    while j < board.columns.len()
        invariant
            bv == board@,
            j <= bv.columns.len(),
            columns@.len() == j,
            forall|c: int|
                0 <= c < j ==> {
                    &&& (#[trigger] columns@[c]).name@ == bv.columns[c].name
                    &&& strs(columns@[c].statuses@) == bv.columns[c].statuses
                    &&& cards_arranged(columns@[c].cards@, column_cards(record_views(records@), scope@, bv, c))
                },
        decreases board.columns.len() - j,
    {
        let unsorted = column_card_list(records, &scope, &board, j);
        let ghost uv = unsorted@;
        let cards = sort_by_key(unsorted);
        assert(card_views(uv) == column_cards(record_views(records@), scope@, bv, j as int));
        assert(card_views(uv) == column_cards(record_views(records@), scope@, bv, j as int) && uv.to_multiset()
            == cards@.to_multiset() && stably_ordered(cards@, uv));
        let column = DerivedBoardColumn {
            name: board.columns[j].name.clone(),
            statuses: crate::board::copy_strings(&board.columns[j].statuses),
            cards,
        };
        columns.push(column);
        proof {
            assert(bv.columns[j as int] == board.columns@[j as int]@);
            assert(cards_arranged(columns@[j as int].cards@, column_cards(record_views(records@), scope@, bv, j as int)));
        }
        j = j + 1;
    }
    let identity = ScopedIdentity { scope, identity: board.id.clone() };
    let d = DerivedBoard {
        identity,
        title: board.title.clone(),
        filter_statuses: copy_opt_strings(&board.filter_statuses),
        filter_kinds: copy_opt_strings(&board.filter_kinds),
        columns,
    };
    assert(board_matches(d, scope@, bv, record_views(records@)));
    Some(d)
}

/// Every board of the records, filled with cards, sorted by identity; boards with
/// equal identities keep the records' order.
pub fn derive_boards(records: &Vec<DerivedRecord>, active: &Activation) -> (r: Vec<DerivedBoard>)
    ensures
        keys_sorted(r@),
        exists|orig: Seq<DerivedBoard>|
            boards_for(orig, board_sources(record_views(records@), active@), record_views(records@))
                && orig.to_multiset() == r@.to_multiset() && stably_ordered(r@, orig),
{
    let ghost rv = record_views(records@);
    let mut boards: Vec<DerivedBoard> = Vec::new();
    let mut i: usize = 0;
    assert(rv.take(0) =~= Seq::<RecordView>::empty());
    while i < records.len()
        invariant
            rv == record_views(records@),
            i <= records@.len(),
            boards_for(boards@, board_sources(rv.take(i as int), active@), rv),
        decreases records.len() - i,
    {
        proof {
            assert(rv.take(i + 1).drop_last() =~= rv.take(i as int));
            assert(rv.take(i + 1).last() == records@[i as int]@);
        }
        match derive_board(&records[i], records, active) {
            Some(d) => {
                boards.push(d);
            },
            None => {},
        }
        i = i + 1;
    }
    assert(rv.take(i as int) =~= rv);
    let ghost orig = boards@;
    let sorted = sort_by_key(boards);
    assert(boards_for(orig, board_sources(rv, active@), rv) && orig.to_multiset() == sorted@.to_multiset() && stably_ordered(
        sorted@,
        orig,
    ));
    sorted
}

/// The read model of every scanned entry, in entry order.
pub open spec fn records_of(es: Seq<EntryView>, a: ActivationView) -> Seq<RecordView> {
    es.map_values(|e: EntryView| record_of(e, a))
}

fn copy_diagnostics(ds: &Vec<Diagnostic>) -> (r: Vec<Diagnostic>)
    ensures
        r@ == ds@,
{
    let mut out: Vec<Diagnostic> = Vec::new();
    let mut i: usize = 0;
    while i < ds.len()
        invariant
            i <= ds@.len(),
            out@ == ds@.take(i as int),
        decreases ds.len() - i,
    {
        out.push(ds[i].clone());
        i = i + 1;
        assert(out@ =~= ds@.take(i as int));
    }
    assert(ds@.take(i as int) =~= ds@);
    out
}

/// `r` is the read model of scan `s` under activation `a`: each entry's record, the
/// resolved relationships (sorted, each once), the boards (sorted by identity), the
/// scan's revision and its diagnostics.
pub open spec fn derived_from(r: DerivedSnapshot, s: ScanResult, a: ActivationView) -> bool {
    &&& r.source_revision == s.snapshot.revision
    &&& record_views(r.records@) == records_of(entry_views(s.snapshot.entries@), a)
    &&& strictly_ordered(relation_views(r.relationships@))
    &&& forall|x: RelationView|
        relation_views(r.relationships@).contains(x) <==> raw_relations(record_views(r.records@), record_views(r.records@)).contains(x)
    &&& keys_sorted(r.boards@)
    &&& exists|orig: Seq<DerivedBoard>|
        boards_for(orig, board_sources(record_views(r.records@), a), record_views(r.records@)) && orig.to_multiset()
            == r.boards@.to_multiset() && stably_ordered(r.boards@, orig)
    &&& r.diagnostics@ == s.diagnostics@
}

/// The read model of a scan under an activation.
pub fn derive_snapshot(scan: &ScanResult, active: &Activation) -> (r: DerivedSnapshot)
    ensures
        derived_from(r, *scan, active@),
{
    let entries = &scan.snapshot.entries;
    let ghost ev = entry_views(entries@);
    let mut records: Vec<DerivedRecord> = Vec::new();
    let mut i: usize = 0;
    while i < entries.len()
        invariant
            ev == entry_views(entries@),
            i <= entries@.len(),
            record_views(records@) == records_of(ev.take(i as int), active@),
        decreases entries.len() - i,
    {
        let ghost prior = record_views(records@);
        let record = derive_record(&entries[i], active);
        records.push(record);
        proof {
            assert(ev[i as int] == entries@[i as int]@);
            assert(record_views(records@) =~= prior.push(record_of(ev[i as int], active@)));
            assert(records_of(ev.take(i + 1), active@) =~= records_of(ev.take(i as int), active@).push(record_of(ev[i as int], active@)));
        }
        i = i + 1;
    }
    assert(ev.take(i as int) =~= ev);
    let relationships = derive_relationships(&records);
    let boards = derive_boards(&records, active);
    let ghost rv = record_views(records@);
    let ghost orig = choose|orig: Seq<DerivedBoard>|
        boards_for(orig, board_sources(rv, active@), rv) && orig.to_multiset() == boards@.to_multiset()
            && stably_ordered(boards@, orig);
    let r = DerivedSnapshot {
        source_revision: scan.snapshot.revision.clone(),
        records,
        relationships,
        boards,
        diagnostics: copy_diagnostics(&scan.diagnostics),
    };
    assert(boards_for(orig, board_sources(record_views(r.records@), active@), record_views(r.records@)));
    assert(orig.to_multiset() == r.boards@.to_multiset());
    assert(stably_ordered(r.boards@, orig));
    r
}

/// `y` is an identity that a reference of `kind` made by `source` may name: one with
/// the referenced identity, in the source's project (at project level or in the
/// source's investigation) for a decision, in the source's own scope otherwise.
pub open spec fn target_allowed(y: IdentityView, reference: Seq<char>, kind: RelationshipKind, source: IdentityView) -> bool {
    &&& y.identity == reference
    &&& if kind is Decision {
        y.scope.project == source.scope.project && (y.scope.investigation is None || y.scope.investigation
            == source.scope.investigation)
    } else {
        y.scope == source.scope
    }
}

proof fn lemma_targets_allowed(recs: Seq<RecordView>, reference: Seq<char>, kind: RelationshipKind, source: IdentityView)
    ensures
        forall|i: int|
            0 <= i < targets_of(recs, reference, kind, source).len() ==> target_allowed(
                #[trigger] targets_of(recs, reference, kind, source)[i],
                reference,
                kind,
                source,
            ),
    decreases recs.len(),
{
    if recs.len() > 0 {
        lemma_targets_allowed(recs.drop_last(), reference, kind, source);
        let rest = targets_of(recs.drop_last(), reference, kind, source);
        assert forall|i: int| 0 <= i < targets_of(recs, reference, kind, source).len() implies target_allowed(
            #[trigger] targets_of(recs, reference, kind, source)[i],
            reference,
            kind,
            source,
        ) by {
            if i < rest.len() {
                assert(targets_of(recs, reference, kind, source)[i] == rest[i]);
            }
        }
    }
}

/// A relationship of `kind` from `source` to an allowed target.
pub open spec fn relation_allowed(x: RelationView) -> bool {
    exists|reference: Seq<char>| target_allowed(x.target, reference, x.kind, x.source)
}

proof fn lemma_refs_relations_allowed(recs: Seq<RecordView>, source: IdentityView, refs: Seq<Seq<char>>, kind: RelationshipKind)
    ensures
        forall|i: int|
            0 <= i < refs_relations(recs, source, refs, kind).len() ==> {
                let x = #[trigger] refs_relations(recs, source, refs, kind)[i];
                x.source == source && x.kind == kind && relation_allowed(x)
            },
    decreases refs.len(),
{
    if refs.len() > 0 {
        lemma_refs_relations_allowed(recs, source, refs.drop_last(), kind);
        lemma_targets_allowed(recs, refs.last(), kind, source);
        let rest = refs_relations(recs, source, refs.drop_last(), kind);
        let ts = targets_of(recs, refs.last(), kind, source);
        assert forall|i: int| 0 <= i < refs_relations(recs, source, refs, kind).len() implies {
            let x = #[trigger] refs_relations(recs, source, refs, kind)[i];
            x.source == source && x.kind == kind && relation_allowed(x)
        } by {
            if i < rest.len() {
                assert(refs_relations(recs, source, refs, kind)[i] == rest[i]);
            } else {
                assert(ts.len() == 1);
                assert(target_allowed(ts[0], refs.last(), kind, source));
            }
        }
    }
}

proof fn lemma_record_relations_allowed(recs: Seq<RecordView>, r: RecordView)
    ensures
        forall|i: int|
            0 <= i < record_relations(recs, r).len() ==> {
                let x = #[trigger] record_relations(recs, r)[i];
                r.identity == Some(x.source) && relation_allowed(x)
            },
{
    match (r.identity, r.work_item) {
        (Some(s), Some(w)) => {
            let a = refs_relations(recs, s, w.decision_refs, RelationshipKind::Decision);
            let b = refs_relations(recs, s, w.related_tickets, RelationshipKind::Related);
            let c = refs_relations(recs, s, w.supersedes, RelationshipKind::Supersedes);
            let d = refs_relations(recs, s, w.superseded_by, RelationshipKind::SupersededBy);
            lemma_refs_relations_allowed(recs, s, w.decision_refs, RelationshipKind::Decision);
            lemma_refs_relations_allowed(recs, s, w.related_tickets, RelationshipKind::Related);
            lemma_refs_relations_allowed(recs, s, w.supersedes, RelationshipKind::Supersedes);
            lemma_refs_relations_allowed(recs, s, w.superseded_by, RelationshipKind::SupersededBy);
            let all = record_relations(recs, r);
            assert(all == a + b + c + d);
            assert forall|i: int| 0 <= i < all.len() implies {
                let x = #[trigger] all[i];
                r.identity == Some(x.source) && relation_allowed(x)
            } by {
                if i < a.len() {
                    assert(all[i] == a[i]);
                } else if i < a.len() + b.len() {
                    assert(all[i] == b[i - a.len()]);
                } else if i < a.len() + b.len() + c.len() {
                    assert(all[i] == c[i - a.len() - b.len()]);
                } else {
                    assert(all[i] == d[i - a.len() - b.len() - c.len()]);
                }
            }
        },
        _ => {},
    }
}

/// Relationships are directed and scoped: each one starts at a record of `upto` that
/// has an identity, and points to an identity that its reference may name: a decision
/// in the source's project (at project level or in the source's investigation), any
/// other kind in the source's own scope.
pub proof fn law_relationships_are_directed_and_scoped(recs: Seq<RecordView>, upto: Seq<RecordView>, x: RelationView)
    requires
        raw_relations(recs, upto).contains(x),
    ensures
        exists|i: int| 0 <= i < upto.len() && #[trigger] upto[i].identity == Some(x.source),
        relation_allowed(x),
    decreases upto.len(),
{
    let rest = raw_relations(recs, upto.drop_last());
    let mine = record_relations(recs, upto.last());
    assert(raw_relations(recs, upto) == rest + mine);
    let k = choose|k: int| 0 <= k < raw_relations(recs, upto).len() && raw_relations(recs, upto)[k] == x;
    if k < rest.len() {
        assert(rest[k] == x);
        law_relationships_are_directed_and_scoped(recs, upto.drop_last(), x);
        let i = choose|i: int| 0 <= i < upto.drop_last().len() && #[trigger] upto.drop_last()[i].identity == Some(x.source);
        assert(upto[i] == upto.drop_last()[i]);
    } else {
        lemma_record_relations_allowed(recs, upto.last());
        assert(mine[k - rest.len()] == x);
        assert(upto[upto.len() - 1] == upto.last());
    }
}

} // verus!
