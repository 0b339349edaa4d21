//! A derived index: a copy of the read model that answers queries only while it is
//! at the root's current revision.

use crate::derived::{
    DerivedBoard, DerivedRecord, DerivedRelationship, DerivedSnapshot, RecordScope, RecordView, ScopeView,
    ScopedIdentity,
};
use crate::diagnostic::Diagnostic;
use crate::record::{Classification, Kind, Revision};
use crate::scanning::scan_revision;
use crate::store::{Store, StoreError};
use crate::text::contains_seq;
use vstd::prelude::*;

verus! {

/// An answer from an index: current at a revision, absent, or stale.
#[derive(Debug, PartialEq, Eq)]
pub enum Indexed<T> {
    Current { source_revision: Revision, value: T },
    Missing,
    Stale { indexed_revision: Revision, current_revision: Revision },
}

/// A source of the root's current revision.
pub trait RevisionSource {
    fn current_revision(&self) -> Result<Revision, StoreError>;
}

impl RevisionSource for Store {
    fn current_revision(&self) -> (r: Result<Revision, StoreError>)
        ensures
            r matches Ok(v) && v.0@ == scan_revision(crate::derived::opt_text(self.activation_text), self.files@),
    {
        Ok(self.scan().snapshot.revision)
    }
}

/// An index of the read model that a revision source keeps current.
pub trait DerivedIndex {
    type Prepared;
    type Error;

    fn prepare(&self, snapshot: &DerivedSnapshot) -> Result<Self::Prepared, Self::Error>;

    fn publish<S: RevisionSource>(&self, prepared: Self::Prepared, source: &S) -> Result<Indexed<()>, Self::Error>;

    fn state(&self, current: &Revision) -> Result<Indexed<()>, Self::Error>;

    fn record(&self, current: &Revision, identity: &ScopedIdentity) -> Result<Indexed<Option<DerivedRecord>>, Self::Error>;

    fn records(&self, current: &Revision, scope: Option<&RecordScope>, search: Option<&str>) -> Result<
        Indexed<Vec<DerivedRecord>>,
        Self::Error,
    >;

    fn relationships(&self, current: &Revision, identity: &ScopedIdentity) -> Result<
        Indexed<Vec<DerivedRelationship>>,
        Self::Error,
    >;

    fn diagnostics(&self, current: &Revision) -> Result<Indexed<Vec<Diagnostic>>, Self::Error>;

    fn boards(&self, current: &Revision, scope: &RecordScope) -> Result<Indexed<Vec<DerivedBoard>>, Self::Error>;
}

/// An index kept in a SQLite database file outside the planning root.
#[derive(Debug)]
pub struct SqliteIndex {
    pub path: String,
}

/// An answer read at the index's stored revision: current when that is the root's
/// revision, stale otherwise.
pub open spec fn indexed_answer<T>(r: Indexed<T>, indexed: Revision, current: Revision, value: T) -> bool {
    if indexed.0@ == current.0@ {
        r == Indexed::Current { source_revision: indexed, value }
    } else {
        r == Indexed::<T>::Stale { indexed_revision: indexed, current_revision: current }
    }
}

/// Answers with `value` when the index's stored revision is the current one.
pub fn checked<T>(indexed: Revision, current: &Revision, value: T) -> (r: Indexed<T>)
    ensures
        indexed_answer(r, indexed, *current, value),
{
    if crate::text::str_eq(indexed.0.as_str(), current.0.as_str()) {
        proof {
            assert(indexed.0@ == current.0@);
        }
        Indexed::Current { source_revision: indexed, value }
    } else {
        Indexed::Stale { indexed_revision: indexed, current_revision: current.clone() }
    }
}

/// Publishing a prepared index is current only at the revision it was prepared at.
pub fn publish_answer(prepared: Revision, current: Revision) -> (r: Indexed<()>)
    ensures
        if prepared.0@ == current.0@ {
            r == Indexed::Current { source_revision: current, value: () }
        } else {
            r == Indexed::<()>::Stale { indexed_revision: prepared, current_revision: current }
        },
{
    if crate::text::str_eq(prepared.0.as_str(), current.0.as_str()) {
        Indexed::Current { source_revision: current, value: () }
    } else {
        Indexed::Stale { indexed_revision: prepared, current_revision: current }
    }
}

/// The lower-case form of a text (`str::to_lowercase`, full Unicode case mapping).
pub uninterp spec fn lowercase(text: Seq<char>) -> Seq<char>;

/// `str::to_lowercase`.
#[verifier::external_body]
pub(crate) fn to_lowercase(text: &str) -> (r: String)
    ensures
        r@ == lowercase(text@),
{
    text.to_lowercase()
}

/// A record is within a scope filter and a case-insensitive search.
pub open spec fn record_selected(r: RecordView, scope: Option<ScopeView>, search: Option<Seq<char>>) -> bool {
    &&& match scope {
        None => true,
        Some(s) => r.scope == Some(s),
    }
    &&& match search {
        None => true,
        Some(t) => contains_seq(lowercase(r.search_text), lowercase(t)),
    }
}

/// Whether a record passes a scope filter and a case-insensitive search.
pub fn record_matches(record: &DerivedRecord, scope: Option<&RecordScope>, search: Option<&str>) -> (r: bool)
    ensures
        r == record_selected(
            record@,
            match scope {
                Some(s) => Some(s@),
                None => None,
            },
            match search {
                Some(t) => Some(t@),
                None => None,
            },
        ),
{
    let in_scope = match scope {
        None => true,
        Some(s) => match &record.scope {
            Some(rs) => crate::text::str_eq(rs.project.as_str(), s.project.as_str()) && match (&rs.investigation, &s.investigation) {
                (None, None) => true,
                (Some(a), Some(b)) => crate::text::str_eq(a.as_str(), b.as_str()),
                _ => false,
            },
            None => false,
        },
    };
    if !in_scope {
        return false;
    }
    match search {
        None => true,
        Some(text) => {
            let haystack = to_lowercase(record.search_text.as_str());
            let needle = to_lowercase(text);
            crate::text::contains(haystack.as_str(), needle.as_str())
        },
    }
}

/// The records that pass a scope filter and a search, in order.
pub open spec fn selected(rs: Seq<RecordView>, scope: Option<ScopeView>, search: Option<Seq<char>>) -> Seq<RecordView>
    decreases rs.len(),
{
    if rs.len() == 0 {
        Seq::empty()
    } else if record_selected(rs.last(), scope, search) {
        selected(rs.drop_last(), scope, search).push(rs.last())
    } else {
        selected(rs.drop_last(), scope, search)
    }
}

/// The records that pass a scope filter and a search, in order.
pub fn select_records(records: Vec<DerivedRecord>, scope: Option<&RecordScope>, search: Option<&str>) -> (r: Vec<
    DerivedRecord,
>)
    ensures
        crate::derived::record_views(r@) == selected(
            crate::derived::record_views(records@),
            match scope {
                Some(s) => Some(s@),
                None => None,
            },
            match search {
                Some(t) => Some(t@),
                None => None,
            },
        ),
{
    let ghost sv = match scope {
        Some(s) => Some(s@),
        None => None,
    };
    let ghost tv = match search {
        Some(t) => Some(t@),
        None => None,
    };
    let ghost rv = crate::derived::record_views(records@);
    let ghost n = records@.len();
    let total = records.len();
    assert(n == total);
    let mut out: Vec<DerivedRecord> = Vec::new();
    let mut rest = records;
    let mut taken: usize = 0;
    proof {
        assert(rv.take(0) =~= Seq::<RecordView>::empty());
        assert(crate::derived::record_views(out@) =~= Seq::<RecordView>::empty());
        assert(rest@ =~= records@.skip(0));
    }
    while rest.len() > 0
        invariant
            rv == crate::derived::record_views(records@),
            n == records@.len(),
            n <= usize::MAX,
            taken + rest@.len() == n,
            rest@ == records@.skip(taken as int),
            sv == match scope {
                Some(s) => Some(s@),
                None => None,
            },
            tv == match search {
                Some(t) => Some(t@),
                None => None,
            },
            crate::derived::record_views(out@) == selected(rv.take(taken as int), sv, tv),
        decreases rest.len(),
    {
        let ghost before_rest = rest@;
        let record = rest.remove(0);
        proof {
            assert(before_rest[0] == records@[taken as int]);
            assert(record@ == rv[taken as int]);
            assert(rv.take(taken + 1).drop_last() =~= rv.take(taken as int));
            assert(rv.take(taken + 1).last() == rv[taken as int]);
        }
        let keep = record_matches(&record, scope, search);
        let ghost prior = crate::derived::record_views(out@);
        if keep {
            out.push(record);
            assert(crate::derived::record_views(out@) =~= prior.push(rv[taken as int]));
        }
        proof {
            assert(rest@ =~= records@.skip(taken + 1));
        }
        taken = taken + 1;
    }
    assert(rv.take(taken as int) =~= rv);
    out
}

/// The kind's name as the index stores it.
pub open spec fn kind_label(k: Kind) -> Seq<char> {
    match k {
        Kind::Activation => "Activation"@,
        Kind::ProjectMap => "ProjectMap"@,
        Kind::Request => "Request"@,
        Kind::Decision => "Decision"@,
        Kind::Evidence => "Evidence"@,
        Kind::Review => "Review"@,
        Kind::Plan => "Plan"@,
        Kind::Closeout => "Closeout"@,
        Kind::Strategy => "Strategy"@,
        Kind::StrategyBinding => "StrategyBinding"@,
        Kind::Ticket => "Ticket"@,
        Kind::Epic => "Epic"@,
        Kind::Board => "Board"@,
        Kind::Progress => "Progress"@,
    }
}

/// The kind's name as the index stores it.
pub fn kind_name(k: Kind) -> (r: &'static str)
    ensures
        r@ == kind_label(k),
{
    proof {
        reveal_strlit("Activation");
        reveal_strlit("ProjectMap");
        reveal_strlit("Request");
        reveal_strlit("Decision");
        reveal_strlit("Evidence");
        reveal_strlit("Review");
        reveal_strlit("Plan");
        reveal_strlit("Closeout");
        reveal_strlit("Strategy");
        reveal_strlit("StrategyBinding");
        reveal_strlit("Ticket");
        reveal_strlit("Epic");
        reveal_strlit("Board");
        reveal_strlit("Progress");
    }
    match k {
        Kind::Activation => "Activation",
        Kind::ProjectMap => "ProjectMap",
        Kind::Request => "Request",
        Kind::Decision => "Decision",
        Kind::Evidence => "Evidence",
        Kind::Review => "Review",
        Kind::Plan => "Plan",
        Kind::Closeout => "Closeout",
        Kind::Strategy => "Strategy",
        Kind::StrategyBinding => "StrategyBinding",
        Kind::Ticket => "Ticket",
        Kind::Epic => "Epic",
        Kind::Board => "Board",
        Kind::Progress => "Progress",
    }
}

/// The classification's name as the index stores it.
pub open spec fn classification_label(c: Classification) -> Seq<char> {
    match c {
        Classification::Governed => "Governed"@,
        Classification::Ungoverned => "Ungoverned"@,
        Classification::Invalid => "Invalid"@,
        Classification::Raw => "Raw"@,
    }
}

/// The classification's name as the index stores it.
pub fn classification_name(c: Classification) -> (r: &'static str)
    ensures
        r@ == classification_label(c),
{
    proof {
        reveal_strlit("Governed");
        reveal_strlit("Ungoverned");
        reveal_strlit("Invalid");
        reveal_strlit("Raw");
    }
    match c {
        Classification::Governed => "Governed",
        Classification::Ungoverned => "Ungoverned",
        Classification::Invalid => "Invalid",
        Classification::Raw => "Raw",
    }
}

/// The searchable columns of a record's row: path, project, investigation, identity,
/// classification, kind, title and search text.
pub struct RecordRow {
    pub path: String,
    pub project: Option<String>,
    pub investigation: Option<String>,
    pub identity: Option<String>,
    pub classification: &'static str,
    pub kind: Option<&'static str>,
    pub title: String,
    pub search_text: String,
}

/// The row columns of a record.
pub fn record_row(record: &DerivedRecord) -> (r: RecordRow)
    ensures
        r.path@ == record@.path,
        crate::derived::opt_text(r.project) == match record@.scope {
            Some(s) => Some(s.project),
            None => None,
        },
        crate::derived::opt_text(r.investigation) == match record@.scope {
            Some(s) => s.investigation,
            None => None,
        },
        crate::derived::opt_text(r.identity) == match record@.identity {
            Some(i) => Some(i.identity),
            None => None,
        },
        r.classification@ == classification_label(record.classification),
        match r.kind {
            Some(k) => record.kind is Some && k@ == kind_label(record.kind->0),
            None => record.kind is None,
        },
        r.title@ == record@.title,
        r.search_text@ == record@.search_text,
{
    let (project, investigation) = match &record.scope {
        Some(s) => (Some(s.project.clone()), crate::diagnostic::copy_opt(&s.investigation)),
        None => (None, None),
    };
    RecordRow {
        path: record.path.clone(),
        project,
        investigation,
        identity: match &record.identity {
            Some(i) => Some(i.identity.clone()),
            None => None,
        },
        classification: classification_name(record.classification),
        kind: match record.kind {
            Some(k) => Some(kind_name(k)),
            None => None,
        },
        title: record.title.clone(),
        search_text: record.search_text.clone(),
    }
}

} // verus!
