//! Structured findings that point at a file, and their stable order.

use crate::order::{
    Keyed, keys_sorted, lemma_lex_le_antisymmetric, lemma_lex_le_reflexive, lemma_opt_field_split, lemma_str_field_split, lex_le,
    opt_field, push_opt_field, push_str_field, sort_by_key, stably_ordered, str_field,
};
use vstd::prelude::*;

verus! {

/// The version of every record schema and diagnostic this library produces.
pub const SCHEMA_VERSION: u32 = 1;

/// One finding about one file.
#[derive(Debug, PartialEq, Eq)]
pub struct Diagnostic {
    pub schema_version: u32,
    pub code: String,
    pub path: String,
    pub field: Option<String>,
    pub section: Option<String>,
    pub message: String,
}

/// The plain content of a diagnostic.
pub struct DiagView {
    pub schema_version: u32,
    pub code: Seq<char>,
    pub path: Seq<char>,
    pub field: Option<Seq<char>>,
    pub section: Option<Seq<char>>,
    pub message: Seq<char>,
}

impl View for Diagnostic {
    type V = DiagView;

    open spec fn view(&self) -> DiagView {
        DiagView {
            schema_version: self.schema_version,
            code: self.code@,
            path: self.path@,
            field: opt_view(self.field),
            section: opt_view(self.section),
            message: self.message@,
        }
    }
}

/// The view of a plain diagnostic.
pub open spec fn plain(path: Seq<char>, code: Seq<char>, message: Seq<char>) -> DiagView {
    DiagView { schema_version: SCHEMA_VERSION, code, path, field: None, section: None, message }
}

/// The view of a diagnostic that names a field.
pub open spec fn with_field(path: Seq<char>, code: Seq<char>, message: Seq<char>, field: Seq<char>) -> DiagView {
    DiagView { schema_version: SCHEMA_VERSION, code, path, field: Some(field), section: None, message }
}

/// The views of a list of diagnostics.
pub open spec fn diag_views(ds: Seq<Diagnostic>) -> Seq<DiagView> {
    ds.map_values(|d: Diagnostic| d@)
}

/// `r` holds diagnostics with these views in their stable order.
pub open spec fn stable_order_of(r: Seq<Diagnostic>, views: Seq<DiagView>) -> bool {
    keys_sorted(r) && exists|orig: Seq<Diagnostic>| diag_views(orig) == views && orig.to_multiset() == r.to_multiset()
}

/// Diagnostics in stable order of some views hold exactly those views.
pub proof fn lemma_stable_members(r: Seq<Diagnostic>, views: Seq<DiagView>)
    requires
        stable_order_of(r, views),
    ensures
        forall|v: DiagView| diag_views(r).contains(v) <==> views.contains(v),
{
    broadcast use vstd::seq_lib::group_to_multiset_ensures;

    let orig = choose|orig: Seq<Diagnostic>| diag_views(orig) == views && orig.to_multiset() == r.to_multiset();
    assert forall|v: DiagView| diag_views(r).contains(v) <==> views.contains(v) by {
        if diag_views(r).contains(v) {
            let k = choose|k: int| 0 <= k < diag_views(r).len() && diag_views(r)[k] == v;
            assert(r.contains(r[k]));
            assert(r.to_multiset().count(r[k]) > 0);
            assert(orig.contains(r[k]));
            let m = choose|m: int| 0 <= m < orig.len() && orig[m] == r[k];
            assert(views[m] == v);
        }
        if views.contains(v) {
            let m = choose|m: int| 0 <= m < views.len() && views[m] == v;
            assert(orig.contains(orig[m]));
            assert(orig.to_multiset().count(orig[m]) > 0);
            assert(r.contains(orig[m]));
            let k = choose|k: int| 0 <= k < r.len() && r[k] == orig[m];
            assert(diag_views(r)[k] == v);
        }
    }
}

/// Among diagnostics in stable order of some views, those not among them are those
/// not among the views.
pub proof fn lemma_introduced_by_views(after: Seq<Diagnostic>, r: Seq<Diagnostic>, views: Seq<DiagView>)
    requires
        stable_order_of(r, views),
    ensures
        introduced(after, diag_views(r)) == introduced(after, views),
{
    lemma_stable_members(r, views);
    assert(not_among(diag_views(r)) =~= not_among(views));
}

/// Sorting diagnostics already in stable order together with more of them gives the
/// stable order of both lists of views, one after the other.
pub proof fn lemma_stable_append(first: Seq<Diagnostic>, views: Seq<DiagView>, rest: Seq<Diagnostic>, sorted: Seq<Diagnostic>)
    requires
        stable_order_of(first, views),
        keys_sorted(sorted),
        sorted.to_multiset() == (first + rest).to_multiset(),
    ensures
        stable_order_of(sorted, views + diag_views(rest)),
{
    let orig = choose|orig: Seq<Diagnostic>| diag_views(orig) == views && orig.to_multiset() == first.to_multiset();
    let witness = orig + rest;
    vstd::seq_lib::lemma_multiset_commutative(orig, rest);
    vstd::seq_lib::lemma_multiset_commutative(first, rest);
    assert(diag_views(witness) =~= views + diag_views(rest));
}

/// The same diagnostic views, each pointing at `path`.
pub open spec fn at_path(ds: Seq<DiagView>, path: Seq<char>) -> Seq<DiagView> {
    ds.map_values(|d: DiagView| DiagView { path, ..d })
}

/// The view of an optional string.
pub open spec fn opt_view(s: Option<String>) -> Option<Seq<char>> {
    match s {
        Some(v) => Some(v@),
        None => None,
    }
}

/// A copy of an optional string.
pub fn copy_opt(s: &Option<String>) -> (r: Option<String>)
    ensures
        r == *s,
{
    match s {
        Some(v) => Some(v.clone()),
        None => None,
    }
}

fn same_text(a: &Option<String>, b: &Option<String>) -> (r: bool)
    ensures
        r == (match a {
            Some(x) => Some(x@),
            None => None::<Seq<char>>,
        } == match b {
            Some(x) => Some(x@),
            None => None::<Seq<char>>,
        }),
{
    match (a, b) {
        (Some(x), Some(y)) => crate::text::str_eq(x.as_str(), y.as_str()),
        (None, None) => true,
        _ => false,
    }
}

/// Whether two diagnostics say the same thing.
pub fn same_diagnostic(a: &Diagnostic, b: &Diagnostic) -> (r: bool)
    ensures
        r == (a@ == b@),
{
    a.schema_version == b.schema_version && crate::text::str_eq(a.code.as_str(), b.code.as_str()) && crate::text::str_eq(
        a.path.as_str(),
        b.path.as_str(),
    ) && same_text(&a.field, &b.field) && same_text(&a.section, &b.section) && crate::text::str_eq(
        a.message.as_str(),
        b.message.as_str(),
    )
}

/// The test for a diagnostic that is not among `before`.
pub open spec fn not_among(before: Seq<DiagView>) -> spec_fn(Diagnostic) -> bool {
    |x: Diagnostic| !before.contains(x@)
}

/// The diagnostics of `after` that are not among `before`, in their order.
pub open spec fn introduced(after: Seq<Diagnostic>, before: Seq<DiagView>) -> Seq<Diagnostic> {
    after.filter(not_among(before))
}

/// The diagnostics of `after` that `before` does not have, in the order of `after`.
pub fn introduced_diagnostics(after: &Vec<Diagnostic>, before: &Vec<Diagnostic>) -> (r: Vec<Diagnostic>)
    ensures
        r@ == introduced(after@, diag_views(before@)),
{
    let ghost bv = diag_views(before@);
    let ghost pred = not_among(bv);
    let mut out: Vec<Diagnostic> = Vec::new();
    let mut i: usize = 0;
    proof {
        reveal(Seq::filter);
    }
    assert(after@.take(0).filter(pred) =~= Seq::<Diagnostic>::empty());
    while i < after.len()
        invariant
            bv == diag_views(before@),
            pred == not_among(bv),
            i <= after@.len(),
            out@ == after@.take(i as int).filter(pred),
        decreases after.len() - i,
    {
        let d = &after[i];
        proof {
            reveal(Seq::filter);
            assert(after@.take(i + 1).drop_last() =~= after@.take(i as int));
            assert(after@.take(i + 1).last() == *d);
        }
        let mut found = false;
        let mut j: usize = 0;
        while j < before.len()
            invariant
                bv == diag_views(before@),
                j <= before@.len(),
                found == exists|k: int| 0 <= k < j && bv[k] == d@,
            decreases before.len() - j,
        {
            if same_diagnostic(&before[j], d) {
                assert(bv[j as int] == d@);
                found = true;
            }
            j = j + 1;
        }
        assert(found == bv.contains(d@));
        if !found {
            out.push(d.clone());
        }
        i = i + 1;
    }
    assert(after@.take(i as int) =~= after@);
    out
}

impl Clone for Diagnostic {
    fn clone(&self) -> (r: Self)
        ensures
            r == *self,
    {
        Diagnostic {
            schema_version: self.schema_version,
            code: self.code.clone(),
            path: self.path.clone(),
            field: copy_opt(&self.field),
            section: copy_opt(&self.section),
            message: self.message.clone(),
        }
    }
}

impl Diagnostic {
    /// A diagnostic with no field or section.
    pub fn new(path: &str, code: &str, message: &str) -> (d: Self)
        ensures
            d.schema_version == SCHEMA_VERSION,
            d.path@ == path@,
            d.code@ == code@,
            d.message@ == message@,
            d.field is None,
            d.section is None,
    {
        Diagnostic {
            schema_version: SCHEMA_VERSION,
            code: path_string(code),
            path: path_string(path),
            field: None,
            section: None,
            message: path_string(message),
        }
    }

    /// The same diagnostic, naming the field it is about.
    pub fn field(self, field: &str) -> (d: Self)
        ensures
            d == (Diagnostic { field: Some(d.field->0), ..self }),
            d.field->0@ == field@,
    {
        Diagnostic { field: Some(path_string(field)), ..self }
    }

    /// The same diagnostic, naming the section it is about.
    pub fn section(self, section: &str) -> (d: Self)
        ensures
            d == (Diagnostic { section: Some(d.section->0), ..self }),
            d.section->0@ == section@,
    {
        Diagnostic { section: Some(path_string(section)), ..self }
    }
}

/// `d` is a plain diagnostic for `path` with this code and message.
pub open spec fn diagnostic_is(d: Diagnostic, path: Seq<char>, code: Seq<char>, message: Seq<char>) -> bool {
    &&& d.schema_version == SCHEMA_VERSION
    &&& d.path@ == path
    &&& d.code@ == code
    &&& d.message@ == message
    &&& d.field is None
    &&& d.section is None
}

/// `d` is a diagnostic for `path` with this code and message that names a field.
pub open spec fn field_diagnostic_is(
    d: Diagnostic,
    path: Seq<char>,
    code: Seq<char>,
    message: Seq<char>,
    field: Seq<char>,
) -> bool {
    &&& d.schema_version == SCHEMA_VERSION
    &&& d.path@ == path
    &&& d.code@ == code
    &&& d.message@ == message
    &&& d.field == Some(d.field->0) && d.field->0@ == field
    &&& d.section is None
}

/// A plain diagnostic.
pub fn diag(path: &str, code: &str, message: &str) -> (d: Diagnostic)
    ensures
        diagnostic_is(d, path@, code@, message@),
{
    Diagnostic::new(path, code, message)
}

/// A diagnostic that names a field.
pub fn field_diag(path: &str, code: &str, message: &str, field: &str) -> (d: Diagnostic)
    ensures
        field_diagnostic_is(d, path@, code@, message@, field@),
{
    Diagnostic::new(path, code, message).field(field)
}

/// An owned copy of a string slice.
pub fn path_string(s: &str) -> (r: String)
    ensures
        r@ == s@,
{
    s.to_owned()
}

/// The order of diagnostics: by path, code, field, section, then message.
pub open spec fn diagnostic_key(d: Diagnostic) -> Seq<i64> {
    str_field(d.path@) + str_field(d.code@) + opt_field(opt_view(d.field)) + opt_field(
        opt_view(d.section),
    ) + str_field(d.message@)
}

impl Keyed for Diagnostic {
    open spec fn sort_key(&self) -> Seq<i64> {
        diagnostic_key(*self)
    }

    fn key(&self) -> (k: Vec<i64>) {
        let mut k: Vec<i64> = Vec::new();
        push_str_field(&mut k, self.path.as_str());
        push_str_field(&mut k, self.code.as_str());
        push_opt_field(&mut k, &self.field);
        push_opt_field(&mut k, &self.section);
        push_str_field(&mut k, self.message.as_str());
        assert(k@ =~= diagnostic_key(*self));
        k
    }
}

/// The order key of a diagnostic's plain content: path, code, field, section, message.
pub open spec fn view_key(v: DiagView) -> Seq<i64> {
    str_field(v.path) + str_field(v.code) + opt_field(v.field) + opt_field(v.section) + str_field(v.message)
}

/// Plain diagnostics whose keys ascend.
pub open spec fn views_sorted(s: Seq<DiagView>) -> bool {
    forall|i: int, j: int| 0 <= i < j < s.len() ==> lex_le(#[trigger] view_key(s[i]), #[trigger] view_key(s[j]))
}

/// The key of a diagnostic is the key of its plain content.
pub proof fn lemma_key_of_view(d: Diagnostic)
    ensures
        diagnostic_key(d) == view_key(d@),
{
}

/// Two diagnostics of one schema version with the same key are the same.
pub proof fn lemma_view_key_injective(a: DiagView, b: DiagView)
    requires
        view_key(a) == view_key(b),
        a.schema_version == b.schema_version,
    ensures
        a == b,
{
    let ra = str_field(a.code) + (opt_field(a.field) + (opt_field(a.section) + str_field(a.message)));
    let rb = str_field(b.code) + (opt_field(b.field) + (opt_field(b.section) + str_field(b.message)));
    assert(view_key(a) =~= str_field(a.path) + ra);
    assert(view_key(b) =~= str_field(b.path) + rb);
    lemma_str_field_split(a.path, b.path, ra, rb);
    let qa = opt_field(a.field) + (opt_field(a.section) + str_field(a.message));
    let qb = opt_field(b.field) + (opt_field(b.section) + str_field(b.message));
    lemma_str_field_split(a.code, b.code, qa, qb);
    let pa = opt_field(a.section) + str_field(a.message);
    let pb = opt_field(b.section) + str_field(b.message);
    lemma_opt_field_split(a.field, b.field, pa, pb);
    lemma_opt_field_split(a.section, b.section, str_field(a.message), str_field(b.message));
    assert(str_field(a.message) =~= str_field(a.message) + Seq::<i64>::empty());
    assert(str_field(b.message) =~= str_field(b.message) + Seq::<i64>::empty());
    lemma_str_field_split(a.message, b.message, Seq::<i64>::empty(), Seq::<i64>::empty());
}

/// Two key-sorted sequences of plain diagnostics of one schema version that hold the
/// same diagnostics are the same sequence.
pub proof fn lemma_sorted_views_unique(a: Seq<DiagView>, b: Seq<DiagView>, version: u32)
    requires
        views_sorted(a),
        views_sorted(b),
        a.to_multiset() == b.to_multiset(),
        forall|i: int| 0 <= i < a.len() ==> (#[trigger] a[i]).schema_version == version,
    ensures
        a == b,
    decreases a.len(),
{
    broadcast use vstd::seq_lib::group_to_multiset_ensures;

    assert(a.to_multiset().len() == a.len());
    assert(b.to_multiset().len() == b.len());
    if a.len() == 0 {
        assert(a =~= b);
    } else {
        let x = a[0];
        let y = b[0];
        assert(b.to_multiset().count(y) > 0);
        assert(a.contains(y));
        let k = choose|k: int| 0 <= k < a.len() && a[k] == y;
        if k > 0 {
            assert(lex_le(view_key(a[0]), view_key(a[k])));
        } else {
            lemma_lex_le_reflexive(view_key(x));
        }
        assert(a.to_multiset().count(x) > 0);
        assert(b.contains(x));
        let m = choose|m: int| 0 <= m < b.len() && b[m] == x;
        if m > 0 {
            assert(lex_le(view_key(b[0]), view_key(b[m])));
        } else {
            lemma_lex_le_reflexive(view_key(y));
        }
        lemma_lex_le_antisymmetric(view_key(x), view_key(y));
        assert(a[k].schema_version == version);
        lemma_view_key_injective(x, y);
        assert(a.remove(0) =~= a.drop_first());
        assert(b.remove(0) =~= b.drop_first());
        assert(a.drop_first().to_multiset() == a.to_multiset().remove(x));
        assert(b.drop_first().to_multiset() == b.to_multiset().remove(y));
        assert forall|i: int, j: int| 0 <= i < j < a.drop_first().len() implies lex_le(
            #[trigger] view_key(a.drop_first()[i]),
            #[trigger] view_key(a.drop_first()[j]),
        ) by {
            assert(a.drop_first()[i] == a[i + 1]);
            assert(a.drop_first()[j] == a[j + 1]);
        }
        assert forall|i: int, j: int| 0 <= i < j < b.drop_first().len() implies lex_le(
            #[trigger] view_key(b.drop_first()[i]),
            #[trigger] view_key(b.drop_first()[j]),
        ) by {
            assert(b.drop_first()[i] == b[i + 1]);
            assert(b.drop_first()[j] == b[j + 1]);
        }
        assert forall|i: int| 0 <= i < a.drop_first().len() implies (#[trigger] a.drop_first()[i]).schema_version == version by {
            assert(a.drop_first()[i] == a[i + 1]);
        }
        lemma_sorted_views_unique(a.drop_first(), b.drop_first(), version);
        assert(a =~= seq![x] + a.drop_first());
        assert(b =~= seq![y] + b.drop_first());
    }
}

/// Key-sorted diagnostics have key-sorted views.
pub proof fn lemma_views_sorted(r: Seq<Diagnostic>)
    requires
        keys_sorted(r),
    ensures
        views_sorted(diag_views(r)),
{
    assert forall|i: int, j: int| 0 <= i < j < diag_views(r).len() implies lex_le(
        #[trigger] view_key(diag_views(r)[i]),
        #[trigger] view_key(diag_views(r)[j]),
    ) by {
        assert(lex_le(r[i].sort_key(), r[j].sort_key()));
    }
}

/// The views of diagnostics with the same multiset have the same multiset.
pub proof fn lemma_views_multiset(a: Seq<Diagnostic>, b: Seq<Diagnostic>)
    requires
        a.to_multiset() == b.to_multiset(),
    ensures
        diag_views(a).to_multiset() == diag_views(b).to_multiset(),
    decreases a.len(),
{
    broadcast use vstd::seq_lib::group_to_multiset_ensures;

    assert(a.to_multiset().len() == a.len());
    assert(b.to_multiset().len() == b.len());
    if a.len() == 0 {
        assert(diag_views(a) =~= diag_views(b));
    } else {
        let x = a[0];
        assert(a.to_multiset().count(x) > 0);
        assert(b.contains(x));
        let m = choose|m: int| 0 <= m < b.len() && b[m] == x;
        let rest = b.remove(m);
        assert(a.remove(0) =~= a.drop_first());
        assert(rest.to_multiset() == a.drop_first().to_multiset());
        lemma_views_multiset(a.drop_first(), rest);
        assert(diag_views(a) =~= diag_views(a.drop_first()).insert(0, x@));
        assert(diag_views(b) =~= diag_views(rest).insert(m, x@));
    }
}

/// Sorting diagnostics of one schema version does not depend on the order they came
/// in: the stable orders of two arrangements of the same diagnostics read the same.
pub proof fn law_stable_order_ignores_input_order(
    d: Seq<Diagnostic>,
    p: Seq<Diagnostic>,
    rd: Seq<Diagnostic>,
    rp: Seq<Diagnostic>,
)
    requires
        p.to_multiset() == d.to_multiset(),
        forall|i: int, j: int| 0 <= i < d.len() && 0 <= j < d.len() ==> (#[trigger] d[i]).schema_version == (#[trigger] d[j]).schema_version,
        rd.to_multiset() == d.to_multiset(),
        keys_sorted(rd),
        rp.to_multiset() == p.to_multiset(),
        keys_sorted(rp),
    ensures
        diag_views(rd) == diag_views(rp),
{
    broadcast use vstd::seq_lib::group_to_multiset_ensures;

    lemma_views_sorted(rd);
    lemma_views_sorted(rp);
    lemma_views_multiset(rd, rp);
    if rd.len() > 0 {
        let version = rd[0].schema_version;
        assert forall|i: int| 0 <= i < diag_views(rd).len() implies (#[trigger] diag_views(rd)[i]).schema_version == version by {
            assert(rd.to_multiset().count(rd[i]) > 0);
            assert(rd.to_multiset().count(rd[0]) > 0);
            assert(d.contains(rd[i]));
            assert(d.contains(rd[0]));
        }
        lemma_sorted_views_unique(diag_views(rd), diag_views(rp), version);
    } else {
        assert(rd.to_multiset().len() == rd.len());
        assert(rp.to_multiset().len() == rp.len());
        assert(diag_views(rd) =~= diag_views(rp));
    }
}

/// Diagnostics in the stable order of the same plain diagnostics, all of one schema
/// version, read the same.
pub proof fn lemma_stable_order_unique(r1: Seq<Diagnostic>, r2: Seq<Diagnostic>, views: Seq<DiagView>)
    requires
        stable_order_of(r1, views),
        stable_order_of(r2, views),
        forall|i: int, j: int| 0 <= i < views.len() && 0 <= j < views.len() ==> (#[trigger] views[i]).schema_version == (#[trigger] views[j]).schema_version,
    ensures
        diag_views(r1) == diag_views(r2),
{
    broadcast use vstd::seq_lib::group_to_multiset_ensures;

    let o1 = choose|orig: Seq<Diagnostic>| diag_views(orig) == views && orig.to_multiset() == r1.to_multiset();
    let o2 = choose|orig: Seq<Diagnostic>| diag_views(orig) == views && orig.to_multiset() == r2.to_multiset();
    lemma_views_multiset(o1, r1);
    lemma_views_multiset(o2, r2);
    lemma_views_sorted(r1);
    lemma_views_sorted(r2);
    lemma_stable_members(r1, views);
    let a = diag_views(r1);
    if a.len() > 0 {
        let version = a[0].schema_version;
        assert(views.contains(a[0]));
        assert forall|i: int| 0 <= i < a.len() implies (#[trigger] a[i]).schema_version == version by {
            assert(views.contains(a[i]));
        }
        lemma_sorted_views_unique(a, diag_views(r2), version);
    } else {
        assert(a.to_multiset().len() == a.len());
        assert(diag_views(r2).to_multiset().len() == diag_views(r2).len());
        assert(a =~= diag_views(r2));
    }
}

/// The same diagnostics in their stable order.
pub fn stable(diagnostics: Vec<Diagnostic>) -> (r: Vec<Diagnostic>)
    ensures
        r@.to_multiset() == diagnostics@.to_multiset(),
        keys_sorted(r@),
        keys_sorted(diagnostics@) ==> r@ == diagnostics@,
        stably_ordered(r@, diagnostics@),
{
    sort_by_key(diagnostics)
}

} // verus!
