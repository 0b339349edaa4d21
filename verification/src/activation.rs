//! The activation file `casefile.toml`: which projects a root governs, their
//! identity prefixes and their investigation directories.

use crate::board::{strings_of, strs};
use crate::diagnostic::{DiagView, Diagnostic, at_path, diag, diag_views, field_diag, plain, stable, stable_order_of, with_field};
use crate::project_map::{text_of, utf8_text};
use crate::record::{Classification, Kind, RecordSummary, SummaryView, opt_summary};
use crate::layout::{safe_relative, safe_relative_spec};
use crate::pattern::{pattern_matches, prefix_syntax};
use crate::text::{is_prefix, push_str, starts_with, str_eq, strip_prefix_seq};
use crate::tree::{Tree, get, lookup, parse_toml, toml_document};
use vstd::prelude::*;

verus! {

/// Whether a root is activated, and whether its activation is valid.
#[derive(Clone, Copy, Debug, PartialEq, Eq, Structural)]
pub enum ActivationState {
    Unactivated,
    Active,
    Invalid,
}

/// One governed project.
#[derive(Debug, PartialEq, Eq)]
pub struct Project {
    pub prefix: String,
    pub investigations: Vec<String>,
}

/// The content of an activation: its schema version and its projects by slug,
/// in the order the TOML table lists them.
#[derive(Debug, PartialEq, Eq)]
pub struct Activation {
    pub schema_version: Option<i64>,
    pub projects: Vec<(String, Project)>,
}

/// The plain content of a project.
pub struct ProjectView {
    pub prefix: Seq<char>,
    pub investigations: Seq<Seq<char>>,
}

/// The plain content of an activation.
pub struct ActivationView {
    pub schema_version: Option<i64>,
    pub projects: Seq<(Seq<char>, ProjectView)>,
}

impl View for Project {
    type V = ProjectView;

    open spec fn view(&self) -> ProjectView {
        ProjectView { prefix: self.prefix@, investigations: strs(self.investigations@) }
    }
}

/// The views of the projects.
pub open spec fn project_views(ps: Seq<(String, Project)>) -> Seq<(Seq<char>, ProjectView)> {
    ps.map_values(|p: (String, Project)| (p.0@, p.1@))
}

impl View for Activation {
    type V = ActivationView;

    open spec fn view(&self) -> ActivationView {
        ActivationView { schema_version: self.schema_version, projects: project_views(self.projects@) }
    }
}

impl Activation {
    /// An activation with no schema version and no projects.
    pub fn empty() -> (a: Activation)
        ensures
            a@.schema_version is None,
            a@.projects.len() == 0,
    {
        let a = Activation { schema_version: None, projects: Vec::new() };
        assert(a@.projects =~= Seq::<(Seq<char>, ProjectView)>::empty());
        a
    }
}

/// A project table: a string prefix and a list of investigation paths.
pub open spec fn project_of(v: Tree) -> Option<ProjectView> {
    if !(v is Table) {
        None
    } else {
        match (get(v, "prefix"@), strings_of(get(v, "investigations"@))) {
            (Some(Tree::Str(prefix)), Some(investigations)) => Some(ProjectView { prefix: prefix@, investigations }),
            _ => None,
        }
    }
}

/// The projects of a `projects` table, when every value is a project table.
pub open spec fn projects_of(entries: Seq<(String, Tree)>) -> Option<Seq<(Seq<char>, ProjectView)>>
    decreases entries.len(),
{
    if entries.len() == 0 {
        Some(Seq::empty())
    } else {
        match (projects_of(entries.drop_last()), project_of(entries.last().1)) {
            (Some(ps), Some(p)) => Some(ps.push((entries.last().0@, p))),
            _ => None,
        }
    }
}

/// An activation document, or why it cannot be read.
pub open spec fn activation_doc(t: Tree) -> Result<ActivationView, Seq<char>> {
    if !(t is Table) {
        Err("activation must be a TOML table"@)
    } else {
        let schema: Option<Option<i64>> = match get(t, "schema_version"@) {
            None => Some(None),
            Some(Tree::Int(n)) => if i64::MIN <= n <= i64::MAX {
                Some(Some(n as i64))
            } else {
                None
            },
            _ => None,
        };
        let projects: Option<Seq<(Seq<char>, ProjectView)>> = match get(t, "projects"@) {
            None => Some(Seq::empty()),
            Some(Tree::Table(entries)) => projects_of(entries@),
            _ => None,
        };
        match (schema, projects) {
            (None, _) => Err("schema_version must be an integer"@),
            (_, None) => Err("projects must map slugs to a prefix and investigation paths"@),
            (Some(schema_version), Some(projects)) => Ok(ActivationView { schema_version, projects }),
        }
    }
}

/// The well-formed prefixes of the first `n` projects, in order.
pub open spec fn valid_prefixes(projects: Seq<(Seq<char>, ProjectView)>, n: int) -> Seq<Seq<char>>
    decreases n,
{
    if n <= 0 {
        Seq::empty()
    } else if prefix_syntax(projects[n - 1].1.prefix) {
        valid_prefixes(projects, n - 1).push(projects[n - 1].1.prefix)
    } else {
        valid_prefixes(projects, n - 1)
    }
}

/// A prefix is taken by an earlier project whose prefix has the right syntax.
pub open spec fn prefix_taken(projects: Seq<(Seq<char>, ProjectView)>, n: int, prefix: Seq<char>) -> bool {
    valid_prefixes(projects, n).contains(prefix)
}

/// The diagnostic of project `n`'s prefix, if any.
pub open spec fn prefix_problem(projects: Seq<(Seq<char>, ProjectView)>, n: int) -> Seq<DiagView> {
    let p = projects[n];
    if !prefix_syntax(p.1.prefix) || prefix_taken(projects, n, p.1.prefix) {
        seq![
            with_field(
                "casefile.toml"@,
                "invalid_project_prefix"@,
                "project prefixes must be unique uppercase identifiers"@,
                p.0,
            ),
        ]
    } else {
        Seq::empty()
    }
}

/// The investigation directory of a project.
pub open spec fn investigations_dir(slug: Seq<char>) -> Seq<char> {
    "projects/"@ + slug + "/investigations/"@
}

/// The diagnostics of a project's investigation paths: one for each path outside
/// the project's investigations directory or not a contained relative path.
pub open spec fn investigation_problems(slug: Seq<char>, invs: Seq<Seq<char>>) -> Seq<DiagView>
    decreases invs.len(),
{
    if invs.len() == 0 {
        Seq::empty()
    } else {
        investigation_problems(slug, invs.drop_last()) + if !is_prefix(investigations_dir(slug), invs.last())
            || !safe_relative_spec(invs.last()) {
            seq![
                with_field(
                    "casefile.toml"@,
                    "invalid_investigation_path"@,
                    "governed investigation paths must be contained beneath the project investigations directory"@,
                    slug,
                ),
            ]
        } else {
            Seq::empty()
        }
    }
}

/// The project diagnostics of the first `n` projects; with `paths`, investigation paths are checked too.
pub open spec fn project_problems(projects: Seq<(Seq<char>, ProjectView)>, n: int, paths: bool) -> Seq<DiagView>
    decreases n,
{
    if n <= 0 {
        Seq::empty()
    } else {
        project_problems(projects, n - 1, paths) + prefix_problem(projects, n - 1) + if paths {
            investigation_problems(projects[n - 1].0, projects[n - 1].1.investigations)
        } else {
            Seq::empty()
        }
    }
}

/// The diagnostics of an activation's content.
pub open spec fn activation_problems(a: ActivationView, paths: bool) -> Seq<DiagView> {
    (if a.schema_version != Some(1i64) {
        seq![plain("casefile.toml"@, "invalid_schema_version"@, "schema_version must be 1"@)]
    } else {
        Seq::empty()
    }) + project_problems(a.projects, a.projects.len() as int, paths)
}

fn read_project(v: &Tree) -> (r: Option<Project>)
    ensures
        match r {
            Some(p) => project_of(*v) == Some(p@),
            None => project_of(*v) is None,
        },
{
    if !matches!(v, Tree::Table(_)) {
        return None;
    }
    let prefix = match lookup(v, "prefix") {
        Some(Tree::Str(s)) => s.clone(),
        _ => {
            return None;
        }
    };
    let investigations = match crate::board::tree_strings(lookup(v, "investigations")) {
        Some(items) => items,
        None => {
            return None;
        }
    };
    Some(Project { prefix, investigations })
}

proof fn lemma_projects_prefix(entries: Seq<(String, Tree)>, n: int)
    requires
        0 <= n <= entries.len(),
        projects_of(entries.take(n)) is None,
    ensures
        projects_of(entries) is None,
    decreases entries.len() - n,
{
    if n == entries.len() {
        assert(entries.take(n) =~= entries);
    } else {
        assert(entries.drop_last().take(n) =~= entries.take(n));
        lemma_projects_prefix(entries.drop_last(), n);
    }
}

fn read_projects(entries: &Vec<(String, Tree)>) -> (r: Option<Vec<(String, Project)>>)
    ensures
        match r {
            Some(ps) => projects_of(entries@) == Some(project_views(ps@)),
            None => projects_of(entries@) is None,
        },
{
    let mut out: Vec<(String, Project)> = Vec::new();
    let mut i: usize = 0;
    assert(entries@.take(0) =~= Seq::<(String, Tree)>::empty());
    assert(project_views(out@) =~= Seq::<(Seq<char>, ProjectView)>::empty());
    while i < entries.len()
        invariant
            i <= entries@.len(),
            projects_of(entries@.take(i as int)) == Some(project_views(out@)),
        decreases entries.len() - i,
    {
        proof {
            assert(entries@.take(i + 1).drop_last() =~= entries@.take(i as int));
            assert(entries@.take(i + 1).last() == entries@[i as int]);
        }
        match read_project(&entries[i].1) {
            Some(p) => {
                let ghost prior = project_views(out@);
                out.push((entries[i].0.clone(), p));
                assert(project_views(out@) =~= prior.push((entries@[i as int].0@, out@.last().1@)));
            }
            None => {
                proof {
                    lemma_projects_prefix(entries@, i + 1);
                }
                return None;
            }
        }
        i = i + 1;
    }
    assert(entries@.take(i as int) =~= entries@);
    Some(out)
}

/// The content of a parsed activation document, or why it is refused.
pub fn read_activation(t: &Tree) -> (r: Result<Activation, String>)
    ensures
        match r {
            Ok(a) => activation_doc(*t) == Ok::<ActivationView, Seq<char>>(a@),
            Err(m) => activation_doc(*t) == Err::<ActivationView, Seq<char>>(m@),
        },
{
    if !matches!(t, Tree::Table(_)) {
        return Err("activation must be a TOML table".to_owned());
    }
    let schema: Option<Option<i64>> = match lookup(t, "schema_version") {
        None => Some(None),
        Some(Tree::Int(n)) => {
            if -0x8000_0000_0000_0000 <= *n && *n <= 0x7fff_ffff_ffff_ffff {
                Some(Some(*n as i64))
            } else {
                None
            }
        }
        Some(_) => None,
    };
    let projects: Option<Vec<(String, Project)>> = match lookup(t, "projects") {
        None => {
            let ps: Vec<(String, Project)> = Vec::new();
            assert(project_views(ps@) =~= Seq::<(Seq<char>, ProjectView)>::empty());
            Some(ps)
        }
        Some(Tree::Table(entries)) => read_projects(entries),
        Some(_) => None,
    };
    match (schema, projects) {
        (None, _) => Err("schema_version must be an integer".to_owned()),
        (_, None) => Err("projects must map slugs to a prefix and investigation paths".to_owned()),
        (Some(schema_version), Some(projects)) => Ok(Activation { schema_version, projects }),
    }
}

fn investigations_dir_string(slug: &str) -> (r: String)
    ensures
        r@ == investigations_dir(slug@),
{
    let mut d = "projects/".to_owned();
    push_str(&mut d, slug);
    push_str(&mut d, "/investigations/");
    d
}

fn push_investigation_problems(out: &mut Vec<Diagnostic>, slug: &String, invs: &Vec<String>)
    ensures
        diag_views(final(out)@) == diag_views(old(out)@) + investigation_problems(slug@, strs(invs@)),
{
    let dir = investigations_dir_string(slug.as_str());
    let mut i: usize = 0;
    let ghost start = diag_views(out@);
    assert(strs(invs@).take(0) =~= Seq::<Seq<char>>::empty());
    assert(start + investigation_problems(slug@, Seq::<Seq<char>>::empty()) =~= start);
    while i < invs.len()
        invariant
            i <= invs@.len(),
            dir@ == investigations_dir(slug@),
            diag_views(out@) == start + investigation_problems(slug@, strs(invs@).take(i as int)),
        decreases invs.len() - i,
    {
        let ghost before = diag_views(out@);
        let inv = invs[i].as_str();
        proof {
            assert(strs(invs@).take(i + 1).drop_last() =~= strs(invs@).take(i as int));
            assert(strs(invs@).take(i + 1).last() == invs@[i as int]@);
        }
        if !starts_with(inv, dir.as_str()) || !safe_relative(inv) {
            out.push(field_diag(
                "casefile.toml",
                "invalid_investigation_path",
                "governed investigation paths must be contained beneath the project investigations directory",
                slug.as_str(),
            ));
            assert(diag_views(out@) =~= before.push(diag_views(out@).last()));
        }
        i = i + 1;
        assert(diag_views(out@) =~= start + investigation_problems(slug@, strs(invs@).take(i as int)));
    }
    assert(strs(invs@).take(i as int) =~= strs(invs@));
}

fn seen_contains(seen: &Vec<String>, p: &str) -> (r: bool)
    ensures
        r == strs(seen@).contains(p@),
{
    let mut i: usize = 0;
    while i < seen.len()
        invariant
            i <= seen@.len(),
            forall|j: int| 0 <= j < i ==> seen@[j]@ != p@,
        decreases seen.len() - i,
    {
        if str_eq(seen[i].as_str(), p) {
            assert(strs(seen@)[i as int] == p@);
            return true;
        }
        i = i + 1;
    }
    assert forall|j: int| 0 <= j < strs(seen@).len() implies strs(seen@)[j] != p@ by {
        assert(strs(seen@)[j] == seen@[j]@);
    }
    false
}

/// The diagnostics of an activation's content; with `paths`, investigation paths are checked too.
pub fn activation_check(a: &Activation, paths: bool) -> (r: Vec<Diagnostic>)
    ensures
        diag_views(r@) == activation_problems(a@, paths),
{
    let mut out: Vec<Diagnostic> = Vec::new();
    let schema_ok = match a.schema_version {
        Some(v) => v == 1,
        None => false,
    };
    if !schema_ok {
        out.push(diag("casefile.toml", "invalid_schema_version", "schema_version must be 1"));
    }
    let ghost head = diag_views(out@);
    assert(head =~= (if a@.schema_version != Some(1i64) {
        seq![plain("casefile.toml"@, "invalid_schema_version"@, "schema_version must be 1"@)]
    } else {
        Seq::<DiagView>::empty()
    }));
    let ghost ps = a@.projects;
    let mut seen: Vec<String> = Vec::new();
    let mut j: usize = 0;
    assert(head + project_problems(ps, 0, paths) =~= head);
    while j < a.projects.len()
        invariant
            ps == a@.projects,
            j <= ps.len(),
            strs(seen@) == valid_prefixes(ps, j as int),
            diag_views(out@) == head + project_problems(ps, j as int, paths),
        decreases a.projects.len() - j,
    {
        let (slug, project) = (&a.projects[j].0, &a.projects[j].1);
        assert(ps[j as int] == (slug@, project@));
        let ghost before = diag_views(out@);
        let well_formed = pattern_matches("^[A-Z][A-Z0-9_]*$", project.prefix.as_str());
        let taken = well_formed && seen_contains(&seen, project.prefix.as_str());
        if !well_formed || taken {
            out.push(field_diag(
                "casefile.toml",
                "invalid_project_prefix",
                "project prefixes must be unique uppercase identifiers",
                slug.as_str(),
            ));
            assert(diag_views(out@) =~= before + prefix_problem(ps, j as int));
        } else {
            assert(before + prefix_problem(ps, j as int) =~= before);
        }
        if well_formed {
            let ghost prior = strs(seen@);
            seen.push(project.prefix.clone());
            assert(strs(seen@) =~= prior.push(project.prefix@));
        }
        if paths {
            push_investigation_problems(&mut out, slug, &project.investigations);
        } else {
            assert(diag_views(out@) + Seq::<DiagView>::empty() =~= diag_views(out@));
        }
        j = j + 1;
        assert(diag_views(out@) =~= head + project_problems(ps, j as int, paths));
    }
    out
}

/// How one scanned file was classified: its classification, kind, identity,
/// summary and diagnostics.
pub type Outcome = (Classification, Option<Kind>, Option<String>, Option<RecordSummary>, Vec<Diagnostic>);

/// The plain content of an outcome.
pub struct OutcomeView {
    pub classification: Classification,
    pub kind: Option<Kind>,
    pub identity: Option<Seq<char>>,
    pub summary: Option<SummaryView>,
    pub diagnostics: Seq<DiagView>,
}

/// The view of an outcome.
pub open spec fn outcome_view(o: Outcome) -> OutcomeView {
    OutcomeView {
        classification: o.0,
        kind: o.1,
        identity: match o.2 {
            Some(s) => Some(s@),
            None => None,
        },
        summary: opt_summary(o.3),
        diagnostics: diag_views(o.4@),
    }
}

/// The state, content and diagnostics of a root's activation text (`None` when the
/// root has no `casefile.toml`); `None` content stands for the empty activation.
pub open spec fn activation_outcome(text: Option<Seq<char>>) -> (ActivationState, Option<ActivationView>, Seq<DiagView>) {
    match text {
        None => (ActivationState::Unactivated, None, Seq::empty()),
        Some(t) => match toml_document(t) {
            Err(e) => (ActivationState::Invalid, None, seq![plain("casefile.toml"@, "invalid_activation"@, e)]),
            Ok(tree) => match activation_doc(tree) {
                Err(m) => (ActivationState::Invalid, None, seq![plain("casefile.toml"@, "invalid_activation"@, m)]),
                Ok(a) => (
                    if activation_problems(a, true).len() == 0 {
                        ActivationState::Active
                    } else {
                        ActivationState::Invalid
                    },
                    Some(a),
                    activation_problems(a, true),
                ),
            },
        },
    }
}

/// Reads a root's activation from the text of its `casefile.toml` (`None` when the
/// file is absent): its state, its content, and its diagnostics in stable order.
pub fn activation(text: Option<&str>) -> (r: (ActivationState, Activation, Vec<Diagnostic>))
    ensures
        ({
            let o = activation_outcome(
                match text {
                    Some(t) => Some(t@),
                    None => None,
                },
            );
            &&& r.0 == o.0
            &&& match o.1 {
                Some(a) => r.1@ == a,
                None => r.1@.schema_version is None && r.1@.projects.len() == 0,
            }
            &&& stable_order_of(r.2@, o.2)
        }),
{
    let text = match text {
        None => {
            let ds: Vec<Diagnostic> = Vec::new();
            let sorted = stable(ds);
            proof {
                assert(diag_views(ds@) =~= Seq::<DiagView>::empty());
            }
            return (ActivationState::Unactivated, Activation::empty(), sorted);
        }
        Some(t) => t,
    };
    let t = match parse_toml(text) {
        Ok(t) => t,
        Err(e) => {
            let ds = vec![diag("casefile.toml", "invalid_activation", e.as_str())];
            proof {
                assert(diag_views(ds@) =~= seq![plain("casefile.toml"@, "invalid_activation"@, e@)]);
            }
            let sorted = stable(ds);
            return (ActivationState::Invalid, Activation::empty(), sorted);
        }
    };
    let a = match read_activation(&t) {
        Ok(a) => a,
        Err(m) => {
            let ds = vec![diag("casefile.toml", "invalid_activation", m.as_str())];
            proof {
                assert(diag_views(ds@) =~= seq![plain("casefile.toml"@, "invalid_activation"@, m@)]);
            }
            let sorted = stable(ds);
            return (ActivationState::Invalid, Activation::empty(), sorted);
        }
    };
    let ds = activation_check(&a, true);
    let state = if ds.len() == 0 {
        ActivationState::Active
    } else {
        ActivationState::Invalid
    };
    let sorted = stable(ds);
    (state, a, sorted)
}

/// The diagnostics of activation bytes read as a record.
pub open spec fn bytes_problems(bytes: Seq<u8>) -> Seq<DiagView> {
    match text_of(bytes) {
        None => seq![plain("casefile.toml"@, "invalid_activation"@, "activation must be UTF-8 TOML"@)],
        Some(t) => match toml_document(t) {
            Err(e) => seq![plain("casefile.toml"@, "invalid_activation"@, e)],
            Ok(tree) => match activation_doc(tree) {
                Err(m) => seq![plain("casefile.toml"@, "invalid_activation"@, m)],
                Ok(a) => activation_problems(a, false),
            },
        },
    }
}

/// The diagnostics of activation bytes read as a record: UTF-8, TOML, schema and prefixes.
pub fn activation_from_bytes(bytes: &[u8]) -> (r: Vec<Diagnostic>)
    ensures
        diag_views(r@) == bytes_problems(bytes@),
{
    let text = match utf8_text(bytes) {
        Some(t) => t,
        None => {
            let ds = vec![diag("casefile.toml", "invalid_activation", "activation must be UTF-8 TOML")];
            assert(diag_views(ds@) =~= seq![plain("casefile.toml"@, "invalid_activation"@, "activation must be UTF-8 TOML"@)]);
            return ds;
        }
    };
    let t = match parse_toml(text.as_str()) {
        Ok(t) => t,
        Err(e) => {
            let ds = vec![diag("casefile.toml", "invalid_activation", e.as_str())];
            assert(diag_views(ds@) =~= seq![plain("casefile.toml"@, "invalid_activation"@, e@)]);
            return ds;
        }
    };
    match read_activation(&t) {
        Ok(a) => activation_check(&a, false),
        Err(m) => {
            let ds = vec![diag("casefile.toml", "invalid_activation", m.as_str())];
            assert(diag_views(ds@) =~= seq![plain("casefile.toml"@, "invalid_activation"@, m@)]);
            ds
        }
    }
}

/// The project slugs of an activation, in order.
pub open spec fn slugs(a: ActivationView) -> Seq<Seq<char>> {
    a.projects.map_values(|p: (Seq<char>, ProjectView)| p.0)
}

/// How the activation file classifies as a record.
pub open spec fn activation_entry_outcome(path: Seq<char>, bytes: Seq<u8>, active: ActivationView) -> OutcomeView {
    let ds = bytes_problems(bytes);
    if ds.len() == 0 {
        OutcomeView {
            classification: Classification::Governed,
            kind: Some(Kind::Activation),
            identity: None,
            summary: Some(SummaryView::Activation(slugs(active))),
            diagnostics: Seq::empty(),
        }
    } else {
        OutcomeView {
            classification: Classification::Invalid,
            kind: Some(Kind::Activation),
            identity: None,
            summary: None,
            diagnostics: at_path(ds, path),
        }
    }
}

/// The slugs of an activation's projects.
pub fn slug_list(active: &Activation) -> (r: Vec<String>)
    ensures
        strs(r@) == slugs(active@),
{
    let mut out: Vec<String> = Vec::new();
    let mut i: usize = 0;
    while i < active.projects.len()
        invariant
            i <= active.projects@.len(),
            strs(out@) == slugs(active@).take(i as int),
        decreases active.projects.len() - i,
    {
        let ghost prior = strs(out@);
        out.push(active.projects[i].0.clone());
        assert(strs(out@) =~= prior.push(active.projects@[i as int].0@));
        assert(slugs(active@).take(i + 1) =~= slugs(active@).take(i as int).push(active.projects@[i as int].0@));
        i = i + 1;
    }
    assert(slugs(active@).take(i as int) =~= slugs(active@));
    out
}

/// Classifies the activation file as a record: governed when its bytes pass the
/// activation checks, invalid with those diagnostics (pointing at `path`) otherwise.
pub fn activation_entry(path: &str, bytes: &[u8], active: &Activation) -> (r: Outcome)
    ensures
        outcome_view(r) == activation_entry_outcome(path@, bytes@, active@),
{
    let ds = activation_from_bytes(bytes);
    if ds.len() == 0 {
        let projects = slug_list(active);
        assert(diag_views(ds@) =~= Seq::<DiagView>::empty());
        (Classification::Governed, Some(Kind::Activation), None, Some(RecordSummary::Activation { projects }), ds)
    } else {
        let mut out: Vec<Diagnostic> = Vec::new();
        let mut i: usize = 0;
        while i < ds.len()
            invariant
                i <= ds@.len(),
                diag_views(out@) == at_path(diag_views(ds@), path@).take(i as int),
            decreases ds.len() - i,
        {
            let d = &ds[i];
            let moved = Diagnostic {
                schema_version: d.schema_version,
                code: d.code.clone(),
                path: path.to_owned(),
                field: crate::diagnostic::copy_opt(&d.field),
                section: crate::diagnostic::copy_opt(&d.section),
                message: d.message.clone(),
            };
            let ghost prior = diag_views(out@);
            out.push(moved);
            assert(diag_views(out@) =~= prior.push(moved@));
            assert(at_path(diag_views(ds@), path@).take(i + 1) =~= at_path(diag_views(ds@), path@).take(i as int).push(
                moved@,
            ));
            i = i + 1;
        }
        assert(at_path(diag_views(ds@), path@).take(i as int) =~= at_path(diag_views(ds@), path@));
        (Classification::Invalid, Some(Kind::Activation), None, None, out)
    }
}

/// Every investigation directory of the activation, project by project.
pub open spec fn all_bases(projects: Seq<(Seq<char>, ProjectView)>) -> Seq<Seq<char>>
    decreases projects.len(),
{
    if projects.len() == 0 {
        Seq::empty()
    } else {
        all_bases(projects.drop_last()) + projects.last().1.investigations
    }
}

/// The investigation directories of an activation, in order.
pub fn bases_of(active: &Activation) -> (r: Vec<String>)
    ensures
        strs(r@) == all_bases(active@.projects),
{
    let ghost ps = active@.projects;
    let mut out: Vec<String> = Vec::new();
    let mut i: usize = 0;
    assert(ps.take(0) =~= Seq::<(Seq<char>, ProjectView)>::empty());
    assert(strs(out@) =~= Seq::<Seq<char>>::empty());
    while i < active.projects.len()
        invariant
            ps == active@.projects,
            i <= ps.len(),
            strs(out@) == all_bases(ps.take(i as int)),
        decreases active.projects.len() - i,
    {
        let invs = &active.projects[i].1.investigations;
        let ghost start = strs(out@);
        let mut k: usize = 0;
        while k < invs.len()
            invariant
                k <= invs@.len(),
                strs(out@) == start + strs(invs@).take(k as int),
            decreases invs.len() - k,
        {
            let ghost prior = strs(out@);
            out.push(invs[k].clone());
            assert(strs(out@) =~= prior.push(invs@[k as int]@));
            assert(strs(invs@).take(k + 1) =~= strs(invs@).take(k as int).push(invs@[k as int]@));
            k = k + 1;
        }
        proof {
            assert(strs(invs@).take(k as int) =~= strs(invs@));
            assert(ps.take(i + 1).drop_last() =~= ps.take(i as int));
            assert(ps.take(i + 1).last() == ps[i as int]);
        }
        i = i + 1;
    }
    assert(ps.take(i as int) =~= ps);
    out
}

/// The first base that holds `path` beneath it.
pub open spec fn first_scope(path: Seq<char>, bases: Seq<Seq<char>>) -> Option<Seq<char>>
    decreases bases.len(),
{
    if bases.len() == 0 {
        None
    } else if is_prefix(bases[0] + "/"@, path) {
        Some(bases[0])
    } else {
        first_scope(path, bases.drop_first())
    }
}

/// The investigation directory that holds a path: the first, in activation order.
pub open spec fn scope_of(path: Seq<char>, a: ActivationView) -> Option<Seq<char>> {
    first_scope(path, all_bases(a.projects))
}

fn with_slash(s: &str) -> (r: String)
    ensures
        r@ == s@ + "/"@,
{
    let mut r = s.to_owned();
    push_str(&mut r, "/");
    r
}

/// The investigation directory that holds a path, if any.
pub fn scope_for(path: &str, active: &Activation) -> (r: Option<String>)
    ensures
        match r {
            Some(b) => scope_of(path@, active@) == Some(b@),
            None => scope_of(path@, active@) is None,
        },
{
    let bases = bases_of(active);
    let ghost bs = strs(bases@);
    let mut i: usize = 0;
    assert(bs.skip(0) =~= bs);
    while i < bases.len()
        invariant
            bs == strs(bases@),
            bs == all_bases(active@.projects),
            i <= bs.len(),
            first_scope(path@, bs) == first_scope(path@, bs.skip(i as int)),
        decreases bases.len() - i,
    {
        assert(bs.skip(i as int).drop_first() =~= bs.skip(i + 1));
        assert(bs.skip(i as int)[0] == bases@[i as int]@);
        let base = with_slash(bases[i].as_str());
        if starts_with(path, base.as_str()) {
            return Some(bases[i].clone());
        }
        i = i + 1;
    }
    None
}

/// The first project whose directory holds a path.
pub open spec fn project_in(path: Seq<char>, slugs: Seq<Seq<char>>) -> Option<Seq<char>>
    decreases slugs.len(),
{
    if slugs.len() == 0 {
        None
    } else if is_prefix("projects/"@ + slugs[0] + "/"@, path) {
        Some(slugs[0])
    } else {
        project_in(path, slugs.drop_first())
    }
}

fn project_dir(slug: &str) -> (r: String)
    ensures
        r@ == "projects/"@ + slug@ + "/"@,
{
    let mut d = "projects/".to_owned();
    push_str(&mut d, slug);
    push_str(&mut d, "/");
    d
}

/// The project whose directory holds a path, if any.
pub fn project_for(path: &str, active: &Activation) -> (r: Option<String>)
    ensures
        match r {
            Some(p) => project_in(path@, slugs(active@)) == Some(p@),
            None => project_in(path@, slugs(active@)) is None,
        },
{
    let names = slug_list(active);
    let ghost ns = strs(names@);
    let mut i: usize = 0;
    assert(ns.skip(0) =~= ns);
    while i < names.len()
        invariant
            ns == strs(names@),
            ns == slugs(active@),
            i <= ns.len(),
            project_in(path@, ns) == project_in(path@, ns.skip(i as int)),
        decreases names.len() - i,
    {
        assert(ns.skip(i as int).drop_first() =~= ns.skip(i + 1));
        assert(ns.skip(i as int)[0] == names@[i as int]@);
        let dir = project_dir(names[i].as_str());
        if starts_with(path, dir.as_str()) {
            return Some(names[i].clone());
        }
        i = i + 1;
    }
    None
}

/// The identity of an investigation: its path below the project's investigations directory.
pub fn investigation_identity(project: &str, investigation: &str) -> (r: Option<String>)
    ensures
        match r {
            Some(v) => strip_prefix_seq(investigation@, investigations_dir(project@)) == Some(v@),
            None => strip_prefix_seq(investigation@, investigations_dir(project@)) is None,
        },
{
    let dir = investigations_dir_string(project);
    crate::text::strip_prefix(investigation, dir.as_str())
}

/// A path is an investigation directory or lies beneath one.
pub open spec fn in_active_spec(path: Seq<char>, a: ActivationView) -> bool {
    exists|i: int|
        0 <= i < all_bases(a.projects).len() && (#[trigger] all_bases(a.projects)[i] == path || is_prefix(
            all_bases(a.projects)[i] + "/"@,
            path,
        ))
}

/// Whether a path is an investigation directory or lies beneath one.
pub fn in_active(path: &str, active: &Activation) -> (r: bool)
    ensures
        r == in_active_spec(path@, active@),
{
    let bases = bases_of(active);
    let ghost bs = strs(bases@);
    let mut i: usize = 0;
    while i < bases.len()
        invariant
            bs == strs(bases@),
            bs == all_bases(active@.projects),
            i <= bs.len(),
            forall|j: int| 0 <= j < i ==> !(#[trigger] bs[j] == path@ || is_prefix(bs[j] + "/"@, path@)),
        decreases bases.len() - i,
    {
        assert(bs[i as int] == bases@[i as int]@);
        let base = with_slash(bases[i].as_str());
        if str_eq(path, bases[i].as_str()) || starts_with(path, base.as_str()) {
            return true;
        }
        i = i + 1;
    }
    false
}

} // verus!
