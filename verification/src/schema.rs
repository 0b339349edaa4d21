//! Every diagnostic a scan reports carries the current schema version.

use crate::activation::{
    ActivationView, ProjectView, activation_entry_outcome, activation_outcome, activation_problems, bytes_problems,
    investigation_problems, prefix_problem, project_problems,
};
use crate::diagnostic::{DiagView, SCHEMA_VERSION, at_path};
use crate::record::{EntryView, Kind};
use crate::scanning::{FileView, file_outcome, files_found, record_result, scan_active, scan_entries, scan_state, scan_views};
use crate::validation::{
    attachment_problems, binding_problems, binding_problems_at, cross_problems, cycle_problems, decision_ref_problems,
    evidence_problems, identity_problems, scoped_ref_problems, stage_problems, work_problems,
};
use vstd::prelude::*;

verus! {

/// Every diagnostic carries the current schema version.
pub open spec fn current(s: Seq<DiagView>) -> bool {
    forall|i: int| 0 <= i < s.len() ==> (#[trigger] s[i]).schema_version == SCHEMA_VERSION
}

proof fn lemma_join(a: Seq<DiagView>, b: Seq<DiagView>)
    requires
        current(a),
        current(b),
    ensures
        current(a + b),
{
    assert forall|i: int| 0 <= i < (a + b).len() implies (#[trigger] (a + b)[i]).schema_version == SCHEMA_VERSION by {
        if i < a.len() {
            assert((a + b)[i] == a[i]);
        } else {
            assert((a + b)[i] == b[i - a.len()]);
        }
    }
}

proof fn lemma_at_path(ds: Seq<DiagView>, path: Seq<char>)
    requires
        current(ds),
    ensures
        current(at_path(ds, path)),
{
    assert forall|i: int| 0 <= i < at_path(ds, path).len() implies (#[trigger] at_path(ds, path)[i]).schema_version
        == SCHEMA_VERSION by {
        assert(at_path(ds, path)[i].schema_version == ds[i].schema_version);
    }
}

proof fn lemma_investigations(slug: Seq<char>, invs: Seq<Seq<char>>)
    ensures
        current(investigation_problems(slug, invs)),
    decreases invs.len(),
{
    if invs.len() > 0 {
        lemma_investigations(slug, invs.drop_last());
        let s = investigation_problems(slug, invs);
        assert(current(s)) by {
            let head = investigation_problems(slug, invs.drop_last());
            let tail = s.skip(head.len() as int);
            assert(s =~= head + tail);
            lemma_join(head, tail);
        }
    }
}

proof fn lemma_projects(projects: Seq<(Seq<char>, ProjectView)>, n: int, paths: bool)
    ensures
        current(project_problems(projects, n, paths)),
    decreases n,
{
    if n > 0 {
        lemma_projects(projects, n - 1, paths);
        lemma_investigations(projects[n - 1].0, projects[n - 1].1.investigations);
        let head = project_problems(projects, n - 1, paths);
        let mid = prefix_problem(projects, n - 1);
        let last = if paths {
            investigation_problems(projects[n - 1].0, projects[n - 1].1.investigations)
        } else {
            Seq::empty()
        };
        assert(current(mid));
        assert(current(last));
        lemma_join(head, mid);
        lemma_join(head + mid, last);
    }
}

proof fn lemma_activation_problems(a: ActivationView, paths: bool)
    ensures
        current(activation_problems(a, paths)),
{
    lemma_projects(a.projects, a.projects.len() as int, paths);
    let first: Seq<DiagView> = if a.schema_version != Some(1i64) {
        seq![crate::diagnostic::plain("casefile.toml"@, "invalid_schema_version"@, "schema_version must be 1"@)]
    } else {
        Seq::empty()
    };
    assert(current(first));
    lemma_join(first, project_problems(a.projects, a.projects.len() as int, paths));
}

proof fn lemma_record_result(path: Seq<char>, kind: Kind, text: Seq<char>)
    ensures
        record_result(path, kind, text) matches Err(ds) ==> current(ds),
{
}

proof fn lemma_file(f: FileView, text: Option<Seq<char>>)
    ensures
        current(file_outcome(f, scan_state(text), scan_active(text)).diagnostics),
{
    let a = scan_active(text);
    lemma_record_result(f.path, Kind::Ticket, Seq::empty());
    if f.path == "casefile.toml"@ {
        let ds = bytes_problems(f.bytes);
        match crate::project_map::text_of(f.bytes) {
            Some(t) => match crate::tree::toml_document(t) {
                Ok(tree) => match crate::activation::activation_doc(tree) {
                    Ok(av) => lemma_activation_problems(av, false),
                    Err(_) => {},
                },
                Err(_) => {},
            },
            None => {},
        }
        assert(current(ds));
        lemma_at_path(ds, f.path);
        assert(activation_entry_outcome(f.path, f.bytes, a).diagnostics == at_path(ds, f.path)
            || activation_entry_outcome(f.path, f.bytes, a).diagnostics.len() == 0);
    } else {
        match crate::layout::kind_for(f.path, a) {
            Some(k) => match crate::project_map::text_of(f.bytes) {
                Some(t) => lemma_record_result(f.path, k, t),
                None => {},
            },
            None => {},
        }
    }
}

proof fn lemma_files(files: Seq<FileView>, text: Option<Seq<char>>)
    ensures
        current(files_found(files, scan_state(text), scan_active(text))),
    decreases files.len(),
{
    if files.len() > 0 {
        lemma_files(files.drop_last(), text);
        lemma_file(files.last(), text);
        lemma_join(
            files_found(files.drop_last(), scan_state(text), scan_active(text)),
            file_outcome(files.last(), scan_state(text), scan_active(text)).diagnostics,
        );
    }
}

proof fn lemma_decision_refs(es: Seq<EntryView>, a: ActivationView, e: EntryView, refs: Seq<Seq<char>>)
    ensures
        current(decision_ref_problems(es, a, e, refs)),
    decreases refs.len(),
{
    if refs.len() > 0 {
        lemma_decision_refs(es, a, e, refs.drop_last());
        let head = decision_ref_problems(es, a, e, refs.drop_last());
        let s = decision_ref_problems(es, a, e, refs);
        let tail = s.skip(head.len() as int);
        assert(s =~= head + tail);
        assert(current(tail));
        lemma_join(head, tail);
    }
}

proof fn lemma_scoped_refs(es: Seq<EntryView>, a: ActivationView, e: EntryView, refs: Seq<Seq<char>>, own: bool)
    ensures
        current(scoped_ref_problems(es, a, e, refs, own)),
    decreases refs.len(),
{
    if refs.len() > 0 {
        lemma_scoped_refs(es, a, e, refs.drop_last(), own);
        let head = scoped_ref_problems(es, a, e, refs.drop_last(), own);
        let s = scoped_ref_problems(es, a, e, refs, own);
        let tail = s.skip(head.len() as int);
        assert(s =~= head + tail);
        assert(current(tail));
        lemma_join(head, tail);
    }
}

proof fn lemma_attachments(es: Seq<EntryView>, path: Seq<char>, atts: Seq<Seq<char>>)
    ensures
        current(attachment_problems(es, path, atts)),
    decreases atts.len(),
{
    if atts.len() > 0 {
        lemma_attachments(es, path, atts.drop_last());
        let head = attachment_problems(es, path, atts.drop_last());
        let s = attachment_problems(es, path, atts);
        let tail = s.skip(head.len() as int);
        assert(s =~= head + tail);
        assert(current(tail));
        lemma_join(head, tail);
    }
}

proof fn lemma_stage_entry(es: Seq<EntryView>, i: int, a: ActivationView, stage: int)
    ensures
        current(
            if stage == 0 {
                identity_problems(es, i, a)
            } else if stage == 1 {
                work_problems(es, i, a)
            } else {
                evidence_problems(es, i, a)
            },
        ),
{
    if stage == 0 {
        let s = identity_problems(es, i, a);
        assert(current(s));
    } else if stage == 1 {
        match crate::validation::work_draft(es[i]) {
            Some(w) => {
                lemma_decision_refs(es, a, es[i], w.decision_refs);
                lemma_scoped_refs(es, a, es[i], w.related_tickets + w.supersedes + w.superseded_by, true);
                lemma_join(
                    decision_ref_problems(es, a, es[i], w.decision_refs),
                    scoped_ref_problems(es, a, es[i], w.related_tickets + w.supersedes + w.superseded_by, true),
                );
            },
            None => {},
        }
    } else {
        let e = es[i];
        if e.kind == Some(Kind::Evidence) || e.kind == Some(Kind::Review) {
            match crate::project_map::text_of(e.original_bytes) {
                Some(t) => match crate::frontmatter::arrays_verdict(t) {
                    crate::verdict::Verdict::Accept((refs, atts)) => {
                        lemma_scoped_refs(es, a, e, refs, false);
                        lemma_attachments(es, e.path, atts);
                        lemma_join(scoped_ref_problems(es, a, e, refs, false), attachment_problems(es, e.path, atts));
                    },
                    _ => {},
                },
                None => {},
            }
        }
    }
}

proof fn lemma_stages(es: Seq<EntryView>, n: int, a: ActivationView, stage: int)
    ensures
        current(stage_problems(es, n, a, stage)),
    decreases n,
{
    if n > 0 {
        lemma_stages(es, n - 1, a, stage);
        lemma_stage_entry(es, n - 1, a, stage);
        let head = stage_problems(es, n - 1, a, stage);
        let s = stage_problems(es, n, a, stage);
        let tail = s.skip(head.len() as int);
        assert(s =~= head + tail);
        lemma_join(head, tail);
    }
}

proof fn lemma_cycles(es: Seq<EntryView>, keys: Seq<Seq<char>>)
    ensures
        current(cycle_problems(es, keys)),
    decreases keys.len(),
{
    if keys.len() > 0 {
        lemma_cycles(es, keys.drop_last());
        let head = cycle_problems(es, keys.drop_last());
        let s = cycle_problems(es, keys);
        let tail = s.skip(head.len() as int);
        assert(s =~= head + tail);
        assert(current(tail));
        lemma_join(head, tail);
    }
}

proof fn lemma_cross(es: Seq<EntryView>, a: ActivationView)
    ensures
        current(cross_problems(es, a)),
{
    let n = es.len() as int;
    lemma_stages(es, n, a, 0);
    lemma_stages(es, n, a, 1);
    lemma_stages(es, n, a, 2);
    let keys = crate::validation::first_occurrences(crate::validation::work_ids(es, n));
    lemma_cycles(es, keys);
    lemma_join(stage_problems(es, n, a, 0), stage_problems(es, n, a, 1));
    lemma_join(stage_problems(es, n, a, 0) + stage_problems(es, n, a, 1), stage_problems(es, n, a, 2));
    lemma_join(
        stage_problems(es, n, a, 0) + stage_problems(es, n, a, 1) + stage_problems(es, n, a, 2),
        cycle_problems(es, keys),
    );
}

proof fn lemma_bindings(es: Seq<EntryView>, n: int)
    ensures
        current(binding_problems(es, n)),
    decreases n,
{
    if n > 0 {
        lemma_bindings(es, n - 1);
        let tail = binding_problems_at(es, n - 1);
        assert(current(tail));
        lemma_join(binding_problems(es, n - 1), tail);
    }
}

/// Every diagnostic a scan finds carries the current schema version.
pub proof fn lemma_scan_views_current(text: Option<Seq<char>>, files: Seq<FileView>)
    ensures
        current(scan_views(text, files)),
{
    let es = scan_entries(text, files);
    let act = activation_outcome(text).2;
    match text {
        Some(t) => match crate::tree::toml_document(t) {
            Ok(tree) => match crate::activation::activation_doc(tree) {
                Ok(av) => lemma_activation_problems(av, true),
                Err(_) => {},
            },
            Err(_) => {},
        },
        None => {},
    }
    assert(current(act));
    lemma_files(files, text);
    lemma_cross(es, scan_active(text));
    lemma_bindings(es, es.len() as int);
    let found = files_found(files, scan_state(text), scan_active(text));
    lemma_join(act, found);
    lemma_join(act + found, cross_problems(es, scan_active(text)));
    lemma_join(act + found + cross_problems(es, scan_active(text)), binding_problems(es, es.len() as int));
}

} // verus!
