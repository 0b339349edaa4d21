use casefile::activation::ActivationState;
use casefile::change::ChangeRequest;
use casefile::derived::{derive_relationships, RelationshipKind};
use casefile::diagnostic::{stable, Diagnostic};
use casefile::draft::{parse_draft, render_draft, validate_draft};
use casefile::index::{checked, publish_answer, Indexed};
use casefile::progress::{ProgressEntry, ProgressLog, ProgressStatus};
use casefile::progress_store::{ProgressApplyStep, ProgressChangeRequest, ProgressStep};
use casefile::board::{BoardColumn, BoardDraft};
use casefile::record::{Classification, Kind, RecordDraft, Revision};
use casefile::scanning::{FileSet, ScannedFile};
use casefile::store::{canonical_diff, PreviewStep, Store, StoreError};
use casefile::work_item::WorkItemDraft;

const ACTIVATION: &str = "schema_version = 1\n[projects.demo]\nprefix = 'HMD'\ninvestigations = ['projects/demo/investigations/sample']\n";
const SAMPLE: &str = "projects/demo/investigations/sample";

fn item(id: &str, status: &str, related: Vec<String>) -> WorkItemDraft {
    WorkItemDraft {
        id: id.to_owned(),
        title: format!("Work {id}"),
        project: "demo".to_owned(),
        investigation: "sample".to_owned(),
        status: status.to_owned(),
        reported_by_role: "maintainer".to_owned(),
        reported_by_agent: "analyst".to_owned(),
        source_commit: "abc123".to_owned(),
        created_at: "2024-01-01T00:00:00Z".to_owned(),
        updated_at: "2024-01-02T00:00:00Z".to_owned(),
        confidence: "high".to_owned(),
        decision_refs: Vec::new(),
        related_tickets: related,
        supersedes: Vec::new(),
        superseded_by: Vec::new(),
        rank: None,
        requirement_and_evidence: "Evidence.".to_owned(),
        impact: "Impact.".to_owned(),
        resolution_boundary: "Boundary.".to_owned(),
        acceptance_criteria: "Criteria.".to_owned(),
        verification: "Verified.".to_owned(),
        relationships_and_duplicate_analysis: "None.".to_owned(),
        review_and_disposition_history: "Accepted.".to_owned(),
    }
}

fn ticket_path(id: &str, status: &str) -> String {
    format!("{SAMPLE}/tickets/{status}/{id}.md")
}

fn ticket_bytes(id: &str, status: &str, related: Vec<String>) -> Vec<u8> {
    render_draft(&ticket_path(id, status), &RecordDraft::Ticket(item(id, status, related))).expect("ticket renders")
}

fn root(files: Vec<(String, Vec<u8>)>) -> Store {
    let mut set = FileSet::new();
    set.insert(ScannedFile { path: "casefile.toml".to_owned(), bytes: ACTIVATION.as_bytes().to_vec(), symlink: false });
    for (path, bytes) in files {
        set.insert(ScannedFile { path, bytes, symlink: false });
    }
    Store { activation_text: Some(ACTIVATION.to_owned()), files: set }
}

fn sample_root() -> Store {
    root(vec![
        (ticket_path("HMD-011", "accepted"), ticket_bytes("HMD-011", "accepted", vec!["HMD-012".to_owned()])),
        (ticket_path("HMD-012", "accepted"), ticket_bytes("HMD-012", "accepted", Vec::new())),
    ])
}

#[test]
fn scanning_classifies_governed_tickets_and_orders_entries_by_path() {
    let store = sample_root();
    let scan = store.scan();
    assert_eq!(scan.activation, ActivationState::Active);
    let paths: Vec<&str> = scan.snapshot.entries.iter().map(|e| e.path.as_str()).collect();
    let mut sorted = paths.clone();
    sorted.sort();
    assert_eq!(paths, sorted);
    let ticket = scan.snapshot.entries.iter().find(|e| e.path == ticket_path("HMD-011", "accepted")).expect("ticket");
    assert_eq!(ticket.classification, Classification::Governed);
    assert_eq!(ticket.kind, Some(Kind::Ticket));
    assert_eq!(ticket.identity.as_deref(), Some("HMD-011"));
    assert!(scan.snapshot.revision.0.starts_with("sha256:"));
    assert_eq!(scan.snapshot.revision, store.scan().snapshot.revision);
}

#[test]
fn a_root_without_activation_is_unactivated_and_ungoverned() {
    let mut set = FileSet::new();
    set.insert(ScannedFile { path: "notes.md".to_owned(), bytes: b"# Notes\n".to_vec(), symlink: false });
    let store = Store { activation_text: None, files: set };
    let scan = store.scan();
    assert_eq!(scan.activation, ActivationState::Unactivated);
    assert_eq!(scan.snapshot.entries[0].classification, Classification::Ungoverned);
}

#[test]
fn scope_for_path_finds_the_project_and_the_longest_investigation() {
    let scan = sample_root().scan();
    assert_eq!(
        scan.scope_for_path(&ticket_path("HMD-011", "accepted")),
        Some(("demo".to_owned(), Some("sample".to_owned())))
    );
    assert_eq!(scan.scope_for_path("projects/demo/notes.md"), Some(("demo".to_owned(), None)));
    assert_eq!(scan.scope_for_path("projects/other/notes.md"), None);
    assert_eq!(scan.scope_for_path("notes.md"), None);
}

#[test]
fn derived_relationships_resolve_related_tickets_within_the_scope() {
    let store = sample_root();
    let derived = store.derived_snapshot();
    assert_eq!(derived.records.len(), 3);
    assert_eq!(derived.relationships.len(), 1);
    let relation = &derived.relationships[0];
    assert_eq!(relation.source.identity, "HMD-011");
    assert_eq!(relation.target.identity, "HMD-012");
    assert_eq!(relation.kind, RelationshipKind::Related);
    assert_eq!(relation.source.scope.project, "demo");
    assert_eq!(relation.source.scope.investigation.as_deref(), Some("sample"));
    let again = derive_relationships(&derived.records);
    assert_eq!(again, derived.relationships);
    let record = derived.records.iter().find(|r| r.path.ends_with("HMD-011.md")).expect("record");
    assert_eq!(record.title, "Work HMD-011");
    assert!(record.search_text.starts_with("Work HMD-011\n"));
    assert!(record.work_item.is_some());
    assert!(record.rendered_markdown.as_deref().unwrap_or_default().contains("<h1>"));
}

#[test]
fn preview_then_apply_writes_the_previewed_bytes() {
    let store = sample_root();
    let draft = RecordDraft::Ticket(item("HMD-013", "accepted", Vec::new()));
    let path = ticket_path("HMD-013", "accepted");
    let request = ChangeRequest::Create { path: path.clone(), draft };
    let pending = match store.preview(request).expect("contained path") {
        PreviewStep::Diff(pending) => pending,
        PreviewStep::Done(preview) => panic!("refused: {:?}", preview.diagnostics),
    };
    assert!(pending.before.is_none());
    assert_eq!(pending.preview.expected_store_revision, store.scan().snapshot.revision);
    assert_ne!(pending.preview.proposed_store_revision, pending.preview.expected_store_revision);
    let after = pending.after.clone().expect("bytes");
    let preview = pending.finish("diff --git a/tmp1 b/tmp2\n--- a/tmp1\n+++ b/tmp2\n@@ -0,0 +1 @@\n+x\n");
    assert!(preview.diff.starts_with(&format!("diff --git a/{path} b/{path}\n--- /dev/null\n+++ b/{path}\n")));
    let write = store.apply(preview).expect("applies");
    assert_eq!(write.path, path);
    assert_eq!(write.bytes, Some(after));
    assert!(write.create);
}

#[test]
fn create_over_an_existing_ticket_is_refused_and_stale_previews_are_rejected() {
    let store = sample_root();
    let existing = ticket_path("HMD-012", "accepted");
    let request = ChangeRequest::Create {
        path: existing.clone(),
        draft: RecordDraft::Ticket(item("HMD-012", "accepted", Vec::new())),
    };
    match store.preview(request).expect("contained path") {
        PreviewStep::Done(preview) => {
            assert_eq!(preview.diagnostics.len(), 1);
            assert_eq!(preview.diagnostics[0].code, "target_exists");
            assert!(matches!(store.apply(preview), Err(StoreError::Invalid(_))));
        }
        PreviewStep::Diff(_) => panic!("create over an existing target must be refused"),
    }
    let outside = ChangeRequest::Delete { path: "../escape.md".to_owned() };
    assert!(matches!(store.preview(outside), Err(StoreError::Invalid(_))));

    let replace = ChangeRequest::Replace {
        path: existing.clone(),
        draft: RecordDraft::Ticket(item("HMD-012", "accepted", vec!["HMD-011".to_owned()])),
    };
    let pending = match store.preview(replace).expect("contained path") {
        PreviewStep::Diff(pending) => pending,
        PreviewStep::Done(preview) => panic!("refused: {:?}", preview.diagnostics),
    };
    let mut preview = pending.finish("");
    preview.expected_store_revision = Revision("sha256:stale".to_owned());
    assert!(matches!(store.apply(preview), Err(StoreError::StaleStoreRevision)));
}

#[test]
fn a_wrong_path_for_a_kind_is_refused() {
    let store = sample_root();
    let request = ChangeRequest::Create {
        path: format!("{SAMPLE}/epics/accepted/HMD-014.md"),
        draft: RecordDraft::Ticket(item("HMD-014", "accepted", Vec::new())),
    };
    match store.preview(request).expect("contained path") {
        PreviewStep::Done(preview) => assert_eq!(preview.diagnostics[0].code, "read_only_or_wrong_path"),
        PreviewStep::Diff(_) => panic!("a ticket outside its directory must be refused"),
    }
}

#[test]
fn binary_delete_preview_names_canonical_paths() {
    let diff = canonical_diff("diff --git a/x b/y\nBinary files /tmp/a and /dev/null differ\n", "p/a.bin", true, false, true);
    assert_eq!(diff, "diff --git a/p/a.bin b/p/a.bin\nBinary files a/p/a.bin and /dev/null differ\n");
    let kept = canonical_diff("Binary files x and y differ", "p", true, true, false);
    assert_eq!(kept, "Binary files x and y differ");
}

#[test]
fn progress_bootstrap_then_append_previews_and_applies() {
    let store = sample_root();
    let request = store.bootstrap_progress(SAMPLE).expect("activated investigation");
    assert!(request.bootstrap);
    let preview = match store.preview_progress(request).expect("preview") {
        ProgressStep::Diff(pending) => pending.finish(""),
        ProgressStep::Done(preview) => preview,
    };
    assert_eq!(preview.path, format!("{SAMPLE}/progress/log.toml"));
    assert_eq!(preview.bootstrap_ticket_ids, vec!["HMD-011".to_owned(), "HMD-012".to_owned()]);
    assert!(preview.diagnostics.is_empty(), "{:?}", preview.diagnostics);
    match store.apply_progress(preview).expect("apply") {
        ProgressApplyStep::Write(write) => {
            assert_eq!(write.path, format!("{SAMPLE}/progress/log.toml"));
            assert_eq!(String::from_utf8(write.bytes).expect("text"), "schema_version = 1\n");
        }
        ProgressApplyStep::Done(_) => panic!("an absent log is written"),
    }
    assert!(matches!(store.validate_investigation("projects/demo/investigations/other"), Err(StoreError::Invalid(_))));
    assert!(matches!(store.validate_investigation("../x"), Err(StoreError::Invalid(_))));
}

fn transition() -> ProgressEntry {
    ProgressEntry::Transition {
        id: "op-1".to_owned(),
        recorded_at: "2024-01-03T00:00:00Z".to_owned(),
        recorded_by: "analyst".to_owned(),
        ticket_id: "HMD-011".to_owned(),
        from: ProgressStatus::Unknown,
        to: ProgressStatus::InProgress,
    }
}

#[test]
fn duplicate_progress_operation_ids_are_refused() {
    let store = sample_root();
    let twice = ProgressChangeRequest {
        investigation: SAMPLE.to_owned(),
        entries: vec![transition(), transition()],
        replacement: None,
        replacement_source: None,
        bootstrap: false,
    };
    match store.preview_progress(twice).expect("preview") {
        ProgressStep::Done(preview) => {
            assert_eq!(preview.diagnostics[0].code, "invalid_progress_operation_id");
            assert_eq!(preview.diagnostics[0].path, "progress/log.toml");
        }
        ProgressStep::Diff(_) => panic!("duplicate operation IDs must be refused"),
    }
    let mixed = ProgressChangeRequest {
        investigation: SAMPLE.to_owned(),
        entries: Vec::new(),
        replacement: Some(ProgressLog { entries: Vec::new() }),
        replacement_source: None,
        bootstrap: true,
    };
    match store.preview_progress(mixed).expect("preview") {
        ProgressStep::Done(preview) => assert_eq!(preview.diagnostics[0].code, "invalid_progress_request"),
        ProgressStep::Diff(_) => panic!("bootstrap with a replacement must be refused"),
    }
}

#[test]
fn replacing_a_writer_binding_is_gated() {
    let store = sample_root();
    assert!(matches!(store.replace_strategy_binding(SAMPLE, "", true), Err(StoreError::Invalid(m)) if m.contains("implementation work is active")));
    assert!(matches!(store.replace_strategy_binding("/abs", "", false), Err(StoreError::Invalid(m)) if m == "investigation path must be contained"));
    assert!(matches!(store.replace_strategy_binding("projects/demo/investigations/other", "", false), Err(StoreError::Invalid(_))));
}

#[test]
fn an_index_answers_only_at_the_current_revision() {
    let current = Revision("sha256:1".to_owned());
    assert_eq!(
        checked(Revision("sha256:1".to_owned()), &current, 7),
        Indexed::Current { source_revision: Revision("sha256:1".to_owned()), value: 7 }
    );
    assert_eq!(
        checked(Revision("sha256:0".to_owned()), &current, 7),
        Indexed::Stale { indexed_revision: Revision("sha256:0".to_owned()), current_revision: current.clone() }
    );
    assert!(matches!(publish_answer(Revision("sha256:0".to_owned()), current), Indexed::Stale { .. }));
}

fn delivery_board(id: &str) -> RecordDraft {
    RecordDraft::Board(BoardDraft {
        id: id.to_owned(),
        title: "Delivery".to_owned(),
        filter_statuses: None,
        filter_kinds: Some(vec!["ticket".to_owned()]),
        columns: vec![BoardColumn { name: "Unknown".to_owned(), statuses: vec!["unknown".to_owned()] }],
    })
}

#[test]
fn generic_preview_preserves_baseline_diagnostics_but_rejects_introduced_diagnostics() {
    let historical = "projects/demo/investigations/z-historical";
    let activation = format!(
        "schema_version = 1\n\n[projects.demo]\nprefix = \"HMD\"\ninvestigations = [\"projects/demo/investigations/sample\", \"{historical}\"]\n"
    );
    let hmd_011 = ticket_bytes("HMD-011", "accepted", Vec::new());
    let mut files = vec![
        ("casefile.toml".to_owned(), activation.as_bytes().to_vec()),
        (ticket_path("HMD-011", "accepted"), hmd_011.clone()),
        (format!("{historical}/tickets/accepted/HMD-011.md"), hmd_011),
    ];
    let mut set = FileSet::new();
    for (path, bytes) in files.iter().cloned() {
        set.insert(ScannedFile { path, bytes, symlink: false });
    }
    let store = Store { activation_text: Some(activation.clone()), files: set };
    let baseline = store.scan().diagnostics;
    assert!(!baseline.is_empty());

    let board_path = format!("{SAMPLE}/boards/delivery.toml");
    let request = ChangeRequest::Create { path: board_path.clone(), draft: delivery_board("HMD-sample-delivery") };
    let preview = match store.preview(request).expect("contained path") {
        PreviewStep::Diff(pending) => pending.finish(""),
        PreviewStep::Done(preview) => preview,
    };
    assert!(preview.diagnostics.is_empty(), "{:#?}", preview.diagnostics);
    let write = store.apply(preview).expect("apply with baseline diagnostics");
    assert_eq!(write.path, board_path);
    files.push((write.path.clone(), write.bytes.clone().expect("bytes")));
    let mut after = FileSet::new();
    for (path, bytes) in files {
        after.insert(ScannedFile { path, bytes, symlink: false });
    }
    let resulting = Store { activation_text: Some(activation), files: after };
    assert_eq!(baseline, resulting.scan().diagnostics);

    let main_path = format!("{SAMPLE}/boards/main.toml");
    let colliding = render_draft(&main_path, &delivery_board("HMD-sample-delivery")).expect("board renders");
    let fresh = root(vec![(main_path, colliding)]);
    let request = ChangeRequest::Create { path: board_path.clone(), draft: delivery_board("HMD-sample-delivery") };
    let introduced = match fresh.preview(request).expect("contained path") {
        PreviewStep::Diff(pending) => pending.finish(""),
        PreviewStep::Done(preview) => preview,
    };
    assert!(introduced
        .diagnostics
        .iter()
        .any(|d| d.code == "duplicate_identity" && d.message.contains("identity also appears")));
    assert!(fresh.apply(introduced).is_err());
}

#[test]
fn progress_target_paths_must_remain_contained() {
    let store = sample_root();
    let request = ProgressChangeRequest {
        investigation: "../outside".to_owned(),
        entries: Vec::new(),
        replacement: None,
        replacement_source: None,
        bootstrap: true,
    };
    assert!(matches!(
        store.preview_progress(request),
        Err(StoreError::Invalid(message)) if message.contains("must be contained")
    ));
}

#[test]
fn an_input_or_output_failure_names_the_operating_system_text() {
    let error = StoreError::Io("disk full".to_owned());
    assert_eq!(error.message(), "I/O error: disk full");
    assert_eq!(StoreError::StaleStoreRevision.message(), "stale store revision");
}

fn duplicated_root() -> Store {
    let bytes = ticket_bytes("HMD-011", "accepted", Vec::new());
    root(vec![
        (ticket_path("HMD-011", "accepted"), bytes.clone()),
        (ticket_path("HMD-011", "provisional"), bytes),
        (format!("{SAMPLE}/tickets/accepted/notes.md"), b"not a ticket".to_vec()),
    ])
}

#[test]
fn scanning_twice_gives_the_same_scan_and_the_read_model_agrees() {
    let store = duplicated_root();
    let first = store.scan();
    let second = store.scan();
    assert!(!first.diagnostics.is_empty());
    assert_eq!(first.diagnostics, second.diagnostics);
    assert_eq!(first.snapshot.revision, second.snapshot.revision);
    assert_eq!(first.snapshot.entries, second.snapshot.entries);
    let derived = store.derived_snapshot();
    assert_eq!(derived.source_revision, first.snapshot.revision);
    assert_eq!(derived.diagnostics, first.diagnostics);
    assert_eq!(derived.records.len(), first.snapshot.entries.len());
    for (record, entry) in derived.records.iter().zip(first.snapshot.entries.iter()) {
        assert_eq!(record.path, entry.path);
        assert_eq!(record.classification, entry.classification);
        assert_eq!(record.kind, entry.kind);
    }
}

#[test]
fn the_stable_order_does_not_depend_on_the_input_order() {
    let a = || Diagnostic::new("b.md", "x", "second");
    let b = || Diagnostic::new("a.md", "y", "first");
    let c = || Diagnostic::new("a.md", "x", "first");
    let forward = stable(vec![a(), b(), c()]);
    let backward = stable(vec![c(), b(), a()]);
    assert_eq!(forward, backward);
    assert_eq!(forward[0].path, "a.md");
    assert_eq!(forward[0].code, "x");
    assert_eq!(forward[2].path, "b.md");
}

#[test]
fn a_read_draft_passes_its_checks_and_matches_its_file() {
    let path = ticket_path("HMD-011", "accepted");
    let bytes = ticket_bytes("HMD-011", "accepted", Vec::new());
    let text = String::from_utf8(bytes).expect("text");
    let draft = parse_draft(&path, Kind::Ticket, &text).expect("parses");
    assert_eq!(draft.kind(), Kind::Ticket);
    assert_eq!(validate_draft(&path, &draft), Ok(()));
    assert_eq!(draft.identity(), "HMD-011");
    let elsewhere = ticket_path("HMD-012", "accepted");
    assert!(parse_draft(&elsewhere, Kind::Ticket, &text).is_err());
}

#[test]
fn refusals_name_what_is_wrong() {
    let store = sample_root();
    let outside = ChangeRequest::Delete { path: "../escape.md".to_owned() };
    assert!(matches!(store.preview(outside), Err(StoreError::Invalid(m)) if m == "path must be a contained relative path"));
    let request = ChangeRequest::Create {
        path: ticket_path("HMD-012", "accepted"),
        draft: RecordDraft::Ticket(item("HMD-012", "accepted", Vec::new())),
    };
    let refused = match store.preview(request).expect("contained path") {
        PreviewStep::Done(preview) => preview,
        PreviewStep::Diff(_) => panic!("an existing target must be refused"),
    };
    assert!(matches!(store.apply(refused), Err(StoreError::Invalid(m)) if m == "preview contains validation diagnostics"));
}
