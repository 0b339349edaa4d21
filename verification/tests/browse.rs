use casefile::board::{BoardColumn, BoardDraft};
use casefile::board_view::{board_card_paths, board_count, boards_pane_lines};
use casefile::browser::{text_less, BrowseView, Browser};
use casefile::browser_view::{centered_text, empty_list_message, header_lines, list_items, list_title};
use casefile::cli::strategy_path;
use casefile::detail::{board_columns, content_lines};
use casefile::draft::render_draft;
use casefile::activation::ActivationState;
use casefile::record::{CasefileSnapshot, Classification, EntrySnapshot, Kind, RecordDraft, RecordSummary, Revision};
use casefile::review::review_lines;
use casefile::scanning::{FileSet, ScanResult, ScannedFile};
use casefile::server::{route, validate_authority, Endpoint, HttpMethod, Route};
use casefile::store::Store;
use casefile::terminal_markdown::{TextLine, Tone};
use casefile::tui::{Focus, Key};
use casefile::work_item::WorkItemDraft;
use casefile::workbench::{action, centred, footer, help_lines, layout_mode, Action, LayoutMode};

const ACTIVATION: &str = "schema_version = 1\n[projects.demo]\nprefix = 'HMD'\ninvestigations = ['projects/demo/investigations/sample']\n";
const SAMPLE: &str = "projects/demo/investigations/sample";

fn item(id: &str, status: &str) -> WorkItemDraft {
    WorkItemDraft {
        id: id.to_owned(),
        title: format!("Work {id}"),
        project: "demo".to_owned(),
        investigation: "sample".to_owned(),
        status: status.to_owned(),
        reported_by_role: "maintainer".to_owned(),
        reported_by_agent: "analyst".to_owned(),
        source_commit: "abc123".to_owned(),
        created_at: "2024-01-01T00:00:00Z".to_owned(),
        updated_at: "2024-01-02T00:00:00Z".to_owned(),
        confidence: "high".to_owned(),
        decision_refs: Vec::new(),
        related_tickets: Vec::new(),
        supersedes: Vec::new(),
        superseded_by: Vec::new(),
        rank: Some(3),
        requirement_and_evidence: "Evidence.".to_owned(),
        impact: "Impact.".to_owned(),
        resolution_boundary: "Boundary.".to_owned(),
        acceptance_criteria: "Criteria.".to_owned(),
        verification: "Verified.".to_owned(),
        relationships_and_duplicate_analysis: "None.".to_owned(),
        review_and_disposition_history: "Accepted.".to_owned(),
    }
}

fn ticket_path(id: &str) -> String {
    format!("{SAMPLE}/tickets/accepted/{id}.md")
}

fn sample_scan() -> ScanResult {
    let mut set = FileSet::new();
    set.insert(ScannedFile { path: "casefile.toml".to_owned(), bytes: ACTIVATION.as_bytes().to_vec(), symlink: false });
    for id in ["HMD-011", "HMD-012"] {
        let bytes = render_draft(&ticket_path(id), &RecordDraft::Ticket(item(id, "accepted"))).expect("ticket renders");
        set.insert(ScannedFile { path: ticket_path(id), bytes, symlink: false });
    }
    set.insert(ScannedFile { path: format!("{SAMPLE}/notes/plan.txt"), bytes: b"plain notes".to_vec(), symlink: false });
    let store = Store { activation_text: Some(ACTIVATION.to_owned()), files: set };
    store.scan()
}

fn text_of(line: &TextLine) -> String {
    line.spans.iter().map(|s| s.content.as_str()).collect()
}

#[test]
fn a_new_browser_lists_projects_and_selects_the_first() {
    let scan = sample_scan();
    let browser = Browser::new(&scan);
    assert_eq!(browser.current_view(), BrowseView::Projects);
    assert_eq!(browser.projects(&scan), vec!["demo".to_owned()]);
    assert_eq!(browser.selected_project(), Some("demo"));
    assert_eq!(browser.selected_investigation(), Some("sample"));
    assert_eq!(browser.selected(&scan), None);
}

#[test]
fn drilling_down_reaches_tickets_and_the_selection_moves_within_them() {
    let scan = sample_scan();
    let mut browser = Browser::new(&scan);
    assert!(browser.drill_down(&scan));
    assert_eq!(browser.current_view(), BrowseView::Investigations);
    assert!(browser.drill_down(&scan));
    assert_eq!(browser.current_view(), BrowseView::Tickets);
    assert!(!browser.drill_down(&scan));
    assert_eq!(browser.entry_paths(&scan), vec![ticket_path("HMD-011"), ticket_path("HMD-012")]);
    assert_eq!(browser.selected_path(), Some(ticket_path("HMD-011").as_str()));
    assert!(browser.select_offset(&scan, 1));
    assert_eq!(browser.selected(&scan).map(|e| e.path.clone()), Some(ticket_path("HMD-012")));
    assert!(!browser.select_offset(&scan, 5));
    assert!(browser.select_edge(&scan, false));
    assert_eq!(browser.selected_path(), Some(ticket_path("HMD-011").as_str()));
    assert_eq!(browser.scope(), Some(("demo", "sample")));
    assert_eq!(browser.ticket_count(&scan), 2);
    assert_eq!(browser.file_count(&scan), 1);
}

#[test]
fn going_up_stops_at_projects() {
    let scan = sample_scan();
    let mut browser = Browser::new(&scan);
    assert!(!browser.go_up(&scan));
    browser.set_view(&scan, BrowseView::Files);
    assert!(browser.go_up(&scan));
    assert_eq!(browser.current_view(), BrowseView::Investigations);
    browser.cycle_view(&scan);
    assert_eq!(browser.current_view(), BrowseView::Tickets);
}

#[test]
fn the_filter_narrows_the_listed_entries_ignoring_case_and_clears() {
    let scan = sample_scan();
    let mut browser = Browser::new(&scan);
    browser.set_view(&scan, BrowseView::Tickets);
    browser.start_filter();
    assert!(browser.is_entering_filter());
    for c in "hmd-012".chars() {
        browser.push_filter(&scan, c);
    }
    assert_eq!(browser.entry_paths(&scan), vec![ticket_path("HMD-012")]);
    assert_eq!(browser.selected_path(), Some(ticket_path("HMD-012").as_str()));
    browser.pop_filter(&scan);
    assert_eq!(browser.filter_text(), "hmd-01");
    assert_eq!(browser.entry_paths(&scan).len(), 2);
    for c in "zzz".chars() {
        browser.push_filter(&scan, c);
    }
    assert!(browser.entry_paths(&scan).is_empty());
    assert_eq!(browser.selected_path(), None);
    assert_eq!(empty_list_message(&browser), "Nothing matches the active filter. Press c to clear it.");
    browser.clear_filter(&scan);
    browser.close_filter();
    assert!(!browser.is_entering_filter());
    assert_eq!(browser.entry_paths(&scan).len(), 2);
}

#[test]
fn text_order_is_code_point_order() {
    assert!(text_less("alpha", "beta"));
    assert!(!text_less("beta", "alpha"));
    assert!(text_less("ab", "abc"));
    assert!(!text_less("same", "same"));
    assert!(text_less("Z", "a"));
}

#[test]
fn centring_matches_the_standard_format() {
    for (text, width) in [("DONE", 10), ("ACCEPTED", 10), ("ABC", 10), ("LONGER THAN TEN", 10), ("", 4)] {
        assert_eq!(centered_text(text, width), format!("{text:^width$}"));
    }
    assert_eq!(centered_text("ABC", 10), "   ABC    ");
}

#[test]
fn list_titles_give_the_position_of_the_selection() {
    assert_eq!(list_title(BrowseView::Tickets, 5, Some(1)), " Tickets  2 / 5 ");
    assert_eq!(list_title(BrowseView::Files, 0, None), " Files  0 / 0 ");
}

#[test]
fn the_header_counts_each_view_and_shows_the_scope() {
    let scan = sample_scan();
    let browser = Browser::new(&scan);
    let lines = header_lines(&browser, &scan);
    assert_eq!(lines.len(), 2);
    let tabs = text_of(&lines[0]);
    assert!(tabs.starts_with(" CASEFILE "));
    assert!(tabs.contains(" [1] PROJECTS 1 "));
    assert!(tabs.contains(" [2] INVESTIGATIONS 1 "));
    assert!(tabs.contains(" [3] TICKETS 2 "));
    assert!(tabs.contains(" [4] FILES 1 "));
    assert!(tabs.contains("ACTIVE"));
    assert_eq!(text_of(&lines[1]), " Scope demo / sample  |  Filter none");
}

#[test]
fn ticket_items_show_status_identity_title_and_rank() {
    let scan = sample_scan();
    let mut browser = Browser::new(&scan);
    browser.set_view(&scan, BrowseView::Tickets);
    let (items, selected) = list_items(&browser, &scan);
    assert_eq!(items.len(), 2);
    assert_eq!(selected, Some(0));
    assert_eq!(text_of(&items[0][0]), "  ACCEPTED   HMD-011 Work HMD-011  #3");
    assert_eq!(items[0][0].spans[0].style.fg, Tone::Good);
    browser.set_view(&scan, BrowseView::Files);
    let (files, _) = list_items(&browser, &scan);
    assert_eq!(files.len(), 1);
    assert_eq!(text_of(&files[0][0]), " notes/");
    assert_eq!(text_of(&files[0][1]), "    RAW      file plan.txt");
    assert_eq!(files[0][1].spans[0].style.fg, Tone::Raw);
}

#[test]
fn the_boards_pane_says_when_nothing_can_be_shown() {
    let scan = sample_scan();
    let mut set = FileSet::new();
    set.insert(ScannedFile { path: "casefile.toml".to_owned(), bytes: ACTIVATION.as_bytes().to_vec(), symlink: false });
    let store = Store { activation_text: Some(ACTIVATION.to_owned()), files: set };
    let mut derived = store.derived_snapshot();
    let unscoped = boards_pane_lines(&derived, &scan, None, None);
    if derived.source_revision.0 == scan.snapshot.revision.0 {
        assert_eq!(text_of(&unscoped[0]), "Select an investigation to inspect its boards.");
    }
    derived.source_revision = Revision("another".to_owned());
    let stale = boards_pane_lines(&derived, &scan, Some(("demo", "sample")), None);
    assert_eq!(stale.len(), 1);
    assert_eq!(text_of(&stale[0]), "Board projection is stale. Refresh to load the current investigation.");
    derived.source_revision = scan.snapshot.revision.clone();
    let empty = boards_pane_lines(&derived, &scan, Some(("demo", "sample")), None);
    assert_eq!(text_of(&empty[0]), "This investigation has no board definitions.");
}

#[test]
fn binary_content_is_shown_as_a_hex_dump() {
    let bytes = [0xffu8, 0x00, 0x41];
    let lines = content_lines(&bytes);
    assert_eq!(text_of(&lines[0]), "Binary content  |  3 bytes");
    assert_eq!(text_of(&lines[2]), "0000  ff 00 41");
}

#[test]
fn board_columns_are_joined() {
    assert_eq!(board_columns(&vec!["todo".to_owned(), "done".to_owned()]), "todo, done");
}

#[test]
fn routes_follow_method_path_and_content_type() {
    assert_eq!(route(HttpMethod::Post, "/api/query", Some("application/json; charset=utf-8")), Route::Json(Endpoint::Query));
    match route(HttpMethod::Post, "/api/apply", Some("text/plain")) {
        Route::Refused(e) => assert_eq!(e.status, 415),
        other => panic!("unexpected {other:?}"),
    }
    match route(HttpMethod::Get, "/api/query", None) {
        Route::Refused(e) => assert_eq!(e.status, 405),
        other => panic!("unexpected {other:?}"),
    }
    match route(HttpMethod::Get, "/missing", None) {
        Route::Refused(e) => assert_eq!(e.status, 404),
        other => panic!("unexpected {other:?}"),
    }
    assert!(matches!(route(HttpMethod::Get, "/", None), Route::Asset { .. }));
}

#[test]
fn only_the_bound_loopback_authority_is_accepted() {
    assert!(validate_authority(Some("127.0.0.1:8080"), 8080).is_ok());
    assert!(validate_authority(Some("LOCALHOST:8080"), 8080).is_ok());
    assert_eq!(validate_authority(Some("example.com:8080"), 8080).unwrap_err().status, 400);
    assert_eq!(validate_authority(None, 8080).unwrap_err().message, "Host is required");
}

#[test]
fn strategy_paths_stay_inside_the_root() {
    assert_eq!(strategy_path("projects/demo/investigations/sample/").unwrap(), "projects/demo/investigations/sample/strategy/implementation.toml");
    assert!(strategy_path("../outside").is_err());
    assert!(strategy_path("/absolute").is_err());
}

#[test]
fn review_lines_colour_headers_additions_and_removals() {
    let lines = review_lines("diff --git a/a.md b/a.md\n@@ -1 +1 @@\n-old\n+new\n context");
    assert_eq!(lines.len(), 5);
    assert_eq!(lines[0].spans[0].style.fg, Tone::Accent);
    assert!(lines[0].spans[0].style.bold);
    assert_eq!(lines[1].spans[0].style.fg, Tone::Accent);
    assert_eq!(lines[2].spans[0].style.fg, Tone::Bad);
    assert_eq!(lines[3].spans[0].style.fg, Tone::Good);
    assert_eq!(lines[4].spans[0].style.fg, Tone::White);
    assert_eq!(text_of(&lines[3]), "+new");
}

#[test]
fn keys_act_by_mode() {
    assert_eq!(action(Key::Char('q'), true, false, Focus::List), Action::Quit);
    assert_eq!(action(Key::Char('x'), true, false, Focus::List), Action::Nothing);
    assert_eq!(action(Key::Enter, true, false, Focus::List), Action::HideHelp);
    assert_eq!(action(Key::Char('q'), false, true, Focus::List), Action::PushFilter('q'));
    assert_eq!(action(Key::Enter, false, true, Focus::List), Action::CloseFilter);
    assert_eq!(action(Key::Enter, false, false, Focus::List), Action::DrillDown);
    assert_eq!(action(Key::Enter, false, false, Focus::Detail), Action::Nothing);
    assert_eq!(action(Key::PageUp, false, false, Focus::Detail), Action::Move(-10));
    assert_eq!(action(Key::Char('3'), false, false, Focus::List), Action::SetView(BrowseView::Tickets));
}

#[test]
fn the_help_box_is_centred_with_a_margin() {
    assert_eq!(centred(0, 0, 100, 40, 68, 20), (16, 10, 68, 20));
    assert_eq!(centred(0, 0, 40, 10, 68, 20), (1, 1, 38, 8));
    assert_eq!(centred(0, 0, 1, 1, 68, 20), (0, 0, 1, 1));
    assert_eq!(layout_mode(96), LayoutMode::Wide);
    assert_eq!(layout_mode(95), LayoutMode::Narrow);
    let help = help_lines();
    assert_eq!(text_of(&help[1]), "j / k, Up / Down  Move selection or scroll focused pane");
    assert_eq!(help.len(), 16);
}

#[test]
fn the_footer_prefers_the_filter_then_feedback() {
    assert_eq!(footer(true, Some("x")), " Type to filter  Enter accept  Esc close ");
    assert_eq!(footer(false, Some("Read-only")), "Read-only");
    assert!(footer(false, None).contains("? help"));
}

#[test]
fn boards_of_the_selected_investigation_are_counted_and_their_cards_resolved() {
    let mut set = FileSet::new();
    set.insert(ScannedFile { path: "casefile.toml".to_owned(), bytes: ACTIVATION.as_bytes().to_vec(), symlink: false });
    for id in ["HMD-011", "HMD-012"] {
        let bytes = render_draft(&ticket_path(id), &RecordDraft::Ticket(item(id, "accepted"))).expect("ticket renders");
        set.insert(ScannedFile { path: ticket_path(id), bytes, symlink: false });
    }
    let board_path = format!("{SAMPLE}/boards/main.toml");
    let board = BoardDraft {
        id: "HMD-board".to_owned(),
        title: "Main".to_owned(),
        filter_statuses: None,
        filter_kinds: None,
        columns: vec![BoardColumn { name: "Accepted".to_owned(), statuses: vec!["accepted".to_owned()] }],
    };
    let bytes = render_draft(&board_path, &RecordDraft::Board(board)).expect("board renders");
    set.insert(ScannedFile { path: board_path, bytes, symlink: false });
    let store = Store { activation_text: Some(ACTIVATION.to_owned()), files: set };
    let scan = store.scan();
    let derived = store.derived_snapshot();
    assert_eq!(board_count(&derived, &scan, Some(("demo", "sample"))), 1);
    assert_eq!(board_count(&derived, &scan, None), 0);
    let pane = boards_pane_lines(&derived, &scan, Some(("demo", "sample")), None);
    assert_eq!(text_of(&pane[0]), "Read-only; record filter does not alter cards.");
    assert_eq!(text_of(&pane[2]), "Main");
    let paths = board_card_paths(&derived, &scan, Some(("demo", "sample")));
    let cards: usize = derived.boards.iter().flat_map(|b| b.columns.iter()).map(|c| c.cards.len()).sum();
    assert_eq!(paths.len(), cards);
    assert!(paths.iter().all(|p| p == &ticket_path("HMD-011") || p == &ticket_path("HMD-012")));
}

fn work_entry(path: &str, id: &str, title: &str, bytes: &[u8]) -> EntrySnapshot {
    EntrySnapshot {
        path: path.to_owned(),
        classification: Classification::Governed,
        kind: Some(Kind::Ticket),
        identity: Some(id.to_owned()),
        content_revision: Revision("sha256:0".to_owned()),
        summary: Some(RecordSummary::WorkItem {
            id: id.to_owned(),
            title: title.to_owned(),
            status: "accepted".to_owned(),
            rank: None,
        }),
        original_bytes: bytes.to_vec(),
    }
}

#[test]
fn project_investigation_ticket_drill_down_selects_a_canonical_path() {
    let scan = sample_scan();
    let mut browser = Browser::new(&scan);
    let projects = text_of(&header_lines(&browser, &scan)[0]);
    assert!(projects.contains("[1] PROJECTS 1"));
    assert_eq!(browser.projects(&scan), vec!["demo".to_owned()]);
    assert!(browser.drill_down(&scan));
    let investigations = text_of(&header_lines(&browser, &scan)[0]);
    assert!(investigations.contains("[2] INVESTIGATIONS 1"));
    assert_eq!(browser.investigations(&scan), vec!["sample".to_owned()]);
    assert!(browser.drill_down(&scan));
    let tickets = text_of(&header_lines(&browser, &scan)[0]);
    assert!(tickets.contains("[3] TICKETS 2"));
    assert_eq!(browser.selected(&scan).map(|entry| entry.path.clone()), Some(ticket_path("HMD-011")));
}

#[test]
fn nested_investigations_with_the_same_leaf_are_selectable_independently() {
    let mut scan = sample_scan();
    scan.investigation_roots = vec![("demo".to_owned(), vec!["alpha/shared".to_owned(), "beta/shared".to_owned()])];
    let alpha_path = "projects/demo/investigations/alpha/shared/tickets/accepted/HMD-101.md";
    let beta_path = "projects/demo/investigations/beta/shared/tickets/accepted/HMD-102.md";
    scan.snapshot.entries = vec![
        work_entry(alpha_path, "HMD-101", "Alpha ticket", b"alpha"),
        work_entry(beta_path, "HMD-102", "Beta ticket", b"beta"),
    ];
    let mut browser = Browser::new(&scan);
    assert!(browser.drill_down(&scan));
    assert_eq!(browser.investigations(&scan), vec!["alpha/shared".to_owned(), "beta/shared".to_owned()]);
    assert!(browser.drill_down(&scan));
    assert_eq!(browser.entry_paths(&scan), vec![alpha_path.to_owned()]);
    assert!(browser.go_up(&scan));
    assert!(browser.select_offset(&scan, 1));
    assert!(browser.drill_down(&scan));
    assert_eq!(browser.entry_paths(&scan), vec![beta_path.to_owned()]);
    assert_eq!(browser.scope(), Some(("demo", "beta/shared")));
}

#[test]
fn filtering_and_empty_hierarchy_states_remain_predictable() {
    let scan = sample_scan();
    let mut browser = Browser::new(&scan);
    browser.set_view(&scan, BrowseView::Tickets);
    browser.start_filter();
    for c in "missing".chars() {
        browser.push_filter(&scan, c);
    }
    browser.close_filter();
    assert!(browser.selected(&scan).is_none());
    assert!(empty_list_message(&browser).contains("Nothing matches the active filter"));
    browser.clear_filter(&scan);
    assert_eq!(browser.selected(&scan).map(|entry| entry.path.clone()), Some(ticket_path("HMD-011")));

    let empty = ScanResult {
        activation: ActivationState::Unactivated,
        investigation_roots: Vec::new(),
        snapshot: CasefileSnapshot { revision: Revision("sha256:empty".to_owned()), entries: Vec::new() },
        diagnostics: Vec::new(),
    };
    let browser = Browser::new(&empty);
    assert!(empty_list_message(&browser).contains("No projects are present"));
    assert!(text_of(&header_lines(&browser, &empty)[0]).contains("UNACTIVATED"));
}
