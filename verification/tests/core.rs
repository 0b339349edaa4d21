use casefile::board::board_from_tree;
use casefile::decision::decision_from_parts;
use casefile::project_map::project_map_from_tree;
use casefile::html::{sanitized, HtmlTag, HtmlToken, LinkKind};
use casefile::markdown::{MdTag, MdToken};
use casefile::progress::{parse_progress_log, progress_log_from_tree, render_progress_log};
use casefile::record::{RecordDraft, RecordSummary};
use casefile::request::request_from_tokens;
use casefile::tree::Tree;
use casefile::rendering::render_markdown_html;
use casefile::strategy::{parse, parse_binding, parse_projection, validate_matrix};

const COMPLETE: &str = r#"schema_version = 1
strategy_id = "casefile-implement-ticket-batch"
phase = "implementation"
adapter = "codex"
[orchestrator]
binding = "root"
[limits]
max_concurrent_subagents = 1
max_depth = 1
[requirements]
capabilities = ["subagents"]
[[workers]]
role = "implementation-writer"
platform_profile = "writer"
model = "gpt-5.6-sol"
reasoning = "high"
minimum_count = 1
maximum_count = 1
can_spawn_subagents = false
[coordination]
batch_when_capacity_exceeded = true
candidate_review_before_ticket = false
shared_ticket_storage_required = true
"#;


#[test]
fn round_trips_a_declaration_ordered_log() {
    let source = "schema_version = 1\n\n[[entries]]\nid = \"start\"\nrecorded_at = \"2026-07-26T10:00:00Z\"\nrecorded_by = \"root\"\nticket_id = \"HMD-001\"\nkind = \"transition\"\nfrom = \"unknown\"\nto = \"in_progress\"\n\n[[entries]]\nid = \"note\"\nrecorded_at = \"2026-07-26T10:01:00Z\"\nrecorded_by = \"root\"\nticket_id = \"HMD-001\"\nkind = \"note\"\ncategory = \"quirk\"\nmessage = \"Needs a small fixture.\"\n";
    let parsed = parse_progress_log("progress/log.toml", source).expect("parse");
    assert_eq!(
        parsed,
        parse_progress_log("progress/log.toml", &render_progress_log(&parsed)).expect("round trip")
    );
}

#[test]
fn rejects_mixed_fields_duplicate_ids_and_stale_or_no_op_transitions() {
    for source in [
        "schema_version = 1\n[[entries]]\nid='one'\nrecorded_at='2026-07-26T10:00:00Z'\nrecorded_by='root'\nticket_id='HMD-001'\nkind='note'\nfrom='unknown'\ncategory='quirk'\nmessage='x'\n",
        "schema_version = 1\n[[entries]]\nid='one'\nrecorded_at='2026-07-26T10:00:00Z'\nrecorded_by='root'\nticket_id='HMD-001'\nkind='transition'\nfrom='unknown'\nto='in_progress'\n[[entries]]\nid='one'\nrecorded_at='2026-07-26T10:01:00Z'\nrecorded_by='root'\nticket_id='HMD-001'\nkind='note'\ncategory='quirk'\nmessage='x'\n",
        "schema_version = 1\n[[entries]]\nid='one'\nrecorded_at='2026-07-26T10:00:00Z'\nrecorded_by='root'\nticket_id='HMD-001'\nkind='transition'\nfrom='in_progress'\nto='complete'\n",
        "schema_version = 1\n[[entries]]\nid='one'\nrecorded_at='2026-07-26T10:00:00Z'\nrecorded_by='root'\nticket_id='HMD-001'\nkind='transition'\nfrom='unknown'\nto='unknown'\n",
    ] {
        assert!(parse_progress_log("progress/log.toml", source).is_err());
    }
}

#[test]
fn complete_and_legacy_strategies_are_both_governed_shapes() {
    let path = "strategy/implementation.toml";
    assert!(matches!(parse(path, COMPLETE), Ok(RecordSummary::Strategy { .. })));
    let projection = parse_projection(path, COMPLETE).expect("projection").expect("complete projection");
    assert_eq!("root", projection.root_binding);
    assert_eq!("implementation-writer", projection.workers[0].role);
    let legacy = "schema_version = 1\nstrategy_id = 'legacy'\nphase = 'implementation'\nadapter = 'codex'\n";
    assert!(matches!(parse(path, legacy), Ok(RecordSummary::Strategy { .. })));
    assert_eq!(None, parse_projection(path, legacy).expect("legacy"));
}

#[test]
fn workflow_matrix_validation_rejects_incomplete_pipeline() {
    assert!(validate_matrix(COMPLETE).is_ok());
    assert!(validate_matrix(&(String::from(COMPLETE) + "\n[coordination.pipeline]\nmaximum_active_tickets = 1\n")).is_err());
}

#[test]
fn binding_requires_the_writer_role_and_resolution_metadata() {
    let binding = "schema_version = 1\nadapter = 'codex'\nrole = 'implementation-writer'\nmodel = 'gpt-5.6-sol'\nreasoning_effort = 'high'\n[resolution]\nmode = 'profile'\nvalue = 'writer'\n";
    assert!(matches!(parse_binding("strategy/bindings.toml", binding), Ok(RecordSummary::StrategyBinding { .. })));
    let invalid = binding.replace("implementation-writer", "inspector");
    assert!(parse_binding("strategy/bindings.toml", &invalid).is_err());
    assert!(parse_binding("strategy/bindings.toml", &binding.replace("value = 'writer'", "")).is_err());
}

#[test]
fn renders_common_markdown_without_trusting_embedded_html_or_script_urls() {
    let rendered = render_markdown_html(
        "# Title\n\n- **bold**\n- `code`\n\n| Name | Value |\n| --- | --- |\n| safe | yes |\n\n<script>alert(1)</script>\n\n[bad](JaVaScRiPt:alert(1)) [good](https://example.com)",
    );
    assert!(rendered.contains("<h1>Title</h1>"));
    assert!(rendered.contains("<strong>bold</strong>"));
    assert!(rendered.contains("<code>code</code>"));
    assert!(rendered.contains("<table>"));
    assert!(rendered.contains("&lt;script&gt;alert(1)&lt;/script&gt;"));
    assert!(!rendered.to_ascii_lowercase().contains("javascript:"));
    assert!(rendered.contains("href=\"https://example.com\""));
}

fn s(v: &str) -> Tree {
    Tree::Str(v.to_owned())
}

fn table(entries: Vec<(&str, Tree)>) -> Tree {
    Tree::Table(entries.into_iter().map(|(k, v)| (k.to_owned(), v)).collect())
}

#[test]
fn a_board_is_read_from_its_parsed_document() {
    let column = table(vec![("name", s("Open")), ("statuses", Tree::Array(vec![s("accepted")]))]);
    let document = table(vec![
        ("schema_version", Tree::Int(1)),
        ("id", s("HMD-board")),
        ("title", s("Main")),
        ("columns", Tree::Array(vec![column])),
    ]);
    match board_from_tree("projects/demo/investigations/sample/boards/main.toml", &document) {
        Ok(RecordDraft::Board(board)) => {
            assert_eq!(board.id, "HMD-board");
            assert_eq!(board.columns.len(), 1);
            assert_eq!(board.columns[0].statuses, vec!["accepted".to_owned()]);
        }
        other => panic!("board expected: {other:?}"),
    }
    let no_columns = table(vec![("schema_version", Tree::Int(1)), ("id", s("HMD-board"))]);
    let refused = board_from_tree("boards/main.toml", &no_columns).expect_err("columns are required");
    assert_eq!(refused[0].code, "missing_columns");
    let wrong_schema = table(vec![
        ("schema_version", Tree::Int(2)),
        ("columns", Tree::Array(vec![table(vec![("name", s("Open")), ("statuses", Tree::Array(vec![]))])])),
    ]);
    let refused = board_from_tree("boards/main.toml", &wrong_schema).expect_err("schema 1 only");
    assert_eq!(refused[0].code, "invalid_schema_version");
}

#[test]
fn a_progress_log_is_read_from_its_parsed_document() {
    let entry = table(vec![
        ("id", s("start")),
        ("recorded_at", s("2026-07-26T10:00:00Z")),
        ("recorded_by", s("root")),
        ("ticket_id", s("HMD-001")),
        ("kind", s("transition")),
        ("from", s("unknown")),
        ("to", s("in_progress")),
    ]);
    let document = table(vec![("schema_version", Tree::Int(1)), ("entries", Tree::Array(vec![entry]))]);
    let log = progress_log_from_tree("progress/log.toml", &document).expect("log");
    assert_eq!(log.entries.len(), 1);
    let wrong = table(vec![("schema_version", Tree::Int(3))]);
    let refused = progress_log_from_tree("progress/log.toml", &wrong).expect_err("schema 1 only");
    assert_eq!(refused[0].code, "invalid_schema_version");
}

#[test]
fn a_request_is_read_from_its_markdown_events() {
    let events = vec![
        MdToken::Start(MdTag::Heading(1)),
        MdToken::Text("Request".to_owned()),
        MdToken::End(MdTag::Heading(1)),
        MdToken::Start(MdTag::Heading(2)),
        MdToken::Text("Boundary".to_owned()),
        MdToken::End(MdTag::Heading(2)),
    ];
    assert!(matches!(
        request_from_tokens("request.md", &events),
        Ok(RecordSummary::Markdown { title }) if title == "Request"
    ));
    let title_only = vec![
        MdToken::Start(MdTag::Heading(1)),
        MdToken::Text("Request".to_owned()),
        MdToken::End(MdTag::Heading(1)),
    ];
    let refused = request_from_tokens("request.md", &title_only).expect_err("needs Boundary");
    assert_eq!(refused[0].code, "request_shape");
    let refused = request_from_tokens("request.md", &Vec::new()).expect_err("needs one H1");
    assert_eq!(refused[0].code, "h1_count");
}

fn link(dest: &str) -> HtmlToken {
    HtmlToken::Start(HtmlTag::Link { kind: LinkKind::Inline, dest: dest.to_owned(), title: String::new(), id: String::new() })
}

#[test]
fn sanitising_turns_embedded_html_into_text_and_drops_unsafe_destinations() {
    let cleaned = sanitized(vec![
        HtmlToken::Html("<script>".to_owned()),
        HtmlToken::InlineHtml("<b>".to_owned()),
        link("JaVaScRiPt:alert(1)"),
        link("https://example.com"),
        HtmlToken::Text("plain".to_owned()),
    ]);
    assert_eq!(
        cleaned,
        vec![
            HtmlToken::Text("<script>".to_owned()),
            HtmlToken::Text("<b>".to_owned()),
            link(""),
            link("https://example.com"),
            HtmlToken::Text("plain".to_owned()),
        ]
    );
}

#[test]
fn a_project_map_is_read_from_its_parsed_document() {
    let document = table(vec![("projects", table(vec![("demo", s("Demo project"))]))]);
    assert!(matches!(
        project_map_from_tree("projects.toml", &document, &["demo"]),
        Ok(RecordSummary::ProjectMap { projects }) if projects == vec!["demo".to_owned()]
    ));
    let refused = project_map_from_tree("projects.toml", &document, &["demo", "other"]).expect_err("every governed project");
    assert_eq!(refused[0].code, "invalid_project_map");
    let not_strings = table(vec![("projects", table(vec![("demo", Tree::Int(1))]))]);
    assert!(project_map_from_tree("projects.toml", &not_strings, &[]).is_err());
}

#[test]
fn a_decision_is_read_from_its_headings_and_front_matter() {
    let events = vec![
        MdToken::Start(MdTag::Heading(1)),
        MdToken::Text("D-7 Use a ledger".to_owned()),
        MdToken::End(MdTag::Heading(1)),
        MdToken::Start(MdTag::Heading(2)),
        MdToken::Text("Status".to_owned()),
        MdToken::End(MdTag::Heading(2)),
        MdToken::Start(MdTag::Heading(2)),
        MdToken::Text("Decision".to_owned()),
        MdToken::End(MdTag::Heading(2)),
    ];
    match decision_from_parts("decisions/D-7-ledger.md", &events, &None) {
        Ok((Some(id), Some(RecordSummary::Markdown { title }))) => {
            assert_eq!(id, "D-7");
            assert_eq!(title, "D-7 Use a ledger");
        }
        other => panic!("decision expected: {other:?}"),
    }
    let title_only = vec![
        MdToken::Start(MdTag::Heading(1)),
        MdToken::Text("D-7 Use a ledger".to_owned()),
        MdToken::End(MdTag::Heading(1)),
    ];
    let refused = decision_from_parts("decisions/D-7-ledger.md", &title_only, &None).expect_err("needs a status");
    assert_eq!(refused[0].code, "decision_shape");
}
