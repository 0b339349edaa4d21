use casefile::detail::{board_columns, content_lines, detail_lines, TEXT_LIMIT};
use casefile::diagnostic::Diagnostic;
use casefile::review::{diff_style, review_lines};
use casefile::record::{Classification, EntrySnapshot, Kind, RecordSummary, Revision};
use casefile::terminal_markdown::TextLine;
use casefile::terminal::{safe_inline, safe_multiline};
use casefile::terminal_markdown::{render, Tone};
use casefile::tui::{
    edit_selection, loading_key, normalise_value, parent_directory, receive, select_value, DetailTab, EditIntent,
    Interaction, Key, Outcome, Received, RecordDetail, ReviewDecision, ReviewState,
};

fn entry(path: &str, classification: Classification, kind: Option<Kind>, bytes: &[u8]) -> EntrySnapshot {
    EntrySnapshot {
        path: path.to_owned(),
        classification,
        kind,
        identity: None,
        content_revision: Revision("sha256:0".to_owned()),
        summary: None,
        original_bytes: bytes.to_vec(),
    }
}

fn text_of(markdown: &str) -> String {
    render(markdown)
        .iter()
        .flat_map(|line| line.spans.iter())
        .map(|span| span.content.as_str())
        .collect::<String>()
}

#[test]
fn edit_selection_yields_only_supported_governed_records() {
    let ticket = entry("a-ticket.md", Classification::Governed, Some(Kind::Ticket), b"ticket");
    assert_eq!(
        edit_selection(Some(&ticket)),
        Ok(Interaction::Edit(EditIntent { path: "a-ticket.md".into(), kind: Kind::Ticket }))
    );

    let raw = entry("raw.txt", Classification::Raw, None, b"raw");
    assert_eq!(edit_selection(Some(&raw)), Err("Read-only: e edits governed tickets, epics, and boards only."));
    assert_eq!(edit_selection(None), Err("No selected record to edit."));
}

#[test]
fn loader_failure_is_reported() {
    let (sender, receiver) = std::sync::mpsc::sync_channel(1);
    sender.send(Err("scan failed".into())).expect("send");
    let received = match receiver.try_recv() {
        Ok(message) => Received::Message(message),
        Err(std::sync::mpsc::TryRecvError::Disconnected) => Received::Disconnected,
        Err(std::sync::mpsc::TryRecvError::Empty) => Received::Empty,
    };

    assert!(matches!(
        receive(received),
        Some(Outcome::Failed(message)) if message == "scan failed"
    ));
}

#[test]
fn renders_headings_lists_code_and_terminal_safe_html() {
    let text = text_of("# Title\n\n- **bold** and `code`\n\n<script>bad</script>");

    assert!(text.contains("Title"));
    assert!(text.contains("• "));
    assert!(text.contains("bold"));
    assert!(text.contains("code"));
    assert!(text.contains("<script>bad</script>"));
    assert!(!text.contains("# Title"));
}

#[test]
fn editing_a_governed_board_or_epic_is_allowed_but_an_ungoverned_ticket_is_not() {
    let board = entry("b.toml", Classification::Governed, Some(Kind::Board), b"");
    assert_eq!(
        edit_selection(Some(&board)),
        Ok(Interaction::Edit(EditIntent { path: "b.toml".into(), kind: Kind::Board }))
    );
    let epic = entry("e.md", Classification::Governed, Some(Kind::Epic), b"");
    assert!(matches!(edit_selection(Some(&epic)), Ok(Interaction::Edit(_))));
    let ungoverned = entry("t.md", Classification::Ungoverned, Some(Kind::Ticket), b"");
    assert!(edit_selection(Some(&ungoverned)).is_err());
    let decision = entry("d.md", Classification::Governed, Some(Kind::Decision), b"");
    assert!(edit_selection(Some(&decision)).is_err());
}

#[test]
fn a_closed_channel_and_an_empty_channel_are_told_apart() {
    assert!(matches!(
        receive(Received::Disconnected),
        Some(Outcome::Failed(message)) if message == "Casefile background loading stopped unexpectedly"
    ));
    assert!(receive(Received::Empty).is_none());
}

#[test]
fn only_a_pressed_q_or_escape_cancels_loading() {
    assert!(matches!(loading_key(Key::Char('q'), true), Some(Outcome::Quit)));
    assert!(matches!(loading_key(Key::Esc, true), Some(Outcome::Quit)));
    assert!(loading_key(Key::Char('q'), false).is_none());
    assert!(loading_key(Key::Enter, true).is_none());
}

#[test]
fn review_scrolls_within_the_diff_and_records_the_decision() {
    let mut review = ReviewState::new("+a\n-b\n");
    review.set_rows(5);
    review.handle(Key::Down);
    review.handle(Key::Char('j'));
    assert_eq!(review.scroll, 2);
    review.handle(Key::PageDown);
    assert_eq!(review.scroll, 4);
    review.handle(Key::Up);
    assert_eq!(review.scroll, 3);
    review.handle(Key::Home);
    assert_eq!(review.scroll, 0);
    review.handle(Key::PageUp);
    assert_eq!(review.scroll, 0);
    review.handle(Key::End);
    assert_eq!(review.scroll, 4);
    assert_eq!(review.decision, None);
    review.handle(Key::Char('a'));
    assert_eq!(review.decision, Some(ReviewDecision::Apply));
    review.handle(Key::Esc);
    assert_eq!(review.decision, Some(ReviewDecision::Cancel));
}

#[test]
fn detail_tabs_cycle_round_and_scroll_is_bounded() {
    assert_eq!(DetailTab::Overview.offset(1), DetailTab::Rendered);
    assert_eq!(DetailTab::Overview.offset(-1), DetailTab::Diagnostics);
    assert_eq!(DetailTab::Diagnostics.offset(1), DetailTab::Overview);
    assert_eq!(DetailTab::Source.offset(6), DetailTab::Overview);
    assert_eq!(DetailTab::Source.title(), "Source");
    let mut detail = RecordDetail::new();
    detail.set_rows(3);
    detail.scroll(10);
    assert_eq!(detail.scroll, 2);
    detail.select_tab(1);
    assert_eq!(detail.tab, DetailTab::Rendered);
    assert_eq!(detail.scroll, 0);
    detail.move_to_edge(true);
    assert_eq!(detail.scroll, 2);
    detail.reset_scroll();
    assert_eq!(detail.scroll, 0);
}

#[test]
fn selection_moves_within_values_and_normalises_to_the_first() {
    let values = vec!["a".to_owned(), "b".to_owned(), "c".to_owned()];
    let mut selected = None;
    assert!(select_value(&mut selected, &values, 1));
    assert_eq!(selected.as_deref(), Some("b"));
    assert!(select_value(&mut selected, &values, i64::MAX));
    assert_eq!(selected.as_deref(), Some("c"));
    assert!(!select_value(&mut selected, &values, 5));
    assert!(select_value(&mut selected, &values, i64::MIN));
    assert_eq!(selected.as_deref(), Some("a"));
    assert!(!select_value(&mut selected, &values, -3));
    let mut gone = Some("x".to_owned());
    normalise_value(&mut gone, &values);
    assert_eq!(gone.as_deref(), Some("a"));
    let mut kept = Some("c".to_owned());
    normalise_value(&mut kept, &values);
    assert_eq!(kept.as_deref(), Some("c"));
    let mut none = Some("c".to_owned());
    assert!(select_value(&mut none, &Vec::new(), 1));
    assert_eq!(none, None);
}

#[test]
fn parent_directory_is_the_text_before_the_last_slash() {
    assert_eq!(parent_directory("projects/demo/request.md"), "projects/demo");
    assert_eq!(parent_directory("request.md"), ".");
}

#[test]
fn control_characters_are_escaped_for_the_terminal() {
    assert_eq!(safe_inline("a\u{1b}[31mb\tc\n"), "a\\u{1b}[31mb\\tc\\n");
    assert_eq!(safe_inline("plain é"), "plain é");
    let (text, cut) = safe_multiline("one\r\ntwo\tx\u{7}", 100);
    assert_eq!(text, "one\ntwo    x\\u{7}");
    assert!(!cut);
    let (text, cut) = safe_multiline("abcdef", 3);
    assert_eq!(text, "abc");
    assert!(cut);
}

#[test]
fn empty_markdown_says_so_and_rules_and_quotes_are_drawn() {
    let lines = render("");
    assert_eq!(lines.len(), 1);
    assert_eq!(lines[0].spans[0].content, "Empty Markdown record.");
    assert_eq!(lines[0].style.map(|style| style.fg), Some(Tone::Muted));
    let text = text_of("> quoted\n\n---\n\n1. one\n2. two\n");
    assert!(text.contains("│ quoted"));
    assert!(text.contains(&"─".repeat(32)));
    assert!(text.contains("1. one"));
    assert!(text.contains("2. two"));
}

#[test]
fn markdown_text_cannot_carry_terminal_controls() {
    let text = text_of("# T\u{1b}]0;x\u{7}\n\nbody");
    assert!(!text.chars().any(|c| c.is_control()));
    assert!(text.contains("\\u{1b}"));
}

fn line_text(line: &TextLine) -> String {
    line.spans.iter().map(|span| span.content.as_str()).collect::<String>()
}

fn lines_text(lines: &[TextLine]) -> String {
    lines.iter().map(line_text).collect::<Vec<_>>().join("\n")
}

#[test]
fn content_keeps_lines_and_escapes_only_unsafe_controls() {
    let (safe, truncated) = safe_multiline("first\nsecond\t\x1b", TEXT_LIMIT);
    assert_eq!(safe, "first\nsecond    \\u{1b}");
    assert!(!truncated);
    assert_eq!(safe_inline("caf\u{e9}\x1b"), "caf\u{e9}\\u{1b}");
    assert_eq!(line_text(&content_lines(b"")[0]), "Empty text record.");

    let entry = entry("a-ticket.md", Classification::Governed, Some(Kind::Ticket), b"first line\nsecond line\n\x1b[31mnot a colour");
    let mut detail = RecordDetail::new();
    detail.select_tab(1);
    let output = lines_text(&detail_lines(&entry, &Vec::new(), detail.tab));
    assert!(output.contains("first line"));
    assert!(output.contains("second line"));
    assert!(output.contains(r"\u{1b}[31mnot a colour"));
    assert!(!output.contains("first line\\nsecond line"));
    assert!(!output.contains('\x1b'));
}

#[test]
fn source_keeps_text_beyond_the_display_limit() {
    let tail = "source tail remains available";
    let source = format!("{}\n{tail}", "x".repeat(TEXT_LIMIT + 1));
    let entry = entry("a-ticket.md", Classification::Governed, Some(Kind::Ticket), source.as_bytes());
    let visible = lines_text(&detail_lines(&entry, &Vec::new(), DetailTab::Source));
    assert!(visible.contains(tail));
    assert!(!visible.contains("truncated"));
}

#[test]
fn metadata_and_diagnostics_cannot_inject_terminal_controls() {
    let control = "\x1b]0;metadata\x07";
    let path = format!("{control}-ticket.md");
    let mut entry = entry(&path, Classification::Invalid, Some(Kind::Ticket), b"content");
    entry.summary = Some(RecordSummary::WorkItem {
        id: format!("HMD-{control}"),
        title: format!("title-{control}"),
        status: format!("status-{control}"),
        rank: None,
    });
    let diagnostics = vec![Diagnostic::new(&path, &format!("code-{control}"), &format!("message-{control}"))
        .field(&format!("field-{control}"))
        .section(&format!("section-{control}"))];
    let mut detail = RecordDetail::new();
    detail.select_tab(3);
    let output = lines_text(&detail_lines(&entry, &diagnostics, detail.tab));
    assert!(output.contains(r"code-\u{1b}]0;metadata\u{7}"));
    assert!(output.contains(r"field-\u{1b}]0;metadata\u{7}"));
    assert!(output.contains(r"section-\u{1b}]0;metadata\u{7}"));
    assert!(!output.contains('\x1b'));
    assert!(!output.contains('\x07'));
    let overview = lines_text(&detail_lines(&entry, &diagnostics, DetailTab::Overview));
    assert!(!overview.contains('\x1b'));
    assert!(!overview.contains('\x07'));
}

#[test]
fn metadata_and_board_columns_escape_controls_and_remain_bounded() {
    let metadata = "\x1b]0;metadata\x07";
    let columns: Vec<String> = (0..12 + 4).map(|index| format!("column-{index}-{metadata}-{}", "x".repeat(100))).collect();
    let rendered = board_columns(&columns);
    assert!(rendered.contains(r"\u{1b}]0;metadata\u{7}"));
    assert!(rendered.contains("columns omitted"));
    assert!(rendered.chars().count() <= 360);
    assert!(!rendered.chars().any(char::is_control));
}

#[test]
fn review_scrolls_store_diff_and_colours_additions_and_removals() {
    let diff = format!("diff --git a/a.md b/a.md\n--- a/a.md\n+++ b/a.md\n@@ -1 +1 @@\n-old\n+new\n{}", "+more\n".repeat(200));
    let mut review = ReviewState::new(&diff);
    review.set_rows(16);
    review.handle(Key::PageDown);
    assert!(review.scroll > 0);
    let lines = review_lines(&diff);
    assert!(lines
        .iter()
        .any(|line| line.spans.iter().any(|span| span.content.starts_with('+') && span.style.fg == Tone::Good)));
    assert_eq!(diff_style("-old").fg, Tone::Bad);
    assert_eq!(diff_style("+new").fg, Tone::Good);
    assert_eq!(diff_style("@@ -1 +1 @@").fg, Tone::Accent);
}

#[test]
fn inline_and_display_math_keep_their_text() {
    let lines = render("Sum $a+b$ here.\n\n$$c+d$$\n");
    let spans: Vec<_> = lines.iter().flat_map(|line| line.spans.iter()).collect();
    assert!(spans.iter().any(|span| span.content == "a+b" && span.style.fg == Tone::Warn));
    assert!(spans.iter().any(|span| span.content == "c+d" && span.style.fg == Tone::Warn));
}
