use ripdiff::diff::{
    diff_specs, git_index_bytes, git_object_bytes, git_revision_bytes, line_at, render_diff_spec,
    render_semantic_line, render_side_by_side_line, render_single_side_line, render_tracked_diff, show_new_file,
    sort_changes, styled_text_with_changes, ChangeSpan, DiffMode, DiffRequest, DiffSpec, SemanticChunk, SemanticDiff,
    SemanticLine, SemanticStatus,
};
use ripdiff::git::GitOutput;
use ripdiff::style::{Color, Line, Span, Style};
use ripdiff::width::{byte_index_for_display_col, pad_to_width, truncate_to_width};

fn texts(line: &Line) -> Vec<String> {
    line.spans.iter().map(|s| s.content.clone()).collect()
}

fn accent(c: Color) -> Style {
    Style { fg: Some(c), bg: None, bold: true }
}

#[test]
fn diff_mode_labels_and_toggles() {
    assert_eq!(DiffMode::Inline.label(), "inline");
    assert_eq!(DiffMode::SideBySide.label(), "side-by-side");
    assert_eq!(DiffMode::Inline.toggle(), DiffMode::SideBySide);
    assert_eq!(DiffMode::Inline.toggle().toggle(), DiffMode::Inline);
}

#[test]
fn diff_spec_labels_and_choice() {
    assert_eq!(DiffSpec::HeadToWorktree.label(), "HEAD ↔ worktree");
    assert_eq!(DiffSpec::EmptyToIndex.label(), "(empty) ↔ index");
    assert_eq!(DiffSpec::IndexToWorktree.label(), "index ↔ worktree");
    assert_eq!(diff_specs(true, true), vec![DiffSpec::IndexToWorktree]);
    assert_eq!(diff_specs(false, true), vec![DiffSpec::HeadToWorktree]);
    assert_eq!(diff_specs(false, false), vec![DiffSpec::EmptyToIndex, DiffSpec::IndexToWorktree]);
}

#[test]
fn diff_requests_compare_by_value() {
    let a = DiffRequest { path: "a".to_string(), panel_width: 80, mode: DiffMode::Inline };
    assert!(a.same_as(&a.duplicate()));
    assert!(!a.same_as(&DiffRequest { mode: DiffMode::SideBySide, ..a.duplicate() }));
}

#[test]
fn byte_index_counts_display_columns() {
    assert_eq!(byte_index_for_display_col("héllo", 0), 0);
    assert_eq!(byte_index_for_display_col("héllo", 2), 3);
    assert_eq!(byte_index_for_display_col("héllo", 99), 6);
    assert_eq!(byte_index_for_display_col("日本", 1), 3);
    assert_eq!(byte_index_for_display_col("日本", 3), 6);
}

#[test]
fn truncate_and_pad_to_width() {
    assert_eq!(truncate_to_width("abcdef", 4), "abc…");
    assert_eq!(truncate_to_width("abc", 4), "abc");
    assert_eq!(truncate_to_width("abc", 0), "");
    assert_eq!(truncate_to_width("日本語", 4), "日…");
    assert_eq!(pad_to_width("ab", 4), "ab  ");
    assert_eq!(pad_to_width("abcdef", 4), "abcdef");
}

#[test]
fn line_at_gives_empty_past_the_end() {
    let lines = ["a", "b"];
    assert_eq!(line_at(&lines, 1), "b");
    assert_eq!(line_at(&lines, 5), "");
}

#[test]
fn sort_changes_orders_by_start() {
    let c = |s, e| ChangeSpan { start_col: s, end_col: e };
    assert_eq!(sort_changes(&[c(5, 6), c(1, 2), c(3, 4)]), vec![c(1, 2), c(3, 4), c(5, 6)]);
}

#[test]
fn styled_text_highlights_changed_columns() {
    let spans = styled_text_with_changes("hello world", Color::Green, &[ChangeSpan { start_col: 6, end_col: 11 }]);
    assert_eq!(spans.len(), 2);
    assert_eq!(spans[0].content, "hello ");
    assert_eq!(spans[0].style, Style::fg(Color::Green));
    assert_eq!(spans[1].content, "world");
    assert_eq!(spans[1].style, accent(Color::LightGreen));

    let plain = styled_text_with_changes("abc", Color::Red, &[]);
    assert_eq!(plain.len(), 1);
    assert_eq!(plain[0].content, "abc");

    let middle = styled_text_with_changes("abcdef", Color::Red, &[ChangeSpan { start_col: 2, end_col: 4 }]);
    let parts: Vec<&str> = middle.iter().map(|s| s.content.as_str()).collect();
    assert_eq!(parts, vec!["ab", "cd", "ef"]);
    assert_eq!(middle[1].style, accent(Color::LightRed));
}

#[test]
fn single_side_lines_have_a_numbered_gutter() {
    let line = render_single_side_line('+', 0, "x", Color::Green, &[]);
    assert_eq!(texts(&line), vec!["+   1 ", "x"]);
    assert_eq!(line.spans[0].style, Style::fg(Color::DarkGray));
    let max = render_single_side_line('-', u32::MAX, "y", Color::Red, &[]);
    assert_eq!(max.spans[0].content, format!("-{} ", u32::MAX));
}

#[test]
fn side_by_side_lines_pad_both_halves() {
    let line = SemanticLine { lhs_line: Some(0), rhs_line: None, lhs_changes: vec![], rhs_changes: vec![] };
    let out = render_side_by_side_line(&line, &["old"], &["new"], 40);
    // 40 columns less the separator's five bytes, halved
    assert_eq!(out.spans[0].content, format!("{:<17}", "-   1 old"));
    assert_eq!(out.spans[1].content, " │ ");
    assert_eq!(out.spans[2].content, " ".repeat(17));
    let narrow = SemanticLine { lhs_line: Some(0), rhs_line: Some(0), lhs_changes: vec![], rhs_changes: vec![] };
    let cut = render_side_by_side_line(&narrow, &["a very long line of old text"], &["x"], 10);
    assert_eq!(cut.spans[0].content, "-   1 a very lon…");
    assert_eq!(out.spans[0].style, Style::fg(Color::Red));
}

#[test]
fn semantic_lines_render_by_mode() {
    let line = SemanticLine { lhs_line: Some(0), rhs_line: Some(0), lhs_changes: vec![], rhs_changes: vec![] };
    let inline = render_semantic_line(&line, &["a"], &["b"], 80, DiffMode::Inline);
    assert_eq!(inline.len(), 2);
    assert_eq!(texts(&inline[0]), vec!["-   1 ", "a"]);
    assert_eq!(texts(&inline[1]), vec!["+   1 ", "b"]);
    let side = render_semantic_line(&line, &["a"], &["b"], 80, DiffMode::SideBySide);
    assert_eq!(side.len(), 1);
}

fn changed_one_line() -> SemanticDiff {
    SemanticDiff {
        status: SemanticStatus::Changed,
        chunks: vec![SemanticChunk {
            lines: vec![SemanticLine { lhs_line: Some(0), rhs_line: Some(0), lhs_changes: vec![], rhs_changes: vec![] }],
        }],
    }
}

#[test]
fn render_diff_spec_shows_header_and_lines() {
    let lines = render_diff_spec(
        "f.rs",
        80,
        DiffMode::Inline,
        DiffSpec::HeadToWorktree,
        &Some(b"a\n".to_vec()),
        &Some(b"b\n".to_vec()),
        &changed_one_line(),
    );
    assert_eq!(lines.len(), 3);
    assert_eq!(lines[0].spans[0].content, "f.rs (HEAD ↔ worktree)");
    assert_eq!(lines[0].spans[0].style, accent(Color::Cyan));
    assert_eq!(texts(&lines[1]), vec!["-   1 ", "a"]);
    assert_eq!(texts(&lines[2]), vec!["+   1 ", "b"]);
}

#[test]
fn render_diff_spec_handles_equal_binary_created_and_empty() {
    let same = render_diff_spec("f", 80, DiffMode::Inline, DiffSpec::HeadToWorktree, &None, &None, &changed_one_line());
    assert!(same.is_empty());

    let binary = SemanticDiff { status: SemanticStatus::Binary, chunks: vec![] };
    let b = render_diff_spec("f", 80, DiffMode::Inline, DiffSpec::EmptyToIndex, &None, &Some(vec![0, 1]), &binary);
    assert_eq!(b.len(), 2);
    assert_eq!(b[1].spans[0].content, "[binary diff]");
    assert_eq!(b[1].spans[0].style, Style::fg(Color::Yellow));

    let created = SemanticDiff { status: SemanticStatus::Created, chunks: vec![] };
    let c = render_diff_spec("f", 80, DiffMode::Inline, DiffSpec::EmptyToIndex, &None, &Some(b"x\ny".to_vec()), &created);
    assert_eq!(c.len(), 3);
    assert_eq!(texts(&c[2]), vec!["+   2 ", "y"]);

    let deleted = SemanticDiff { status: SemanticStatus::Deleted, chunks: vec![] };
    let d = render_diff_spec("f", 80, DiffMode::Inline, DiffSpec::IndexToWorktree, &Some(b"x".to_vec()), &None, &deleted);
    assert_eq!(texts(&d[1]), vec!["-   1 ", "x"]);
    assert_eq!(d[1].spans[1].style, Style::fg(Color::Red));

    let nothing = SemanticDiff { status: SemanticStatus::Changed, chunks: vec![] };
    let n = render_diff_spec("f", 80, DiffMode::Inline, DiffSpec::HeadToWorktree, &Some(b"a".to_vec()), &Some(b"b".to_vec()), &nothing);
    assert_eq!(n.len(), 2);
    assert_eq!(n[1].spans[0].content, "[no visible changes]");
}

#[test]
fn render_tracked_diff_joins_non_empty_comparisons() {
    let a = vec![Line::raw("A")];
    let b = vec![Line::raw("B1"), Line::raw("B2")];
    let joined = render_tracked_diff(vec![vec![], a, vec![], b]);
    assert_eq!(joined.lines.len(), 4);
    assert_eq!(joined.lines[0].spans[0].content, "A");
    assert!(joined.lines[1].spans.is_empty());
    assert_eq!(joined.lines[3].spans[0].content, "B2");
    assert!(render_tracked_diff(vec![]).lines.is_empty());
}

#[test]
fn show_new_file_numbers_every_line() {
    let d = show_new_file("new.txt", Some("one\ntwo\n"));
    assert_eq!(d.lines.len(), 4);
    assert_eq!(d.lines[0].spans[0].content, "new file: new.txt");
    assert_eq!(d.lines[0].spans[0].style, accent(Color::Green));
    assert!(d.lines[1].spans.is_empty());
    assert_eq!(texts(&d.lines[2]), vec!["   1 ", "+ one"]);
    assert_eq!(texts(&d.lines[3]), vec!["   2 ", "+ two"]);
    assert_eq!(d.lines[3].spans[1].style, Style::fg(Color::Green));

    let binary = show_new_file("img.png", None);
    assert_eq!(texts(&binary.lines[2]), vec!["   1 ", "+ [binary file]"]);
}

#[test]
fn git_object_commands_and_outputs() {
    let rev = git_revision_bytes("HEAD", "src/a.rs");
    assert_eq!(rev.args, vec!["show".to_string(), "HEAD:src/a.rs".to_string()]);
    assert_eq!(rev.context, "Failed to run git show HEAD:src/a.rs");
    let index = git_index_bytes("src/a.rs");
    assert_eq!(index.args, vec!["show".to_string(), ":src/a.rs".to_string()]);
    assert_eq!(index.context, "Failed to run git show :src/a.rs");

    let found = GitOutput { success: true, stdout: b"bytes".to_vec(), stderr: vec![] };
    assert_eq!(git_object_bytes(&found), Some(b"bytes".to_vec()));
    let missing = GitOutput { success: false, stdout: vec![], stderr: b"fatal".to_vec() };
    assert_eq!(git_object_bytes(&missing), None);
}

#[test]
fn spans_keep_their_text_and_style() {
    let s = Span::new("x".to_string(), Style::fg(Color::Blue));
    assert_eq!(s.duplicate(), s);
    let l = Line::from_spans(vec![s.clone(), Span::new("y".to_string(), Style::plain())]);
    assert_eq!(l.duplicate(), l);
    assert_eq!(Line::raw("a\nb").spans.len(), 2);
    assert!(Line::raw("").spans.is_empty());
}

#[test]
fn highlighting_never_changes_the_text() {
    let text = "let café = 1; // done";
    let changes = [ChangeSpan { start_col: 14, end_col: 21 }, ChangeSpan { start_col: 4, end_col: 8 }];
    let spans = styled_text_with_changes(text, Color::Red, &changes);
    let joined: String = spans.iter().map(|s| s.content.as_str()).collect();
    assert_eq!(joined, text);
    assert_eq!(spans.len(), 4);
    assert_eq!(spans[1].content, "café");
}
