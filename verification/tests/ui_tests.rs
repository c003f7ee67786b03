use ripdiff::app::{App, Panel};
use ripdiff::diff::{DiffContent, DiffMode, DiffRequest};
use ripdiff::git::{FileStat, FileStatus, RepoSnapshot};
use ripdiff::style::{Color, Line, Span, Style};
use ripdiff::ui::{
    can_shorten, checked_file_list_lines, checked_file_row, checked_plain_text_width, detect_diff_line_kind, diff_panel, file_list_fits, file_list_lines, file_row, file_row_fits,
    file_stage_icon, file_stage_padding, format_stat_spans, plain_text_width, resolve_diff_line_background,
    shorten_path, style_visible_diff_lines, title_bar, DiffLineKind,
};

fn stat(path: &str, additions: u32, deletions: u32, staged: bool, unstaged: bool) -> FileStat {
    FileStat {
        path: path.to_string(),
        additions,
        deletions,
        status: FileStatus::Modified,
        has_staged_changes: staged,
        has_unstaged_changes: unstaged,
        content_signature: None,
    }
}

fn texts(line: &Line) -> Vec<String> {
    line.spans.iter().map(|s| s.content.clone()).collect()
}

fn bold() -> Style {
    Style { fg: None, bg: None, bold: true }
}

#[test]
fn file_stage_padding_is_stable_for_hidden_symbol() {
    let file = FileStat {
        path: "tracked.txt".to_string(),
        additions: 3,
        deletions: 1,
        status: FileStatus::Modified,
        has_staged_changes: true,
        has_unstaged_changes: false,
        content_signature: None,
    };

    let visible_padding = file_stage_padding(30, " ", "tracked.txt", &file);
    let hidden_padding = file_stage_padding(30, "⊘", "tracked.txt", &file);

    assert_eq!(visible_padding, hidden_padding);
}

#[test]
fn file_stage_padding_fills_the_rest_of_the_row() {
    let file = stat("tracked.txt", 3, 1, true, false);
    // 4 gaps + 1 marker + 11 path + 4 counts + 1 mark + 1 = 22 columns
    assert_eq!(file_stage_padding(30, " ", "tracked.txt", &file), 8);
    assert_eq!(file_stage_padding(10, " ", "tracked.txt", &file), 0);
    let unmarked = stat("a", 0, 0, false, false);
    // 4 + 1 + 1 + 0 + 1 (no mark) + 1 = 8
    assert_eq!(file_stage_padding(10, " ", "a", &unmarked), 2);
}

#[test]
fn shorten_path_keeps_the_tail() {
    assert_eq!(shorten_path("src/very/long/path.rs", 10), "...path.rs");
    assert_eq!(shorten_path("src/main.rs", 11), "src/main.rs");
    assert_eq!(shorten_path("src/main.rs", 3), "src/main.rs");
    assert_eq!(shorten_path("héllo/wörld.txt", 8), "...d.txt");
    assert_eq!(shorten_path("héllo/wörld.txt", 10), "...rld.txt");
}

#[test]
fn can_shorten_only_at_character_boundaries() {
    assert!(can_shorten("héllo/wörld.txt", 8));
    assert!(can_shorten("héllo/wörld.txt", 10));
    assert!(!can_shorten("héllo/wörld.txt", 11));
    assert!(can_shorten("héllo/wörld.txt", 3));
    assert!(can_shorten("héllo/wörld.txt", 17));
}

#[test]
fn format_stat_spans_shows_non_zero_counts() {
    assert!(format_stat_spans(0, 0).is_empty());
    let both = format_stat_spans(3, 1);
    assert_eq!(both.len(), 2);
    assert_eq!(both[0].content, "+3");
    assert_eq!(both[0].style, Style::fg(Color::Green));
    assert_eq!(both[1].content, "-1");
    assert_eq!(both[1].style, Style::fg(Color::Red));
    let added = format_stat_spans(5, 0);
    assert_eq!(added.len(), 1);
    assert_eq!(added[0].content, "+5");
    let deleted = format_stat_spans(0, 2);
    assert_eq!(deleted.len(), 1);
    assert_eq!(deleted[0].content, "-2");
}

#[test]
fn plain_text_width_sums_columns() {
    assert_eq!(plain_text_width(&format_stat_spans(12, 345)), 7);
    assert_eq!(plain_text_width(&[]), 0);
    let wide = vec![Span::new("日本".to_string(), Style::plain())];
    assert_eq!(plain_text_width(&wide), 4);
}

#[test]
fn file_stage_icon_reflects_staging() {
    assert_eq!(file_stage_icon(&stat("a", 0, 0, true, true)), Some(("◐", Color::Cyan)));
    assert_eq!(file_stage_icon(&stat("a", 0, 0, true, false)), Some(("●", Color::Green)));
    assert_eq!(file_stage_icon(&stat("a", 0, 0, false, true)), Some(("○", Color::Yellow)));
    assert_eq!(file_stage_icon(&stat("a", 0, 0, false, false)), None);
}

#[test]
fn file_row_lays_out_marker_status_path_counts_and_mark() {
    let file = stat("a.rs", 1, 0, false, true);
    assert!(file_row_fits(&file, 20));
    let row = file_row(&file, true, false, 20);
    assert_eq!(texts(&row), vec!["  ", "M", " ", "a.rs", "  ", "+1", "       ", "○"]);
    assert_eq!(row.spans[1].style, Style::fg(Color::Yellow));
    assert_eq!(row.spans[3].style, bold());
    assert_eq!(row.spans[7].style, Style::fg(Color::Yellow));

    let hidden = file_row(&file, false, true, 20);
    assert_eq!(hidden.spans[0].content, "⊘ ");
    assert_eq!(hidden.spans[3].style, Style::plain());
}

#[test]
fn file_row_shortens_long_paths() {
    let file = stat("src/deeply/nested/module/file.rs", 0, 0, false, false);
    // 20 columns less 6, no counts, a one-column blank for the missing mark: 13 bytes for the path
    let row = file_row(&file, false, false, 20);
    assert_eq!(row.spans[3].content, "...le/file.rs");
    assert_eq!(row.spans.len(), 6);
}

fn app_with(files: Vec<FileStat>) -> App {
    App::new("/work/repo".to_string(), false, RepoSnapshot { branch: None, files })
}

#[test]
fn file_list_shows_rows_or_a_note() {
    let empty = app_with(vec![]);
    assert!(file_list_fits(&empty, 30));
    let lines = file_list_lines(&empty, 30);
    assert_eq!(lines.len(), 2);
    assert!(lines[0].spans.is_empty());
    assert_eq!(lines[1].spans[0].content, "  no changes");
    assert_eq!(lines[1].spans[0].style, Style::fg(Color::DarkGray));

    let app = app_with(vec![stat("a.rs", 1, 0, false, true), stat("b.rs", 0, 2, true, false)]);
    let rows = file_list_lines(&app, 30);
    assert_eq!(rows.len(), 2);
    assert_eq!(rows[0].spans[3].style, bold());
    assert_eq!(rows[1].spans[3].style, Style::plain());
    assert_eq!(rows[1].spans[5].content, "-2");
}

#[test]
fn title_bar_counts_files_and_names_mode_and_panel() {
    let app = app_with(vec![stat("a.rs", 1, 0, false, true)]);
    let title = title_bar(&app, "repo");
    assert!(title.content.starts_with("  ripdiff  [repo: repo]  1 file changed  mode: inline  panel: files  │  Tab/h/l:panel"));
    assert!(title.content.ends_with("q:quit"));
    assert_eq!(title.style, Style { fg: Some(Color::Black), bg: Some(Color::Cyan), bold: true });

    let two = app_with(vec![stat("a.rs", 1, 0, false, true), stat("b.rs", 1, 0, false, true)]);
    assert!(title_bar(&two, "repo").content.contains("2 files changed"));
}

#[test]
fn title_bar_shows_the_error_instead() {
    let mut app = app_with(vec![]);
    app.error_message = Some("git error: boom".to_string());
    assert_eq!(title_bar(&app, "repo").content, "  ripdiff  [repo]  ERROR: git error: boom  ");
}

#[test]
fn detect_diff_line_kind_by_colours() {
    let added = Line::from_span(Span::new("+x".to_string(), Style::fg(Color::Green)));
    let deleted = Line::from_span(Span::new("-x".to_string(), Style::fg(Color::Indexed(9))));
    let both = Line::from_spans(vec![
        Span::new("a".to_string(), Style::fg(Color::LightGreen)),
        Span::new("b".to_string(), Style::fg(Color::Red)),
    ]);
    assert_eq!(detect_diff_line_kind(&added), Some(DiffLineKind::Addition));
    assert_eq!(detect_diff_line_kind(&deleted), Some(DiffLineKind::Deletion));
    assert_eq!(detect_diff_line_kind(&both), None);
    assert_eq!(detect_diff_line_kind(&Line::raw("plain")), None);
}

#[test]
fn resolve_diff_line_background_tints_by_kind_and_cursor() {
    let added = Line::from_span(Span::new("+x".to_string(), Style::fg(Color::Green)));
    let deleted = Line::from_span(Span::new("-x".to_string(), Style::fg(Color::Red)));
    let plain = Line::raw("x");
    assert_eq!(resolve_diff_line_background(&added, true), Color::Rgb(22, 48, 30));
    assert_eq!(resolve_diff_line_background(&deleted, true), Color::Rgb(52, 24, 24));
    assert_eq!(resolve_diff_line_background(&added, false), Color::Rgb(12, 26, 18));
    assert_eq!(resolve_diff_line_background(&deleted, false), Color::Rgb(30, 14, 14));
    assert_eq!(resolve_diff_line_background(&plain, true), Color::Rgb(34, 39, 49));
    assert_eq!(resolve_diff_line_background(&plain, false), Color::Reset);
}

#[test]
fn style_visible_diff_lines_marks_the_cursor_line_when_focused() {
    let lines = vec![Line::from_span(Span::new("+a".to_string(), Style::fg(Color::Green))), Line::raw("x")];
    let focused = style_visible_diff_lines(&lines, true, Some(1));
    assert_eq!(focused[0].spans[0].style, Style { fg: Some(Color::Green), bg: Some(Color::Rgb(12, 26, 18)), bold: false });
    assert_eq!(focused[1].spans[0].style.bg, Some(Color::Rgb(34, 39, 49)));
    assert_eq!(focused[1].spans[0].content, "x");
    let unfocused = style_visible_diff_lines(&lines, false, Some(1));
    assert_eq!(unfocused[1].spans[0].style.bg, Some(Color::Reset));
}

fn request(path: &str) -> DiffRequest {
    DiffRequest { path: path.to_string(), panel_width: 80, mode: DiffMode::Inline }
}

#[test]
fn diff_panel_notes_a_clean_tree() {
    let app = app_with(vec![]);
    let panel = diff_panel(&app, 10);
    assert_eq!(panel.header.content, " diff");
    assert_eq!(panel.header.style, Style::fg_bold(Color::DarkGray));
    assert_eq!(panel.body[1].spans[0].content, "  No changes detected. Working tree is clean.");
    assert_eq!(panel.scrollbar, None);
}

#[test]
fn diff_panel_notes_a_hidden_diff() {
    let mut app = app_with(vec![stat("a.rs", 1, 0, false, true)]);
    app.toggle_hidden();
    let panel = diff_panel(&app, 10);
    assert_eq!(panel.header.content, " a.rs");
    assert_eq!(panel.body[1].spans[0].content, "  [hidden - press Space to show]");
}

#[test]
fn diff_panel_shows_loading_until_the_diff_arrives() {
    let mut app = app_with(vec![stat("a.rs", 1, 0, false, true)]);
    app.ui.focus = Panel::Diff;
    let panel = diff_panel(&app, 10);
    assert_eq!(panel.header.style, Style::fg_bold(Color::Cyan));
    assert_eq!(panel.body.len(), 1);
    assert_eq!(panel.body[0].spans[0].content, "  loading...");
    assert_eq!(panel.body[0].spans[0].style.bg, Some(Color::Rgb(34, 39, 49)));
}

#[test]
fn diff_panel_shows_the_visible_window_with_a_scrollbar() {
    let mut app = app_with(vec![stat("a.rs", 1, 0, false, true)]);
    app.ui.focus = Panel::Diff;
    let lines: Vec<Line> = (0..6).map(|i| Line::raw(&format!("line {i}"))).collect();
    app.handle_loaded_diff(request("a.rs"), Ok(DiffContent { lines }));
    app.ui.scroll_offset = 2;
    app.ui.diff_cursor = 3;
    let panel = diff_panel(&app, 3);
    let shown: Vec<String> = panel.body.iter().map(|l| l.spans[0].content.clone()).collect();
    assert_eq!(shown, vec!["line 2", "line 3", "line 4"]);
    assert_eq!(panel.body[1].spans[0].style.bg, Some(Color::Rgb(34, 39, 49)));
    assert_eq!(panel.body[0].spans[0].style.bg, Some(Color::Reset));
    assert_eq!(panel.scrollbar, Some((6, 2)));

    app.ui.scroll_offset = 9;
    let clamped = diff_panel(&app, 3);
    assert_eq!(clamped.scrollbar, Some((6, 3)));
    assert_eq!(clamped.body[0].spans[0].content, "line 3");
    assert_eq!(diff_panel(&app, 10).scrollbar, None);
}

#[test]
fn shortened_paths_fit_their_limit() {
    for max_len in 4..30 {
        let path = "src/some/deep/directory/file_name.rs";
        let short = shorten_path(path, max_len);
        assert!(short.len() <= max_len);
        assert_eq!(short.len(), max_len);
    }
    assert_eq!(shorten_path("a.rs", 30), "a.rs");
}

#[test]
fn checked_versions_refuse_what_cannot_be_cut() {
    assert_eq!(checked_plain_text_width(&format_stat_spans(12, 345)), Some(7));
    let fits = stat("a.rs", 1, 0, false, true);
    assert!(checked_file_row(&fits, false, false, 20).is_some());
    // 15 columns less 6 and a blank for the missing mark leave 8 bytes: the
    // last 5 bytes of the 11-byte path start inside "é"
    let accented = stat("aaaaaé.txt", 0, 0, false, false);
    assert!(!file_row_fits(&accented, 15));
    assert!(checked_file_row(&accented, false, false, 15).is_none());
    assert!(checked_file_row(&accented, false, false, 14).is_some());
    let app = app_with(vec![accented]);
    assert!(checked_file_list_lines(&app, 15).is_none());
    assert_eq!(checked_file_list_lines(&app, 40).map(|l| l.len()), Some(1));
}
