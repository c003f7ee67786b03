use ripdiff::app::{
    error_diff_content, App, Command, CommitDialog, KeyCode, KeyEvent, Panel, PushDialog, UiState, CONTROL,
    NO_MODIFIERS, SHIFT,
};
use ripdiff::diff::{DiffContent, DiffMode, DiffRequest};
use ripdiff::git::{FileStat, FileStatus, RepoSnapshot};
use ripdiff::store::{DiffStore, PathSet};
use ripdiff::style::{Color, Line, Span, Style};

fn file(path: &str, staged: bool, unstaged: bool) -> FileStat {
    FileStat {
        path: path.to_string(),
        additions: 1,
        deletions: 0,
        status: FileStatus::Modified,
        has_staged_changes: staged,
        has_unstaged_changes: unstaged,
        content_signature: None,
    }
}

fn ui(panel_height: u16, focus: Panel) -> UiState {
    UiState {
        selected: 0,
        diff_cursor: 0,
        scroll_offset: 0,
        pending_g: false,
        pending_space: false,
        show_help: false,
        show_sidebar: true,
        hidden_files: PathSet::new(),
        diff_mode: DiffMode::Inline,
        panel_width: 80,
        panel_height,
        focus,
        commit_dialog: None,
        push_dialog: None,
    }
}

fn app(files: Vec<FileStat>, ui: UiState) -> App {
    App {
        repo_root: ".".to_string(),
        show_unstaged_only: false,
        snapshot: RepoSnapshot { branch: None, files },
        ui,
        diff_store: DiffStore::new(),
        last_refresh_ms: Some(0),
        should_quit: false,
        error_message: None,
    }
}

fn make_app() -> App {
    app(vec![], ui(40, Panel::Files))
}

fn request(path: &str) -> DiffRequest {
    DiffRequest { path: path.to_string(), panel_width: 80, mode: DiffMode::Inline }
}

fn raw_lines(texts: &[&str]) -> DiffContent {
    DiffContent { lines: texts.iter().map(|t| Line::raw(t)).collect() }
}

fn key(code: KeyCode, modifiers: u8) -> KeyEvent {
    KeyEvent::new(code, modifiers)
}

fn composing(app: &App) -> Option<String> {
    match &app.ui.commit_dialog {
        Some(CommitDialog::Composing { message }) => Some(message.clone()),
        _ => None,
    }
}

fn is_refresh(c: &Command) -> bool {
    matches!(c, Command::Refresh)
}

#[test]
fn refresh_invalidates_cached_diffs() {
    let mut app = app(vec![file("src/main.rs", false, true)], ui(40, Panel::Files));
    app.diff_store.insert(request("src/main.rs"), raw_lines(&["stale"]));
    app.diff_store.start_loading(request("src/main.rs"));
    app.last_refresh_ms = Some(0);

    assert!(app.refresh(10_000));
    app.finish_refresh(Ok(RepoSnapshot::default()));

    assert!(app.diff_store.is_empty());
    assert!(app.diff_store.is_idle());
}

#[test]
fn apply_snapshot_keeps_cache_when_snapshot_is_unchanged() {
    let snapshot = RepoSnapshot { branch: None, files: vec![file("src/main.rs", false, true)] };
    let mut app = app(snapshot.files.clone(), ui(40, Panel::Files));
    let request = request("a.rs");
    app.diff_store.insert(request.clone(), raw_lines(&["ok"]));
    app.diff_store.start_loading(request.clone());

    app.finish_refresh(Ok(snapshot));

    assert!(app.diff_store.contains(&request));
    assert!(app.diff_store.is_loading(&request));
}

#[test]
fn diff_cursor_moves_independently_from_top_visible_line() {
    let mut app = app(vec![file("src/main.rs", false, true)], ui(3, Panel::Diff));
    app.diff_store.insert(request("src/main.rs"), raw_lines(&["1", "2", "3", "4", "5"]));

    app.scroll_down(1);
    assert_eq!(app.ui.diff_cursor, 1);
    assert_eq!(app.ui.scroll_offset, 0);

    app.scroll_down(2);
    assert_eq!(app.ui.diff_cursor, 3);
    assert_eq!(app.ui.scroll_offset, 1);
}

#[test]
fn handle_key_uses_brackets_for_hunk_navigation() {
    let mut app = app(vec![file("src/main.rs", false, true)], ui(3, Panel::Diff));
    app.diff_store.insert(
        request("src/main.rs"),
        raw_lines(&["header", "@@ hunk one @@", "body", "@@ hunk two @@", "tail"]),
    );

    app.handle_key(key(KeyCode::Char(']'), NO_MODIFIERS));
    assert_eq!(app.ui.diff_cursor, 1);

    app.handle_key(key(KeyCode::Char('}'), SHIFT));
    assert_eq!(app.ui.diff_cursor, 3);

    app.handle_key(key(KeyCode::Char('{'), SHIFT));
    assert_eq!(app.ui.diff_cursor, 1);
}

#[test]
fn handle_key_uses_gg_and_g_for_navigation() {
    let mut ui = ui(3, Panel::Files);
    ui.selected = 1;
    ui.diff_cursor = 2;
    let mut app = app(vec![file("a.rs", false, true), file("b.rs", false, true), file("c.rs", false, true)], ui);
    app.diff_store.insert(request("a.rs"), raw_lines(&["1", "2", "3", "4", "5"]));

    app.handle_key(key(KeyCode::Char('G'), SHIFT));
    assert_eq!(app.ui.selected, 2);

    app.handle_key(key(KeyCode::Char('g'), NO_MODIFIERS));
    assert_eq!(app.ui.selected, 2);
    assert!(app.ui.pending_g);

    app.handle_key(key(KeyCode::Char('g'), NO_MODIFIERS));
    assert_eq!(app.ui.selected, 0);
    assert!(!app.ui.pending_g);

    app.ui.focus = Panel::Diff;
    app.ui.diff_cursor = 2;
    app.ui.scroll_offset = 2;

    app.handle_key(key(KeyCode::Char('G'), SHIFT));
    assert_eq!(app.ui.diff_cursor, 4);

    app.handle_key(key(KeyCode::Char('g'), NO_MODIFIERS));
    assert!(app.ui.pending_g);

    app.handle_key(key(KeyCode::Char('g'), NO_MODIFIERS));
    assert_eq!(app.ui.diff_cursor, 0);
    assert_eq!(app.ui.scroll_offset, 0);
    assert!(!app.ui.pending_g);
}

#[test]
fn handle_key_toggles_sidebar_with_space_e() {
    let mut app = app(vec![file("src/main.rs", false, true)], ui(40, Panel::Files));

    app.handle_key(key(KeyCode::Char(' '), NO_MODIFIERS));
    assert!(app.ui.pending_space);
    assert!(app.ui.show_sidebar);

    app.handle_key(key(KeyCode::Char('E'), SHIFT));
    assert!(!app.ui.pending_space);
    assert!(!app.ui.show_sidebar);
    assert_eq!(app.ui.focus, Panel::Diff);

    app.handle_key(key(KeyCode::Char(' '), NO_MODIFIERS));
    app.handle_key(key(KeyCode::Char('e'), NO_MODIFIERS));
    assert!(app.ui.show_sidebar);
}

#[test]
fn handle_key_toggles_help_overlay_with_h() {
    let mut app = make_app();

    app.handle_key(key(KeyCode::Char('h'), NO_MODIFIERS));
    assert!(app.ui.show_help);

    app.handle_key(key(KeyCode::Char('h'), NO_MODIFIERS));
    assert!(!app.ui.show_help);
}

#[test]
fn handle_key_u_unstages_selected_file() {
    let mut app = app(vec![file("tracked.txt", true, false)], ui(40, Panel::Files));

    let command = app.handle_key(key(KeyCode::Char('u'), NO_MODIFIERS));

    // Unstaging asks git to unstage the file; its success asks for a reload.
    assert!(matches!(&command, Command::Unstage(p) if p == "tracked.txt"));
    let next = app.finish_git_action(Ok(()));
    assert!(is_refresh(&next));
    app.force_refresh(11_000);
    assert_eq!(app.last_refresh_ms, Some(11_000));
}

#[test]
fn handle_key_u_unstages_all_staged_files() {
    let mut app = app(vec![file("file1.txt", true, false), file("file2.txt", true, false)], ui(40, Panel::Files));

    let command = app.handle_key(key(KeyCode::Char('U'), SHIFT));

    assert!(matches!(command, Command::UnstageAll));
    assert!(is_refresh(&app.finish_git_action(Ok(()))));
}

#[test]
fn handle_key_o_toggles_unstaged_only_scope() {
    let mut app = app(vec![file("file1.txt", true, false), file("file2.txt", true, false)], ui(40, Panel::Files));
    app.diff_store.insert(request("file1.txt"), raw_lines(&["x"]));

    let command = app.handle_key(key(KeyCode::Char('o'), NO_MODIFIERS));

    assert!(app.show_unstaged_only);
    assert!(app.diff_store.is_empty());
    assert!(app.diff_store.is_idle());
    assert!(is_refresh(&command));
}

#[test]
fn toggle_all_files_staged_prefers_staging_partial_changes() {
    let app = app(vec![file("tracked.txt", true, true)], ui(40, Panel::Files));

    let has_unstaged_changes = app.files().iter().any(|file| file.has_unstaged_changes);
    let has_staged_changes = app.files().iter().any(|file| file.has_staged_changes);

    assert!(has_unstaged_changes);
    assert!(has_staged_changes);
    assert!(matches!(app.toggle_all_files_staged(), Command::StageAll));
}

#[test]
fn handle_key_c_opens_commit_dialog() {
    let mut app = make_app();
    app.handle_key(key(KeyCode::Char('c'), NO_MODIFIERS));
    let message = composing(&app).expect("expected Composing dialog");
    assert!(message.is_empty());
}

#[test]
fn commit_dialog_typing_appends_characters() {
    let mut app = make_app();
    app.ui.commit_dialog = Some(CommitDialog::Composing { message: String::new() });
    for ch in "fix: bug".chars() {
        app.handle_key(key(KeyCode::Char(ch), NO_MODIFIERS));
    }
    let message = composing(&app).expect("expected Composing dialog");
    assert_eq!(message, "fix: bug");
}

#[test]
fn commit_dialog_backspace_removes_last_character() {
    let mut app = make_app();
    app.ui.commit_dialog = Some(CommitDialog::Composing { message: "fix".to_string() });
    app.handle_key(key(KeyCode::Backspace, NO_MODIFIERS));
    let message = composing(&app).expect("expected Composing dialog");
    assert_eq!(message, "fi");
}

#[test]
fn commit_dialog_backspace_on_empty_message_does_nothing() {
    let mut app = make_app();
    app.ui.commit_dialog = Some(CommitDialog::Composing { message: String::new() });
    app.handle_key(key(KeyCode::Backspace, NO_MODIFIERS));
    assert!(matches!(composing(&app), Some(message) if message.is_empty()));
}

#[test]
fn commit_dialog_esc_closes_dialog() {
    let mut app = make_app();
    app.ui.commit_dialog = Some(CommitDialog::Composing { message: "wip".to_string() });
    app.handle_key(key(KeyCode::Esc, NO_MODIFIERS));
    assert!(app.ui.commit_dialog.is_none());
}

#[test]
fn commit_dialog_intercepts_q_key() {
    let mut app = make_app();
    app.ui.commit_dialog = Some(CommitDialog::Composing { message: String::new() });
    app.handle_key(key(KeyCode::Char('q'), NO_MODIFIERS));
    assert!(!app.should_quit, "q should not quit while commit dialog is open");
    let message = composing(&app).expect("expected Composing dialog");
    assert_eq!(message, "q", "q should be appended to message");
}

#[test]
fn commit_dialog_enter_on_empty_message_stays_composing() {
    let mut app = make_app();
    app.ui.commit_dialog = Some(CommitDialog::Composing { message: String::new() });
    let command = app.handle_key(key(KeyCode::Enter, NO_MODIFIERS));
    assert!(
        matches!(app.ui.commit_dialog, Some(CommitDialog::Composing { .. })),
        "dialog should remain open when message is empty"
    );
    assert!(matches!(command, Command::Nothing));
}

#[test]
fn commit_dialog_enter_on_whitespace_only_message_stays_composing() {
    let mut app = make_app();
    app.ui.commit_dialog = Some(CommitDialog::Composing { message: "   ".to_string() });
    let command = app.handle_key(key(KeyCode::Enter, NO_MODIFIERS));
    assert!(
        matches!(app.ui.commit_dialog, Some(CommitDialog::Composing { .. })),
        "dialog should remain open when message is whitespace-only"
    );
    assert!(matches!(command, Command::Nothing));
}

#[test]
fn commit_dialog_result_any_key_closes_dialog() {
    let mut app = make_app();
    app.ui.commit_dialog = Some(CommitDialog::Result {
        output: "[main abc1234] fix: bug\n 1 file changed".to_string(),
        succeeded: true,
    });
    app.handle_key(key(KeyCode::Enter, NO_MODIFIERS));
    assert!(app.ui.commit_dialog.is_none());
}

#[test]
fn commit_dialog_result_esc_closes_dialog() {
    let mut app = make_app();
    app.ui.commit_dialog = Some(CommitDialog::Result { output: "pre-commit hook failed".to_string(), succeeded: false });
    app.handle_key(key(KeyCode::Esc, NO_MODIFIERS));
    assert!(app.ui.commit_dialog.is_none());
}

#[test]
fn diff_hunk_offsets_fall_back_to_change_blocks_for_difft_output() {
    let mut app = app(
        vec![FileStat { additions: 2, deletions: 2, ..file("src/main.rs", false, true) }],
        ui(3, Panel::Diff),
    );
    let red = Style::fg(Color::Red);
    let green = Style::fg(Color::Green);
    app.diff_store.insert(
        request("src/main.rs"),
        DiffContent {
            lines: vec![
                Line::raw("src/main.rs --- Rust"),
                Line::raw("1 fn main() {"),
                Line::from_span(Span::new("2     println!(\"old\");".to_string(), red)),
                Line::from_span(Span::new("  2   println!(\"new\");".to_string(), green)),
                Line::raw("3 }"),
                Line::from_span(Span::new("5     println!(\"old2\");".to_string(), red)),
                Line::from_span(Span::new("  5   println!(\"new2\");".to_string(), green)),
            ],
        },
    );

    assert_eq!(app.diff_hunk_offsets(), vec![2, 5]);
}

// ---------------------------------------------------------------------------
// Further behaviour
// ---------------------------------------------------------------------------

#[test]
fn enter_with_a_message_asks_for_a_commit_and_shows_the_outcome() {
    let mut app = make_app();
    app.ui.commit_dialog = Some(CommitDialog::Composing { message: "fix: bug".to_string() });
    let command = app.handle_key(key(KeyCode::Enter, NO_MODIFIERS));
    assert!(matches!(&command, Command::Commit(m) if m == "fix: bug"));
    let next = app.finish_commit("[main abc1234] fix: bug".to_string(), true);
    assert!(is_refresh(&next));
    assert!(matches!(&app.ui.commit_dialog, Some(CommitDialog::Result { succeeded: true, .. })));
    let failed = app.finish_commit("hook failed".to_string(), false);
    assert!(matches!(failed, Command::Nothing));
}

#[test]
fn push_shows_its_outcome_and_any_key_closes_it() {
    let mut app = make_app();
    assert!(matches!(app.handle_key(key(KeyCode::Char('p'), NO_MODIFIERS)), Command::Push));
    assert!(is_refresh(&app.finish_push("done".to_string(), true)));
    assert!(matches!(app.ui.push_dialog, Some(PushDialog::Result { succeeded: true, .. })));
    app.handle_key(key(KeyCode::Char('q'), NO_MODIFIERS));
    assert!(app.ui.push_dialog.is_none());
    assert!(!app.should_quit);
}

#[test]
fn q_and_esc_quit() {
    let mut app = make_app();
    app.handle_key(key(KeyCode::Char('q'), NO_MODIFIERS));
    assert!(app.should_quit);
    let mut other = make_app();
    other.handle_key(key(KeyCode::Esc, CONTROL));
    assert!(other.should_quit);
    let mut shifted = make_app();
    shifted.handle_key(key(KeyCode::Char('q'), SHIFT));
    assert!(!shifted.should_quit);
}

#[test]
fn s_stages_or_unstages_the_selected_file() {
    let unstaged = app(vec![file("a", false, true)], ui(40, Panel::Files));
    assert!(matches!(unstaged.toggle_selected_file_staged(), Command::Stage(p) if p == "a"));
    let staged = app(vec![file("a", true, false)], ui(40, Panel::Files));
    assert!(matches!(staged.toggle_selected_file_staged(), Command::Unstage(p) if p == "a"));
    let clean = app(vec![file("a", false, false)], ui(40, Panel::Files));
    assert!(is_refresh(&clean.toggle_selected_file_staged()));
    assert!(matches!(make_app().toggle_selected_file_staged(), Command::Nothing));
}

#[test]
fn shift_s_stages_everything_first() {
    let staged_only = app(vec![file("a", true, false)], ui(40, Panel::Files));
    assert!(matches!(staged_only.toggle_all_files_staged(), Command::UnstageAll));
    let clean = app(vec![file("a", false, false)], ui(40, Panel::Files));
    assert!(is_refresh(&clean.toggle_all_files_staged()));
    assert!(matches!(clean.unstage_all_changes(), Command::Nothing));
}

#[test]
fn git_errors_are_shown() {
    let mut app = make_app();
    let next = app.finish_git_action(Err("fatal: bad".to_string()));
    assert!(matches!(next, Command::Nothing));
    assert_eq!(app.error_message.as_deref(), Some("git error: fatal: bad"));
    app.finish_refresh(Err("no repo".to_string()));
    assert_eq!(app.error_message.as_deref(), Some("git error: no repo"));
    app.finish_refresh(Ok(RepoSnapshot::default()));
    assert_eq!(app.error_message, None);
}

#[test]
fn reloads_are_spaced_by_300_ms() {
    let mut app = App::new(".".to_string(), false, RepoSnapshot::default());
    assert!(app.refresh(5));
    assert!(!app.refresh(200));
    assert!(!app.refresh(304));
    assert!(app.refresh(305));
    assert_eq!(app.last_refresh_ms, Some(305));
}

#[test]
fn enter_hides_and_shows_the_selected_diff() {
    let mut app = app(vec![file("a.rs", false, true)], ui(3, Panel::Files));
    app.ui.diff_cursor = 2;
    app.handle_key(key(KeyCode::Enter, NO_MODIFIERS));
    assert!(app.ui.hidden_files.contains(&"a.rs".to_string()));
    assert_eq!(app.ui.diff_cursor, 0);
    assert!(app.selected_diff_request().is_none());
    app.handle_key(key(KeyCode::Enter, NO_MODIFIERS));
    assert!(!app.ui.hidden_files.contains(&"a.rs".to_string()));
    assert!(app.selected_diff_request().is_some());
}

#[test]
fn loaded_diffs_are_requested_once_and_then_shown() {
    let mut app = app(vec![file("a.rs", false, true)], ui(3, Panel::Diff));
    let job = app.ensure_selected_diff().expect("the selected diff should be requested");
    assert_eq!(job.request, request("a.rs"));
    assert!(!job.is_untracked);
    assert!(app.ensure_selected_diff().is_none());
    app.handle_loaded_diff(request("a.rs"), Ok(raw_lines(&["x", "y"])));
    assert!(!app.diff_store.is_loading(&request("a.rs")));
    assert_eq!(app.selected_diff().map(|d| d.lines.len()), Some(2));
    assert!(app.ensure_selected_diff().is_none());
}

#[test]
fn failed_diffs_show_the_error() {
    let mut app = app(vec![file("a.rs", false, true)], ui(3, Panel::Diff));
    app.handle_loaded_diff(request("a.rs"), Err("boom".to_string()));
    let diff = app.selected_diff().expect("the error is stored as the diff");
    assert_eq!(diff.lines[0].spans[0].content, "Error: boom");
    assert_eq!(diff.lines[0].spans[0].style, Style::fg(Color::Red));
    let direct = error_diff_content("x".to_string());
    assert_eq!(direct.lines.len(), 1);
    assert_eq!(direct.lines[0].spans[0].content, "Error: x");
}

#[test]
fn a_new_file_list_keeps_the_selected_path_and_forgets_missing_hidden_ones() {
    let mut app = app(vec![file("a", false, true), file("b", false, true), file("c", false, true)], ui(3, Panel::Files));
    app.ui.selected = 1;
    app.toggle_hidden();
    app.apply_snapshot(RepoSnapshot { branch: None, files: vec![file("x", false, true), file("b", false, true)] });
    assert_eq!(app.ui.selected, 1);
    assert!(app.ui.hidden_files.contains(&"b".to_string()));
    app.apply_snapshot(RepoSnapshot { branch: None, files: vec![file("x", false, true)] });
    assert_eq!(app.ui.selected, 0);
    assert!(!app.ui.hidden_files.contains(&"b".to_string()));
    app.apply_snapshot(RepoSnapshot::default());
    assert_eq!(app.ui.selected, 0);
}

#[test]
fn control_keys_move_half_a_panel() {
    let mut app = app(vec![file("a.rs", false, true)], ui(4, Panel::Diff));
    app.diff_store.insert(request("a.rs"), raw_lines(&["1", "2", "3", "4", "5", "6", "7", "8"]));
    app.handle_key(key(KeyCode::Char('d'), CONTROL));
    assert_eq!(app.ui.diff_cursor, 2);
    app.handle_key(key(KeyCode::Down, NO_MODIFIERS));
    assert_eq!(app.ui.diff_cursor, 3);
    app.handle_key(key(KeyCode::Char('u'), CONTROL));
    assert_eq!(app.ui.diff_cursor, 1);
    app.handle_key(key(KeyCode::Char('G'), NO_MODIFIERS));
    assert_eq!(app.ui.diff_cursor, 7);
    assert_eq!(app.ui.scroll_offset, 4);
}

#[test]
fn tab_switches_panels_only_with_the_sidebar() {
    let mut app = make_app();
    app.handle_key(key(KeyCode::Tab, NO_MODIFIERS));
    assert_eq!(app.ui.focus, Panel::Diff);
    app.handle_key(key(KeyCode::Left, NO_MODIFIERS));
    assert_eq!(app.ui.focus, Panel::Files);
    app.handle_key(key(KeyCode::Right, NO_MODIFIERS));
    assert_eq!(app.ui.focus, Panel::Diff);
    app.toggle_sidebar();
    app.handle_key(key(KeyCode::BackTab, SHIFT));
    assert_eq!(app.ui.focus, Panel::Diff);
}

#[test]
fn t_switches_the_layout_and_drops_rendered_diffs() {
    let mut app = app(vec![file("a.rs", false, true)], ui(3, Panel::Files));
    app.diff_store.insert(request("a.rs"), raw_lines(&["x"]));
    app.handle_key(key(KeyCode::Char('t'), NO_MODIFIERS));
    assert_eq!(app.ui.diff_mode, DiffMode::SideBySide);
    assert!(app.diff_store.is_empty());
    app.handle_key(key(KeyCode::Char('t'), NO_MODIFIERS));
    assert_eq!(app.ui.diff_mode, DiffMode::Inline);
}

#[test]
fn backspace_takes_back_a_typed_character() {
    let mut app = make_app();
    app.ui.commit_dialog = Some(CommitDialog::Composing { message: "wip".to_string() });
    app.handle_key(key(KeyCode::Char('é'), NO_MODIFIERS));
    assert_eq!(composing(&app).as_deref(), Some("wipé"));
    app.handle_key(key(KeyCode::Backspace, NO_MODIFIERS));
    assert_eq!(composing(&app).as_deref(), Some("wip"));
}

#[test]
fn the_help_overlay_swallows_other_keys() {
    let mut app = app(vec![file("a", false, true), file("b", false, true)], ui(40, Panel::Files));
    app.handle_key(key(KeyCode::Char('?'), SHIFT));
    assert!(app.ui.show_help);
    app.handle_key(key(KeyCode::Char('j'), NO_MODIFIERS));
    assert_eq!(app.ui.selected, 0);
    app.handle_key(key(KeyCode::Esc, NO_MODIFIERS));
    assert!(app.should_quit);
}
