//! The viewer's state and what each key does to it.
//!
//! The state is a plain value: the file list, the selection, the diff cursor
//! and scroll position, the hidden paths, the rendered diffs and the dialogs.
//! A key press changes the state and may ask for outside work, given back as
//! a [`Command`]: running git, committing, pushing, reloading the file list.
//! The caller performs it and hands the outcome back through the `finish_*`
//! methods, which may ask for more work in turn.

use vstd::prelude::*;
use crate::diff::{DiffContent, DiffMode, DiffRequest, DiffRequestView};
use crate::git::{FileStat, FileStatView, FileStatus, RepoSnapshot, RepoSnapshotView, opt_text, stat_views};
use crate::store::{DiffStore, PathSet, file_paths};
use crate::style::{Color, Line, Span, SpanView, Style, line_text, line_views, span_of};
use crate::text::{chars_of, push_char, push_str, string_from, trim_seq, trim_start_chars, trim_start_seq, trim_str};

verus! {

// ---------------------------------------------------------------------------
// Keys
// ---------------------------------------------------------------------------

/// The key of a key press.
#[derive(Debug, Clone, Copy, PartialEq, Eq, Structural)]
pub enum KeyCode {
    Backspace,
    Enter,
    Left,
    Right,
    Up,
    Down,
    Tab,
    BackTab,
    Esc,
    Char(char),
    /// Any key the viewer has no use for.
    Other,
}

/// No modifier key held.
pub const NO_MODIFIERS: u8 = 0;

/// Shift held.
pub const SHIFT: u8 = 1;

/// Control held.
pub const CONTROL: u8 = 2;

/// A key press: the key, and the modifier keys held as bits (shift, control,
/// alt, super, hyper and meta, from the lowest bit up).
#[derive(Debug, Clone, Copy, PartialEq, Eq)]
pub struct KeyEvent {
    pub code: KeyCode,
    pub modifiers: u8,
}

impl KeyEvent {
    pub fn new(code: KeyCode, modifiers: u8) -> (k: KeyEvent)
        ensures
            k == (KeyEvent { code, modifiers }),
    {
        KeyEvent { code, modifiers }
    }
}

/// Whether `k` is exactly `code` with exactly the modifiers `modifiers`.
pub open spec fn is_key(k: KeyEvent, code: KeyCode, modifiers: u8) -> bool {
    k.code == code && k.modifiers == modifiers
}

fn key_is(k: KeyEvent, c: char, modifiers: u8) -> (b: bool)
    ensures
        b == is_key(k, KeyCode::Char(c), modifiers),
{
    match k.code {
        KeyCode::Char(x) => x == c && k.modifiers == modifiers,
        _ => false,
    }
}

fn code_is_char(k: KeyEvent, c: char) -> (b: bool)
    ensures
        b == (k.code == KeyCode::Char(c)),
{
    match k.code {
        KeyCode::Char(x) => x == c,
        _ => false,
    }
}

/// `q` or Esc.
pub open spec fn quits(k: KeyEvent) -> bool {
    is_key(k, KeyCode::Char('q'), NO_MODIFIERS) || k.code == KeyCode::Esc
}

/// `h`, or `?` with shift.
pub open spec fn toggles_help(k: KeyEvent) -> bool {
    is_key(k, KeyCode::Char('h'), NO_MODIFIERS) || is_key(k, KeyCode::Char('?'), SHIFT)
}

/// `]` or `}`, whatever the modifiers.
pub open spec fn is_next_hunk_key(code: KeyCode) -> bool {
    code == KeyCode::Char(']') || code == KeyCode::Char('}')
}

/// `[` or `{`, whatever the modifiers.
pub open spec fn is_prev_hunk_key(code: KeyCode) -> bool {
    code == KeyCode::Char('[') || code == KeyCode::Char('{')
}

fn next_hunk_key(code: KeyCode) -> (b: bool)
    ensures
        b == is_next_hunk_key(code),
{
    match code {
        KeyCode::Char(c) => c == ']' || c == '}',
        _ => false,
    }
}

fn prev_hunk_key(code: KeyCode) -> (b: bool)
    ensures
        b == is_prev_hunk_key(code),
{
    match code {
        KeyCode::Char(c) => c == '[' || c == '{',
        _ => false,
    }
}

fn quit_key(k: KeyEvent) -> (b: bool)
    ensures
        b == quits(k),
{
    key_is(k, 'q', NO_MODIFIERS) || match k.code {
        KeyCode::Esc => true,
        _ => false,
    }
}

fn help_key(k: KeyEvent) -> (b: bool)
    ensures
        b == toggles_help(k),
{
    key_is(k, 'h', NO_MODIFIERS) || key_is(k, '?', SHIFT)
}

// ---------------------------------------------------------------------------
// State
// ---------------------------------------------------------------------------

/// Which panel has the keyboard.
#[derive(Debug, Clone, Copy, PartialEq, Eq, Structural)]
pub enum Panel {
    Files,
    Diff,
}

/// The commit dialog: the message being written, or the outcome of `git
/// commit`.
#[derive(Debug, Clone)]
pub enum CommitDialog {
    Composing { message: String },
    Result { output: String, succeeded: bool },
}

/// The push dialog: the outcome of `git push`.
#[derive(Debug, Clone)]
pub enum PushDialog {
    Result { output: String, succeeded: bool },
}

/// A dialog as values: the message being written, or an outcome's text and
/// whether it succeeded.
pub enum DialogView {
    Composing(Seq<char>),
    Outcome(Seq<char>, bool),
}

pub open spec fn commit_view(d: Option<CommitDialog>) -> Option<DialogView> {
    match d {
        Some(CommitDialog::Composing { message }) => Some(DialogView::Composing(message@)),
        Some(CommitDialog::Result { output, succeeded }) => Some(DialogView::Outcome(output@, succeeded)),
        None => None,
    }
}

pub open spec fn push_view(d: Option<PushDialog>) -> Option<DialogView> {
    match d {
        Some(PushDialog::Result { output, succeeded }) => Some(DialogView::Outcome(output@, succeeded)),
        None => None,
    }
}

/// What is on screen and how the user moves through it.
pub struct UiState {
    pub selected: usize,
    pub diff_cursor: usize,
    pub scroll_offset: usize,
    pub pending_g: bool,
    pub pending_space: bool,
    pub show_help: bool,
    pub show_sidebar: bool,
    pub hidden_files: PathSet,
    pub diff_mode: DiffMode,
    pub panel_width: u16,
    pub panel_height: u16,
    pub focus: Panel,
    pub commit_dialog: Option<CommitDialog>,
    pub push_dialog: Option<PushDialog>,
}

/// A [`UiState`] as values.
pub struct UiView {
    pub selected: usize,
    pub diff_cursor: usize,
    pub scroll_offset: usize,
    pub pending_g: bool,
    pub pending_space: bool,
    pub show_help: bool,
    pub show_sidebar: bool,
    pub hidden: Set<Seq<char>>,
    pub diff_mode: DiffMode,
    pub panel_width: u16,
    pub panel_height: u16,
    pub focus: Panel,
    pub commit_dialog: Option<DialogView>,
    pub push_dialog: Option<DialogView>,
}

impl View for UiState {
    type V = UiView;

    open spec fn view(&self) -> UiView {
        UiView {
            selected: self.selected,
            diff_cursor: self.diff_cursor,
            scroll_offset: self.scroll_offset,
            pending_g: self.pending_g,
            pending_space: self.pending_space,
            show_help: self.show_help,
            show_sidebar: self.show_sidebar,
            hidden: self.hidden_files@,
            diff_mode: self.diff_mode,
            panel_width: self.panel_width,
            panel_height: self.panel_height,
            focus: self.focus,
            commit_dialog: commit_view(self.commit_dialog),
            push_dialog: push_view(self.push_dialog),
        }
    }
}

/// The state the viewer starts in.
pub open spec fn initial_ui() -> UiView {
    UiView {
        selected: 0,
        diff_cursor: 0,
        scroll_offset: 0,
        pending_g: false,
        pending_space: false,
        show_help: false,
        show_sidebar: true,
        hidden: Set::empty(),
        diff_mode: DiffMode::Inline,
        panel_width: 80,
        panel_height: 40,
        focus: Panel::Files,
        commit_dialog: None,
        push_dialog: None,
    }
}

impl UiState {
    /// The state the viewer starts in: first file, top of its diff, file
    /// list shown and focused, inline layout, an 80 by 40 diff panel.
    pub fn new() -> (u: UiState)
        ensures
            u@ == initial_ui(),
    {
        UiState {
            selected: 0,
            diff_cursor: 0,
            scroll_offset: 0,
            pending_g: false,
            pending_space: false,
            show_help: false,
            show_sidebar: true,
            hidden_files: PathSet::new(),
            diff_mode: DiffMode::Inline,
            panel_width: 80,
            panel_height: 40,
            focus: Panel::Files,
            commit_dialog: None,
            push_dialog: None,
        }
    }
}

/// The whole state of the viewer.
pub struct App {
    pub repo_root: String,
    pub show_unstaged_only: bool,
    pub snapshot: RepoSnapshot,
    pub ui: UiState,
    pub diff_store: DiffStore,
    /// When the file list was last reloaded, in milliseconds on the caller's
    /// clock; `None` before the first reload.
    pub last_refresh_ms: Option<u64>,
    pub should_quit: bool,
    pub error_message: Option<String>,
}

/// An [`App`] as values.
pub struct AppView {
    pub repo_root: Seq<char>,
    pub show_unstaged_only: bool,
    pub snapshot: RepoSnapshotView,
    pub ui: UiView,
    pub cache: Map<DiffRequestView, Seq<Seq<SpanView>>>,
    pub loading: Set<DiffRequestView>,
    pub last_refresh_ms: Option<u64>,
    pub should_quit: bool,
    pub error_message: Option<Seq<char>>,
}

impl View for App {
    type V = AppView;

    open spec fn view(&self) -> AppView {
        AppView {
            repo_root: self.repo_root@,
            show_unstaged_only: self.show_unstaged_only,
            snapshot: self.snapshot@,
            ui: self.ui@,
            cache: self.diff_store.cached(),
            loading: self.diff_store.pending(),
            last_refresh_ms: self.last_refresh_ms,
            should_quit: self.should_quit,
            error_message: opt_text(self.error_message),
        }
    }
}

/// Outside work that a key press or an outcome asks for.
#[derive(Debug, Clone)]
pub enum Command {
    Nothing,
    /// Reload the file list now (stamping the time with
    /// [`App::force_refresh`]) and hand it to [`App::finish_refresh`].
    Refresh,
    /// Stage this path.
    Stage(String),
    /// Unstage this path.
    Unstage(String),
    StageAll,
    UnstageAll,
    /// Commit the staged changes with this message.
    Commit(String),
    Push,
}

/// A [`Command`] as values.
pub enum CommandView {
    Nothing,
    Refresh,
    Stage(Seq<char>),
    Unstage(Seq<char>),
    StageAll,
    UnstageAll,
    Commit(Seq<char>),
    Push,
}

impl View for Command {
    type V = CommandView;

    open spec fn view(&self) -> CommandView {
        match self {
            Command::Nothing => CommandView::Nothing,
            Command::Refresh => CommandView::Refresh,
            Command::Stage(p) => CommandView::Stage(p@),
            Command::Unstage(p) => CommandView::Unstage(p@),
            Command::StageAll => CommandView::StageAll,
            Command::UnstageAll => CommandView::UnstageAll,
            Command::Commit(m) => CommandView::Commit(m@),
            Command::Push => CommandView::Push,
        }
    }
}

/// A diff to render in the background: the request, whether the file is
/// untracked, and whether only unstaged changes are shown.
pub struct DiffJob {
    pub request: DiffRequest,
    pub is_untracked: bool,
    pub show_unstaged_only: bool,
}

// ---------------------------------------------------------------------------
// The state as values
// ---------------------------------------------------------------------------

/// The selected file, if the selection is on one.
pub open spec fn selected_file(v: AppView) -> Option<FileStatView> {
    if v.ui.selected < v.snapshot.files.len() {
        Some(v.snapshot.files[v.ui.selected as int])
    } else {
        None
    }
}

/// The diff the selection asks for: none when no file is selected or its
/// diff is hidden.
pub open spec fn selected_request(v: AppView) -> Option<DiffRequestView> {
    match selected_file(v) {
        Some(f) => if v.ui.hidden.contains(f.path) {
            None
        } else {
            Some(DiffRequestView { path: f.path, panel_width: v.ui.panel_width, mode: v.ui.diff_mode })
        },
        None => None,
    }
}

/// The lines of the selected diff, when it has been rendered.
pub open spec fn selected_lines(v: AppView) -> Option<Seq<Seq<SpanView>>> {
    match selected_request(v) {
        Some(r) => if v.cache.contains_key(r) {
            Some(v.cache[r])
        } else {
            None
        },
        None => None,
    }
}

/// How many lines the diff panel counts: those of the selected diff, or one
/// while there is none.
pub open spec fn diff_len(v: AppView) -> nat {
    match selected_lines(v) {
        Some(l) => l.len(),
        None => 1,
    }
}

/// `a + b`, held at `usize::MAX`.
pub open spec fn sat_add(a: nat, b: nat) -> nat {
    if a + b <= usize::MAX {
        a + b
    } else {
        usize::MAX as nat
    }
}

/// `a - b`, held at zero.
pub open spec fn sat_sub(a: nat, b: nat) -> nat {
    if a >= b {
        (a - b) as nat
    } else {
        0
    }
}

pub open spec fn min_nat(a: nat, b: nat) -> nat {
    if a <= b {
        a
    } else {
        b
    }
}

/// The first line shown so that the cursor line is on screen, moving the
/// view as little as possible and never past the last full screen; zero for
/// a panel without height.
pub open spec fn synced_scroll(cursor: nat, scroll: nat, height: nat, len: nat) -> nat {
    if height == 0 {
        0
    } else {
        let s = if cursor < scroll {
            cursor
        } else if cursor >= sat_add(scroll, height) {
            sat_sub(sat_add(cursor, 1), height)
        } else {
            scroll
        };
        min_nat(s, sat_sub(len, height))
    }
}

pub open spec fn with_ui(v: AppView, u: UiView) -> AppView {
    AppView { ui: u, ..v }
}

pub open spec fn with_cursor(v: AppView, c: nat) -> AppView {
    with_ui(v, UiView { diff_cursor: c as usize, ..v.ui })
}

pub open spec fn with_selected(v: AppView, s: nat) -> AppView {
    with_ui(v, UiView { selected: s as usize, ..v.ui })
}

pub open spec fn with_focus(v: AppView, f: Panel) -> AppView {
    with_ui(v, UiView { focus: f, ..v.ui })
}

/// The view moved so that the cursor line shows.
pub open spec fn spec_sync_viewport(v: AppView) -> AppView {
    with_ui(
        v,
        UiView {
            scroll_offset: synced_scroll(
                v.ui.diff_cursor as nat,
                v.ui.scroll_offset as nat,
                v.ui.panel_height as nat,
                diff_len(v),
            ) as usize,
            ..v.ui
        },
    )
}

/// The cursor kept within the diff, then the view moved to it.
pub open spec fn spec_sync_position(v: AppView) -> AppView {
    spec_sync_viewport(with_cursor(v, min_nat(v.ui.diff_cursor as nat, sat_sub(diff_len(v), 1))))
}

/// Cursor and view back at the top of the diff.
pub open spec fn spec_reset_position(v: AppView) -> AppView {
    with_ui(v, UiView { diff_cursor: 0, scroll_offset: 0, ..v.ui })
}

pub open spec fn spec_scroll_down(v: AppView, amount: nat) -> AppView {
    spec_sync_viewport(
        with_cursor(v, min_nat(sat_add(v.ui.diff_cursor as nat, amount), sat_sub(diff_len(v), 1))),
    )
}

pub open spec fn spec_scroll_up(v: AppView, amount: nat) -> AppView {
    spec_sync_viewport(with_cursor(v, sat_sub(v.ui.diff_cursor as nat, amount)))
}

pub open spec fn spec_move_down(v: AppView) -> AppView {
    if v.ui.selected + 1 < v.snapshot.files.len() {
        spec_reset_position(with_selected(v, (v.ui.selected + 1) as nat))
    } else {
        v
    }
}

pub open spec fn spec_move_up(v: AppView) -> AppView {
    if v.ui.selected > 0 {
        spec_reset_position(with_selected(v, (v.ui.selected - 1) as nat))
    } else {
        v
    }
}

pub open spec fn spec_jump_top(v: AppView) -> AppView {
    spec_reset_position(with_selected(v, 0))
}

pub open spec fn spec_jump_bottom(v: AppView) -> AppView {
    if v.snapshot.files.len() > 0 {
        spec_reset_position(with_selected(v, (v.snapshot.files.len() - 1) as nat))
    } else {
        v
    }
}

/// Hiding or showing the selected file's diff; hiding also puts the cursor
/// back at the top.
pub open spec fn spec_toggle_hidden(v: AppView) -> AppView {
    match selected_file(v) {
        Some(f) => if v.ui.hidden.contains(f.path) {
            with_ui(v, UiView { hidden: v.ui.hidden.remove(f.path), ..v.ui })
        } else {
            spec_reset_position(with_ui(v, UiView { hidden: v.ui.hidden.insert(f.path), ..v.ui }))
        },
        None => v,
    }
}

/// No rendered diffs and nothing being rendered.
pub open spec fn cleared(v: AppView) -> AppView {
    AppView { cache: Map::empty(), loading: Set::empty(), ..v }
}

pub open spec fn spec_toggle_diff_mode(v: AppView) -> AppView {
    spec_reset_position(cleared(with_ui(v, UiView { diff_mode: v.ui.diff_mode.spec_toggle(), ..v.ui })))
}

pub open spec fn spec_toggle_unstaged_only(v: AppView) -> AppView {
    cleared(AppView { show_unstaged_only: !v.show_unstaged_only, ..v })
}

pub open spec fn spec_toggle_sidebar(v: AppView) -> AppView {
    let shown = !v.ui.show_sidebar;
    with_ui(v, UiView { show_sidebar: shown, focus: if shown { v.ui.focus } else { Panel::Diff }, ..v.ui })
}

pub open spec fn spec_jump_to_panel_top(v: AppView) -> AppView {
    match v.ui.focus {
        Panel::Files => spec_jump_top(v),
        Panel::Diff => spec_sync_viewport(with_cursor(v, 0)),
    }
}

// ---------------------------------------------------------------------------
// Navigation
// ---------------------------------------------------------------------------

impl App {
    /// A viewer of `repo_root` showing `snapshot`, in the starting state,
    /// never reloaded yet.
    pub fn new(repo_root: String, show_unstaged_only: bool, snapshot: RepoSnapshot) -> (a: App)
        ensures
            a@.repo_root == repo_root@,
            a@.show_unstaged_only == show_unstaged_only,
            a@.snapshot == snapshot@,
            a@.ui == initial_ui(),
            a@.cache == Map::<DiffRequestView, Seq<Seq<SpanView>>>::empty(),
            a@.loading == Set::<DiffRequestView>::empty(),
            a@.last_refresh_ms == None::<u64>,
            !a@.should_quit,
            a@.error_message == None::<Seq<char>>,
    {
        App {
            repo_root,
            show_unstaged_only,
            snapshot,
            ui: UiState::new(),
            diff_store: DiffStore::new(),
            last_refresh_ms: None,
            should_quit: false,
            error_message: None,
        }
    }

    /// The changed files shown.
    pub fn files(&self) -> (f: &[FileStat])
        ensures
            stat_views(f@) == self@.snapshot.files,
    {
        self.snapshot.files.as_slice()
    }

    /// The selected file, if the selection is on one.
    pub fn selected_file(&self) -> (r: Option<&FileStat>)
        ensures
            match r {
                Some(f) => selected_file(self@) == Some(f@),
                None => selected_file(self@) == None::<FileStatView>,
            },
    {
        if self.ui.selected < self.snapshot.files.len() {
            Some(&self.snapshot.files[self.ui.selected])
        } else {
            None
        }
    }

    /// The diff the selection asks for, if any.
    pub fn selected_diff_request(&self) -> (r: Option<DiffRequest>)
        ensures
            match r {
                Some(q) => selected_request(self@) == Some(q@),
                None => selected_request(self@) == None::<DiffRequestView>,
            },
    {
        match self.selected_file() {
            Some(file) => {
                if self.ui.hidden_files.contains(&file.path) {
                    None
                } else {
                    Some(DiffRequest { path: file.path.clone(), panel_width: self.ui.panel_width, mode: self.ui.diff_mode })
                }
            },
            None => None,
        }
    }

    /// The selected diff, when it has been rendered.
    pub fn selected_diff(&self) -> (r: Option<&DiffContent>)
        ensures
            match r {
                Some(d) => selected_lines(self@) == Some(d@),
                None => selected_lines(self@) == None::<Seq<Seq<SpanView>>>,
            },
    {
        match self.selected_diff_request() {
            Some(request) => self.diff_store.get(&request),
            None => None,
        }
    }

    /// How many lines the diff panel counts.
    pub fn selected_diff_len(&self) -> (n: usize)
        ensures
            n == diff_len(self@),
    {
        match self.selected_diff() {
            Some(d) => d.lines.len(),
            None => 1,
        }
    }

    /// Moves the view so that the cursor line shows.
    pub fn sync_diff_viewport(&mut self)
        ensures
            final(self)@ == spec_sync_viewport(old(self)@),
    {
        let height = self.ui.panel_height as usize;
        if height == 0 {
            self.ui.scroll_offset = 0;
            return;
        }
        let max_scroll = self.selected_diff_len().saturating_sub(height);
        let cursor = self.ui.diff_cursor;
        let mut scroll = self.ui.scroll_offset;
        if cursor < scroll {
            scroll = cursor;
        } else {
            let visible_end = scroll.saturating_add(height);
            if cursor >= visible_end {
                scroll = cursor.saturating_add(1).saturating_sub(height);
            }
        }
        if scroll > max_scroll {
            scroll = max_scroll;
        }
        self.ui.scroll_offset = scroll;
    }

    /// Keeps the cursor within the diff and moves the view to it.
    pub fn sync_diff_position(&mut self)
        ensures
            final(self)@ == spec_sync_position(old(self)@),
    {
        let max_cursor = self.selected_diff_len().saturating_sub(1);
        if self.ui.diff_cursor > max_cursor {
            self.ui.diff_cursor = max_cursor;
        }
        self.sync_diff_viewport();
    }

    /// Puts cursor and view back at the top of the diff.
    pub fn reset_diff_position(&mut self)
        ensures
            final(self)@ == spec_reset_position(old(self)@),
    {
        self.ui.diff_cursor = 0;
        self.ui.scroll_offset = 0;
    }

    /// Moves the cursor `amount` lines down, not past the last line.
    pub fn scroll_down(&mut self, amount: usize)
        ensures
            final(self)@ == spec_scroll_down(old(self)@, amount as nat),
    {
        let max_cursor = self.selected_diff_len().saturating_sub(1);
        let mut cursor = self.ui.diff_cursor.saturating_add(amount);
        if cursor > max_cursor {
            cursor = max_cursor;
        }
        self.ui.diff_cursor = cursor;
        self.sync_diff_viewport();
    }

    /// Moves the cursor `amount` lines up, not past the first line.
    pub fn scroll_up(&mut self, amount: usize)
        ensures
            final(self)@ == spec_scroll_up(old(self)@, amount as nat),
    {
        self.ui.diff_cursor = self.ui.diff_cursor.saturating_sub(amount);
        self.sync_diff_viewport();
    }

    /// Selects the next file, if there is one.
    pub fn move_down(&mut self)
        ensures
            final(self)@ == spec_move_down(old(self)@),
    {
        if self.ui.selected < self.snapshot.files.len() && self.snapshot.files.len() - self.ui.selected > 1 {
            self.ui.selected = self.ui.selected + 1;
            self.reset_diff_position();
        }
    }

    /// Selects the previous file, if there is one.
    pub fn move_up(&mut self)
        ensures
            final(self)@ == spec_move_up(old(self)@),
    {
        if self.ui.selected > 0 {
            self.ui.selected = self.ui.selected - 1;
            self.reset_diff_position();
        }
    }

    /// Selects the first file.
    pub fn jump_top(&mut self)
        ensures
            final(self)@ == spec_jump_top(old(self)@),
    {
        self.ui.selected = 0;
        self.reset_diff_position();
    }

    /// Selects the last file, if there is one.
    pub fn jump_bottom(&mut self)
        ensures
            final(self)@ == spec_jump_bottom(old(self)@),
    {
        if self.snapshot.files.len() > 0 {
            self.ui.selected = self.snapshot.files.len() - 1;
            self.reset_diff_position();
        }
    }

    /// Hides the selected file's diff, or shows it again.
    pub fn toggle_hidden(&mut self)
        ensures
            final(self)@ == spec_toggle_hidden(old(self)@),
    {
        if self.ui.selected < self.snapshot.files.len() {
            let path = self.snapshot.files[self.ui.selected].path.clone();
            if self.ui.hidden_files.contains(&path) {
                self.ui.hidden_files.remove(&path);
            } else {
                self.ui.hidden_files.insert(path);
                self.reset_diff_position();
            }
        }
    }

    /// Switches between the inline and the side-by-side layout; every
    /// rendered diff is dropped.
    pub fn toggle_diff_mode(&mut self)
        ensures
            final(self)@ == spec_toggle_diff_mode(old(self)@),
    {
        self.ui.diff_mode = self.ui.diff_mode.toggle();
        self.diff_store.clear();
        self.reset_diff_position();
    }

    /// Switches between all changes and unstaged changes only; every
    /// rendered diff is dropped and the file list must be reloaded.
    pub fn toggle_unstaged_only(&mut self) -> (c: Command)
        ensures
            final(self)@ == spec_toggle_unstaged_only(old(self)@),
            c@ == CommandView::Refresh,
    {
        self.show_unstaged_only = !self.show_unstaged_only;
        self.diff_store.clear();
        Command::Refresh
    }

    /// Shows or hides the file list; hiding it gives the diff the keyboard.
    pub fn toggle_sidebar(&mut self)
        ensures
            final(self)@ == spec_toggle_sidebar(old(self)@),
    {
        self.ui.show_sidebar = !self.ui.show_sidebar;
        if !self.ui.show_sidebar {
            self.ui.focus = Panel::Diff;
        }
    }

    /// `gg`: the first file, or the top of the diff.
    pub fn jump_to_panel_top(&mut self)
        ensures
            final(self)@ == spec_jump_to_panel_top(old(self)@),
    {
        match self.ui.focus {
            Panel::Files => self.jump_top(),
            Panel::Diff => {
                self.ui.diff_cursor = 0;
                self.sync_diff_viewport();
            },
        }
    }
}


// ---------------------------------------------------------------------------
// Hunks
// ---------------------------------------------------------------------------

/// Whether `s` begins with `p`.
pub open spec fn starts_with(s: Seq<char>, p: Seq<char>) -> bool {
    p.len() <= s.len() && s.take(p.len() as int) == p
}

/// Whether a line opens a hunk: after leading white space it begins with
/// `@@` (a unified diff's hunk header) or `───` (a structural diff's).
pub open spec fn is_hunk_header(l: Seq<SpanView>) -> bool {
    let t = trim_start_seq(line_text(l));
    starts_with(t, "@@"@) || starts_with(t, "───"@)
}

/// The colours of added text.
pub open spec fn is_addition_color(c: Option<Color>) -> bool {
    c == Some(Color::Green) || c == Some(Color::LightGreen) || c == Some(Color::Indexed(2)) || c == Some(
        Color::Indexed(10),
    )
}

/// The colours of deleted text.
pub open spec fn is_deletion_color(c: Option<Color>) -> bool {
    c == Some(Color::Red) || c == Some(Color::LightRed) || c == Some(Color::Indexed(1)) || c == Some(
        Color::Indexed(9),
    )
}

/// Whether a line shows a change: one of its spans is drawn in an addition
/// or a deletion colour.
pub open spec fn is_change_line(l: Seq<SpanView>) -> bool {
    exists|i: int| 0 <= i < l.len() && (is_addition_color(#[trigger] l[i].style.fg) || is_deletion_color(l[i].style.fg))
}

/// The hunk headers among the first `n` lines, by index.
pub open spec fn header_offsets(lines: Seq<Seq<SpanView>>, n: nat) -> Seq<usize>
    decreases n,
{
    if n == 0 {
        Seq::empty()
    } else {
        let prev = header_offsets(lines, (n - 1) as nat);
        if is_hunk_header(lines[n - 1]) {
            prev.push((n - 1) as usize)
        } else {
            prev
        }
    }
}

/// The first lines of the runs of changed lines among the first `n` lines.
pub open spec fn block_offsets(lines: Seq<Seq<SpanView>>, n: nat) -> Seq<usize>
    decreases n,
{
    if n == 0 {
        Seq::empty()
    } else {
        let prev = block_offsets(lines, (n - 1) as nat);
        let i = n - 1;
        if is_change_line(lines[i]) && (i == 0 || !is_change_line(lines[i - 1])) {
            prev.push(i as usize)
        } else {
            prev
        }
    }
}

/// Where the hunks of a diff begin: at its hunk headers, or, in a diff
/// without any, at the start of each run of changed lines.
pub open spec fn hunk_offsets(lines: Seq<Seq<SpanView>>) -> Seq<usize> {
    let headers = header_offsets(lines, lines.len());
    if headers.len() > 0 {
        headers
    } else {
        block_offsets(lines, lines.len())
    }
}

/// The first offset after `c`.
pub open spec fn first_after(s: Seq<usize>, c: usize) -> Option<usize>
    decreases s.len(),
{
    if s.len() == 0 {
        None
    } else if s[0] > c {
        Some(s[0])
    } else {
        first_after(s.drop_first(), c)
    }
}

/// The last offset before `c`.
pub open spec fn last_before(s: Seq<usize>, c: usize) -> Option<usize>
    decreases s.len(),
{
    if s.len() == 0 {
        None
    } else if s.last() < c {
        Some(s.last())
    } else {
        last_before(s.drop_last(), c)
    }
}

/// The hunk offsets of the selected diff; none while it is not rendered.
pub open spec fn selected_hunks(v: AppView) -> Seq<usize> {
    match selected_lines(v) {
        Some(l) => hunk_offsets(l),
        None => Seq::empty(),
    }
}

pub open spec fn spec_jump_next_hunk(v: AppView) -> AppView {
    match first_after(selected_hunks(v), v.ui.diff_cursor) {
        Some(o) => spec_sync_viewport(with_cursor(v, o as nat)),
        None => v,
    }
}

pub open spec fn spec_jump_prev_hunk(v: AppView) -> AppView {
    match last_before(selected_hunks(v), v.ui.diff_cursor) {
        Some(o) => spec_sync_viewport(with_cursor(v, o as nat)),
        None => v,
    }
}

fn text_of_line(line: &Line) -> (t: Vec<char>)
    ensures
        t@ == line_text(line@),
{
    let ghost l = line@;
    let mut t: Vec<char> = Vec::new();
    let mut i: usize = 0;
    while i < line.spans.len()
        invariant
            i <= line.spans.len(),
            l == line@,
            l.len() == line.spans.len(),
            t@ == line_text(l.take(i as int)),
        decreases line.spans.len() - i,
    {
        assert(l.take(i + 1).drop_last() =~= l.take(i as int));
        assert(l[i as int] == line.spans@[i as int]@);
        let mut piece = chars_of(line.spans[i].content.as_str());
        t.append(&mut piece);
        i += 1;
    }
    assert(l.take(line.spans.len() as int) =~= l);
    t
}

pub(crate) fn addition_color(c: Option<Color>) -> (b: bool)
    ensures
        b == is_addition_color(c),
{
    match c {
        Some(Color::Green) => true,
        Some(Color::LightGreen) => true,
        Some(Color::Indexed(n)) => n == 2 || n == 10,
        _ => false,
    }
}

pub(crate) fn deletion_color(c: Option<Color>) -> (b: bool)
    ensures
        b == is_deletion_color(c),
{
    match c {
        Some(Color::Red) => true,
        Some(Color::LightRed) => true,
        Some(Color::Indexed(n)) => n == 1 || n == 9,
        _ => false,
    }
}

/// Whether a line shows a change.
pub fn change_line(line: &Line) -> (b: bool)
    ensures
        b == is_change_line(line@),
{
    let ghost l = line@;
    let mut i: usize = 0;
    while i < line.spans.len()
        invariant
            i <= line.spans.len(),
            l == line@,
            l.len() == line.spans.len(),
            forall|k: int| 0 <= k < i ==> !(is_addition_color(#[trigger] l[k].style.fg) || is_deletion_color(l[k].style.fg)),
        decreases line.spans.len() - i,
    {
        let fg = line.spans[i].style.fg;
        assert(l[i as int].style.fg == fg);
        if addition_color(fg) || deletion_color(fg) {
            return true;
        }
        i += 1;
    }
    false
}

/// Whether a line opens a hunk.
pub fn hunk_header(line: &Line) -> (b: bool)
    ensures
        b == is_hunk_header(line@),
{
    let text = text_of_line(line);
    let t = trim_start_chars(text.as_slice());
    proof {
        reveal_strlit("@@");
        reveal_strlit("───");
        assert("@@"@ =~= seq!['@', '@']);
        assert("───"@ =~= seq!['─', '─', '─']);
        if t.len() >= 2 {
            assert(t@.take(2) =~= seq![t@[0], t@[1]]);
        }
        if t.len() >= 3 {
            assert(t@.take(3) =~= seq![t@[0], t@[1], t@[2]]);
        }
    }
    (t.len() >= 2 && t[0] == '@' && t[1] == '@') || (t.len() >= 3 && t[0] == '─' && t[1] == '─' && t[2] == '─')
}

/// Where the hunks of a rendered diff begin, by line index.
pub fn hunk_offsets_of(lines: &[Line]) -> (v: Vec<usize>)
    ensures
        v@ == hunk_offsets(line_views(lines@)),
{
    let ghost ls = line_views(lines@);
    let mut headers: Vec<usize> = Vec::new();
    let mut blocks: Vec<usize> = Vec::new();
    let mut previous_changed = false;
    let mut i: usize = 0;
    while i < lines.len()
        invariant
            i <= lines.len(),
            ls == line_views(lines@),
            ls.len() == lines.len(),
            headers@ == header_offsets(ls, i as nat),
            blocks@ == block_offsets(ls, i as nat),
            previous_changed == (i > 0 && is_change_line(ls[i - 1])),
        decreases lines.len() - i,
    {
        assert(ls[i as int] == lines@[i as int]@);
        if hunk_header(&lines[i]) {
            headers.push(i);
        }
        let changed = change_line(&lines[i]);
        if changed && !previous_changed {
            blocks.push(i);
        }
        previous_changed = changed;
        i += 1;
    }
    if headers.len() > 0 {
        headers
    } else {
        blocks
    }
}

fn first_offset_after(s: &[usize], c: usize) -> (r: Option<usize>)
    ensures
        r == first_after(s@, c),
{
    let mut i: usize = 0;
    assert(s@.skip(0) =~= s@);
    while i < s.len()
        invariant
            i <= s.len(),
            first_after(s@, c) == first_after(s@.skip(i as int), c),
        decreases s.len() - i,
    {
        assert(s@.skip(i as int)[0] == s@[i as int]);
        if s[i] > c {
            return Some(s[i]);
        }
        assert(s@.skip(i as int).drop_first() =~= s@.skip(i + 1));
        i += 1;
    }
    assert(s@.skip(i as int) =~= Seq::<usize>::empty());
    None
}

fn last_offset_before(s: &[usize], c: usize) -> (r: Option<usize>)
    ensures
        r == last_before(s@, c),
{
    let mut i: usize = s.len();
    assert(s@.take(s.len() as int) =~= s@);
    while i > 0
        invariant
            i <= s.len(),
            last_before(s@, c) == last_before(s@.take(i as int), c),
        decreases i,
    {
        assert(s@.take(i as int).last() == s@[i - 1]);
        if s[i - 1] < c {
            return Some(s[i - 1]);
        }
        assert(s@.take(i as int).drop_last() =~= s@.take(i - 1));
        i -= 1;
    }
    assert(s@.take(0) =~= Seq::<usize>::empty());
    None
}

/// What the diff panel shows when rendering a diff failed.
pub open spec fn error_lines(error: Seq<char>) -> Seq<Seq<SpanView>> {
    seq![seq![span_of("Error: "@ + error, Style::spec_fg(Color::Red))]]
}

/// The diff shown in place of one that could not be rendered: the error in
/// red.
pub fn error_diff_content(error: String) -> (d: DiffContent)
    ensures
        d@ == error_lines(error@),
{
    let mut text = "Error: ".to_owned();
    push_str(&mut text, error.as_str());
    let mut lines: Vec<Line> = Vec::new();
    lines.push(Line::from_span(Span::new(text, Style::fg(Color::Red))));
    assert(line_views(lines@) =~= error_lines(error@));
    DiffContent { lines }
}

/// The store after a rendered diff (or the error in its place) came back.
pub open spec fn spec_handle_loaded(v: AppView, r: DiffRequestView, content: Seq<Seq<SpanView>>) -> AppView {
    AppView { cache: v.cache.insert(r, content), loading: v.loading.remove(r), ..v }
}

/// The diff to start rendering for the selection: none when the selection
/// asks for none, or its diff is rendered or being rendered.
pub open spec fn wanted_request(v: AppView) -> Option<DiffRequestView> {
    match selected_request(v) {
        Some(r) => if v.cache.contains_key(r) || v.loading.contains(r) {
            None
        } else {
            Some(r)
        },
        None => None,
    }
}

impl App {
    /// Where the hunks of the selected diff begin; none while it is not
    /// rendered.
    pub fn diff_hunk_offsets(&self) -> (v: Vec<usize>)
        ensures
            v@ == selected_hunks(self@),
    {
        match self.selected_diff() {
            Some(d) => hunk_offsets_of(d.lines.as_slice()),
            None => Vec::new(),
        }
    }

    /// Moves the cursor to the next hunk after it, if there is one.
    pub fn jump_next_hunk(&mut self)
        ensures
            final(self)@ == spec_jump_next_hunk(old(self)@),
    {
        let hunks = self.diff_hunk_offsets();
        match first_offset_after(hunks.as_slice(), self.ui.diff_cursor) {
            Some(offset) => {
                self.ui.diff_cursor = offset;
                self.sync_diff_viewport();
            },
            None => {},
        }
    }

    /// Moves the cursor to the last hunk before it, if there is one.
    pub fn jump_prev_hunk(&mut self)
        ensures
            final(self)@ == spec_jump_prev_hunk(old(self)@),
    {
        let hunks = self.diff_hunk_offsets();
        match last_offset_before(hunks.as_slice(), self.ui.diff_cursor) {
            Some(offset) => {
                self.ui.diff_cursor = offset;
                self.sync_diff_viewport();
            },
            None => {},
        }
    }

    /// Stores a rendered diff, or the error in its place, and notes that
    /// its request is done.
    pub fn handle_loaded_diff(&mut self, request: DiffRequest, result: Result<DiffContent, String>)
        ensures
            final(self)@ == spec_handle_loaded(
                old(self)@,
                request@,
                match result {
                    Ok(c) => c@,
                    Err(e) => error_lines(e@),
                },
            ),
    {
        self.diff_store.finish_loading(&request);
        let content = match result {
            Ok(content) => content,
            Err(error) => error_diff_content(error),
        };
        self.diff_store.insert(request, content);
    }

    /// Starts rendering the selected diff, unless it is rendered or being
    /// rendered already: gives the job to run in the background.
    pub fn ensure_selected_diff(&mut self) -> (j: Option<DiffJob>)
        ensures
            match wanted_request(old(self)@) {
                Some(r) => j matches Some(job) && job.request@ == r
                    && job.is_untracked == (selected_file(old(self)@).unwrap().status == FileStatus::Untracked)
                    && job.show_unstaged_only == old(self)@.show_unstaged_only
                    && final(self)@ == (AppView { loading: old(self)@.loading.insert(r), ..old(self)@ }),
                None => j is None && final(self)@ == old(self)@,
            },
    {
        let request = match self.selected_diff_request() {
            Some(r) => r,
            None => return None,
        };
        if self.diff_store.contains(&request) || self.diff_store.is_loading(&request) {
            return None;
        }
        let is_untracked = self.snapshot.files[self.ui.selected].status.is_untracked();
        self.diff_store.start_loading(request.duplicate());
        Some(DiffJob { request, is_untracked, show_unstaged_only: self.show_unstaged_only })
    }
}


// ---------------------------------------------------------------------------
// Reloading the file list
// ---------------------------------------------------------------------------

/// Where the first file with path `p` sits.
pub open spec fn first_index_of(files: Seq<FileStatView>, p: Seq<char>) -> int {
    choose|i: int| 0 <= i < files.len() && files[i].path == p && forall|k: int| 0 <= k < i ==> files[k].path != p
}

/// Whether the selection is on a file, or on the first place of an empty
/// list.
pub open spec fn selection_in_range(v: AppView) -> bool {
    if v.snapshot.files.len() == 0 {
        v.ui.selected == 0
    } else {
        v.ui.selected < v.snapshot.files.len()
    }
}

/// A new file list taking the place of the old one: hidden paths that are
/// no longer listed are forgotten; the selection follows the selected path
/// where it is still listed, else stays where it was within the list; the
/// cursor is kept within the selected diff.
pub open spec fn spec_apply_snapshot(v: AppView, s: RepoSnapshotView) -> AppView {
    let w = AppView { snapshot: s, ui: UiView { hidden: v.ui.hidden.intersect(file_paths(s.files)), ..v.ui }, ..v };
    match selection_after(v, s) {
        None => spec_reset_position(with_selected(w, 0)),
        Some(i) => spec_sync_position(with_selected(w, i)),
    }
}

/// Where the selection goes in a new file list: nowhere in an empty list;
/// to the selected path where it is still listed; else where it was, or to
/// the last file if the list got shorter.
pub open spec fn selection_after(v: AppView, s: RepoSnapshotView) -> Option<nat> {
    let follows = match selected_file(v) {
        Some(f) => file_paths(s.files).contains(f.path),
        None => false,
    };
    if s.files.len() == 0 {
        None
    } else if follows {
        Some(first_index_of(s.files, selected_file(v).unwrap().path) as nat)
    } else if v.ui.selected >= s.files.len() {
        Some((s.files.len() - 1) as nat)
    } else {
        Some(v.ui.selected as nat)
    }
}

/// Whether a reload is due at `now`: always before the first, else once at
/// least 300 ms have passed since the last.
pub open spec fn refresh_due(last: Option<u64>, now: u64) -> bool {
    match last {
        None => true,
        Some(t) => sat_sub(now as nat, t as nat) >= 300,
    }
}

pub open spec fn with_refresh_time(v: AppView, now: u64) -> AppView {
    AppView { last_refresh_ms: Some(now), ..v }
}

/// The message shown for a failed git step.
pub open spec fn git_error_text(e: Seq<char>) -> Seq<char> {
    "git error: "@ + e
}

/// The state after a reload: the new list applied, every rendered diff
/// dropped if the list changed, the error cleared; or, when the reload
/// failed, its error shown.
pub open spec fn spec_finish_refresh(v: AppView, result: Result<RepoSnapshotView, Seq<char>>) -> AppView {
    match result {
        Ok(s) => {
            let a = spec_apply_snapshot(v, s);
            let b = if s != v.snapshot {
                cleared(a)
            } else {
                a
            };
            AppView { error_message: None, ..b }
        },
        Err(e) => AppView { error_message: Some(git_error_text(e)), ..v },
    }
}

fn position_of(files: &[FileStat], path: &String) -> (r: Option<usize>)
    ensures
        match r {
            Some(i) => file_paths(stat_views(files@)).contains(path@) && i == first_index_of(stat_views(files@), path@)
                && i < files.len(),
            None => !file_paths(stat_views(files@)).contains(path@),
        },
{
    let ghost fs = stat_views(files@);
    let mut i: usize = 0;
    while i < files.len()
        invariant
            i <= files.len(),
            fs == stat_views(files@),
            forall|k: int| 0 <= k < i ==> fs[k].path != path@,
        decreases files.len() - i,
    {
        if files[i].path == *path {
            proof {
                assert(fs[i as int].path == path@);
                let j = first_index_of(fs, path@);
                assert(0 <= i < fs.len() && fs[i as int].path == path@ && forall|k: int| 0 <= k < i ==> fs[k].path != path@);
                assert(0 <= j < fs.len() && fs[j].path == path@ && forall|k: int| 0 <= k < j ==> fs[k].path != path@);
                if j < i {
                    assert(fs[j].path != path@);
                }
                if j > i {
                    assert(fs[i as int].path != path@);
                }
            }
            return Some(i);
        }
        i += 1;
    }
    None
}

impl App {
    fn selection_after(&self, snapshot: &RepoSnapshot) -> (r: Option<usize>)
        ensures
            match r {
                Some(i) => selection_after(self@, snapshot@) == Some(i as nat) && i < snapshot.files.len(),
                None => selection_after(self@, snapshot@) == None::<nat> && snapshot.files.len() == 0,
            },
    {
        let n = snapshot.files.len();
        if n == 0 {
            return None;
        }
        match self.selected_file() {
            Some(f) => {
                match position_of(snapshot.files.as_slice(), &f.path) {
                    Some(index) => return Some(index),
                    None => {},
                }
            },
            None => {},
        }
        if self.ui.selected >= n {
            Some(n - 1)
        } else {
            Some(self.ui.selected)
        }
    }

    fn replace_snapshot(&mut self, snapshot: RepoSnapshot)
        ensures
            final(self)@ == (AppView {
                snapshot: snapshot@,
                ui: UiView { hidden: old(self)@.ui.hidden.intersect(file_paths(snapshot@.files)), ..old(self)@.ui },
                ..old(self)@
            }),
    {
        self.snapshot = snapshot;
        self.ui.hidden_files.retain_files(self.snapshot.files.as_slice());
    }

    /// Takes a new file list in place of the old one.
    pub fn apply_snapshot(&mut self, snapshot: RepoSnapshot)
        ensures
            final(self)@ == spec_apply_snapshot(old(self)@, snapshot@),
            selection_in_range(final(self)@),
    {
        let target = self.selection_after(&snapshot);
        self.replace_snapshot(snapshot);
        match target {
            None => {
                self.ui.selected = 0;
                self.reset_diff_position();
            },
            Some(index) => {
                self.ui.selected = index;
                self.sync_diff_position();
            },
        }
    }

    /// Whether the file list is due for reloading at `now_ms`; if so the
    /// time is noted, and the caller reloads and calls
    /// [`App::finish_refresh`].
    pub fn refresh(&mut self, now_ms: u64) -> (due: bool)
        ensures
            due == refresh_due(old(self)@.last_refresh_ms, now_ms),
            due ==> final(self)@ == with_refresh_time(old(self)@, now_ms),
            !due ==> final(self)@ == old(self)@,
    {
        let due = match self.last_refresh_ms {
            None => true,
            Some(t) => now_ms.saturating_sub(t) >= 300,
        };
        if due {
            self.last_refresh_ms = Some(now_ms);
        }
        due
    }

    /// Notes a reload at `now_ms` whatever the time since the last one.
    pub fn force_refresh(&mut self, now_ms: u64)
        ensures
            final(self)@ == with_refresh_time(old(self)@, now_ms),
    {
        self.last_refresh_ms = Some(now_ms);
    }

    /// Takes the outcome of reloading the file list.
    pub fn finish_refresh(&mut self, result: Result<RepoSnapshot, String>)
        ensures
            final(self)@ == spec_finish_refresh(
                old(self)@,
                match result {
                    Ok(s) => Ok(s@),
                    Err(e) => Err(e@),
                },
            ),
            result is Ok ==> selection_in_range(final(self)@),
    {
        match result {
            Ok(snapshot) => {
                let changed = !self.snapshot.same_as(&snapshot);
                self.apply_snapshot(snapshot);
                if changed {
                    self.diff_store.clear();
                }
                self.error_message = None;
            },
            Err(error) => {
                let mut text = "git error: ".to_owned();
                push_str(&mut text, error.as_str());
                self.error_message = Some(text);
            },
        }
    }
}

// ---------------------------------------------------------------------------
// Staging, committing, pushing
// ---------------------------------------------------------------------------

/// Whether one of the files has staged changes.
pub open spec fn any_staged(files: Seq<FileStatView>) -> bool {
    exists|i: int| 0 <= i < files.len() && #[trigger] files[i].has_staged_changes
}

/// Whether one of the files has unstaged changes.
pub open spec fn any_unstaged(files: Seq<FileStatView>) -> bool {
    exists|i: int| 0 <= i < files.len() && #[trigger] files[i].has_unstaged_changes
}

/// `s`: stage the selected file's unstaged changes; if it has only staged
/// ones, unstage them; if it has neither, just reload.
pub open spec fn spec_toggle_selected_staged(v: AppView) -> CommandView {
    match selected_file(v) {
        Some(f) => if f.has_unstaged_changes {
            CommandView::Stage(f.path)
        } else if f.has_staged_changes {
            CommandView::Unstage(f.path)
        } else {
            CommandView::Refresh
        },
        None => CommandView::Nothing,
    }
}

/// `u`: unstage the selected file, if it has staged changes.
pub open spec fn spec_unstage_selected(v: AppView) -> CommandView {
    match selected_file(v) {
        Some(f) => if f.has_staged_changes {
            CommandView::Unstage(f.path)
        } else {
            CommandView::Nothing
        },
        None => CommandView::Nothing,
    }
}

/// `U`: unstage everything, if anything is staged.
pub open spec fn spec_unstage_all(v: AppView) -> CommandView {
    if any_staged(v.snapshot.files) {
        CommandView::UnstageAll
    } else {
        CommandView::Nothing
    }
}

/// `S`: stage everything if anything is unstaged, else unstage everything
/// if anything is staged, else just reload.
pub open spec fn spec_toggle_all_staged(v: AppView) -> CommandView {
    if any_unstaged(v.snapshot.files) {
        CommandView::StageAll
    } else if any_staged(v.snapshot.files) {
        CommandView::UnstageAll
    } else {
        CommandView::Refresh
    }
}

/// Enter in the commit dialog: commit with the message, unless it is blank.
pub open spec fn spec_execute_commit(message: Seq<char>) -> CommandView {
    if trim_seq(message).len() == 0 {
        CommandView::Nothing
    } else {
        CommandView::Commit(message)
    }
}

pub open spec fn with_commit_dialog(v: AppView, d: Option<DialogView>) -> AppView {
    with_ui(v, UiView { commit_dialog: d, ..v.ui })
}

pub open spec fn with_push_dialog(v: AppView, d: Option<DialogView>) -> AppView {
    with_ui(v, UiView { push_dialog: d, ..v.ui })
}

/// What a key does while the commit dialog is open: Esc closes it, Enter
/// commits, Backspace takes the last character off the message, any other
/// character key types it; once the outcome shows, any key closes it.
pub open spec fn spec_commit_key(v: AppView, k: KeyEvent) -> (AppView, CommandView) {
    match v.ui.commit_dialog {
        Some(DialogView::Composing(m)) => if k.code == KeyCode::Esc {
            (with_commit_dialog(v, None), CommandView::Nothing)
        } else if k.code == KeyCode::Enter {
            (v, spec_execute_commit(m))
        } else if k.code == KeyCode::Backspace {
            (
                with_commit_dialog(
                    v,
                    Some(
                        DialogView::Composing(
                            if m.len() > 0 {
                                m.drop_last()
                            } else {
                                m
                            },
                        ),
                    ),
                ),
                CommandView::Nothing,
            )
        } else {
            match k.code {
                KeyCode::Char(c) => (with_commit_dialog(v, Some(DialogView::Composing(m.push(c)))), CommandView::Nothing),
                _ => (v, CommandView::Nothing),
            }
        },
        Some(DialogView::Outcome(_, _)) => (with_commit_dialog(v, None), CommandView::Nothing),
        None => (v, CommandView::Nothing),
    }
}

fn any_staged_in(files: &[FileStat]) -> (b: bool)
    ensures
        b == any_staged(stat_views(files@)),
{
    let ghost fs = stat_views(files@);
    let mut i: usize = 0;
    while i < files.len()
        invariant
            i <= files.len(),
            fs == stat_views(files@),
            forall|k: int| 0 <= k < i ==> !(#[trigger] fs[k].has_staged_changes),
        decreases files.len() - i,
    {
        if files[i].has_staged_changes {
            assert(fs[i as int].has_staged_changes);
            return true;
        }
        i += 1;
    }
    false
}

fn any_unstaged_in(files: &[FileStat]) -> (b: bool)
    ensures
        b == any_unstaged(stat_views(files@)),
{
    let ghost fs = stat_views(files@);
    let mut i: usize = 0;
    while i < files.len()
        invariant
            i <= files.len(),
            fs == stat_views(files@),
            forall|k: int| 0 <= k < i ==> !(#[trigger] fs[k].has_unstaged_changes),
        decreases files.len() - i,
    {
        if files[i].has_unstaged_changes {
            assert(fs[i as int].has_unstaged_changes);
            return true;
        }
        i += 1;
    }
    false
}

impl App {
    /// What `s` asks for.
    pub fn toggle_selected_file_staged(&self) -> (c: Command)
        ensures
            c@ == spec_toggle_selected_staged(self@),
    {
        match self.selected_file() {
            Some(file) => {
                if file.has_unstaged_changes {
                    Command::Stage(file.path.clone())
                } else if file.has_staged_changes {
                    Command::Unstage(file.path.clone())
                } else {
                    Command::Refresh
                }
            },
            None => Command::Nothing,
        }
    }

    /// What `u` asks for.
    pub fn unstage_selected_changes(&self) -> (c: Command)
        ensures
            c@ == spec_unstage_selected(self@),
    {
        match self.selected_file() {
            Some(file) => {
                if file.has_staged_changes {
                    Command::Unstage(file.path.clone())
                } else {
                    Command::Nothing
                }
            },
            None => Command::Nothing,
        }
    }

    /// What `U` asks for.
    pub fn unstage_all_changes(&self) -> (c: Command)
        ensures
            c@ == spec_unstage_all(self@),
    {
        if any_staged_in(self.snapshot.files.as_slice()) {
            Command::UnstageAll
        } else {
            Command::Nothing
        }
    }

    /// What `S` asks for.
    pub fn toggle_all_files_staged(&self) -> (c: Command)
        ensures
            c@ == spec_toggle_all_staged(self@),
    {
        if any_unstaged_in(self.snapshot.files.as_slice()) {
            Command::StageAll
        } else if any_staged_in(self.snapshot.files.as_slice()) {
            Command::UnstageAll
        } else {
            Command::Refresh
        }
    }

    /// Takes the outcome of a staging step: on success the file list must
    /// be reloaded; a failure is shown.
    pub fn finish_git_action(&mut self, result: Result<(), String>) -> (c: Command)
        ensures
            match result {
                Ok(()) => final(self)@ == old(self)@ && c@ == CommandView::Refresh,
                Err(e) => final(self)@ == (AppView { error_message: Some(git_error_text(e@)), ..old(self)@ })
                    && c@ == CommandView::Nothing,
            },
    {
        match result {
            Ok(()) => Command::Refresh,
            Err(error) => {
                let mut text = "git error: ".to_owned();
                push_str(&mut text, error.as_str());
                self.error_message = Some(text);
                Command::Nothing
            },
        }
    }

    /// Enter in the commit dialog.
    pub fn execute_commit(&self) -> (c: Command)
        ensures
            match self@.ui.commit_dialog {
                Some(DialogView::Composing(m)) => c@ == spec_execute_commit(m),
                _ => c@ == CommandView::Nothing,
            },
    {
        match &self.ui.commit_dialog {
            Some(CommitDialog::Composing { message }) => {
                let trimmed = trim_str(message.as_str());
                if trimmed.as_str().is_empty() {
                    Command::Nothing
                } else {
                    Command::Commit(message.clone())
                }
            },
            _ => Command::Nothing,
        }
    }

    /// Shows the outcome of `git commit`; on success the file list must be
    /// reloaded.
    pub fn finish_commit(&mut self, output: String, succeeded: bool) -> (c: Command)
        ensures
            final(self)@ == with_commit_dialog(old(self)@, Some(DialogView::Outcome(output@, succeeded))),
            c@ == (if succeeded {
                CommandView::Refresh
            } else {
                CommandView::Nothing
            }),
    {
        self.ui.commit_dialog = Some(CommitDialog::Result { output, succeeded });
        if succeeded {
            Command::Refresh
        } else {
            Command::Nothing
        }
    }

    /// Shows the outcome of `git push`; on success the file list must be
    /// reloaded.
    pub fn finish_push(&mut self, output: String, succeeded: bool) -> (c: Command)
        ensures
            final(self)@ == with_push_dialog(old(self)@, Some(DialogView::Outcome(output@, succeeded))),
            c@ == (if succeeded {
                CommandView::Refresh
            } else {
                CommandView::Nothing
            }),
    {
        self.ui.push_dialog = Some(PushDialog::Result { output, succeeded });
        if succeeded {
            Command::Refresh
        } else {
            Command::Nothing
        }
    }

    /// What a key does while the commit dialog is open.
    pub fn handle_commit_key(&mut self, key: KeyEvent) -> (c: Command)
        ensures
            (final(self)@, c@) == spec_commit_key(old(self)@, key),
    {
        let message: String = match &self.ui.commit_dialog {
            Some(CommitDialog::Composing { message }) => message.clone(),
            Some(CommitDialog::Result { .. }) => {
                self.ui.commit_dialog = None;
                return Command::Nothing;
            },
            None => return Command::Nothing,
        };
        match key.code {
            KeyCode::Esc => {
                self.ui.commit_dialog = None;
                Command::Nothing
            },
            KeyCode::Enter => self.execute_commit(),
            KeyCode::Backspace => {
                let mut chars = chars_of(message.as_str());
                if chars.len() > 0 {
                    chars.pop();
                }
                self.ui.commit_dialog = Some(CommitDialog::Composing { message: string_from(chars.as_slice()) });
                Command::Nothing
            },
            KeyCode::Char(c) => {
                let mut typed = message;
                push_char(&mut typed, c);
                self.ui.commit_dialog = Some(CommitDialog::Composing { message: typed });
                Command::Nothing
            },
            _ => Command::Nothing,
        }
    }
}


// ---------------------------------------------------------------------------
// Keys
// ---------------------------------------------------------------------------

/// A key in the file list: `j`/Down and `k`/Up move the selection, Right
/// gives the diff the keyboard, `G` selects the last file, Enter hides or
/// shows the selected diff.
pub open spec fn spec_files_key(v: AppView, k: KeyEvent) -> AppView {
    if k.code == KeyCode::Char('j') || k.code == KeyCode::Down {
        spec_move_down(v)
    } else if k.code == KeyCode::Char('k') || k.code == KeyCode::Up {
        spec_move_up(v)
    } else if k.code == KeyCode::Right {
        with_focus(v, Panel::Diff)
    } else if k.code == KeyCode::Char('G') {
        spec_jump_bottom(v)
    } else if k.code == KeyCode::Enter {
        spec_toggle_hidden(v)
    } else {
        v
    }
}

/// A key in the diff: `j`/Down and `k`/Up move the cursor a line, Ctrl-d and
/// Ctrl-u half a panel, `G` to the last line, `]`/`}` and `[`/`{` to the
/// next and previous hunk; Left gives the file list the keyboard when it is
/// shown; Enter hides or shows the selected diff.
pub open spec fn spec_diff_key(v: AppView, k: KeyEvent) -> AppView {
    let half = (v.ui.panel_height / 2) as nat;
    if is_key(k, KeyCode::Char('j'), NO_MODIFIERS) || k.code == KeyCode::Down {
        spec_scroll_down(v, 1)
    } else if is_key(k, KeyCode::Char('k'), NO_MODIFIERS) || k.code == KeyCode::Up {
        spec_scroll_up(v, 1)
    } else if k.code == KeyCode::Left {
        if v.ui.show_sidebar {
            with_focus(v, Panel::Files)
        } else {
            v
        }
    } else if is_key(k, KeyCode::Char('d'), CONTROL) {
        spec_scroll_down(v, half)
    } else if is_key(k, KeyCode::Char('u'), CONTROL) {
        spec_scroll_up(v, half)
    } else if k.code == KeyCode::Char('G') {
        spec_sync_viewport(with_cursor(v, sat_sub(diff_len(v), 1)))
    } else if k.code == KeyCode::Enter {
        spec_toggle_hidden(v)
    } else if is_next_hunk_key(k.code) {
        spec_jump_next_hunk(v)
    } else if is_prev_hunk_key(k.code) {
        spec_jump_prev_hunk(v)
    } else {
        v
    }
}

/// Two-key sequences: `g` then `g` jumps to the top of the focused panel,
/// space then `e` shows or hides the file list. A key that does not finish
/// a sequence ends it and is then handled on its own. Gives whether the key
/// was used up.
pub open spec fn spec_pending_keys(v: AppView, k: KeyEvent) -> (AppView, bool) {
    let v1 = with_ui(v, UiView { pending_g: false, ..v.ui });
    if v.ui.pending_g && is_key(k, KeyCode::Char('g'), NO_MODIFIERS) {
        (spec_jump_to_panel_top(v1), true)
    } else {
        let v2 = with_ui(v1, UiView { pending_space: false, ..v1.ui });
        if v.ui.pending_space && (is_key(k, KeyCode::Char('e'), NO_MODIFIERS) || is_key(k, KeyCode::Char('E'), SHIFT)) {
            (spec_toggle_sidebar(v2), true)
        } else if is_key(k, KeyCode::Char('g'), NO_MODIFIERS) {
            (with_ui(v2, UiView { pending_g: true, ..v2.ui }), true)
        } else if is_key(k, KeyCode::Char(' '), NO_MODIFIERS) {
            (with_ui(v2, UiView { pending_space: true, ..v2.ui }), true)
        } else {
            (v2, false)
        }
    }
}

/// The keys that work in either panel, then the focused panel's own.
pub open spec fn spec_main_key(v: AppView, k: KeyEvent) -> (AppView, CommandView) {
    if quits(k) {
        (AppView { should_quit: true, ..v }, CommandView::Nothing)
    } else if k.code == KeyCode::Tab || k.code == KeyCode::BackTab {
        (
            if v.ui.show_sidebar {
                with_focus(
                    v,
                    match v.ui.focus {
                        Panel::Files => Panel::Diff,
                        Panel::Diff => Panel::Files,
                    },
                )
            } else {
                v
            },
            CommandView::Nothing,
        )
    } else if is_key(k, KeyCode::Char('r'), NO_MODIFIERS) {
        (v, CommandView::Refresh)
    } else if is_key(k, KeyCode::Char('t'), NO_MODIFIERS) {
        (spec_toggle_diff_mode(v), CommandView::Nothing)
    } else if is_key(k, KeyCode::Char('u'), NO_MODIFIERS) {
        (v, spec_unstage_selected(v))
    } else if is_key(k, KeyCode::Char('U'), SHIFT) {
        (v, spec_unstage_all(v))
    } else if is_key(k, KeyCode::Char('o'), NO_MODIFIERS) {
        (spec_toggle_unstaged_only(v), CommandView::Refresh)
    } else if toggles_help(k) {
        (with_ui(v, UiView { show_help: true, pending_g: false, pending_space: false, ..v.ui }), CommandView::Nothing)
    } else if is_key(k, KeyCode::Char('s'), NO_MODIFIERS) {
        (v, spec_toggle_selected_staged(v))
    } else if k.code == KeyCode::Char('S') {
        (v, spec_toggle_all_staged(v))
    } else if is_key(k, KeyCode::Char('c'), NO_MODIFIERS) {
        (with_commit_dialog(v, Some(DialogView::Composing(Seq::empty()))), CommandView::Nothing)
    } else if is_key(k, KeyCode::Char('p'), NO_MODIFIERS) {
        (v, CommandView::Push)
    } else {
        match v.ui.focus {
            Panel::Files => (spec_files_key(v, k), CommandView::Nothing),
            Panel::Diff => (spec_diff_key(v, k), CommandView::Nothing),
        }
    }
}

/// What a key press does: an open commit dialog takes every key; an open
/// push dialog closes on any key; the help overlay closes on `h`/`?` and
/// quits on `q`/Esc; otherwise two-key sequences come first, then the keys
/// of [`spec_main_key`].
pub open spec fn spec_handle_key(v: AppView, k: KeyEvent) -> (AppView, CommandView) {
    if v.ui.commit_dialog is Some {
        spec_commit_key(v, k)
    } else if v.ui.push_dialog is Some {
        (with_push_dialog(v, None), CommandView::Nothing)
    } else if v.ui.show_help {
        if quits(k) {
            (AppView { should_quit: true, ..v }, CommandView::Nothing)
        } else if toggles_help(k) {
            (with_ui(v, UiView { show_help: false, ..v.ui }), CommandView::Nothing)
        } else {
            (v, CommandView::Nothing)
        }
    } else {
        let p = spec_pending_keys(v, k);
        if p.1 {
            (p.0, CommandView::Nothing)
        } else {
            spec_main_key(p.0, k)
        }
    }
}

impl App {
    fn handle_files_key(&mut self, key: KeyEvent)
        ensures
            final(self)@ == spec_files_key(old(self)@, key),
    {
        match key.code {
            KeyCode::Char('j') | KeyCode::Down => self.move_down(),
            KeyCode::Char('k') | KeyCode::Up => self.move_up(),
            KeyCode::Right => {
                self.ui.focus = Panel::Diff;
            },
            KeyCode::Char('G') => self.jump_bottom(),
            KeyCode::Enter => self.toggle_hidden(),
            _ => {},
        }
    }

    fn handle_diff_key(&mut self, key: KeyEvent)
        ensures
            final(self)@ == spec_diff_key(old(self)@, key),
    {
        let half_page = (self.ui.panel_height / 2) as usize;
        if key_is(key, 'j', NO_MODIFIERS) || key.code == KeyCode::Down {
            self.scroll_down(1);
        } else if key_is(key, 'k', NO_MODIFIERS) || key.code == KeyCode::Up {
            self.scroll_up(1);
        } else if key.code == KeyCode::Left {
            if self.ui.show_sidebar {
                self.ui.focus = Panel::Files;
            }
        } else if key_is(key, 'd', CONTROL) {
            self.scroll_down(half_page);
        } else if key_is(key, 'u', CONTROL) {
            self.scroll_up(half_page);
        } else if code_is_char(key, 'G') {
            self.ui.diff_cursor = self.selected_diff_len().saturating_sub(1);
            self.sync_diff_viewport();
        } else if key.code == KeyCode::Enter {
            self.toggle_hidden();
        } else if next_hunk_key(key.code) {
            self.jump_next_hunk();
        } else if prev_hunk_key(key.code) {
            self.jump_prev_hunk();
        }
    }

    fn handle_pending_key_sequence(&mut self, key: KeyEvent) -> (used: bool)
        ensures
            (final(self)@, used) == spec_pending_keys(old(self)@, key),
    {
        let ghost v = self@;
        if self.ui.pending_g {
            self.ui.pending_g = false;
            if key_is(key, 'g', NO_MODIFIERS) {
                self.jump_to_panel_top();
                return true;
            }
        }
        assert(self@ == with_ui(v, UiView { pending_g: false, ..v.ui }));
        let ghost v1 = self@;
        if self.ui.pending_space {
            self.ui.pending_space = false;
            if key_is(key, 'e', NO_MODIFIERS) || key_is(key, 'E', SHIFT) {
                self.toggle_sidebar();
                return true;
            }
        }
        assert(self@ == with_ui(v1, UiView { pending_space: false, ..v1.ui }));
        if key_is(key, 'g', NO_MODIFIERS) {
            self.ui.pending_g = true;
            true
        } else if key_is(key, ' ', NO_MODIFIERS) {
            self.ui.pending_space = true;
            true
        } else {
            false
        }
    }

    fn handle_main_key(&mut self, key: KeyEvent) -> (c: Command)
        ensures
            (final(self)@, c@) == spec_main_key(old(self)@, key),
    {
        if quit_key(key) {
            self.should_quit = true;
            Command::Nothing
        } else if key.code == KeyCode::Tab || key.code == KeyCode::BackTab {
            if self.ui.show_sidebar {
                self.ui.focus = match self.ui.focus {
                    Panel::Files => Panel::Diff,
                    Panel::Diff => Panel::Files,
                };
            }
            Command::Nothing
        } else if key_is(key, 'r', NO_MODIFIERS) {
            Command::Refresh
        } else if key_is(key, 't', NO_MODIFIERS) {
            self.toggle_diff_mode();
            Command::Nothing
        } else if key_is(key, 'u', NO_MODIFIERS) {
            self.unstage_selected_changes()
        } else if key_is(key, 'U', SHIFT) {
            self.unstage_all_changes()
        } else if key_is(key, 'o', NO_MODIFIERS) {
            self.toggle_unstaged_only()
        } else if help_key(key) {
            self.ui.show_help = true;
            self.ui.pending_g = false;
            self.ui.pending_space = false;
            Command::Nothing
        } else if key_is(key, 's', NO_MODIFIERS) {
            self.toggle_selected_file_staged()
        } else if code_is_char(key, 'S') {
            self.toggle_all_files_staged()
        } else if key_is(key, 'c', NO_MODIFIERS) {
            self.ui.commit_dialog = Some(CommitDialog::Composing { message: String::new() });
            Command::Nothing
        } else if key_is(key, 'p', NO_MODIFIERS) {
            Command::Push
        } else {
            match self.ui.focus {
                Panel::Files => self.handle_files_key(key),
                Panel::Diff => self.handle_diff_key(key),
            }
            Command::Nothing
        }
    }

    /// Handles a key press; gives the outside work it asks for.
    pub fn handle_key(&mut self, key: KeyEvent) -> (c: Command)
        ensures
            (final(self)@, c@) == spec_handle_key(old(self)@, key),
    {
        if self.ui.commit_dialog.is_some() {
            return self.handle_commit_key(key);
        }
        if self.ui.push_dialog.is_some() {
            self.ui.push_dialog = None;
            return Command::Nothing;
        }
        if self.ui.show_help {
            if quit_key(key) {
                self.should_quit = true;
            } else if help_key(key) {
                self.ui.show_help = false;
            }
            return Command::Nothing;
        }
        if self.handle_pending_key_sequence(key) {
            return Command::Nothing;
        }
        self.handle_main_key(key)
    }
}


// ---------------------------------------------------------------------------
// Laws
// ---------------------------------------------------------------------------

/// Once the view is moved to the cursor, the cursor line is on screen and
/// the view does not run past the last full screen, for any panel with
/// height and any cursor within the diff.
pub proof fn synced_scroll_shows_cursor(cursor: nat, scroll: nat, height: nat, len: nat)
    requires
        height > 0,
        cursor < len,
        len <= usize::MAX,
    ensures
        synced_scroll(cursor, scroll, height, len) <= cursor,
        cursor < synced_scroll(cursor, scroll, height, len) + height,
        synced_scroll(cursor, scroll, height, len) <= sat_sub(len, height),
{
}

/// Moving the cursor down keeps it on a line of the diff and on screen.
pub proof fn scrolling_down_stays_in_view(v: AppView, amount: nat)
    requires
        v.ui.panel_height > 0,
        0 < diff_len(v) <= usize::MAX,
    ensures
        ({
            let w = spec_scroll_down(v, amount);
            &&& w.ui.diff_cursor < diff_len(w)
            &&& w.ui.scroll_offset <= w.ui.diff_cursor < w.ui.scroll_offset + w.ui.panel_height
        }),
{
    let c = min_nat(sat_add(v.ui.diff_cursor as nat, amount), sat_sub(diff_len(v), 1));
    let u = with_cursor(v, c);
    assert(diff_len(u) == diff_len(v));
    synced_scroll_shows_cursor(c, v.ui.scroll_offset as nat, v.ui.panel_height as nat, diff_len(v));
}

/// No key moves the selection off the file list.
pub proof fn keys_keep_selection_in_range(v: AppView, k: KeyEvent)
    requires
        selection_in_range(v),
    ensures
        selection_in_range(spec_handle_key(v, k).0),
{
    if v.ui.commit_dialog is Some {
        lemma_commit_key_keeps_selection(v, k);
    } else if v.ui.push_dialog is Some {
    } else if v.ui.show_help {
    } else {
        lemma_pending_keys_keep_selection(v, k);
        let p = spec_pending_keys(v, k);
        if !p.1 {
            lemma_main_key_keeps_selection(p.0, k);
        }
    }
}

proof fn lemma_commit_key_keeps_selection(v: AppView, k: KeyEvent)
    ensures
        spec_commit_key(v, k).0.snapshot == v.snapshot,
        spec_commit_key(v, k).0.ui.selected == v.ui.selected,
{
}

proof fn lemma_pending_keys_keep_selection(v: AppView, k: KeyEvent)
    requires
        selection_in_range(v),
    ensures
        selection_in_range(spec_pending_keys(v, k).0),
        spec_pending_keys(v, k).0.snapshot == v.snapshot,
{
}

proof fn lemma_diff_key_keeps_selection(v: AppView, k: KeyEvent)
    ensures
        spec_diff_key(v, k).snapshot == v.snapshot,
        spec_diff_key(v, k).ui.selected == v.ui.selected,
{
    let half = (v.ui.panel_height / 2) as nat;
    if is_key(k, KeyCode::Char('j'), NO_MODIFIERS) || k.code == KeyCode::Down {
    } else if is_key(k, KeyCode::Char('k'), NO_MODIFIERS) || k.code == KeyCode::Up {
    } else if k.code == KeyCode::Left {
    } else if is_key(k, KeyCode::Char('d'), CONTROL) {
    } else if is_key(k, KeyCode::Char('u'), CONTROL) {
    } else if k.code == KeyCode::Char('G') {
    } else if k.code == KeyCode::Enter {
    } else if is_next_hunk_key(k.code) {
    } else if is_prev_hunk_key(k.code) {
    }
}

proof fn lemma_main_key_keeps_selection(v: AppView, k: KeyEvent)
    requires
        selection_in_range(v),
    ensures
        selection_in_range(spec_main_key(v, k).0),
{
    lemma_diff_key_keeps_selection(v, k);
}

/// Hiding a diff and showing it again (or the other way round) leaves the
/// set of hidden paths as it was.
pub proof fn toggling_hidden_twice_restores(v: AppView)
    ensures
        spec_toggle_hidden(spec_toggle_hidden(v)).ui.hidden == v.ui.hidden,
{
    match selected_file(v) {
        Some(f) => {
            if v.ui.hidden.contains(f.path) {
                assert(v.ui.hidden.remove(f.path).insert(f.path) =~= v.ui.hidden);
            } else {
                assert(v.ui.hidden.insert(f.path).remove(f.path) =~= v.ui.hidden);
            }
        },
        None => {},
    }
}

/// Showing or hiding the file list twice leaves it as it was.
pub proof fn toggling_sidebar_twice_restores(v: AppView)
    ensures
        spec_toggle_sidebar(spec_toggle_sidebar(v)).ui.show_sidebar == v.ui.show_sidebar,
{
}

/// Two-key sequences, with at most one begun: a key is used up by them
/// exactly when it is `g`, space, or `e`/`E` after space; afterwards `g` is
/// pending exactly when this `g` began a sequence, space is pending exactly
/// when this key was space, so again at most one is begun; `g g` jumps to
/// the top of the focused panel and space `e` shows or hides the file list.
/// With no dialog and no help open, a key they use up does nothing else.
pub proof fn two_key_sequences(v: AppView, k: KeyEvent)
    requires
        !(v.ui.pending_g && v.ui.pending_space),
    ensures
        ({
            let r = spec_pending_keys(v, k);
            let g = is_key(k, KeyCode::Char('g'), NO_MODIFIERS);
            let space = is_key(k, KeyCode::Char(' '), NO_MODIFIERS);
            let e = is_key(k, KeyCode::Char('e'), NO_MODIFIERS) || is_key(k, KeyCode::Char('E'), SHIFT);
            &&& r.1 == (g || space || (v.ui.pending_space && e))
            &&& r.0.ui.pending_g == (g && !v.ui.pending_g)
            &&& r.0.ui.pending_space == space
            &&& !(r.0.ui.pending_g && r.0.ui.pending_space)
            &&& (v.ui.pending_g && g ==> r.0 == spec_jump_to_panel_top(with_ui(v, UiView { pending_g: false, ..v.ui })))
            &&& (v.ui.pending_space && e ==> r.0 == spec_toggle_sidebar(
                with_ui(v, UiView { pending_g: false, pending_space: false, ..v.ui }),
            ))
            &&& (v.ui.commit_dialog is None && v.ui.push_dialog is None && !v.ui.show_help && r.1 ==> spec_handle_key(v, k)
                == (r.0, CommandView::Nothing))
        }),
{
}

/// In the commit dialog, Backspace takes back the character just typed.
pub proof fn backspace_undoes_typing(v: AppView, c: char, modifiers: u8, m: u8)
    requires
        v.ui.commit_dialog matches Some(DialogView::Composing(_)),
    ensures
        ({
            let typed = spec_commit_key(v, KeyEvent { code: KeyCode::Char(c), modifiers }).0;
            spec_commit_key(typed, KeyEvent { code: KeyCode::Backspace, modifiers: m }).0 == v
        }),
{
    let msg = v.ui.commit_dialog.unwrap()->Composing_0;
    assert(msg.push(c).drop_last() =~= msg);
    assert(with_commit_dialog(with_commit_dialog(v, Some(DialogView::Composing(msg.push(c)))), Some(DialogView::Composing(msg))) == v);
}

/// A diff that comes back for the selection is what the diff panel shows,
/// and its request is no longer being worked on.
pub proof fn loaded_diff_is_shown(v: AppView, r: DiffRequestView, content: Seq<Seq<SpanView>>)
    requires
        selected_request(v) == Some(r),
    ensures
        selected_lines(spec_handle_loaded(v, r, content)) == Some(content),
        !spec_handle_loaded(v, r, content).loading.contains(r),
{
}

/// Once the selected diff has been asked for, it is not asked for again.
pub proof fn selected_diff_is_requested_once(v: AppView, r: DiffRequestView)
    requires
        wanted_request(v) == Some(r),
    ensures
        wanted_request(AppView { loading: v.loading.insert(r), ..v }) == None::<DiffRequestView>,
{
}

/// A reload is not due again within 300 ms of the last one.
pub proof fn reloads_are_spaced(t: u64, now: u64)
    requires
        t <= now < t + 300,
    ensures
        !refresh_due(Some(t), now),
{
}

/// Reloading keeps the rendered diffs when the file list is unchanged, and
/// drops them all when it changed.
pub proof fn reload_keeps_diffs_only_when_unchanged(v: AppView, s: RepoSnapshotView)
    ensures
        s == v.snapshot ==> spec_finish_refresh(v, Ok(s)).cache == v.cache,
        s != v.snapshot ==> spec_finish_refresh(v, Ok(s)).cache == Map::<DiffRequestView, Seq<Seq<SpanView>>>::empty()
            && spec_finish_refresh(v, Ok(s)).loading == Set::<DiffRequestView>::empty(),
{
}

/// Switching the layout twice gives the layout back.
pub proof fn toggling_diff_mode_twice_restores(v: AppView)
    ensures
        spec_toggle_diff_mode(spec_toggle_diff_mode(v)).ui.diff_mode == v.ui.diff_mode,
{
}


proof fn lemma_first_after(s: Seq<usize>, c: usize)
    ensures
        first_after(s, c) matches Some(o) ==> o > c && s.contains(o),
    decreases s.len(),
{
    if s.len() > 0 && s[0] <= c {
        lemma_first_after(s.drop_first(), c);
        if let Some(o) = first_after(s.drop_first(), c) {
            let k = choose|k: int| 0 <= k < s.drop_first().len() && s.drop_first()[k] == o;
            assert(s[k + 1] == o);
        }
    } else if s.len() > 0 {
        assert(s[0] == s[0]);
    }
}

proof fn lemma_last_before(s: Seq<usize>, c: usize)
    ensures
        last_before(s, c) matches Some(o) ==> o < c && s.contains(o),
    decreases s.len(),
{
    if s.len() > 0 && s.last() >= c {
        lemma_last_before(s.drop_last(), c);
        if let Some(o) = last_before(s.drop_last(), c) {
            let k = choose|k: int| 0 <= k < s.drop_last().len() && s.drop_last()[k] == o;
            assert(s[k] == o);
        }
    } else if s.len() > 0 {
        assert(s[s.len() - 1] == s.last());
    }
}

/// `]` moves the cursor forward to the start of a hunk, `[` back to the
/// start of one; when there is no hunk that way the cursor stays.
pub proof fn hunk_jumps_go_the_right_way(v: AppView)
    ensures
        spec_jump_next_hunk(v).ui.diff_cursor >= v.ui.diff_cursor,
        spec_jump_next_hunk(v).ui.diff_cursor != v.ui.diff_cursor ==> selected_hunks(v).contains(
            spec_jump_next_hunk(v).ui.diff_cursor,
        ),
        spec_jump_prev_hunk(v).ui.diff_cursor <= v.ui.diff_cursor,
        spec_jump_prev_hunk(v).ui.diff_cursor != v.ui.diff_cursor ==> selected_hunks(v).contains(
            spec_jump_prev_hunk(v).ui.diff_cursor,
        ),
{
    lemma_first_after(selected_hunks(v), v.ui.diff_cursor);
    lemma_last_before(selected_hunks(v), v.ui.diff_cursor);
}

/// Whether offsets come in increasing order.
pub open spec fn increasing(s: Seq<usize>) -> bool {
    forall|i: int, j: int| 0 <= i < j < s.len() ==> s[i] < s[j]
}

/// Of offsets in increasing order, the last before `c` is the largest one
/// below `c`: no offset lies between it and `c`; there is none exactly when
/// no offset is below `c`.
pub proof fn last_before_is_the_nearest(s: Seq<usize>, c: usize)
    requires
        increasing(s),
    ensures
        match last_before(s, c) {
            Some(o) => o < c && s.contains(o) && forall|i: int| 0 <= i < s.len() && s[i] < c ==> s[i] <= o,
            None => forall|i: int| 0 <= i < s.len() ==> s[i] >= c,
        },
    decreases s.len(),
{
    if s.len() > 0 {
        let n = s.len() - 1;
        if s.last() < c {
            assert(s[n] == s.last());
        } else {
            let t = s.drop_last();
            assert(increasing(t));
            last_before_is_the_nearest(t, c);
            if let Some(o) = last_before(t, c) {
                let k = choose|k: int| 0 <= k < t.len() && t[k] == o;
                assert(s[k] == o);
                assert forall|i: int| 0 <= i < s.len() && s[i] < c implies s[i] <= o by {
                    if i < n {
                        assert(t[i] == s[i]);
                    }
                }
            } else {
                assert forall|i: int| 0 <= i < s.len() implies s[i] >= c by {
                    if i < n {
                        assert(t[i] == s[i]);
                    }
                }
            }
        }
    }
}

/// Of offsets in increasing order, the first after `c` is the smallest one
/// above `c`: no offset lies between `c` and it; there is none exactly when
/// no offset is above `c`.
pub proof fn first_after_is_the_nearest(s: Seq<usize>, c: usize)
    requires
        increasing(s),
    ensures
        match first_after(s, c) {
            Some(o) => o > c && s.contains(o) && forall|i: int| 0 <= i < s.len() && s[i] > c ==> s[i] >= o,
            None => forall|i: int| 0 <= i < s.len() ==> s[i] <= c,
        },
    decreases s.len(),
{
    if s.len() > 0 {
        if s[0] > c {
            assert(s.contains(s[0]));
        } else {
            let t = s.drop_first();
            assert(increasing(t));
            first_after_is_the_nearest(t, c);
            if let Some(o) = first_after(t, c) {
                let k = choose|k: int| 0 <= k < t.len() && t[k] == o;
                assert(s[k + 1] == o);
                assert forall|i: int| 0 <= i < s.len() && s[i] > c implies s[i] >= o by {
                    if i > 0 {
                        assert(t[i - 1] == s[i]);
                    }
                }
            } else {
                assert forall|i: int| 0 <= i < s.len() implies s[i] <= c by {
                    if i > 0 {
                        assert(t[i - 1] == s[i]);
                    }
                }
            }
        }
    }
}

proof fn lemma_offsets_increasing(lines: Seq<Seq<SpanView>>, n: nat)
    requires
        n <= usize::MAX,
    ensures
        increasing(header_offsets(lines, n)),
        forall|i: int| 0 <= i < header_offsets(lines, n).len() ==> header_offsets(lines, n)[i] < n,
        increasing(block_offsets(lines, n)),
        forall|i: int| 0 <= i < block_offsets(lines, n).len() ==> block_offsets(lines, n)[i] < n,
    decreases n,
{
    if n > 0 {
        lemma_offsets_increasing(lines, (n - 1) as nat);
    }
}

/// The hunks of a diff begin at increasing lines.
pub proof fn hunk_offsets_increase(lines: Seq<Seq<SpanView>>)
    requires
        lines.len() <= usize::MAX,
    ensures
        increasing(hunk_offsets(lines)),
{
    lemma_offsets_increasing(lines, lines.len());
}

/// `]` lands on the nearest hunk after the cursor and `[` on the nearest
/// hunk before it: no hunk begins between the old cursor and the new one;
/// when there is no hunk that way the view stays as it was.
pub proof fn hunk_jumps_land_on_the_nearest_hunk(v: AppView)
    requires
        diff_len(v) <= usize::MAX,
    ensures
        ({
            let c = v.ui.diff_cursor;
            let hs = selected_hunks(v);
            let next = spec_jump_next_hunk(v).ui.diff_cursor;
            let prev = spec_jump_prev_hunk(v).ui.diff_cursor;
            &&& (exists|i: int| 0 <= i < hs.len() && hs[i] > c) ==> next > c && hs.contains(next) && forall|i: int|
                0 <= i < hs.len() && hs[i] > c ==> hs[i] >= next
            &&& (forall|i: int| 0 <= i < hs.len() ==> hs[i] <= c) ==> spec_jump_next_hunk(v) == v
            &&& (exists|i: int| 0 <= i < hs.len() && hs[i] < c) ==> prev < c && hs.contains(prev) && forall|i: int|
                0 <= i < hs.len() && hs[i] < c ==> hs[i] <= prev
            &&& (forall|i: int| 0 <= i < hs.len() ==> hs[i] >= c) ==> spec_jump_prev_hunk(v) == v
        }),
{
    match selected_lines(v) {
        Some(l) => hunk_offsets_increase(l),
        None => {},
    }
    let hs = selected_hunks(v);
    let c = v.ui.diff_cursor;
    first_after_is_the_nearest(hs, c);
    last_before_is_the_nearest(hs, c);
}

/// Moving up the file list from the `s`-th file selects the `(s - 1)`-th and
/// shows its diff from the top; moving down selects the next file, if there
/// is one; at either end the selection stays.
pub proof fn moving_through_the_files(v: AppView, k: KeyEvent)
    requires
        v.ui.commit_dialog is None,
        v.ui.push_dialog is None,
        !v.ui.show_help,
        !v.ui.pending_g,
        !v.ui.pending_space,
        v.ui.focus == Panel::Files,
        v.snapshot.files.len() <= usize::MAX,
    ensures
        is_key(k, KeyCode::Char('k'), NO_MODIFIERS) || is_key(k, KeyCode::Up, NO_MODIFIERS) ==> {
            let w = spec_handle_key(v, k).0;
            &&& v.ui.selected > 0 ==> w.ui.selected == v.ui.selected - 1 && w.ui.diff_cursor == 0
                && w.ui.scroll_offset == 0
            &&& v.ui.selected == 0 ==> w.ui.selected == 0
        },
        is_key(k, KeyCode::Char('j'), NO_MODIFIERS) || is_key(k, KeyCode::Down, NO_MODIFIERS) ==> {
            let w = spec_handle_key(v, k).0;
            &&& v.ui.selected + 1 < v.snapshot.files.len() ==> w.ui.selected == v.ui.selected + 1
                && w.ui.diff_cursor == 0 && w.ui.scroll_offset == 0
            &&& v.ui.selected + 1 >= v.snapshot.files.len() ==> w.ui.selected == v.ui.selected
        },
{
}

/// While the commit dialog is open no key quits: every key goes to the
/// dialog.
pub proof fn commit_dialog_keeps_the_viewer_open(v: AppView, k: KeyEvent)
    requires
        v.ui.commit_dialog is Some,
    ensures
        spec_handle_key(v, k).0.should_quit == v.should_quit,
{
}

/// `h` opens the help overlay and `h` again closes it.
pub proof fn help_toggles_with_h(v: AppView)
    requires
        v.ui.commit_dialog is None,
        v.ui.push_dialog is None,
        !v.ui.show_help,
    ensures
        ({
            let h = KeyEvent { code: KeyCode::Char('h'), modifiers: NO_MODIFIERS };
            let opened = spec_handle_key(v, h).0;
            &&& opened.ui.show_help
            &&& !spec_handle_key(opened, h).0.ui.show_help
        }),
{
    let h = KeyEvent { code: KeyCode::Char('h'), modifiers: NO_MODIFIERS };
    let p = spec_pending_keys(v, h);
    assert(!p.1);
    assert(p.0.ui.commit_dialog is None && p.0.ui.push_dialog is None);
    assert(toggles_help(h) && !quits(h));
    assert(!is_key(h, KeyCode::Char('r'), NO_MODIFIERS) && !is_key(h, KeyCode::Char('t'), NO_MODIFIERS));
    assert(!is_key(h, KeyCode::Char('u'), NO_MODIFIERS) && !is_key(h, KeyCode::Char('U'), SHIFT));
    assert(!is_key(h, KeyCode::Char('o'), NO_MODIFIERS));
    let opened = spec_main_key(p.0, h).0;
    assert(opened.ui.show_help);
    assert(spec_handle_key(v, h).0 == opened);
    assert(opened.ui.commit_dialog is None && opened.ui.push_dialog is None);
    assert(!spec_handle_key(opened, h).0.ui.show_help);
}

} // verus!
