//! The diff view: which comparisons a file gets, and how a structural diff
//! of two file versions becomes styled lines (inline or side by side, with
//! changed columns highlighted).

use vstd::prelude::*;
use crate::style::{Color, Line, Span, SpanView, Style, line_text, line_views, raw_line, span_of, span_views};
use crate::text::{chars_of, concat_all, lossy_string, lossy_text, push_char, push_right_aligned, push_str, right_aligned, split_lines, string_from, sub_chars, text_lines};
use crate::git::{GitCommand, GitOutput, arg_texts, push_arg, text_of};
use crate::width::{
    chars_before_col, col_char_index, pad_to_width, padded, text_columns, truncate_to_width, truncated,
};
use crate::text::repeat_char;

verus! {

// ---------------------------------------------------------------------------
// Modes and requests
// ---------------------------------------------------------------------------

/// How a diff is laid out.
#[derive(Debug, Clone, Copy, PartialEq, Eq, Hash)]
pub enum DiffMode {
    Inline,
    SideBySide,
}

impl DiffMode {
    pub open spec fn spec_label(self) -> Seq<char> {
        match self {
            DiffMode::Inline => "inline"@,
            DiffMode::SideBySide => "side-by-side"@,
        }
    }

    /// The name shown in the title bar.
    pub fn label(&self) -> (s: &'static str)
        ensures
            s@ == self.spec_label(),
    {
        match self {
            DiffMode::Inline => "inline",
            DiffMode::SideBySide => "side-by-side",
        }
    }

    pub open spec fn spec_toggle(self) -> DiffMode {
        match self {
            DiffMode::Inline => DiffMode::SideBySide,
            DiffMode::SideBySide => DiffMode::Inline,
        }
    }

    /// The other layout.
    pub fn toggle(&self) -> (m: DiffMode)
        ensures
            m == self.spec_toggle(),
    {
        match self {
            DiffMode::Inline => DiffMode::SideBySide,
            DiffMode::SideBySide => DiffMode::Inline,
        }
    }
}

/// Toggling the layout twice gives the layout back, and toggling changes it.
pub proof fn toggle_is_an_involution(m: DiffMode)
    ensures
        m.spec_toggle().spec_toggle() == m,
        m.spec_toggle() != m,
{
}

/// Which rendered diff is wanted: a path, at a panel width, in a layout.
#[derive(Debug, Clone, PartialEq, Eq, Hash)]
pub struct DiffRequest {
    pub path: String,
    pub panel_width: u16,
    pub mode: DiffMode,
}

/// A [`DiffRequest`] as values.
pub struct DiffRequestView {
    pub path: Seq<char>,
    pub panel_width: u16,
    pub mode: DiffMode,
}

impl View for DiffRequest {
    type V = DiffRequestView;

    open spec fn view(&self) -> DiffRequestView {
        DiffRequestView { path: self.path@, panel_width: self.panel_width, mode: self.mode }
    }
}

impl DiffRequest {
    /// Whether two requests ask for the same diff.
    pub fn same_as(&self, other: &DiffRequest) -> (b: bool)
        ensures
            b == (self@ == other@),
    {
        self.path == other.path && self.panel_width == other.panel_width && match (self.mode, other.mode) {
            (DiffMode::Inline, DiffMode::Inline) => true,
            (DiffMode::SideBySide, DiffMode::SideBySide) => true,
            _ => false,
        }
    }

    /// A copy of this request.
    pub fn duplicate(&self) -> (r: DiffRequest)
        ensures
            r@ == self@,
    {
        DiffRequest { path: self.path.clone(), panel_width: self.panel_width, mode: self.mode }
    }
}

/// The rendered lines of one diff.
#[derive(Debug, Clone)]
pub struct DiffContent {
    pub lines: Vec<Line>,
}

impl View for DiffContent {
    type V = Seq<Seq<SpanView>>;

    open spec fn view(&self) -> Seq<Seq<SpanView>> {
        line_views(self.lines@)
    }
}

/// Which two versions of a file a diff compares.
#[derive(Debug, Clone, Copy, PartialEq, Eq)]
pub enum DiffSpec {
    HeadToWorktree,
    EmptyToIndex,
    IndexToWorktree,
}

impl DiffSpec {
    pub open spec fn spec_label(self) -> Seq<char> {
        match self {
            DiffSpec::HeadToWorktree => "HEAD ↔ worktree"@,
            DiffSpec::EmptyToIndex => "(empty) ↔ index"@,
            DiffSpec::IndexToWorktree => "index ↔ worktree"@,
        }
    }

    /// The name shown after the path in a diff's header.
    pub fn label(self) -> (s: &'static str)
        ensures
            s@ == self.spec_label(),
    {
        match self {
            DiffSpec::HeadToWorktree => "HEAD ↔ worktree",
            DiffSpec::EmptyToIndex => "(empty) ↔ index",
            DiffSpec::IndexToWorktree => "index ↔ worktree",
        }
    }
}

/// The comparisons shown for a tracked file: only index against worktree
/// when only unstaged changes are wanted; else `HEAD` against the worktree,
/// or, in a repository without commits, the index against nothing and then
/// against the worktree.
pub open spec fn spec_diff_specs(show_unstaged_only: bool, has_head: bool) -> Seq<DiffSpec> {
    if show_unstaged_only {
        seq![DiffSpec::IndexToWorktree]
    } else if has_head {
        seq![DiffSpec::HeadToWorktree]
    } else {
        seq![DiffSpec::EmptyToIndex, DiffSpec::IndexToWorktree]
    }
}

/// The comparisons shown for a tracked file, in order.
pub fn diff_specs(show_unstaged_only: bool, has_head: bool) -> (v: Vec<DiffSpec>)
    ensures
        v@ == spec_diff_specs(show_unstaged_only, has_head),
{
    let mut v: Vec<DiffSpec> = Vec::new();
    if show_unstaged_only {
        v.push(DiffSpec::IndexToWorktree);
    } else if has_head {
        v.push(DiffSpec::HeadToWorktree);
    } else {
        v.push(DiffSpec::EmptyToIndex);
        v.push(DiffSpec::IndexToWorktree);
    }
    assert(v@ =~= spec_diff_specs(show_unstaged_only, has_head));
    v
}

// ---------------------------------------------------------------------------
// Changed columns
// ---------------------------------------------------------------------------

/// A run of changed display columns within one line.
#[derive(Debug, Clone, Copy, PartialEq, Eq)]
pub struct ChangeSpan {
    pub start_col: u32,
    pub end_col: u32,
}

/// `sorted` with `x` inserted after every element that starts no later.
pub open spec fn insert_by_start(sorted: Seq<ChangeSpan>, x: ChangeSpan) -> Seq<ChangeSpan>
    decreases sorted.len(),
{
    if sorted.len() == 0 || sorted.last().start_col <= x.start_col {
        sorted.push(x)
    } else {
        insert_by_start(sorted.drop_last(), x).push(sorted.last())
    }
}

/// `cs` stably sorted by start column (as `sort_by_key` sorts it).
pub open spec fn sort_by_start(cs: Seq<ChangeSpan>) -> Seq<ChangeSpan>
    decreases cs.len(),
{
    if cs.len() == 0 {
        Seq::empty()
    } else {
        insert_by_start(sort_by_start(cs.drop_last()), cs.last())
    }
}

proof fn lemma_insert_at(v: Seq<ChangeSpan>, x: ChangeSpan, j: int)
    requires
        0 <= j <= v.len(),
        forall|k: int| j <= k < v.len() ==> v[k].start_col > x.start_col,
        j == 0 || v[j - 1].start_col <= x.start_col,
    ensures
        insert_by_start(v, x) == v.insert(j, x),
    decreases v.len() - j,
{
    if j == v.len() {
        assert(v.insert(j, x) =~= v.push(x));
    } else {
        lemma_insert_at(v.drop_last(), x, j);
        assert(v.insert(j, x) =~= v.drop_last().insert(j, x).push(v.last()));
    }
}

/// `changes` stably sorted by start column.
pub fn sort_changes(changes: &[ChangeSpan]) -> (v: Vec<ChangeSpan>)
    ensures
        v@ == sort_by_start(changes@),
{
    let mut v: Vec<ChangeSpan> = Vec::new();
    let mut i: usize = 0;
    assert(changes@.take(0) =~= Seq::<ChangeSpan>::empty());
    while i < changes.len()
        invariant
            i <= changes.len(),
            v@ == sort_by_start(changes@.take(i as int)),
        decreases changes.len() - i,
    {
        let x = changes[i];
        let mut j = v.len();
        while j > 0 && v[j - 1].start_col > x.start_col
            invariant
                j <= v.len(),
                forall|k: int| j <= k < v.len() ==> v@[k].start_col > x.start_col,
            decreases j,
        {
            j -= 1;
        }
        proof {
            lemma_insert_at(v@, x, j as int);
            assert(changes@.take(i + 1).drop_last() == changes@.take(i as int));
            assert(changes@.take(i + 1).last() == x);
        }
        v.insert(j, x);
        i += 1;
    }
    assert(changes@.take(changes.len() as int) == changes@);
    v
}

/// The highlight colour for changed columns: red and green brighten, other
/// colours stay.
pub open spec fn spec_accent_color(base: Color) -> Color {
    match base {
        Color::Red => Color::LightRed,
        Color::Green => Color::LightGreen,
        other => other,
    }
}

pub fn accent_color(base: Color) -> (c: Color)
    ensures
        c == spec_accent_color(base),
{
    match base {
        Color::Red => Color::LightRed,
        Color::Green => Color::LightGreen,
        other => other,
    }
}

/// Unchanged text in the base colour.
pub open spec fn base_span(t: Seq<char>, base: Color) -> SpanView {
    span_of(t, Style::spec_fg(base))
}

/// Changed text, bold in the accent colour.
pub open spec fn accent_span(t: Seq<char>, base: Color) -> SpanView {
    span_of(t, Style::spec_fg_bold(spec_accent_color(base)))
}

/// Where a change starts in `s`, in characters.
pub open spec fn change_start(s: Seq<char>, c: ChangeSpan) -> int {
    chars_before_col(s, c.start_col as int) as int
}

/// Where a change ends in `s`, in characters (never before its start).
pub open spec fn change_end(s: Seq<char>, c: ChangeSpan) -> int {
    let e = chars_before_col(s, c.end_col as int) as int;
    if e > change_start(s, c) {
        e
    } else {
        change_start(s, c)
    }
}

/// The spans for the sorted changes `cs` from character `cursor` on: the
/// unchanged text before each change, then the change, and after the last
/// change the rest of the line.
pub open spec fn spans_from(s: Seq<char>, base: Color, cs: Seq<ChangeSpan>, cursor: int) -> Seq<SpanView>
    decreases cs.len(),
{
    if cs.len() == 0 {
        if cursor < s.len() {
            seq![base_span(s.subrange(cursor, s.len() as int), base)]
        } else {
            Seq::empty()
        }
    } else {
        let start = change_start(s, cs[0]);
        let end = change_end(s, cs[0]);
        let before = if start > cursor {
            seq![base_span(s.subrange(cursor, start), base)]
        } else {
            Seq::empty()
        };
        let changed = if end > start {
            seq![accent_span(s.subrange(start, end), base)]
        } else {
            Seq::empty()
        };
        let next = if end > start {
            end
        } else {
            cursor
        };
        before + changed + spans_from(s, base, cs.drop_first(), next)
    }
}

/// The spans of a line of text with its changed columns highlighted: one
/// base-coloured span when nothing changed (or nothing came out).
pub open spec fn styled_spans(s: Seq<char>, base: Color, changes: Seq<ChangeSpan>) -> Seq<SpanView> {
    let r = spans_from(s, base, sort_by_start(changes), 0);
    if changes.len() == 0 || r.len() == 0 {
        seq![base_span(s, base)]
    } else {
        r
    }
}

proof fn lemma_change_bounds(s: Seq<char>, c: ChangeSpan)
    ensures
        0 <= change_start(s, c) <= change_end(s, c) <= s.len(),
{
    crate::width::lemma_chars_before_col_bound(s, c.start_col as int);
    crate::width::lemma_chars_before_col_bound(s, c.end_col as int);
}


/// Whether the sorted changes of a line each cover at least one character
/// of `s` and follow one another without overlapping.
pub open spec fn changes_disjoint(s: Seq<char>, cs: Seq<ChangeSpan>) -> bool {
    &&& forall|k: int| 0 <= k < cs.len() ==> change_start(s, #[trigger] cs[k]) < change_end(s, cs[k])
    &&& forall|i: int, j: int| 0 <= i < j < cs.len() ==> change_end(s, #[trigger] cs[i]) <= change_start(s, #[trigger] cs[j])
}

proof fn lemma_spans_from_text(s: Seq<char>, base: Color, cs: Seq<ChangeSpan>, cursor: int)
    requires
        0 <= cursor <= s.len(),
        changes_disjoint(s, cs),
        forall|k: int| 0 <= k < cs.len() ==> cursor <= change_start(s, #[trigger] cs[k]),
    ensures
        line_text(spans_from(s, base, cs, cursor)) == s.subrange(cursor, s.len() as int),
    decreases cs.len(),
{
    if cs.len() == 0 {
        if cursor < s.len() {
            lemma_line_text_single(base_span(s.subrange(cursor, s.len() as int), base));
        } else {
            assert(s.subrange(cursor, s.len() as int) =~= Seq::<char>::empty());
        }
    } else {
        let c = cs[0];
        lemma_change_bounds(s, c);
        let start = change_start(s, c);
        let end = change_end(s, c);
        let rest = cs.drop_first();
        assert forall|k: int| 0 <= k < rest.len() implies end <= change_start(s, #[trigger] rest[k]) by {
            assert(rest[k] == cs[k + 1]);
        }
        assert(changes_disjoint(s, rest)) by {
            assert forall|k: int| 0 <= k < rest.len() implies change_start(s, #[trigger] rest[k]) < change_end(s, rest[k]) by {
                assert(rest[k] == cs[k + 1]);
            }
            assert forall|i: int, j: int| 0 <= i < j < rest.len() implies change_end(s, #[trigger] rest[i]) <= change_start(s, #[trigger] rest[j]) by {
                assert(rest[i] == cs[i + 1]);
                assert(rest[j] == cs[j + 1]);
            }
        }
        lemma_spans_from_text(s, base, rest, end);
        let before = if start > cursor {
            seq![base_span(s.subrange(cursor, start), base)]
        } else {
            Seq::empty()
        };
        let changed = seq![accent_span(s.subrange(start, end), base)];
        let tail = spans_from(s, base, rest, end);
        assert(spans_from(s, base, cs, cursor) == before + changed + tail);
        lemma_line_text_append(before + changed, tail);
        lemma_line_text_append(before, changed);
        lemma_line_text_single(accent_span(s.subrange(start, end), base));
        if start > cursor {
            lemma_line_text_single(base_span(s.subrange(cursor, start), base));
        } else {
            assert(line_text(Seq::<SpanView>::empty()) =~= Seq::<char>::empty());
            assert(s.subrange(cursor, start) =~= Seq::<char>::empty());
        }
        assert(s.subrange(cursor, start) + s.subrange(start, end) + s.subrange(end, s.len() as int) =~= s.subrange(
            cursor,
            s.len() as int,
        ));
    }
}

proof fn lemma_line_text_single(x: SpanView)
    ensures
        line_text(seq![x]) == x.content,
{
    assert(seq![x].drop_last() =~= Seq::<SpanView>::empty());
    assert(line_text(Seq::<SpanView>::empty()) =~= Seq::<char>::empty());
    assert(Seq::<char>::empty() + x.content =~= x.content);
}

proof fn lemma_line_text_append(a: Seq<SpanView>, b: Seq<SpanView>)
    ensures
        line_text(a + b) == line_text(a) + line_text(b),
    decreases b.len(),
{
    if b.len() == 0 {
        assert(a + b =~= a);
    } else {
        lemma_line_text_append(a, b.drop_last());
        assert((a + b).drop_last() =~= a + b.drop_last());
        assert((a + b).last() == b.last());
    }
}

/// Highlighting the changed columns of a line never alters its text: the
/// spans, read one after another, give the line back, provided its changes
/// each cover a character and do not overlap once sorted.
pub proof fn highlighting_keeps_the_text(s: Seq<char>, base: Color, changes: Seq<ChangeSpan>)
    requires
        changes_disjoint(s, sort_by_start(changes)),
    ensures
        line_text(styled_spans(s, base, changes)) == s,
{
    let cs = sort_by_start(changes);
    let r = spans_from(s, base, cs, 0);
    if changes.len() == 0 || r.len() == 0 {
        lemma_line_text_single(base_span(s, base));
    } else {
        assert forall|k: int| 0 <= k < cs.len() implies 0 <= change_start(s, #[trigger] cs[k]) by {
            lemma_change_bounds(s, cs[k]);
        }
        lemma_spans_from_text(s, base, cs, 0);
        assert(s.subrange(0, s.len() as int) =~= s);
    }
}

fn push_span(spans: &mut Vec<Span>, s: &[char], from: usize, to: usize, style: Style)
    requires
        from <= to <= s.len(),
    ensures
        span_views(final(spans)@) == span_views(old(spans)@).push(span_of(s@.subrange(from as int, to as int), style)),
{
    let piece = sub_chars(s, from, to);
    let ghost before = spans@;
    spans.push(Span::new(string_from(piece.as_slice()), style));
    assert(span_views(spans@) =~= span_views(before).push(span_of(s@.subrange(from as int, to as int), style)));
}

/// The spans of `text` with the columns in `changes` highlighted.
pub fn styled_text_with_changes(text: &str, base_color: Color, changes: &[ChangeSpan]) -> (spans: Vec<Span>)
    ensures
        span_views(spans@) == styled_spans(text@, base_color, changes@),
{
    let s = chars_of(text);
    if changes.len() == 0 {
        let mut spans: Vec<Span> = Vec::new();
        push_span(&mut spans, s.as_slice(), 0, s.len(), Style::fg(base_color));
        assert(s@.subrange(0, s.len() as int) == s@);
        assert(span_views(spans@) =~= seq![base_span(text@, base_color)]);
        return spans;
    }
    let sorted = sort_changes(changes);
    let ghost cs = sorted@;
    let mut spans: Vec<Span> = Vec::new();
    let mut cursor: usize = 0;
    let mut k: usize = 0;
    let accent = Style::fg_bold(accent_color(base_color));
    assert(cs.skip(0) == cs);
    while k < sorted.len()
        invariant
            s@ == text@,
            cs == sorted@,
            k <= sorted.len(),
            cursor <= s.len(),
            accent == Style::spec_fg_bold(spec_accent_color(base_color)),
            spans_from(s@, base_color, cs, 0) == span_views(spans@) + spans_from(
                s@,
                base_color,
                cs.skip(k as int),
                cursor as int,
            ),
        decreases sorted.len() - k,
    {
        let c = sorted[k];
        proof {
            lemma_change_bounds(s@, c);
            assert(cs.skip(k as int)[0] == c);
            assert(cs.skip(k as int).drop_first() == cs.skip(k + 1));
        }
        let start = col_char_index(s.as_slice(), c.start_col as usize);
        let e = col_char_index(s.as_slice(), c.end_col as usize);
        let end = if e > start { e } else { start };
        let ghost before = span_views(spans@);
        let ghost old_cursor = cursor as int;
        if start > cursor {
            push_span(&mut spans, s.as_slice(), cursor, start, Style::fg(base_color));
        }
        if end > start {
            push_span(&mut spans, s.as_slice(), start, end, accent);
            cursor = end;
        }
        proof {
            let bp = if start > old_cursor {
                seq![base_span(s@.subrange(old_cursor, start as int), base_color)]
            } else {
                Seq::<SpanView>::empty()
            };
            let cp = if end > start {
                seq![accent_span(s@.subrange(start as int, end as int), base_color)]
            } else {
                Seq::<SpanView>::empty()
            };
            assert(span_views(spans@) =~= before + bp + cp);
            let rest = spans_from(s@, base_color, cs.skip(k + 1), cursor as int);
            assert(spans_from(s@, base_color, cs.skip(k as int), old_cursor) == bp + cp + rest);
            assert(before + (bp + cp + rest) =~= (before + bp + cp) + rest);
        }
        k += 1;
    }
    if cursor < s.len() {
        push_span(&mut spans, s.as_slice(), cursor, s.len(), Style::fg(base_color));
    }
    if spans.len() == 0 {
        push_span(&mut spans, s.as_slice(), 0, s.len(), Style::fg(base_color));
        assert(s@.subrange(0, s.len() as int) == s@);
    }
    spans
}

// ---------------------------------------------------------------------------
// Diff lines
// ---------------------------------------------------------------------------

/// `n + 1`, held at `u32::MAX`: line numbers are shown counting from one.
pub open spec fn shown_number(n: u32) -> nat {
    if n < u32::MAX {
        (n + 1) as nat
    } else {
        u32::MAX as nat
    }
}

/// The gutter of a one-sided line: the sign, the line number right-aligned
/// in four columns, a space.
pub open spec fn gutter(prefix: char, line_num: u32) -> Seq<char> {
    seq![prefix] + right_aligned(shown_number(line_num), 4) + seq![' ']
}

/// A one-sided diff line: a dark gutter, then the text with its changed
/// columns highlighted.
pub open spec fn single_side_line(prefix: char, line_num: u32, text: Seq<char>, color: Color, changes: Seq<ChangeSpan>) -> Seq<SpanView> {
    seq![span_of(gutter(prefix, line_num), Style::spec_fg(Color::DarkGray))] + styled_spans(text, color, changes)
}

/// Renders one side of a diff line.
pub fn render_single_side_line(prefix: char, line_num: u32, text: &str, color: Color, changes: &[ChangeSpan]) -> (l: Line)
    ensures
        l@ == single_side_line(prefix, line_num, text@, color, changes@),
{
    let mut g = String::new();
    push_char(&mut g, prefix);
    push_right_aligned(&mut g, line_num.saturating_add(1) as u64, 4);
    push_char(&mut g, ' ');
    assert(g@ =~= gutter(prefix, line_num));
    let mut spans: Vec<Span> = Vec::new();
    spans.push(Span::new(g, Style::fg(Color::DarkGray)));
    let rest = styled_text_with_changes(text, color, changes);
    let ghost head = span_views(spans@);
    let mut i: usize = 0;
    while i < rest.len()
        invariant
            i <= rest.len(),
            span_views(spans@) == head + span_views(rest@).take(i as int),
        decreases rest.len() - i,
    {
        let ghost before = spans@;
        spans.push(rest[i].duplicate());
        assert(span_views(spans@) =~= span_views(before).push(rest@[i as int]@));
        assert(span_views(rest@).take(i + 1) =~= span_views(rest@).take(i as int).push(rest@[i as int]@));
        i += 1;
    }
    assert(span_views(rest@).take(rest.len() as int) == span_views(rest@));
    Line::from_spans(spans)
}

/// The texts of a list of string slices.
pub open spec fn str_views(lines: Seq<&str>) -> Seq<Seq<char>> {
    lines.map_values(|l: &str| l@)
}

/// The text of line `n` among `lines`, empty when there is no such line.
pub open spec fn spec_line_at(lines: Seq<Seq<char>>, n: u32) -> Seq<char> {
    if (n as int) < lines.len() {
        lines[n as int]
    } else {
        Seq::empty()
    }
}

/// Line `line_num` (from zero) of a file's lines, or nothing.
pub fn line_at<'a>(lines: &[&'a str], line_num: u32) -> (s: &'a str)
    ensures
        s@ == spec_line_at(str_views(lines@), line_num),
{
    let i = line_num as usize;
    if i < lines.len() {
        lines[i]
    } else {
        proof {
            reveal_strlit("");
        }
        ""
    }
}

/// One half of a side-by-side line: sign, right-aligned number and text,
/// or nothing when that side has no line.
pub open spec fn side_text(sign: char, n: Option<u32>, lines: Seq<Seq<char>>) -> Seq<char> {
    match n {
        Some(k) => seq![sign] + right_aligned(shown_number(k), 4) + seq![' '] + spec_line_at(lines, k),
        None => Seq::empty(),
    }
}

fn side_line_text(sign: char, n: Option<u32>, lines: &[&str]) -> (t: String)
    ensures
        t@ == side_text(sign, n, str_views(lines@)),
{
    match n {
        Some(k) => {
            let mut t = String::new();
            push_char(&mut t, sign);
            push_right_aligned(&mut t, k.saturating_add(1) as u64, 4);
            push_char(&mut t, ' ');
            push_str(&mut t, line_at(lines, k));
            t
        },
        None => String::new(),
    }
}

/// One line of a structural diff: the line numbers on each side (from zero)
/// and the changed columns on each side.
#[derive(Debug, Clone)]
pub struct SemanticLine {
    pub lhs_line: Option<u32>,
    pub rhs_line: Option<u32>,
    pub lhs_changes: Vec<ChangeSpan>,
    pub rhs_changes: Vec<ChangeSpan>,
}

/// The width of each half of a side-by-side line: the panel width (at least
/// 40) less the separator's five bytes, halved.
pub open spec fn side_width(panel_width: u16) -> nat {
    let total: int = if panel_width >= 40 {
        panel_width as int
    } else {
        40
    };
    ((total - 5) / 2) as nat
}

/// A side-by-side line: the old side cut and padded to the half width in
/// red, a separator, the new side likewise in green.
pub open spec fn side_by_side_line(line: SemanticLine, lhs_lines: Seq<Seq<char>>, rhs_lines: Seq<Seq<char>>, panel_width: u16) -> Seq<SpanView> {
    let w = side_width(panel_width);
    seq![
        span_of(padded(truncated(side_text('-', line.lhs_line, lhs_lines), w), w), Style::spec_fg(Color::Red)),
        span_of(" │ "@, Style::spec_fg(Color::DarkGray)),
        span_of(padded(truncated(side_text('+', line.rhs_line, rhs_lines), w), w), Style::spec_fg(Color::Green)),
    ]
}

/// Each half of a side-by-side line is as wide as half the panel less the
/// separator: on a panel of `w >= 40` columns, a side whose text takes at
/// most `(w - 5) / 2` columns is that text padded with spaces to exactly
/// `(w - 5) / 2` columns, so the halves grow with the panel; a narrower
/// panel is laid out as one of 40 columns.
pub proof fn side_halves_follow_the_panel_width(
    line: SemanticLine,
    lhs_lines: Seq<Seq<char>>,
    rhs_lines: Seq<Seq<char>>,
    panel_width: u16,
)
    ensures
        ({
            let r = side_by_side_line(line, lhs_lines, rhs_lines, panel_width);
            let half: int = (panel_width - 5) / 2;
            let old_side = side_text('-', line.lhs_line, lhs_lines);
            let new_side = side_text('+', line.rhs_line, rhs_lines);
            &&& panel_width >= 40 && text_columns(old_side) <= half ==> r[0].content == old_side + repeat_char(
                ' ',
                (half - text_columns(old_side)) as nat,
            )
            &&& panel_width >= 40 && text_columns(new_side) <= half ==> r[2].content == new_side + repeat_char(
                ' ',
                (half - text_columns(new_side)) as nat,
            )
            &&& r[1].content == " │ "@
            &&& panel_width < 40 ==> r == side_by_side_line(line, lhs_lines, rhs_lines, 40)
        }),
{
    let half: int = (panel_width - 5) / 2;
    let old_side = side_text('-', line.lhs_line, lhs_lines);
    let new_side = side_text('+', line.rhs_line, rhs_lines);
    if panel_width >= 40 {
        assert(side_width(panel_width) == half);
        if text_columns(old_side) == half {
            assert(old_side + repeat_char(' ', 0) =~= old_side);
        }
        if text_columns(new_side) == half {
            assert(new_side + repeat_char(' ', 0) =~= new_side);
        }
    }
}

/// Renders a structural diff line side by side.
pub fn render_side_by_side_line(line: &SemanticLine, lhs_lines: &[&str], rhs_lines: &[&str], panel_width: u16) -> (l: Line)
    ensures
        l@ == side_by_side_line(*line, str_views(lhs_lines@), str_views(rhs_lines@), panel_width),
{
    let total: usize = if panel_width >= 40 { panel_width as usize } else { 40 };
    let separator = " │ ";
    let side: usize = (total - 5) / 2;
    let lhs_text = side_line_text('-', line.lhs_line, lhs_lines);
    let rhs_text = side_line_text('+', line.rhs_line, rhs_lines);
    let lhs = pad_to_width(truncate_to_width(lhs_text.as_str(), side).as_str(), side);
    let rhs = pad_to_width(truncate_to_width(rhs_text.as_str(), side).as_str(), side);
    let mut spans: Vec<Span> = Vec::new();
    spans.push(Span::new(lhs, Style::fg(Color::Red)));
    spans.push(Span::new(separator.to_owned(), Style::fg(Color::DarkGray)));
    spans.push(Span::new(rhs, Style::fg(Color::Green)));
    let l = Line::from_spans(spans);
    assert(l@ =~= side_by_side_line(*line, str_views(lhs_lines@), str_views(rhs_lines@), panel_width));
    l
}

/// The lines a structural diff line becomes: inline, its old side (if any) in
/// red and then its new side (if any) in green; side by side, one line.
pub open spec fn semantic_line_lines(line: SemanticLine, lhs_lines: Seq<Seq<char>>, rhs_lines: Seq<Seq<char>>, panel_width: u16, mode: DiffMode) -> Seq<Seq<SpanView>> {
    match mode {
        DiffMode::Inline => {
            let old_side = match line.lhs_line {
                Some(n) => seq![single_side_line('-', n, spec_line_at(lhs_lines, n), Color::Red, line.lhs_changes@)],
                None => Seq::empty(),
            };
            let new_side = match line.rhs_line {
                Some(n) => seq![single_side_line('+', n, spec_line_at(rhs_lines, n), Color::Green, line.rhs_changes@)],
                None => Seq::empty(),
            };
            old_side + new_side
        },
        DiffMode::SideBySide => seq![side_by_side_line(line, lhs_lines, rhs_lines, panel_width)],
    }
}

/// Renders one structural diff line in the given layout.
pub fn render_semantic_line(line: &SemanticLine, lhs_lines: &[&str], rhs_lines: &[&str], panel_width: u16, mode: DiffMode) -> (v: Vec<Line>)
    ensures
        line_views(v@) == semantic_line_lines(*line, str_views(lhs_lines@), str_views(rhs_lines@), panel_width, mode),
{
    let mut out: Vec<Line> = Vec::new();
    match mode {
        DiffMode::Inline => {
            if let Some(n) = line.lhs_line {
                out.push(render_single_side_line('-', n, line_at(lhs_lines, n), Color::Red, line.lhs_changes.as_slice()));
            }
            let ghost mid = line_views(out@);
            if let Some(n) = line.rhs_line {
                out.push(render_single_side_line('+', n, line_at(rhs_lines, n), Color::Green, line.rhs_changes.as_slice()));
            }
            assert(line_views(out@) =~= semantic_line_lines(*line, str_views(lhs_lines@), str_views(rhs_lines@), panel_width, mode));
        },
        DiffMode::SideBySide => {
            out.push(render_side_by_side_line(line, lhs_lines, rhs_lines, panel_width));
            assert(line_views(out@) =~= semantic_line_lines(*line, str_views(lhs_lines@), str_views(rhs_lines@), panel_width, mode));
        },
    }
    out
}

// ---------------------------------------------------------------------------
// Whole diffs
// ---------------------------------------------------------------------------

/// What the structural differ made of two versions.
#[derive(Debug, Clone, Copy, PartialEq, Eq)]
pub enum SemanticStatus {
    /// Both versions exist and differ.
    Changed,
    /// Only the new version exists.
    Created,
    /// Only the old version exists.
    Deleted,
    /// The versions are not text.
    Binary,
}

/// A run of structural diff lines.
#[derive(Debug, Clone)]
pub struct SemanticChunk {
    pub lines: Vec<SemanticLine>,
}

/// A structural diff of two versions of a file.
#[derive(Debug, Clone)]
pub struct SemanticDiff {
    pub status: SemanticStatus,
    pub chunks: Vec<SemanticChunk>,
}

/// The bytes of a version that may not exist.
pub open spec fn opt_bytes(o: Option<Vec<u8>>) -> Option<Seq<u8>> {
    match o {
        Some(v) => Some(v@),
        None => None,
    }
}

/// The bytes of a version, none when it does not exist.
pub open spec fn bytes_or_empty(o: Option<Seq<u8>>) -> Seq<u8> {
    match o {
        Some(b) => b,
        None => Seq::empty(),
    }
}

/// The lines of a version, decoded leniently.
pub open spec fn version_lines(o: Option<Seq<u8>>) -> Seq<Seq<char>> {
    text_lines(lossy_text(bytes_or_empty(o)))
}

/// The header line of a diff: the path and the comparison, bold cyan.
pub open spec fn diff_header(file_path: Seq<char>, spec: DiffSpec) -> Seq<SpanView> {
    seq![span_of(file_path + " ("@ + spec.spec_label() + ")"@, Style::spec_fg_bold(Color::Cyan))]
}

/// Every line of one version shown on one side, numbered from zero.
pub open spec fn whole_side(lines: Seq<Seq<char>>, prefix: char, color: Color) -> Seq<Seq<SpanView>> {
    Seq::new(lines.len(), |i: int| single_side_line(prefix, i as u32, lines[i], color, Seq::empty()))
}

/// The lines of all chunks of a structural diff.
pub open spec fn semantic_body(chunks: Seq<SemanticChunk>, lhs: Seq<Seq<char>>, rhs: Seq<Seq<char>>, panel_width: u16, mode: DiffMode) -> Seq<Seq<SpanView>> {
    concat_all(
        chunks.map_values(
            |c: SemanticChunk|
                concat_all(
                    c.lines@.map_values(|l: SemanticLine| semantic_line_lines(l, lhs, rhs, panel_width, mode)),
                ),
        ),
    )
}

/// The lines of one comparison: nothing when the versions are equal; else a
/// header, then the new or old version whole when the file was created or
/// deleted, a note for binary files, or the structural diff's lines (a note
/// when there are none).
pub open spec fn diff_spec_lines(
    file_path: Seq<char>,
    panel_width: u16,
    mode: DiffMode,
    spec: DiffSpec,
    lhs: Option<Seq<u8>>,
    rhs: Option<Seq<u8>>,
    semantic: SemanticDiff,
) -> Seq<Seq<SpanView>> {
    if lhs == rhs {
        Seq::empty()
    } else {
        let header = diff_header(file_path, spec);
        let lt = version_lines(lhs);
        let rt = version_lines(rhs);
        match semantic.status {
            SemanticStatus::Binary => seq![header, seq![span_of("[binary diff]"@, Style::spec_fg(Color::Yellow))]],
            SemanticStatus::Created => seq![header] + whole_side(rt, '+', Color::Green),
            SemanticStatus::Deleted => seq![header] + whole_side(lt, '-', Color::Red),
            SemanticStatus::Changed => {
                let body = semantic_body(semantic.chunks@, lt, rt, panel_width, mode);
                if body.len() == 0 {
                    seq![header, raw_line("[no visible changes]"@)]
                } else {
                    seq![header] + body
                }
            },
        }
    }
}

/// Whether two byte strings are equal.
pub fn bytes_equal(a: &[u8], b: &[u8]) -> (r: bool)
    ensures
        r == (a@ == b@),
{
    if a.len() != b.len() {
        return false;
    }
    let mut i: usize = 0;
    while i < a.len()
        invariant
            i <= a.len() == b.len(),
            forall|k: int| 0 <= k < i ==> a@[k] == b@[k],
        decreases a.len() - i,
    {
        if a[i] != b[i] {
            assert(a@[i as int] != b@[i as int]);
            return false;
        }
        i += 1;
    }
    assert(a@ =~= b@);
    true
}

/// Whether two versions are the same (both missing, or equal bytes).
pub fn same_version(lhs: &Option<Vec<u8>>, rhs: &Option<Vec<u8>>) -> (b: bool)
    ensures
        b == (opt_bytes(*lhs) == opt_bytes(*rhs)),
{
    match (lhs, rhs) {
        (None, None) => true,
        (Some(a), Some(b)) => bytes_equal(a.as_slice(), b.as_slice()),
        _ => false,
    }
}

fn append_lines(out: &mut Vec<Line>, more: Vec<Line>)
    ensures
        line_views(final(out)@) == line_views(old(out)@) + line_views(more@),
{
    let ghost before = out@;
    let mut more = more;
    let ghost added = more@;
    out.append(&mut more);
    assert(line_views(out@) =~= line_views(before) + line_views(added));
}

fn version_text_lines(o: &Option<Vec<u8>>) -> (v: Vec<String>)
    ensures
        v@.map_values(|s: String| s@) == version_lines(opt_bytes(*o)),
{
    let empty: Vec<u8> = Vec::new();
    let text = match o {
        Some(b) => lossy_string(b.as_slice()),
        None => lossy_string(empty.as_slice()),
    };
    proof {
        assert(bytes_or_empty(opt_bytes(*o)) =~= match o { Some(b) => b@, None => Seq::<u8>::empty() });
    }
    let chars = chars_of(text.as_str());
    let pieces = split_lines(chars.as_slice());
    let ghost texts = pieces@.map_values(|r: Vec<char>| r@);
    let mut v: Vec<String> = Vec::new();
    let mut i: usize = 0;
    while i < pieces.len()
        invariant
            i <= pieces.len(),
            texts == pieces@.map_values(|r: Vec<char>| r@),
            v@.map_values(|s: String| s@) == texts.take(i as int),
        decreases pieces.len() - i,
    {
        let ghost before = v@;
        v.push(string_from(pieces[i].as_slice()));
        assert(v@.map_values(|s: String| s@) =~= before.map_values(|s: String| s@).push(texts[i as int]));
        assert(texts.take(i + 1) =~= texts.take(i as int).push(texts[i as int]));
        i += 1;
    }
    assert(texts.take(pieces.len() as int) == texts);
    v
}

fn borrow_lines(v: &Vec<String>) -> (r: Vec<&str>)
    ensures
        str_views(r@) == v@.map_values(|s: String| s@),
{
    let mut r: Vec<&str> = Vec::new();
    let mut i: usize = 0;
    while i < v.len()
        invariant
            i <= v.len(),
            str_views(r@) == v@.map_values(|s: String| s@).take(i as int),
        decreases v.len() - i,
    {
        let ghost before = r@;
        r.push(v[i].as_str());
        assert(str_views(r@) =~= str_views(before).push(v@[i as int]@));
        assert(v@.map_values(|s: String| s@).take(i + 1) =~= v@.map_values(|s: String| s@).take(i as int).push(v@[i as int]@));
        i += 1;
    }
    assert(v@.map_values(|s: String| s@).take(v.len() as int) == v@.map_values(|s: String| s@));
    r
}

fn render_whole_side(lines: &[&str], prefix: char, color: Color) -> (v: Vec<Line>)
    ensures
        line_views(v@) == whole_side(str_views(lines@), prefix, color),
{
    let mut v: Vec<Line> = Vec::new();
    let mut i: usize = 0;
    let empty: Vec<ChangeSpan> = Vec::new();
    while i < lines.len()
        invariant
            i <= lines.len(),
            empty@ == Seq::<ChangeSpan>::empty(),
            line_views(v@) == whole_side(str_views(lines@), prefix, color).take(i as int),
        decreases lines.len() - i,
    {
        let ghost before = v@;
        v.push(render_single_side_line(prefix, i as u32, lines[i], color, empty.as_slice()));
        assert(line_views(v@) =~= line_views(before).push(v@[i as int]@));
        assert(whole_side(str_views(lines@), prefix, color).take(i + 1) =~= whole_side(str_views(lines@), prefix, color).take(i as int).push(
            whole_side(str_views(lines@), prefix, color)[i as int],
        ));
        i += 1;
    }
    assert(whole_side(str_views(lines@), prefix, color).take(lines.len() as int) =~= whole_side(str_views(lines@), prefix, color));
    v
}

fn render_chunk(chunk: &SemanticChunk, lhs: &[&str], rhs: &[&str], panel_width: u16, mode: DiffMode) -> (v: Vec<Line>)
    ensures
        line_views(v@) == concat_all(
            chunk.lines@.map_values(
                |l: SemanticLine| semantic_line_lines(l, str_views(lhs@), str_views(rhs@), panel_width, mode),
            ),
        ),
{
    let ghost parts = chunk.lines@.map_values(
        |l: SemanticLine| semantic_line_lines(l, str_views(lhs@), str_views(rhs@), panel_width, mode),
    );
    let mut v: Vec<Line> = Vec::new();
    let mut i: usize = 0;
    assert(parts.take(0) =~= Seq::<Seq<Seq<SpanView>>>::empty());
    while i < chunk.lines.len()
        invariant
            i <= chunk.lines.len(),
            parts == chunk.lines@.map_values(
                |l: SemanticLine| semantic_line_lines(l, str_views(lhs@), str_views(rhs@), panel_width, mode),
            ),
            line_views(v@) == concat_all(parts.take(i as int)),
        decreases chunk.lines.len() - i,
    {
        let more = render_semantic_line(&chunk.lines[i], lhs, rhs, panel_width, mode);
        append_lines(&mut v, more);
        assert(parts.take(i + 1).drop_last() =~= parts.take(i as int));
        i += 1;
    }
    assert(parts.take(chunk.lines.len() as int) == parts);
    v
}

/// Renders one comparison of a file's versions, given what the structural
/// differ made of them.
pub fn render_diff_spec(
    file_path: &str,
    panel_width: u16,
    mode: DiffMode,
    spec: DiffSpec,
    lhs: &Option<Vec<u8>>,
    rhs: &Option<Vec<u8>>,
    semantic: &SemanticDiff,
) -> (v: Vec<Line>)
    ensures
        line_views(v@) == diff_spec_lines(file_path@, panel_width, mode, spec, opt_bytes(*lhs), opt_bytes(*rhs), *semantic),
{
    if same_version(lhs, rhs) {
        let v: Vec<Line> = Vec::new();
        assert(line_views(v@) =~= Seq::<Seq<SpanView>>::empty());
        return v;
    }
    let lhs_owned = version_text_lines(lhs);
    let rhs_owned = version_text_lines(rhs);
    let lhs_lines = borrow_lines(&lhs_owned);
    let rhs_lines = borrow_lines(&rhs_owned);
    let mut head = String::new();
    push_str(&mut head, file_path);
    push_str(&mut head, " (");
    push_str(&mut head, spec.label());
    push_str(&mut head, ")");
    let mut rendered: Vec<Line> = Vec::new();
    rendered.push(Line::from_span(Span::new(head, Style::fg_bold(Color::Cyan))));
    let ghost header = line_views(rendered@);
    assert(header =~= seq![diff_header(file_path@, spec)]);
    match semantic.status {
        SemanticStatus::Binary => {
            rendered.push(Line::from_span(Span::new("[binary diff]".to_owned(), Style::fg(Color::Yellow))));
            assert(line_views(rendered@) =~= diff_spec_lines(file_path@, panel_width, mode, spec, opt_bytes(*lhs), opt_bytes(*rhs), *semantic));
            return rendered;
        },
        SemanticStatus::Created => {
            let side = render_whole_side(rhs_lines.as_slice(), '+', Color::Green);
            append_lines(&mut rendered, side);
            return rendered;
        },
        SemanticStatus::Deleted => {
            let side = render_whole_side(lhs_lines.as_slice(), '-', Color::Red);
            append_lines(&mut rendered, side);
            return rendered;
        },
        SemanticStatus::Changed => {},
    }
    let ghost parts = semantic.chunks@.map_values(
        |c: SemanticChunk|
            concat_all(
                c.lines@.map_values(
                    |l: SemanticLine| semantic_line_lines(l, str_views(lhs_lines@), str_views(rhs_lines@), panel_width, mode),
                ),
            ),
    );
    let mut k: usize = 0;
    assert(parts.take(0) =~= Seq::<Seq<Seq<SpanView>>>::empty());
    assert(header + concat_all(parts.take(0)) =~= header);
    while k < semantic.chunks.len()
        invariant
            k <= semantic.chunks.len(),
            parts == semantic.chunks@.map_values(
                |c: SemanticChunk|
                    concat_all(
                        c.lines@.map_values(
                            |l: SemanticLine| semantic_line_lines(l, str_views(lhs_lines@), str_views(rhs_lines@), panel_width, mode),
                        ),
                    ),
            ),
            line_views(rendered@) == header + concat_all(parts.take(k as int)),
        decreases semantic.chunks.len() - k,
    {
        let more = render_chunk(&semantic.chunks[k], lhs_lines.as_slice(), rhs_lines.as_slice(), panel_width, mode);
        let ghost before = line_views(rendered@);
        append_lines(&mut rendered, more);
        assert(parts.take(k + 1).drop_last() =~= parts.take(k as int));
        assert(before + parts[k as int] == header + concat_all(parts.take(k + 1)));
        k += 1;
    }
    assert(parts.take(semantic.chunks.len() as int) == parts);
    proof {
        assert(str_views(lhs_lines@) == version_lines(opt_bytes(*lhs)));
        assert(str_views(rhs_lines@) == version_lines(opt_bytes(*rhs)));
        assert(concat_all(parts) == semantic_body(semantic.chunks@, str_views(lhs_lines@), str_views(rhs_lines@), panel_width, mode));
        assert(line_views(rendered@).len() == rendered@.len());
    }
    if rendered.len() == 1 {
        let ghost before = line_views(rendered@);
        assert(concat_all(parts).len() == 0);
        assert(before =~= header);
        rendered.push(Line::raw("[no visible changes]"));
        assert(line_views(rendered@) =~= before.push(raw_line("[no visible changes]"@)));
        assert(line_views(rendered@) =~= seq![diff_header(file_path@, spec), raw_line("[no visible changes]"@)]);
    }
    proof {
        let body = semantic_body(semantic.chunks@, version_lines(opt_bytes(*lhs)), version_lines(opt_bytes(*rhs)), panel_width, mode);
        assert(semantic.status == SemanticStatus::Changed);
        assert(opt_bytes(*lhs) != opt_bytes(*rhs));
        assert(concat_all(parts) == body);
        if body.len() == 0 {
            assert(line_views(rendered@) == seq![diff_header(file_path@, spec), raw_line("[no visible changes]"@)]);
        } else {
            assert(line_views(rendered@) == seq![diff_header(file_path@, spec)] + body);
        }
    }
    rendered
}


// ---------------------------------------------------------------------------
// Versions from git
// ---------------------------------------------------------------------------

/// `git show <revision>:<path>`: the bytes of a file at a revision.
pub fn git_revision_bytes(revision: &str, file_path: &str) -> (c: GitCommand)
    ensures
        arg_texts(c.args@) == seq!["show"@, revision@ + ":"@ + file_path@],
        c.context@ == "Failed to run git show "@ + revision@ + ":"@ + file_path@,
{
    let mut object = revision.to_owned();
    push_str(&mut object, ":");
    push_str(&mut object, file_path);
    let mut args: Vec<String> = Vec::new();
    push_arg(&mut args, "show");
    push_arg(&mut args, object.as_str());
    GitCommand { args, context: text_of("Failed to run git show ", object.as_str()) }
}

/// `git show :<path>`: the staged bytes of a file.
pub fn git_index_bytes(file_path: &str) -> (c: GitCommand)
    ensures
        arg_texts(c.args@) == seq!["show"@, ":"@ + file_path@],
        c.context@ == "Failed to run git show :"@ + file_path@,
{
    let object = text_of(":", file_path);
    let mut args: Vec<String> = Vec::new();
    push_arg(&mut args, "show");
    push_arg(&mut args, object.as_str());
    let context = text_of("Failed to run git show ", object.as_str());
    proof {
        reveal_strlit("Failed to run git show ");
        reveal_strlit("Failed to run git show :");
        reveal_strlit(":");
        assert(context@ =~= "Failed to run git show :"@ + file_path@);
    }
    GitCommand { args, context }
}

/// What `git show` gave: the object's bytes when it succeeded, else no
/// version (the object does not exist there).
pub fn git_object_bytes(output: &GitOutput) -> (r: Option<Vec<u8>>)
    ensures
        opt_bytes(r) == (if output.success { Some(output.stdout@) } else { None::<Seq<u8>> }),
{
    if output.success {
        let bytes = output.stdout.clone();
        assert(bytes@ =~= output.stdout@);
        Some(bytes)
    } else {
        None
    }
}

// ---------------------------------------------------------------------------
// Whole diffs
// ---------------------------------------------------------------------------

/// The comparisons of a tracked file joined: empty ones left out, a blank
/// line between the others.
pub open spec fn joined_chunks(chunks: Seq<Seq<Seq<SpanView>>>) -> Seq<Seq<SpanView>>
    decreases chunks.len(),
{
    if chunks.len() == 0 {
        Seq::empty()
    } else {
        let before = joined_chunks(chunks.drop_last());
        let last = chunks.last();
        if last.len() == 0 {
            before
        } else if before.len() == 0 {
            last
        } else {
            before + seq![raw_line(""@)] + last
        }
    }
}

/// The diff of a tracked file, made of its rendered comparisons in order.
pub fn render_tracked_diff(chunks: Vec<Vec<Line>>) -> (d: DiffContent)
    ensures
        d@ == joined_chunks(chunks@.map_values(|c: Vec<Line>| line_views(c@))),
{
    let ghost views = chunks@.map_values(|c: Vec<Line>| line_views(c@));
    let mut lines: Vec<Line> = Vec::new();
    let mut chunks = chunks;
    let mut i: usize = 0;
    let n = chunks.len();
    assert(views.take(0) =~= Seq::<Seq<Seq<SpanView>>>::empty());
    while i < n
        invariant
            n == views.len(),
            i <= n,
            chunks.len() == n - i,
            forall|k: int| 0 <= k < n - i ==> line_views(#[trigger] chunks@[k]@) == views[i + k],
            line_views(lines@) == joined_chunks(views.take(i as int)),
        decreases n - i,
    {
        let chunk = chunks.remove(0);
        assert(line_views(chunk@) == views[i as int]);
        assert(views.take(i + 1).drop_last() =~= views.take(i as int));
        if chunk.len() > 0 {
            if lines.len() > 0 {
                let ghost before = line_views(lines@);
                lines.push(Line::raw(""));
                assert(line_views(lines@) =~= before + seq![raw_line(""@)]);
            }
            append_lines(&mut lines, chunk);
        } else {
            assert(line_views(chunk@).len() == 0);
        }
        i += 1;
    }
    assert(views.take(n as int) == views);
    DiffContent { lines }
}

/// One numbered line of a new file: the number right-aligned in four dark
/// columns, then the text after `+ `, green.
pub open spec fn new_file_line(index: nat, text: Seq<char>) -> Seq<SpanView> {
    seq![
        span_of(right_aligned(index + 1, 4) + " "@, Style::spec_fg(Color::DarkGray)),
        span_of("+ "@ + text, Style::spec_fg(Color::Green)),
    ]
}

/// The view of an untracked file: a bold green `new file: <path>` line, a
/// blank line, then every line of its content numbered from one; a file that
/// cannot be read as text shows `[binary file]` as its content.
pub open spec fn new_file_lines(file_path: Seq<char>, content: Option<Seq<char>>) -> Seq<Seq<SpanView>> {
    let text = match content {
        Some(t) => t,
        None => "[binary file]"@,
    };
    let body = text_lines(text);
    seq![seq![span_of("new file: "@ + file_path, Style::spec_fg_bold(Color::Green))], raw_line(""@)]
        + Seq::new(body.len(), |i: int| new_file_line(i as nat, body[i]))
}

/// The view of an untracked file, given its content as text, or `None` when
/// it could not be read as text.
pub fn show_new_file(file_path: &str, content: Option<&str>) -> (d: DiffContent)
    ensures
        d@ == new_file_lines(file_path@, match content { Some(t) => Some(t@), None => None }),
{
    let text: &str = match content {
        Some(t) => t,
        None => "[binary file]",
    };
    let ghost body = text_lines(text@);
    let mut lines: Vec<Line> = Vec::new();
    lines.push(Line::from_span(Span::new(text_of("new file: ", file_path), Style::fg_bold(Color::Green))));
    lines.push(Line::raw(""));
    let ghost head = line_views(lines@);
    let chars = chars_of(text);
    let pieces = split_lines(chars.as_slice());
    let ghost texts = pieces@.map_values(|r: Vec<char>| r@);
    assert(texts == body);
    let mut i: usize = 0;
    while i < pieces.len()
        invariant
            i <= pieces.len(),
            texts == pieces@.map_values(|r: Vec<char>| r@),
            line_views(lines@) == head + Seq::new(i as nat, |k: int| new_file_line(k as nat, texts[k])),
        decreases pieces.len() - i,
    {
        let mut number = String::new();
        push_right_aligned(&mut number, (i as u64) + 1, 4);
        push_char(&mut number, ' ');
        let added = text_of("+ ", string_from(pieces[i].as_slice()).as_str());
        let mut spans: Vec<Span> = Vec::new();
        spans.push(Span::new(number, Style::fg(Color::DarkGray)));
        spans.push(Span::new(added, Style::fg(Color::Green)));
        let ghost before = line_views(lines@);
        proof {
            reveal_strlit(" ");
            assert(number@ =~= right_aligned((i + 1) as nat, 4) + " "@);
            assert(span_views(spans@) =~= seq![spans@[0]@, spans@[1]@]);
        }
        let line = Line::from_spans(spans);
        assert(line@ =~= new_file_line(i as nat, texts[i as int]));
        lines.push(line);
        assert(line_views(lines@) =~= before.push(new_file_line(i as nat, texts[i as int])));
        assert(Seq::new((i + 1) as nat, |k: int| new_file_line(k as nat, texts[k])) =~= Seq::new(
            i as nat,
            |k: int| new_file_line(k as nat, texts[k]),
        ).push(new_file_line(i as nat, texts[i as int])));
        i += 1;
    }
    proof {
        assert(text@ == match content { Some(t) => t@, None => "[binary file]"@ });
        assert(line_views(lines@) =~= new_file_lines(file_path@, match content { Some(t) => Some(t@), None => None }));
    }
    DiffContent { lines }
}

} // verus!
