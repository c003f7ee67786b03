//! What the screen shows, as styled lines: the title bar, the rows of the
//! file list, and the visible part of the diff panel with the cursor line
//! and changed lines tinted. Laying these out in the terminal is left to the
//! caller.

use vstd::prelude::*;
use crate::app::{
    App, AppView, Panel, addition_color, deletion_color, is_addition_color, is_deletion_color, min_nat, sat_add, sat_sub,
    selected_file, selected_lines,
};
use crate::git::{FileStat, FileStatView, FileStatus};
use crate::style::{Color, Line, Span, SpanView, Style, line_views, raw_line, span_of, span_views};
use crate::text::{chars_of, decimal, push_char, push_decimal, push_repeated, push_str, repeat_char};
use crate::width::{display_width, printable_ascii, text_columns, utf8_len, lemma_encode_append, char_utf8_len};

verus! {

// ---------------------------------------------------------------------------
// Line counts and staging marks
// ---------------------------------------------------------------------------

/// The line counts of a file: `+<additions>` in green and `-<deletions>` in
/// red, each only when it is not zero.
pub open spec fn stat_spans(additions: u32, deletions: u32) -> Seq<SpanView> {
    let plus = span_of("+"@ + decimal(additions as nat), Style::spec_fg(Color::Green));
    let minus = span_of("-"@ + decimal(deletions as nat), Style::spec_fg(Color::Red));
    if additions == 0 && deletions == 0 {
        Seq::empty()
    } else if deletions == 0 {
        seq![plus]
    } else if additions == 0 {
        seq![minus]
    } else {
        seq![plus, minus]
    }
}

/// The columns a list of spans takes.
pub open spec fn spans_width(s: Seq<SpanView>) -> nat
    decreases s.len(),
{
    if s.len() == 0 {
        0
    } else {
        spans_width(s.drop_last()) + text_columns(s.last().content) as nat
    }
}

proof fn lemma_decimal_ascii(n: nat)
    ensures
        printable_ascii(decimal(n)),
        n < 10 ==> decimal(n).len() <= 1,
        n < 100 ==> decimal(n).len() <= 2,
        n < 1000 ==> decimal(n).len() <= 3,
        n < 10000 ==> decimal(n).len() <= 4,
        n < 100000 ==> decimal(n).len() <= 5,
        n < 1000000 ==> decimal(n).len() <= 6,
        n < 10000000 ==> decimal(n).len() <= 7,
        n < 100000000 ==> decimal(n).len() <= 8,
        n < 1000000000 ==> decimal(n).len() <= 9,
        n < 10000000000 ==> decimal(n).len() <= 10,
    decreases n,
{
    if n >= 10 {
        lemma_decimal_ascii(n / 10);
        let d = decimal(n / 10);
        assert(decimal(n) == d.push(crate::text::digit_char(n % 10)));
        assert forall|i: int| 0 <= i < decimal(n).len() implies 0x20 <= (#[trigger] decimal(n)[i] as u32) < 0x7f by {
            if i < d.len() {
                assert(decimal(n)[i] == d[i]);
            }
        }
    }
}

proof fn lemma_sign_number_width(sign: char, n: u32)
    requires
        sign == '+' || sign == '-',
    ensures
        printable_ascii(seq![sign] + decimal(n as nat)),
        (seq![sign] + decimal(n as nat)).len() <= 11,
{
    lemma_decimal_ascii(n as nat);
    let s = seq![sign] + decimal(n as nat);
    assert forall|i: int| 0 <= i < s.len() implies 0x20 <= (#[trigger] s[i] as u32) < 0x7f by {
        if i > 0 {
            assert(s[i] == decimal(n as nat)[i - 1]);
        }
    }
}

fn sign_number(sign: char, n: u32) -> (s: String)
    requires
        sign == '+' || sign == '-',
    ensures
        s@ == seq![sign] + decimal(n as nat),
        display_columns_known(s@),
{
    let mut s = String::new();
    push_char(&mut s, sign);
    push_decimal(&mut s, n as u64);
    proof {
        lemma_sign_number_width(sign, n);
        assert(s@ =~= seq![sign] + decimal(n as nat));
    }
    s
}

/// Whether the columns of `s` are known to be its length: printable ASCII
/// of at most eleven characters.
pub open spec fn display_columns_known(s: Seq<char>) -> bool {
    printable_ascii(s) && s.len() <= 11
}

/// The spans of a file's line counts.
pub fn format_stat_spans(additions: u32, deletions: u32) -> (v: Vec<Span>)
    ensures
        span_views(v@) == stat_spans(additions, deletions),
{
    proof {
        reveal_strlit("+");
        reveal_strlit("-");
        assert("+"@ =~= seq!['+']);
        assert("-"@ =~= seq!['-']);
    }
    let mut v: Vec<Span> = Vec::new();
    if additions != 0 {
        v.push(Span::new(sign_number('+', additions), Style::fg(Color::Green)));
    }
    if deletions != 0 {
        v.push(Span::new(sign_number('-', deletions), Style::fg(Color::Red)));
    }
    assert(span_views(v@) =~= stat_spans(additions, deletions));
    v
}

/// The columns of a file's line counts (at most 22: ASCII digits and a
/// sign per count).
fn stat_width(additions: u32, deletions: u32) -> (w: usize)
    ensures
        w == spans_width(stat_spans(additions, deletions)),
        w <= 22,
{
    proof {
        reveal_strlit("+");
        reveal_strlit("-");
        assert("+"@ =~= seq!['+']);
        assert("-"@ =~= seq!['-']);
    }
    let ghost s = stat_spans(additions, deletions);
    let plus = sign_number('+', additions);
    let minus = sign_number('-', deletions);
    let pw = display_width(plus.as_str());
    let mw = display_width(minus.as_str());
    if additions == 0 && deletions == 0 {
        0
    } else if deletions == 0 {
        assert(s.drop_last() =~= Seq::<SpanView>::empty());
        assert(spans_width(s.drop_last()) == 0);
        assert(s.last().content == plus@);
        pw
    } else if additions == 0 {
        assert(s.drop_last() =~= Seq::<SpanView>::empty());
        assert(spans_width(s.drop_last()) == 0);
        assert(s.last().content == minus@);
        mw
    } else {
        assert(s.drop_last().drop_last() =~= Seq::<SpanView>::empty());
        assert(spans_width(s.drop_last().drop_last()) == 0);
        assert(s.drop_last().last().content == plus@);
        assert(spans_width(s.drop_last()) == pw);
        assert(s.last().content == minus@);
        pw + mw
    }
}

/// The columns of a list of spans.
pub fn plain_text_width(spans: &[Span]) -> (w: usize)
    requires
        spans_width(span_views(spans@)) <= usize::MAX,
    ensures
        w == spans_width(span_views(spans@)),
{
    let ghost s = span_views(spans@);
    let mut w: usize = 0;
    let mut i: usize = 0;
    while i < spans.len()
        invariant
            i <= spans.len(),
            s == span_views(spans@),
            s.len() == spans.len(),
            spans_width(s) <= usize::MAX,
            w == spans_width(s.take(i as int)),
        decreases spans.len() - i,
    {
        assert(s.take(i + 1).drop_last() =~= s.take(i as int));
        proof {
            lemma_spans_width_prefix(s, i + 1);
        }
        w = w + display_width(spans[i].content.as_str());
        i += 1;
    }
    assert(s.take(spans.len() as int) =~= s);
    w
}

/// The columns of a list of spans, or `None` when they do not fit in a
/// `usize`.
pub fn checked_plain_text_width(spans: &[Span]) -> (r: Option<usize>)
    ensures
        match r {
            Some(w) => spans_width(span_views(spans@)) <= usize::MAX && w == spans_width(span_views(spans@)),
            None => spans_width(span_views(spans@)) > usize::MAX,
        },
{
    let ghost s = span_views(spans@);
    let mut w: usize = 0;
    let mut i: usize = 0;
    while i < spans.len()
        invariant
            i <= spans.len(),
            s == span_views(spans@),
            s.len() == spans.len(),
            w == spans_width(s.take(i as int)),
        decreases spans.len() - i,
    {
        assert(s.take(i + 1).drop_last() =~= s.take(i as int));
        match w.checked_add(display_width(spans[i].content.as_str())) {
            Some(next) => {
                w = next;
            },
            None => {
                proof {
                    lemma_spans_width_prefix(s, i + 1);
                }
                return None;
            },
        }
        i += 1;
    }
    assert(s.take(spans.len() as int) =~= s);
    Some(plain_text_width(spans))
}

proof fn lemma_spans_width_prefix(s: Seq<SpanView>, n: int)
    requires
        0 <= n <= s.len(),
    ensures
        spans_width(s.take(n)) <= spans_width(s),
    decreases s.len() - n,
{
    if n < s.len() {
        lemma_spans_width_prefix(s, n + 1);
        assert(s.take(n + 1).drop_last() =~= s.take(n));
    } else {
        assert(s.take(n) =~= s);
    }
}

/// The staging mark of a file: half circle when it has staged and unstaged
/// changes, full when only staged, empty when only unstaged, none when it
/// has neither.
pub open spec fn stage_icon(staged: bool, unstaged: bool) -> Option<(Seq<char>, Color)> {
    if staged && unstaged {
        Some(("◐"@, Color::Cyan))
    } else if staged {
        Some(("●"@, Color::Green))
    } else if unstaged {
        Some(("○"@, Color::Yellow))
    } else {
        None
    }
}

/// The staging mark of a file and its colour.
pub fn file_stage_icon(file: &FileStat) -> (r: Option<(&'static str, Color)>)
    ensures
        match r {
            Some(p) => stage_icon(file.has_staged_changes, file.has_unstaged_changes) == Some((p.0@, p.1)),
            None => stage_icon(file.has_staged_changes, file.has_unstaged_changes) == None::<(Seq<char>, Color)>,
        },
{
    if file.has_staged_changes && file.has_unstaged_changes {
        Some(("◐", Color::Cyan))
    } else if file.has_staged_changes {
        Some(("●", Color::Green))
    } else if file.has_unstaged_changes {
        Some(("○", Color::Yellow))
    } else {
        None
    }
}

/// The spaces between a file's line counts and its staging mark, so that
/// the marks line up at the right edge of the list: the width left after
/// four columns of gaps, the visibility marker, the path, the counts, the
/// mark (one column when there is none) and one more column.
pub open spec fn stage_padding(area_width: nat, visibility: Seq<char>, display_path: Seq<char>, f: FileStatView) -> nat {
    let base = sat_add(
        sat_add(sat_add(4, text_columns(visibility) as nat), text_columns(display_path) as nat),
        spans_width(stat_spans(f.additions, f.deletions)),
    );
    let icon = match stage_icon(f.has_staged_changes, f.has_unstaged_changes) {
        Some(p) => text_columns(p.0) as nat,
        None => 1,
    };
    sat_sub(area_width, sat_add(sat_add(base, icon), 1))
}

/// The spaces before a file's staging mark.
pub fn file_stage_padding(area_width: usize, visibility: &str, display_path: &str, file: &FileStat) -> (n: usize)
    ensures
        n == stage_padding(area_width as nat, visibility@, display_path@, file@),
{
    let base_len = 4usize.saturating_add(display_width(visibility)).saturating_add(display_width(display_path)).saturating_add(
        stat_width(file.additions, file.deletions),
    );
    let icon_len = match file_stage_icon(file) {
        Some(p) => display_width(p.0),
        None => 1,
    };
    area_width.saturating_sub(base_len.saturating_add(icon_len).saturating_add(1))
}

// ---------------------------------------------------------------------------
// Shortened paths
// ---------------------------------------------------------------------------

/// Where the last `keep` bytes of the UTF-8 encoding of `path` begin, in
/// characters.
pub open spec fn cut_index(path: Seq<char>, start: nat) -> int {
    choose|k: int| 0 <= k <= path.len() && utf8_len(path.take(k)) == start
}

/// Whether `path` can be shortened to `max_len` bytes: it fits already, the
/// limit is under four bytes, or its last `max_len - 3` bytes start at a
/// character.
pub open spec fn path_cut_ok(path: Seq<char>, max_len: nat) -> bool {
    utf8_len(path) <= max_len || max_len < 4 || exists|k: int|
        0 <= k <= path.len() && utf8_len(path.take(k)) == utf8_len(path) - (max_len - 3)
}

/// `path` shortened to `max_len` bytes: unchanged when it fits or when the
/// limit is under four bytes; else `...` followed by its last `max_len - 3`
/// bytes.
pub open spec fn shortened(path: Seq<char>, max_len: nat) -> Seq<char> {
    if utf8_len(path) <= max_len || max_len < 4 {
        path
    } else {
        "..."@ + path.skip(cut_index(path, (utf8_len(path) - (max_len - 3)) as nat))
    }
}

proof fn lemma_encode_len(s: Seq<char>)
    ensures
        utf8_len(s) >= s.len(),
    decreases s.len(),
{
    if s.len() > 0 {
        lemma_encode_len(s.drop_first());
    }
}

proof fn lemma_take_len_grows(s: Seq<char>, a: int, b: int)
    requires
        0 <= a <= b <= s.len(),
    ensures
        utf8_len(s.take(a)) + (b - a) <= utf8_len(s.take(b)),
{
    lemma_encode_append(s.take(a), s.subrange(a, b));
    assert(s.take(a) + s.subrange(a, b) =~= s.take(b));
    lemma_encode_len(s.subrange(a, b));
}

/// `path` shortened to `max_len` bytes (see [`shortened`]).
pub fn shorten_path(path: &str, max_len: usize) -> (r: String)
    requires
        path_cut_ok(path@, max_len as nat),
    ensures
        r@ == shortened(path@, max_len as nat),
{
    let total = path.as_bytes().len();
    if total <= max_len || max_len < 4 {
        return path.to_owned();
    }
    let keep = max_len - 3;
    let start = total - keep;
    let chars = chars_of(path);
    let ghost target = cut_index(path@, start as nat);
    proof {
        let k = choose|k: int| 0 <= k <= path@.len() && utf8_len(path@.take(k)) == start;
        assert(0 <= target <= path@.len() && utf8_len(path@.take(target)) == start);
        assert(chars@.take(0) =~= Seq::<char>::empty());
    }
    let mut bytes: usize = 0;
    let mut i: usize = 0;
    while bytes < start
        invariant
            chars@ == path@,
            0 <= target <= chars.len(),
            utf8_len(chars@.take(target)) == start,
            i <= target,
            bytes <= start,
            bytes == utf8_len(chars@.take(i as int)),
        decreases start - bytes,
    {
        proof {
            if i == target {
                assert(false);
            }
            lemma_take_len_grows(chars@, i as int, target);
            lemma_take_len_grows(chars@, i as int + 1, target);
            lemma_encode_append(chars@.take(i as int), seq![chars@[i as int]]);
            assert(chars@.take(i + 1) =~= chars@.take(i as int) + seq![chars@[i as int]]);
        }
        bytes = bytes + char_utf8_len(chars[i]);
        i += 1;
    }
    proof {
        if i < target {
            lemma_take_len_grows(chars@, i as int + 1, target);
            lemma_take_len_grows(chars@, i as int, i as int + 1);
        }
    }
    assert(i == target);
    let mut out = "...".to_owned();
    let mut j: usize = i;
    let ghost head = out@;
    while j < chars.len()
        invariant
            i <= j <= chars.len(),
            out@ == head + chars@.subrange(i as int, j as int),
        decreases chars.len() - j,
    {
        push_char(&mut out, chars[j]);
        assert(chars@.subrange(i as int, j + 1) =~= chars@.subrange(i as int, j as int).push(chars@[j as int]));
        j += 1;
    }
    assert(chars@.subrange(i as int, chars.len() as int) =~= path@.skip(target));
    out
}

/// Whether [`shorten_path`] can take `path` and `max_len`.
pub fn can_shorten(path: &str, max_len: usize) -> (b: bool)
    ensures
        b == path_cut_ok(path@, max_len as nat),
{
    let total = path.as_bytes().len();
    if total <= max_len || max_len < 4 {
        return true;
    }
    let start = total - (max_len - 3);
    let chars = chars_of(path);
    let mut bytes: usize = 0;
    let mut i: usize = 0;
    assert(chars@.take(0) =~= Seq::<char>::empty());
    assert(chars@.take(chars@.len() as int) =~= chars@);
    while i < chars.len() && bytes < start
        invariant
            chars@ == path@,
            total == utf8_len(path@),
            start < total,
            i <= chars.len(),
            bytes == utf8_len(chars@.take(i as int)),
            forall|k: int| 0 <= k < i ==> utf8_len(#[trigger] chars@.take(k)) < start,
        decreases chars.len() - i,
    {
        proof {
            lemma_encode_append(chars@.take(i as int), seq![chars@[i as int]]);
            assert(chars@.take(i + 1) =~= chars@.take(i as int) + seq![chars@[i as int]]);
            lemma_take_len_grows(chars@, i as int + 1, chars@.len() as int);
            assert(chars@.take(chars@.len() as int) =~= chars@);
        }
        bytes = bytes + char_utf8_len(chars[i]);
        i += 1;
    }
    if bytes == start {
        return true;
    }
    proof {
        assert(chars@.take(chars@.len() as int) =~= chars@);
        assert forall|k: int| 0 <= k <= path@.len() implies utf8_len(path@.take(k)) != start by {
            if k < i {
                assert(utf8_len(chars@.take(k)) < start);
            } else if k == i {
            } else {
                lemma_take_len_grows(chars@, i as int, k);
            }
        }
    }
    false
}


/// A shortened path fits its limit: at most `max_len` bytes when the limit
/// is four bytes or more, exactly `max_len` when the path had to be cut.
pub proof fn shortened_path_fits(path: Seq<char>, max_len: nat)
    requires
        path_cut_ok(path, max_len),
        max_len >= 4,
    ensures
        utf8_len(shortened(path, max_len)) <= max_len,
        utf8_len(path) > max_len ==> utf8_len(shortened(path, max_len)) == max_len,
{
    if utf8_len(path) > max_len {
        let start = (utf8_len(path) - (max_len - 3)) as nat;
        let k = cut_index(path, start);
        assert(0 <= k <= path.len() && utf8_len(path.take(k)) == start);
        lemma_encode_append(path.take(k), path.skip(k));
        assert(path.take(k) + path.skip(k) =~= path);
        reveal_strlit("...");
        let dots = "..."@;
        assert(dots =~= seq!['.', '.', '.']);
        let one = seq!['.'];
        assert(one.drop_first() =~= Seq::<char>::empty());
        assert(vstd::utf8::encode_utf8(Seq::<char>::empty()) == Seq::<u8>::empty());
        assert(vstd::utf8::encode_scalar('.' as u32).len() == 1);
        assert(utf8_len(one) == 1);
        assert(dots.drop_first().drop_first() =~= one);
        assert(utf8_len(dots.drop_first()) == 2);
        assert(utf8_len(dots) == 3);
        lemma_encode_append(dots, path.skip(k));
    }
}

/// The padding before a staging mark depends on the visibility marker only
/// through its width: markers of equal width give equal padding.
pub proof fn padding_depends_on_marker_width_only(
    area_width: nat,
    a: Seq<char>,
    b: Seq<char>,
    display_path: Seq<char>,
    f: FileStatView,
)
    requires
        text_columns(a) == text_columns(b),
    ensures
        stage_padding(area_width, a, display_path, f) == stage_padding(area_width, b, display_path, f),
{
}

// ---------------------------------------------------------------------------
// The file list
// ---------------------------------------------------------------------------

/// The colour of a status letter.
pub open spec fn status_color(s: FileStatus) -> Color {
    match s {
        FileStatus::Added => Color::Green,
        FileStatus::Deleted => Color::Red,
        FileStatus::Modified => Color::Yellow,
        FileStatus::Renamed => Color::Cyan,
        FileStatus::Untracked => Color::Magenta,
        FileStatus::Unknown => Color::White,
    }
}

fn status_color_of(s: FileStatus) -> (c: Color)
    ensures
        c == status_color(s),
{
    match s {
        FileStatus::Added => Color::Green,
        FileStatus::Deleted => Color::Red,
        FileStatus::Modified => Color::Yellow,
        FileStatus::Renamed => Color::Cyan,
        FileStatus::Untracked => Color::Magenta,
        FileStatus::Unknown => Color::White,
    }
}

/// Bold, no colours.
pub open spec fn bold_style() -> Style {
    Style { fg: None, bg: None, bold: true }
}

/// The bytes a row leaves for the path: the list's width less six columns,
/// the line counts and the staging mark (a space when there is none).
pub open spec fn row_path_budget(f: FileStatView, content_width: nat) -> nat {
    let icon_text = match stage_icon(f.has_staged_changes, f.has_unstaged_changes) {
        Some(p) => p.0,
        None => " "@,
    };
    sat_sub(
        content_width,
        sat_add(sat_add(6, spans_width(stat_spans(f.additions, f.deletions))), text_columns(icon_text) as nat),
    )
}

/// One row of the file list: the visibility marker (`⊘` for a hidden diff),
/// the status letter in its colour, the path shortened to fit (bold when
/// selected), the line counts, and the staging mark at the right edge.
pub open spec fn file_row_spans(f: FileStatView, is_selected: bool, hidden: bool, content_width: nat) -> Seq<SpanView> {
    let visibility = if hidden {
        "⊘"@
    } else {
        " "@
    };
    let path = shortened(f.path, row_path_budget(f, content_width));
    let pad = stage_padding(content_width, visibility, path, f);
    seq![
        span_of(visibility + " "@, Style::spec_plain()),
        span_of(f.status.spec_symbol(), Style::spec_fg(status_color(f.status))),
        span_of(" "@, Style::spec_plain()),
        span_of(
            path,
            if is_selected {
                bold_style()
            } else {
                Style::spec_plain()
            },
        ),
        span_of("  "@, Style::spec_plain()),
    ] + stat_spans(f.additions, f.deletions) + seq![span_of(repeat_char(' ', pad), Style::spec_plain())]
        + match stage_icon(f.has_staged_changes, f.has_unstaged_changes) {
        Some(p) => seq![span_of(p.0, Style::spec_fg(p.1))],
        None => Seq::empty(),
    }
}

/// Whether a row can show `f`'s path within `content_width`.
pub open spec fn row_fits(f: FileStatView, content_width: nat) -> bool {
    path_cut_ok(f.path, row_path_budget(f, content_width))
}

fn row_budget(file: &FileStat, content_width: usize) -> (n: usize)
    ensures
        n == row_path_budget(file@, content_width as nat),
{
    let icon_text: &str = match file_stage_icon(file) {
        Some(p) => p.0,
        None => " ",
    };
    let reserved = 6usize.saturating_add(stat_width(file.additions, file.deletions)).saturating_add(display_width(icon_text));
    content_width.saturating_sub(reserved)
}

/// Whether a row can show the file's path within `content_width`.
pub fn file_row_fits(file: &FileStat, content_width: usize) -> (b: bool)
    ensures
        b == row_fits(file@, content_width as nat),
{
    can_shorten(file.path.as_str(), row_budget(file, content_width))
}

/// One row of the file list, or `None` when the path cannot be cut to fit
/// at a character boundary.
pub fn checked_file_row(file: &FileStat, is_selected: bool, hidden: bool, content_width: usize) -> (r: Option<Line>)
    ensures
        match r {
            Some(l) => row_fits(file@, content_width as nat) && l@ == file_row_spans(
                file@,
                is_selected,
                hidden,
                content_width as nat,
            ),
            None => !row_fits(file@, content_width as nat),
        },
{
    if file_row_fits(file, content_width) {
        Some(file_row(file, is_selected, hidden, content_width))
    } else {
        None
    }
}

/// One row of the file list.
pub fn file_row(file: &FileStat, is_selected: bool, hidden: bool, content_width: usize) -> (l: Line)
    requires
        row_fits(file@, content_width as nat),
    ensures
        l@ == file_row_spans(file@, is_selected, hidden, content_width as nat),
{
    let visibility: &str = if hidden {
        "⊘"
    } else {
        " "
    };
    let display_path = shorten_path(file.path.as_str(), row_budget(file, content_width));
    let stage_pad = file_stage_padding(content_width, visibility, display_path.as_str(), file);
    let mut spans: Vec<Span> = Vec::new();
    let mut marker = visibility.to_owned();
    push_str(&mut marker, " ");
    spans.push(Span::new(marker, Style::plain()));
    spans.push(Span::new(file.status.symbol().to_owned(), Style::fg(status_color_of(file.status))));
    spans.push(Span::new(" ".to_owned(), Style::plain()));
    let path_style = if is_selected {
        Style { fg: None, bg: None, bold: true }
    } else {
        Style::plain()
    };
    spans.push(Span::new(display_path, path_style));
    spans.push(Span::new("  ".to_owned(), Style::plain()));
    let ghost head = span_views(spans@);
    let ghost vis: Seq<char> = if hidden { "⊘"@ } else { " "@ };
    assert(visibility@ == vis);
    let ghost shown = shortened(file@.path, row_path_budget(file@, content_width as nat));
    assert(head =~= seq![
        span_of(vis + " "@, Style::spec_plain()),
        span_of(file@.status.spec_symbol(), Style::spec_fg(status_color(file@.status))),
        span_of(" "@, Style::spec_plain()),
        span_of(shown, if is_selected { bold_style() } else { Style::spec_plain() }),
        span_of("  "@, Style::spec_plain()),
    ]);
    let stats = format_stat_spans(file.additions, file.deletions);
    let mut i: usize = 0;
    while i < stats.len()
        invariant
            i <= stats.len(),
            span_views(spans@) == head + span_views(stats@).take(i as int),
        decreases stats.len() - i,
    {
        let ghost before = spans@;
        spans.push(stats[i].duplicate());
        assert(span_views(spans@) =~= span_views(before).push(stats@[i as int]@));
        assert(span_views(stats@).take(i + 1) =~= span_views(stats@).take(i as int).push(stats@[i as int]@));
        i += 1;
    }
    assert(span_views(stats@).take(stats.len() as int) =~= span_views(stats@));
    let mut pad = String::new();
    push_repeated(&mut pad, ' ', stage_pad);
    assert(pad@ =~= repeat_char(' ', stage_pad as nat));
    spans.push(Span::new(pad, Style::plain()));
    let ghost body = span_views(spans@);
    assert(body =~= head + stat_spans(file.additions, file.deletions) + seq![span_of(repeat_char(' ', stage_pad as nat), Style::spec_plain())]);
    match file_stage_icon(file) {
        Some(p) => {
            spans.push(Span::new(p.0.to_owned(), Style::fg(p.1)));
        },
        None => {},
    }
    let l = Line::from_spans(spans);
    assert(l@ =~= body + match stage_icon(file.has_staged_changes, file.has_unstaged_changes) {
        Some(p) => seq![span_of(p.0, Style::spec_fg(p.1))],
        None => Seq::<SpanView>::empty(),
    });
    l
}


/// A note in a panel: a blank line, then the text in dark grey.
pub open spec fn note_lines(text: Seq<char>) -> Seq<Seq<SpanView>> {
    seq![raw_line(""@), seq![span_of(text, Style::spec_fg(Color::DarkGray))]]
}

fn note(text: &str) -> (v: Vec<Line>)
    ensures
        line_views(v@) == note_lines(text@),
{
    let mut v: Vec<Line> = Vec::new();
    v.push(Line::raw(""));
    v.push(Line::from_span(Span::new(text.to_owned(), Style::fg(Color::DarkGray))));
    assert(line_views(v@) =~= note_lines(text@));
    v
}

/// The lines of the file list: one row per file, the selected one bold; a
/// note when there are no changes.
pub open spec fn file_list_view(v: AppView, content_width: nat) -> Seq<Seq<SpanView>> {
    let files = v.snapshot.files;
    if files.len() == 0 {
        note_lines("  no changes"@)
    } else {
        Seq::new(
            files.len(),
            |i: int| file_row_spans(files[i], i == v.ui.selected, v.ui.hidden.contains(files[i].path), content_width),
        )
    }
}

/// Whether every row of the file list can show its path.
pub open spec fn list_fits(v: AppView, content_width: nat) -> bool {
    forall|i: int| 0 <= i < v.snapshot.files.len() ==> row_fits(#[trigger] v.snapshot.files[i], content_width)
}

/// Whether every row of the file list can show its path within
/// `content_width`.
pub fn file_list_fits(app: &App, content_width: usize) -> (b: bool)
    ensures
        b == list_fits(app@, content_width as nat),
{
    let files = app.files();
    let mut i: usize = 0;
    while i < files.len()
        invariant
            i <= files.len(),
            crate::git::stat_views(files@) == app@.snapshot.files,
            forall|k: int| 0 <= k < i ==> row_fits(#[trigger] app@.snapshot.files[k], content_width as nat),
        decreases files.len() - i,
    {
        assert(app@.snapshot.files[i as int] == files@[i as int]@);
        if !file_row_fits(&files[i], content_width) {
            return false;
        }
        i += 1;
    }
    true
}

/// The lines of the file list, `content_width` columns wide, or `None`
/// when a path cannot be cut to fit at a character boundary.
pub fn checked_file_list_lines(app: &App, content_width: usize) -> (r: Option<Vec<Line>>)
    ensures
        match r {
            Some(v) => list_fits(app@, content_width as nat) && line_views(v@) == file_list_view(
                app@,
                content_width as nat,
            ),
            None => !list_fits(app@, content_width as nat),
        },
{
    if file_list_fits(app, content_width) {
        Some(file_list_lines(app, content_width))
    } else {
        None
    }
}

/// The lines of the file list, `content_width` columns wide.
pub fn file_list_lines(app: &App, content_width: usize) -> (v: Vec<Line>)
    requires
        list_fits(app@, content_width as nat),
    ensures
        line_views(v@) == file_list_view(app@, content_width as nat),
{
    let files = app.files();
    if files.len() == 0 {
        return note("  no changes");
    }
    let mut v: Vec<Line> = Vec::new();
    let mut i: usize = 0;
    while i < files.len()
        invariant
            i <= files.len(),
            files.len() > 0,
            crate::git::stat_views(files@) == app@.snapshot.files,
            list_fits(app@, content_width as nat),
            line_views(v@) == file_list_view(app@, content_width as nat).take(i as int),
        decreases files.len() - i,
    {
        let ghost before = line_views(v@);
        assert(app@.snapshot.files[i as int] == files@[i as int]@);
        let hidden = app.ui.hidden_files.contains(&files[i].path);
        v.push(file_row(&files[i], i == app.ui.selected, hidden, content_width));
        assert(line_views(v@) =~= before.push(file_list_view(app@, content_width as nat)[i as int]));
        assert(file_list_view(app@, content_width as nat).take(i + 1) =~= file_list_view(app@, content_width as nat).take(
            i as int,
        ).push(file_list_view(app@, content_width as nat)[i as int]));
        i += 1;
    }
    assert(file_list_view(app@, content_width as nat).take(files.len() as int) =~= file_list_view(app@, content_width as nat));
    v
}

// ---------------------------------------------------------------------------
// The title bar
// ---------------------------------------------------------------------------

/// The name of the focused panel.
pub open spec fn panel_label(p: Panel) -> Seq<char> {
    match p {
        Panel::Files => "files"@,
        Panel::Diff => "diff"@,
    }
}

/// The key help at the end of the title bar.
pub open spec fn key_help() -> Seq<char> {
    "  │  Tab/h/l:panel  j/k:nav  gg/G:top/bottom  s/S:stage-toggle  []:hunk  <Space>e:sidebar  t:mode  r:refresh  q:quit"@
}

/// The title bar's text: the repository's name and, when there is an
/// error, the error; otherwise the number of changed files, the layout, the
/// focused panel and the key help.
pub open spec fn title_text(repo_name: Seq<char>, v: AppView) -> Seq<char> {
    match v.error_message {
        Some(e) => "  ripdiff  ["@ + repo_name + "]  ERROR: "@ + e + "  "@,
        None => {
            let changed = v.snapshot.files.len();
            "  ripdiff  [repo: "@ + repo_name + "]  "@ + decimal(changed) + " file"@ + (if changed == 1 {
                ""@
            } else {
                "s"@
            }) + " changed  mode: "@ + v.ui.diff_mode.spec_label() + "  panel: "@ + panel_label(v.ui.focus) + key_help()
        },
    }
}

/// The title bar's style: black on cyan, bold.
pub open spec fn title_style() -> Style {
    Style { fg: Some(Color::Black), bg: Some(Color::Cyan), bold: true }
}

/// The title bar of the viewer of the repository named `repo_name`.
pub fn title_bar(app: &App, repo_name: &str) -> (s: Span)
    ensures
        s@ == span_of(title_text(repo_name@, app@), title_style()),
{
    let mut t = String::new();
    match &app.error_message {
        Some(error) => {
            push_str(&mut t, "  ripdiff  [");
            push_str(&mut t, repo_name);
            push_str(&mut t, "]  ERROR: ");
            push_str(&mut t, error.as_str());
            push_str(&mut t, "  ");
        },
        None => {
            let changed = app.files().len();
            push_str(&mut t, "  ripdiff  [repo: ");
            push_str(&mut t, repo_name);
            push_str(&mut t, "]  ");
            push_decimal(&mut t, changed as u64);
            push_str(&mut t, " file");
            if changed == 1 {
                push_str(&mut t, "");
            } else {
                push_str(&mut t, "s");
            }
            push_str(&mut t, " changed  mode: ");
            push_str(&mut t, app.ui.diff_mode.label());
            push_str(&mut t, "  panel: ");
            let label: &str = match app.ui.focus {
                Panel::Files => "files",
                Panel::Diff => "diff",
            };
            push_str(&mut t, label);
            push_str(
                &mut t,
                "  │  Tab/h/l:panel  j/k:nav  gg/G:top/bottom  s/S:stage-toggle  []:hunk  <Space>e:sidebar  t:mode  r:refresh  q:quit",
            );
        },
    }
    Span::new(t, Style { fg: Some(Color::Black), bg: Some(Color::Cyan), bold: true })
}

// ---------------------------------------------------------------------------
// The diff panel
// ---------------------------------------------------------------------------

/// Whether a line adds or deletes.
#[derive(Debug, Clone, Copy, PartialEq, Eq)]
pub enum DiffLineKind {
    Addition,
    Deletion,
}

/// Whether one of a line's spans is drawn in an addition colour.
pub open spec fn has_addition(l: Seq<SpanView>) -> bool {
    exists|i: int| 0 <= i < l.len() && is_addition_color(#[trigger] l[i].style.fg)
}

/// Whether one of a line's spans is drawn in a deletion colour.
pub open spec fn has_deletion(l: Seq<SpanView>) -> bool {
    exists|i: int| 0 <= i < l.len() && is_deletion_color(#[trigger] l[i].style.fg)
}

/// An addition when the line has added text and no deleted text, a deletion
/// the other way round, else neither.
pub open spec fn line_kind(l: Seq<SpanView>) -> Option<DiffLineKind> {
    if has_addition(l) && !has_deletion(l) {
        Some(DiffLineKind::Addition)
    } else if !has_addition(l) && has_deletion(l) {
        Some(DiffLineKind::Deletion)
    } else {
        None
    }
}

/// The background of a diff line: green or red tints for additions and
/// deletions, brighter on the cursor line; a grey-blue cursor line
/// otherwise; else the terminal's own.
pub open spec fn line_background(l: Seq<SpanView>, is_cursor_line: bool) -> Color {
    match (line_kind(l), is_cursor_line) {
        (Some(DiffLineKind::Addition), true) => Color::Rgb(22, 48, 30),
        (Some(DiffLineKind::Deletion), true) => Color::Rgb(52, 24, 24),
        (Some(DiffLineKind::Addition), false) => Color::Rgb(12, 26, 18),
        (Some(DiffLineKind::Deletion), false) => Color::Rgb(30, 14, 14),
        (None, true) => Color::Rgb(34, 39, 49),
        (None, false) => Color::Reset,
    }
}

/// A line with every span given background `bg`.
pub open spec fn tinted(l: Seq<SpanView>, bg: Color) -> Seq<SpanView> {
    l.map_values(|s: SpanView| span_of(s.content, Style { bg: Some(bg), ..s.style }))
}

/// Lines tinted by kind, the line at `selected` (counting within these
/// lines) marked as the cursor line when the diff panel is focused.
pub open spec fn styled_visible(lines: Seq<Seq<SpanView>>, focused: bool, selected: Option<usize>) -> Seq<Seq<SpanView>> {
    Seq::new(lines.len(), |i: int| tinted(lines[i], line_background(lines[i], focused && selected == Some(i as usize))))
}

fn has_kind_color(line: &Line, addition: bool) -> (b: bool)
    ensures
        addition ==> b == has_addition(line@),
        !addition ==> b == has_deletion(line@),
{
    let ghost l = line@;
    let mut i: usize = 0;
    while i < line.spans.len()
        invariant
            i <= line.spans.len(),
            l == line@,
            l.len() == line.spans.len(),
            addition ==> forall|k: int| 0 <= k < i ==> !is_addition_color(#[trigger] l[k].style.fg),
            !addition ==> forall|k: int| 0 <= k < i ==> !is_deletion_color(#[trigger] l[k].style.fg),
        decreases line.spans.len() - i,
    {
        let fg = line.spans[i].style.fg;
        assert(l[i as int].style.fg == fg);
        if addition && addition_color(fg) {
            return true;
        }
        if !addition && deletion_color(fg) {
            return true;
        }
        i += 1;
    }
    false
}

/// Whether a line adds or deletes.
pub fn detect_diff_line_kind(line: &Line) -> (k: Option<DiffLineKind>)
    ensures
        k == line_kind(line@),
{
    let has_green = has_kind_color(line, true);
    let has_red = has_kind_color(line, false);
    if has_green && !has_red {
        Some(DiffLineKind::Addition)
    } else if !has_green && has_red {
        Some(DiffLineKind::Deletion)
    } else {
        None
    }
}

/// The background of a diff line.
pub fn resolve_diff_line_background(line: &Line, is_cursor_line: bool) -> (c: Color)
    ensures
        c == line_background(line@, is_cursor_line),
{
    match (detect_diff_line_kind(line), is_cursor_line) {
        (Some(DiffLineKind::Addition), true) => Color::Rgb(22, 48, 30),
        (Some(DiffLineKind::Deletion), true) => Color::Rgb(52, 24, 24),
        (Some(DiffLineKind::Addition), false) => Color::Rgb(12, 26, 18),
        (Some(DiffLineKind::Deletion), false) => Color::Rgb(30, 14, 14),
        (None, true) => Color::Rgb(34, 39, 49),
        (None, false) => Color::Reset,
    }
}

fn tint_line(line: &Line, bg: Color) -> (l: Line)
    ensures
        l@ == tinted(line@, bg),
{
    let mut spans: Vec<Span> = Vec::new();
    let mut i: usize = 0;
    while i < line.spans.len()
        invariant
            i <= line.spans.len(),
            span_views(spans@) == tinted(line@, bg).take(i as int),
        decreases line.spans.len() - i,
    {
        let ghost before = spans@;
        let s = &line.spans[i];
        spans.push(Span::new(s.content.clone(), s.style.with_bg(bg)));
        assert(span_views(spans@) =~= span_views(before).push(tinted(line@, bg)[i as int]));
        assert(tinted(line@, bg).take(i + 1) =~= tinted(line@, bg).take(i as int).push(tinted(line@, bg)[i as int]));
        i += 1;
    }
    assert(tinted(line@, bg).take(line.spans.len() as int) =~= tinted(line@, bg));
    Line::from_spans(spans)
}

/// Lines tinted for display (see [`styled_visible`]).
pub fn style_visible_diff_lines(lines: &[Line], is_diff_focused: bool, selected_line: Option<usize>) -> (v: Vec<Line>)
    ensures
        line_views(v@) == styled_visible(line_views(lines@), is_diff_focused, selected_line),
{
    let ghost ls = line_views(lines@);
    let ghost want = styled_visible(ls, is_diff_focused, selected_line);
    let mut v: Vec<Line> = Vec::new();
    let mut i: usize = 0;
    while i < lines.len()
        invariant
            i <= lines.len(),
            ls == line_views(lines@),
            want == styled_visible(ls, is_diff_focused, selected_line),
            line_views(v@) == want.take(i as int),
        decreases lines.len() - i,
    {
        let ghost before = line_views(v@);
        let is_cursor = is_diff_focused && match selected_line {
            Some(s) => s == i,
            None => false,
        };
        let bg = resolve_diff_line_background(&lines[i], is_cursor);
        v.push(tint_line(&lines[i], bg));
        assert(line_views(v@) =~= before.push(want[i as int]));
        assert(want.take(i + 1) =~= want.take(i as int).push(want[i as int]));
        i += 1;
    }
    assert(want.take(lines.len() as int) =~= want);
    v
}

/// The path the diff panel is about: the selected file's, or empty.
pub open spec fn panel_path(v: AppView) -> Seq<char> {
    match selected_file(v) {
        Some(f) => f.path,
        None => Seq::empty(),
    }
}

/// The diff panel's header: a space and the path (`diff` when there is
/// none), bold, cyan when the panel is focused, dark grey otherwise.
pub open spec fn panel_header(v: AppView) -> SpanView {
    let path = panel_path(v);
    span_of(
        " "@ + if path.len() == 0 {
            "diff"@
        } else {
            path
        },
        Style::spec_fg_bold(
            if v.ui.focus == Panel::Diff {
                Color::Cyan
            } else {
                Color::DarkGray
            },
        ),
    )
}

/// What the panel shows while the selected diff is being rendered.
pub open spec fn loading_lines() -> Seq<Seq<SpanView>> {
    seq![seq![span_of("  loading..."@, Style::spec_fg(Color::DarkGray))]]
}

/// How many lines the diff panel scrolls through: the diff's, or the
/// loading note's one.
pub open spec fn panel_total(v: AppView) -> nat {
    match selected_lines(v) {
        Some(l) => l.len(),
        None => 1,
    }
}

/// The first line shown, `inner_height` lines being visible.
pub open spec fn panel_scroll(v: AppView, inner_height: nat) -> nat {
    min_nat(v.ui.scroll_offset as nat, sat_sub(panel_total(v), inner_height))
}

/// The body of the diff panel `inner_height` lines high: a note when there
/// are no changes or the selected diff is hidden; else the visible lines of
/// the selected diff (or the loading note), tinted, with the cursor line
/// marked.
pub open spec fn panel_body(v: AppView, inner_height: nat) -> Seq<Seq<SpanView>> {
    let focused = v.ui.focus == Panel::Diff;
    if v.snapshot.files.len() == 0 {
        note_lines("  No changes detected. Working tree is clean."@)
    } else if v.ui.hidden.contains(panel_path(v)) {
        note_lines("  [hidden - press Space to show]"@)
    } else {
        let scroll = panel_scroll(v, inner_height);
        match selected_lines(v) {
            Some(lines) => {
                let end = min_nat(sat_add(scroll, inner_height), lines.len());
                styled_visible(
                    lines.subrange(scroll as int, end as int),
                    focused,
                    Some(sat_sub(v.ui.diff_cursor as nat, scroll) as usize),
                )
            },
            None => styled_visible(loading_lines(), focused, Some(0)),
        }
    }
}

/// The scroll bar of the diff panel: the number of lines and the first one
/// shown, when the lines do not all fit.
pub open spec fn panel_scrollbar(v: AppView, inner_height: nat) -> Option<(usize, usize)> {
    if v.snapshot.files.len() == 0 || v.ui.hidden.contains(panel_path(v)) {
        None
    } else if panel_total(v) > inner_height {
        Some((panel_total(v) as usize, panel_scroll(v, inner_height) as usize))
    } else {
        None
    }
}

/// What the diff panel shows.
pub struct DiffPanel {
    pub header: Span,
    pub body: Vec<Line>,
    /// The number of lines and the first one shown, when they do not all
    /// fit.
    pub scrollbar: Option<(usize, usize)>,
}

fn window(lines: &[Line], from: usize, to: usize) -> (v: Vec<Line>)
    requires
        from <= to <= lines.len(),
    ensures
        line_views(v@) == line_views(lines@).subrange(from as int, to as int),
{
    let mut v: Vec<Line> = Vec::new();
    let mut i: usize = from;
    while i < to
        invariant
            from <= i <= to <= lines.len(),
            line_views(v@) == line_views(lines@).subrange(from as int, i as int),
        decreases to - i,
    {
        let ghost before = line_views(v@);
        v.push(lines[i].duplicate());
        assert(line_views(v@) =~= before.push(lines@[i as int]@));
        assert(line_views(lines@).subrange(from as int, i + 1) =~= line_views(lines@).subrange(from as int, i as int).push(
            lines@[i as int]@,
        ));
        i += 1;
    }
    v
}

/// The diff panel with `inner_height` lines of body.
pub fn diff_panel(app: &App, inner_height: usize) -> (p: DiffPanel)
    ensures
        p.header@ == panel_header(app@),
        line_views(p.body@) == panel_body(app@, inner_height as nat),
        p.scrollbar == panel_scrollbar(app@, inner_height as nat),
{
    let file_path: String = match app.selected_file() {
        Some(f) => f.path.clone(),
        None => String::new(),
    };
    assert(file_path@ == panel_path(app@));
    let is_hidden = app.ui.hidden_files.contains(&file_path);
    let focused = match app.ui.focus {
        Panel::Diff => true,
        Panel::Files => false,
    };
    let header_color = if focused {
        Color::Cyan
    } else {
        Color::DarkGray
    };
    let mut text = " ".to_owned();
    if file_path.as_str().is_empty() {
        push_str(&mut text, "diff");
    } else {
        push_str(&mut text, file_path.as_str());
    }
    let header = Span::new(text, Style::fg_bold(header_color));
    if app.files().len() == 0 {
        return DiffPanel { header, body: note("  No changes detected. Working tree is clean."), scrollbar: None };
    }
    if is_hidden {
        return DiffPanel { header, body: note("  [hidden - press Space to show]"), scrollbar: None };
    }
    let total: usize = match app.selected_diff() {
        Some(d) => d.lines.len(),
        None => 1,
    };
    let scroll = if app.ui.scroll_offset < total.saturating_sub(inner_height) {
        app.ui.scroll_offset
    } else {
        total.saturating_sub(inner_height)
    };
    let body = match app.selected_diff() {
        Some(d) => {
            let end = if scroll.saturating_add(inner_height) < total {
                scroll.saturating_add(inner_height)
            } else {
                total
            };
            let visible = window(d.lines.as_slice(), scroll, end);
            style_visible_diff_lines(visible.as_slice(), focused, Some(app.ui.diff_cursor.saturating_sub(scroll)))
        },
        None => {
            let mut loading: Vec<Line> = Vec::new();
            loading.push(Line::from_span(Span::new("  loading...".to_owned(), Style::fg(Color::DarkGray))));
            assert(line_views(loading@) =~= loading_lines());
            style_visible_diff_lines(loading.as_slice(), focused, Some(0))
        },
    };
    let scrollbar = if total > inner_height {
        Some((total, scroll))
    } else {
        None
    };
    DiffPanel { header, body, scrollbar }
}

} // verus!
