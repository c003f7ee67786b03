//! Syntax-highlighted text for a plain terminal: a new file with numbered
//! lines, or a unified diff with its signs, headers and hunks coloured by
//! ANSI escapes and its code highlighted by `syntect`.

use vstd::prelude::*;
use crate::app::starts_with;
use syntect::highlighting::Style as SyntectStyle;
use crate::text::{chars_of, concat_all, decimal, push_char, push_right_aligned, push_str, right_aligned, split_fields, split_lines, string_from};

verus! {

// ---------------------------------------------------------------------------
// ANSI escapes
// ---------------------------------------------------------------------------

/// `text` in the SGR style `code`, the style reset after it.
pub open spec fn ansi_text(code: Seq<char>, text: Seq<char>) -> Seq<char> {
    "\x1b["@ + code + "m"@ + text + "\x1b[0m"@
}

/// `text` in the SGR style `code`, the style reset after it.
pub fn ansi(code: &str, text: &str) -> (s: String)
    ensures
        s@ == ansi_text(code@, text@),
{
    let mut s = "\x1b[".to_owned();
    push_str(&mut s, code);
    push_str(&mut s, "m");
    push_str(&mut s, text);
    push_str(&mut s, "\x1b[0m");
    s
}

// ---------------------------------------------------------------------------
// The highlighter
// ---------------------------------------------------------------------------

#[verifier::external_type_specification]
#[verifier::external_body]
pub struct ExSyntaxSet(syntect::parsing::SyntaxSet);

#[verifier::external_type_specification]
#[verifier::external_body]
pub struct ExSyntaxReference(syntect::parsing::SyntaxReference);

#[verifier::external_type_specification]
#[verifier::external_body]
pub struct ExTheme(syntect::highlighting::Theme);

#[verifier::external_type_specification]
#[verifier::external_body]
pub struct ExThemeSet(syntect::highlighting::ThemeSet);

#[verifier::external_type_specification]
#[verifier::external_body]
pub struct ExHighlightLines<'a>(syntect::easy::HighlightLines<'a>);

/// `SyntaxSet::load_defaults_newlines`: the syntaxes bundled with
/// `syntect`, for lines that keep their line endings. Nothing is claimed of
/// the set.
#[verifier::external_body]
fn load_syntax_set() -> syntect::parsing::SyntaxSet {
    syntect::parsing::SyntaxSet::load_defaults_newlines()
}

/// `ThemeSet::load_defaults`: the themes bundled with `syntect`. Nothing is
/// claimed of the set.
#[verifier::external_body]
fn load_theme_set() -> syntect::highlighting::ThemeSet {
    syntect::highlighting::ThemeSet::load_defaults()
}

/// The theme of that name in a theme set, copied, if the set has one
/// (`themes.get(name).cloned()`). Nothing is claimed of the theme.
#[verifier::external_body]
fn theme_named(set: &syntect::highlighting::ThemeSet, name: &str) -> Option<syntect::highlighting::Theme> {
    set.themes.get(name).cloned()
}

/// `Theme::default`, the theme without settings. Nothing is claimed of it.
#[verifier::external_body]
fn default_theme() -> syntect::highlighting::Theme {
    syntect::highlighting::Theme::default()
}

/// `SyntaxSet::find_syntax_for_file`: the syntax for a file by its name or
/// extension, else by the first line of the file on disk; `None` when there
/// is none or the file cannot be read. What it finds depends on the disk,
/// so nothing is claimed of it.
#[verifier::external_body]
fn syntax_for_file<'a>(set: &'a syntect::parsing::SyntaxSet, path: &str) -> Option<&'a syntect::parsing::SyntaxReference> {
    set.find_syntax_for_file(path).ok().flatten()
}

/// `SyntaxSet::find_syntax_by_first_line`: the syntax that a first line
/// (such as a shebang) announces, if any. Nothing is claimed of it.
#[verifier::external_body]
fn syntax_by_first_line<'a>(set: &'a syntect::parsing::SyntaxSet, line: &str) -> Option<&'a syntect::parsing::SyntaxReference> {
    set.find_syntax_by_first_line(line)
}

/// `SyntaxSet::find_syntax_by_name`: the syntax of that name in the set, if
/// the set has one. Nothing is claimed of which syntax it is.
#[verifier::external_body]
fn syntax_named<'a>(set: &'a syntect::parsing::SyntaxSet, name: &str) -> Option<&'a syntect::parsing::SyntaxReference> {
    set.find_syntax_by_name(name)
}

/// `HighlightLines::new`: a highlighter for `syntax` in `theme`, at the
/// start of a text.
#[verifier::external_body]
fn new_highlighter<'a>(syntax: &syntect::parsing::SyntaxReference, theme: &'a syntect::highlighting::Theme) -> syntect::easy::HighlightLines<'a> {
    syntect::easy::HighlightLines::new(syntax, theme)
}

/// A highlighted piece of a line as plain values: its foreground and
/// background colours (red, green, blue, alpha), its font style bits and its
/// text.
pub struct HighlightedPiece {
    pub foreground: (u8, u8, u8, u8),
    pub background: (u8, u8, u8, u8),
    pub font_style: u8,
    pub text: String,
}

/// The values of a list of highlighted pieces.
pub open spec fn piece_views(pieces: Seq<HighlightedPiece>) -> Seq<((u8, u8, u8, u8), (u8, u8, u8, u8), u8, Seq<char>)> {
    pieces.map_values(|p: HighlightedPiece| (p.foreground, p.background, p.font_style, p.text@))
}

/// The texts of highlighted pieces, one after another.
pub open spec fn pieces_text(pieces: Seq<((u8, u8, u8, u8), (u8, u8, u8, u8), u8, Seq<char>)>) -> Seq<char> {
    concat_all(pieces.map_values(|p: ((u8, u8, u8, u8), (u8, u8, u8, u8), u8, Seq<char>)| p.3))
}

/// A colour channel of a translucent foreground laid over the background:
/// `(f * a + b * (255 - a)) / 255`.
pub open spec fn blended_channel(f: u8, b: u8, a: u8) -> nat {
    ((f * a + b * (255 - a)) / 255) as nat
}

/// The red, green and blue that a foreground shows over a background: the
/// foreground's own when it is opaque, else each channel blended by its
/// alpha.
pub open spec fn shown_foreground(fg: (u8, u8, u8, u8), bg: (u8, u8, u8, u8)) -> (nat, nat, nat) {
    if fg.3 == 255 {
        (fg.0 as nat, fg.1 as nat, fg.2 as nat)
    } else {
        (blended_channel(fg.0, bg.0, fg.3), blended_channel(fg.1, bg.1, fg.3), blended_channel(fg.2, bg.2, fg.3))
    }
}

/// A piece with a 24-bit foreground escape before it:
/// `ESC [38;2;<r>;<g>;<b>m` and then its text.
pub open spec fn escaped_piece(p: ((u8, u8, u8, u8), (u8, u8, u8, u8), u8, Seq<char>)) -> Seq<char> {
    let c = shown_foreground(p.0, p.1);
    "\x1b[38;2;"@ + decimal(c.0) + ";"@ + decimal(c.1) + ";"@ + decimal(c.2) + "m"@ + p.3
}

/// Highlighted pieces for a terminal: each escaped piece, one after another.
pub open spec fn terminal_escaped(pieces: Seq<((u8, u8, u8, u8), (u8, u8, u8, u8), u8, Seq<char>)>) -> Seq<char> {
    concat_all(pieces.map_values(|p: ((u8, u8, u8, u8), (u8, u8, u8, u8), u8, Seq<char>)| escaped_piece(p)))
}

/// Whether `h` is what highlighting makes of the code `c`: the code as it
/// is, or the escaped form of pieces whose texts, one after another, make
/// the code.
pub open spec fn is_highlighting_of(c: Seq<char>, h: Seq<char>) -> bool {
    h == c || exists|p: Seq<((u8, u8, u8, u8), (u8, u8, u8, u8), u8, Seq<char>)>|
        pieces_text(p) == c && h == #[trigger] terminal_escaped(p)
}

/// `HighlightLines::highlight_line`: the styled pieces of the next line of
/// the text, as plain values; `None` for a highlighting error. Which styles
/// come out depends on the lines highlighted before, which the highlighter
/// keeps, so only what syntect documents of every outcome is claimed: the
/// pieces' texts, one after another, make the line.
#[verifier::external_body]
fn highlight_ranges(
    highlighter: &mut syntect::easy::HighlightLines,
    line: &str,
    set: &syntect::parsing::SyntaxSet,
) -> (r: Option<Vec<HighlightedPiece>>)
    ensures
        r matches Some(p) ==> pieces_text(piece_views(p@)) == line@,
{
    let rgba = |c: syntect::highlighting::Color| (c.r, c.g, c.b, c.a);
    match highlighter.highlight_line(line, set) {
        Ok(ranges) => Some(ranges.iter().map(|(s, t)| HighlightedPiece {
            foreground: rgba(s.foreground),
            background: rgba(s.background),
            font_style: s.font_style.bits(),
            text: t.to_string(),
        }).collect()),
        Err(_) => None,
    }
}

/// `as_24_bit_terminal_escaped(pieces, false)`: each piece's text after a
/// 24-bit foreground escape of its foreground blended over its background
/// (syntect's `blend_fg_color`); no background escapes and no reset.
#[verifier::external_body]
fn escaped(pieces: &[HighlightedPiece]) -> (s: String)
    ensures
        s@ == terminal_escaped(piece_views(pieces@)),
{
    let color = |(r, g, b, a): (u8, u8, u8, u8)| syntect::highlighting::Color { r, g, b, a };
    let styled: Vec<(SyntectStyle, &str)> = pieces.iter().map(|p| (SyntectStyle {
        foreground: color(p.foreground),
        background: color(p.background),
        font_style: syntect::highlighting::FontStyle::from_bits_truncate(p.font_style),
    }, p.text.as_str())).collect();
    syntect::util::as_24_bit_terminal_escaped(&styled, false)
}


// ---------------------------------------------------------------------------
// Lines with their endings
// ---------------------------------------------------------------------------

/// The lines of `s` as syntect's `LinesWithEndings` yields them: each line
/// with its line feed, and a last line without one when `s` does not end in
/// a line feed.
pub open spec fn lines_with_endings(s: Seq<char>) -> Seq<Seq<char>> {
    let f = split_fields(s, '\n');
    let body = f.drop_last().map_values(|x: Seq<char>| x.push('\n'));
    if f.last().len() > 0 {
        body.push(f.last())
    } else {
        body
    }
}

/// The lines of `s`, each with its line feed.
pub fn split_lines_with_endings(s: &str) -> (out: Vec<String>)
    ensures
        out@.map_values(|r: String| r@) == lines_with_endings(s@),
{
    let chars = chars_of(s);
    let mut out: Vec<String> = Vec::new();
    let mut cur: Vec<char> = Vec::new();
    let mut i: usize = 0;
    assert(chars@.take(0) =~= Seq::<char>::empty());
    while i < chars.len()
        invariant
            i <= chars.len(),
            chars@ == s@,
            split_fields(chars@.take(i as int), '\n').len() >= 1,
            out@.map_values(|r: String| r@) == split_fields(chars@.take(i as int), '\n').drop_last().map_values(
                |x: Seq<char>| x.push('\n'),
            ),
            cur@ == split_fields(chars@.take(i as int), '\n').last(),
        decreases chars.len() - i,
    {
        let c = chars[i];
        let ghost f = split_fields(chars@.take(i as int), '\n');
        assert(chars@.take(i + 1).drop_last() == chars@.take(i as int));
        assert(chars@.take(i + 1).last() == c);
        if c == '\n' {
            assert(split_fields(chars@.take(i + 1), '\n') == f.push(Seq::empty()));
            assert(f.push(Seq::<char>::empty()).drop_last() == f);
            let ghost before = out@;
            cur.push('\n');
            out.push(string_from(cur.as_slice()));
            assert(out@.map_values(|r: String| r@) == before.map_values(|r: String| r@).push(f.last().push('\n')));
            assert(f == f.drop_last().push(f.last()));
            assert(f.map_values(|x: Seq<char>| x.push('\n')) =~= f.drop_last().map_values(|x: Seq<char>| x.push('\n')).push(
                f.last().push('\n'),
            ));
            cur = Vec::new();
            assert(cur@ =~= Seq::<char>::empty());
        } else {
            let ghost g = f.update(f.len() - 1, f.last().push(c));
            assert(split_fields(chars@.take(i + 1), '\n') == g);
            assert(g.drop_last() =~= f.drop_last());
            cur.push(c);
        }
        i += 1;
    }
    assert(chars@.take(chars.len() as int) == chars@);
    if cur.len() > 0 {
        let ghost before = out@;
        out.push(string_from(cur.as_slice()));
        assert(out@.map_values(|r: String| r@) == before.map_values(|r: String| r@).push(cur@));
    }
    out
}

// ---------------------------------------------------------------------------
// Unified diff lines
// ---------------------------------------------------------------------------

/// What a line of a unified diff is.
#[derive(Debug, Clone, Copy, PartialEq, Eq)]
pub enum UnifiedLine {
    /// `+++`: the new file's header.
    AddedHeader,
    /// `+`: an added line.
    Added,
    /// `---`: the old file's header.
    RemovedHeader,
    /// `-`: a removed line.
    Removed,
    /// ` `: an unchanged line.
    Context,
    /// `@@`: a hunk header.
    Hunk,
    /// `diff --git`, `index`, file modes, similarity and renames.
    Meta,
    /// `\`: a note such as "No newline at end of file".
    Note,
    /// Anything else.
    Other,
}

/// Whether `l` begins with one of the extended header words.
pub open spec fn is_meta_line(l: Seq<char>) -> bool {
    starts_with(l, "diff --git"@) || starts_with(l, "index "@) || starts_with(l, "new file mode "@) || starts_with(
        l,
        "deleted file mode "@,
    ) || starts_with(l, "similarity index "@) || starts_with(l, "rename from "@) || starts_with(l, "rename to "@)
}

/// What a line of a unified diff is, by how it begins.
pub open spec fn unified_kind(l: Seq<char>) -> UnifiedLine {
    if l.len() > 0 && l[0] == '+' {
        if starts_with(l, "+++"@) {
            UnifiedLine::AddedHeader
        } else {
            UnifiedLine::Added
        }
    } else if l.len() > 0 && l[0] == '-' {
        if starts_with(l, "---"@) {
            UnifiedLine::RemovedHeader
        } else {
            UnifiedLine::Removed
        }
    } else if l.len() > 0 && l[0] == ' ' {
        UnifiedLine::Context
    } else if starts_with(l, "@@"@) {
        UnifiedLine::Hunk
    } else if is_meta_line(l) {
        UnifiedLine::Meta
    } else if l.len() > 0 && l[0] == '\\' {
        UnifiedLine::Note
    } else {
        UnifiedLine::Other
    }
}

/// Whether the code of a line of this kind is highlighted: that of added,
/// removed and unchanged lines, after their sign.
pub open spec fn is_code_line(k: UnifiedLine) -> bool {
    k == UnifiedLine::Added || k == UnifiedLine::Removed || k == UnifiedLine::Context
}

/// A line of a unified diff for the terminal, `highlighted` being its code
/// as the highlighter rendered it: a green `+`, a red `-` or a space before
/// the highlighted code; bold green and bold red file headers, bold magenta
/// hunk headers, bold cyan extended headers, yellow notes; other lines as
/// they are.
pub open spec fn unified_rendering(l: Seq<char>, highlighted: Seq<char>) -> Seq<char> {
    match unified_kind(l) {
        UnifiedLine::AddedHeader => ansi_text("1;32"@, l),
        UnifiedLine::Added => ansi_text("32"@, "+"@) + highlighted,
        UnifiedLine::RemovedHeader => ansi_text("1;31"@, l),
        UnifiedLine::Removed => ansi_text("31"@, "-"@) + highlighted,
        UnifiedLine::Context => " "@ + highlighted,
        UnifiedLine::Hunk => ansi_text("1;35"@, l),
        UnifiedLine::Meta => ansi_text("1;36"@, l),
        UnifiedLine::Note => ansi_text("33"@, l),
        UnifiedLine::Other => l,
    }
}

fn has_prefix(line: &[char], prefix: &str) -> (b: bool)
    ensures
        b == starts_with(line@, prefix@),
{
    let p = chars_of(prefix);
    if p.len() > line.len() {
        return false;
    }
    let mut i: usize = 0;
    while i < p.len()
        invariant
            i <= p.len() <= line.len(),
            p@ == prefix@,
            forall|k: int| 0 <= k < i ==> line@[k] == p@[k],
        decreases p.len() - i,
    {
        if line[i] != p[i] {
            assert(line@.take(p.len() as int)[i as int] != p@[i as int]);
            return false;
        }
        i += 1;
    }
    assert(line@.take(p.len() as int) =~= p@);
    true
}

/// What a line of a unified diff is.
pub fn unified_line_kind(line: &str) -> (k: UnifiedLine)
    ensures
        k == unified_kind(line@),
{
    let l = chars_of(line);
    if l.len() > 0 && l[0] == '+' {
        if has_prefix(l.as_slice(), "+++") {
            UnifiedLine::AddedHeader
        } else {
            UnifiedLine::Added
        }
    } else if l.len() > 0 && l[0] == '-' {
        if has_prefix(l.as_slice(), "---") {
            UnifiedLine::RemovedHeader
        } else {
            UnifiedLine::Removed
        }
    } else if l.len() > 0 && l[0] == ' ' {
        UnifiedLine::Context
    } else if has_prefix(l.as_slice(), "@@") {
        UnifiedLine::Hunk
    } else if has_prefix(l.as_slice(), "diff --git") || has_prefix(l.as_slice(), "index ") || has_prefix(
        l.as_slice(),
        "new file mode ",
    ) || has_prefix(l.as_slice(), "deleted file mode ") || has_prefix(l.as_slice(), "similarity index ")
        || has_prefix(l.as_slice(), "rename from ") || has_prefix(l.as_slice(), "rename to ") {
        UnifiedLine::Meta
    } else if l.len() > 0 && l[0] == '\\' {
        UnifiedLine::Note
    } else {
        UnifiedLine::Other
    }
}

/// A line of a unified diff for the terminal, given its highlighted code.
pub fn render_unified_line(line: &str, highlighted: &str) -> (s: String)
    ensures
        s@ == unified_rendering(line@, highlighted@),
{
    match unified_line_kind(line) {
        UnifiedLine::AddedHeader => ansi("1;32", line),
        UnifiedLine::Added => {
            let mut s = ansi("32", "+");
            push_str(&mut s, highlighted);
            s
        },
        UnifiedLine::RemovedHeader => ansi("1;31", line),
        UnifiedLine::Removed => {
            let mut s = ansi("31", "-");
            push_str(&mut s, highlighted);
            s
        },
        UnifiedLine::Context => {
            let mut s = " ".to_owned();
            push_str(&mut s, highlighted);
            s
        },
        UnifiedLine::Hunk => ansi("1;35", line),
        UnifiedLine::Meta => ansi("1;36", line),
        UnifiedLine::Note => ansi("33", line),
        UnifiedLine::Other => line.to_owned(),
    }
}

/// The code of a line: what follows its first character.
fn code_of(line: &str) -> (c: String)
    ensures
        line@.len() > 0 ==> c@ == line@.drop_first(),
{
    let l = chars_of(line);
    if l.len() == 0 {
        return String::new();
    }
    let mut c = String::new();
    let mut i: usize = 1;
    while i < l.len()
        invariant
            1 <= i <= l.len(),
            c@ == l@.subrange(1, i as int),
        decreases l.len() - i,
    {
        push_char(&mut c, l[i]);
        assert(l@.subrange(1, i + 1) =~= l@.subrange(1, i as int).push(l@[i as int]));
        i += 1;
    }
    assert(l@.subrange(1, l.len() as int) =~= l@.drop_first());
    c
}

// ---------------------------------------------------------------------------
// Highlighting
// ---------------------------------------------------------------------------

/// The syntaxes and the theme that highlighting uses.
pub struct SyntaxAssets {
    pub syntaxes: syntect::parsing::SyntaxSet,
    pub theme: syntect::highlighting::Theme,
}

impl SyntaxAssets {
    /// The syntaxes bundled with `syntect` and its `base16-ocean.dark` theme
    /// (the theme without settings, should it be missing).
    pub fn load() -> SyntaxAssets {
        let themes = load_theme_set();
        let theme = match theme_named(&themes, "base16-ocean.dark") {
            Some(t) => t,
            None => default_theme(),
        };
        SyntaxAssets { syntaxes: load_syntax_set(), theme }
    }
}

/// The syntax for a file: by its name or extension (or its first line on
/// disk), else by the first line of `content`, else plain text; `None` only
/// for a set without a plain-text syntax, where the code is then left as it
/// is.
pub fn syntax_for_content<'a>(
    syntaxes: &'a syntect::parsing::SyntaxSet,
    file_path: &str,
    content: &str,
) -> Option<&'a syntect::parsing::SyntaxReference> {
    match syntax_for_file(syntaxes, file_path) {
        Some(found) => return Some(found),
        None => {},
    }
    let chars = chars_of(content);
    let lines = split_lines(chars.as_slice());
    if lines.len() > 0 {
        let first = string_from(lines[0].as_slice());
        match syntax_by_first_line(syntaxes, first.as_str()) {
            Some(found) => return Some(found),
            None => {},
        }
    }
    syntax_named(syntaxes, "Plain Text")
}

/// One line highlighted: the escaped pieces, or the line as it is when the
/// highlighter fails. Whether it fails and which styles it picks rest on the
/// highlighter's state; either way the pieces escaped are pieces whose texts
/// make the line.
pub fn highlight_line(
    highlighter: &mut syntect::easy::HighlightLines,
    line: &str,
    syntaxes: &syntect::parsing::SyntaxSet,
) -> (s: String)
    ensures
        is_highlighting_of(line@, s@),
{
    match highlight_ranges(highlighter, line, syntaxes) {
        Some(pieces) => {
            let s = escaped(pieces.as_slice());
            assert(pieces_text(piece_views(pieces@)) == line@ && s@ == terminal_escaped(piece_views(pieces@)));
            s
        },
        None => line.to_owned(),
    }
}

/// A highlighter for the syntax of a file in the assets' theme, if a syntax
/// was found.
fn highlighter_for<'a>(assets: &'a SyntaxAssets, file_path: &str, content: &str) -> Option<syntect::easy::HighlightLines<'a>> {
    match syntax_for_content(&assets.syntaxes, file_path, content) {
        Some(syntax) => Some(new_highlighter(syntax, &assets.theme)),
        None => None,
    }
}

/// One piece of code highlighted by the highlighter, if there is one, else
/// the code as it is.
fn highlight_code(
    highlighter: &mut Option<syntect::easy::HighlightLines>,
    code: &str,
    syntaxes: &syntect::parsing::SyntaxSet,
) -> (s: String)
    ensures
        is_highlighting_of(code@, s@),
{
    match highlighter {
        Some(h) => highlight_line(h, code, syntaxes),
        None => code.to_owned(),
    }
}

/// The gutter of a new file's line: the number right-aligned in four dark
/// grey columns and a green `+ `.
pub open spec fn new_file_gutter(index: nat) -> Seq<char> {
    ansi_text("90"@, right_aligned(index + 1, 4) + " "@) + ansi_text("32"@, "+ "@)
}

/// A new file for the terminal, `hs` being its lines as the highlighter
/// rendered them: a bold green `new file: <path>` and a blank line, then
/// each line numbered from one, and a final line feed when the content
/// lacks one.
pub open spec fn new_file_text(path: Seq<char>, content: Seq<char>, hs: Seq<Seq<char>>) -> Seq<char> {
    let lines = lines_with_endings(content);
    ansi_text("1;32"@, "new file: "@ + path) + "\n\n"@ + concat_all(
        Seq::new(lines.len(), |i: int| new_file_gutter(i as nat) + hs[i]),
    ) + if content.len() > 0 && content.last() != '\n' {
        "\n"@
    } else {
        Seq::empty()
    }
}

/// Whether `hs` highlights the lines of a new file: one for each line, each
/// what highlighting makes of that line.
pub open spec fn highlights_new_file(content: Seq<char>, hs: Seq<Seq<char>>) -> bool {
    let lines = lines_with_endings(content);
    &&& hs.len() == lines.len()
    &&& forall|i: int| 0 <= i < hs.len() ==> #[trigger] is_highlighting_of(lines[i], hs[i])
}

/// A new file, highlighted for the terminal (see [`new_file_text`]), each
/// line through one highlighter in order.
pub fn highlight_new_file(file_path: &str, content: &str, assets: &SyntaxAssets) -> (s: String)
    ensures
        exists|hs: Seq<Seq<char>>| #[trigger] highlights_new_file(content@, hs) && s@ == new_file_text(file_path@, content@, hs),
{
    let mut highlighter = highlighter_for(assets, file_path, content);
    let mut header = "new file: ".to_owned();
    push_str(&mut header, file_path);
    let mut out = ansi("1;32", header.as_str());
    push_str(&mut out, "\n\n");
    let ghost head = out@;
    let lines = split_lines_with_endings(content);
    let ghost ls = lines@.map_values(|r: String| r@);
    let ghost mut hs: Seq<Seq<char>> = Seq::empty();
    let mut i: usize = 0;
    while i < lines.len()
        invariant
            i <= lines.len(),
            ls == lines@.map_values(|r: String| r@),
            hs.len() == i,
            forall|k: int| 0 <= k < i ==> #[trigger] is_highlighting_of(ls[k], hs[k]),
            out@ == head + concat_all(Seq::new(i as nat, |k: int| new_file_gutter(k as nat) + hs[k])),
        decreases lines.len() - i,
    {
        let mut number = String::new();
        push_right_aligned(&mut number, (i as u64) + 1, 4);
        push_str(&mut number, " ");
        let gutter = ansi("90", number.as_str());
        let plus = ansi("32", "+ ");
        let h = highlight_code(&mut highlighter, lines[i].as_str(), &assets.syntaxes);
        let ghost before = out@;
        let ghost old_hs = hs;
        push_str(&mut out, gutter.as_str());
        push_str(&mut out, plus.as_str());
        push_str(&mut out, h.as_str());
        proof {
            hs = hs.push(h@);
            assert(new_file_gutter(i as nat) == gutter@ + plus@);
            let f = |k: int| new_file_gutter(k as nat) + hs[k];
            let g = |k: int| new_file_gutter(k as nat) + old_hs[k];
            assert(Seq::new(i as nat, f) =~= Seq::new(i as nat, g));
            assert(Seq::new((i + 1) as nat, f).drop_last() =~= Seq::new(i as nat, f));
            assert(out@ =~= head + concat_all(Seq::new((i + 1) as nat, f)));
        }
        i += 1;
    }
    let chars = chars_of(content);
    if chars.len() > 0 && chars[chars.len() - 1] != '\n' {
        push_char(&mut out, '\n');
    }
    proof {
        reveal_strlit("\n");
        assert(ls == lines_with_endings(content@));
        assert(ls.len() == hs.len());
        assert(highlights_new_file(content@, hs));
        assert(out@ =~= new_file_text(file_path@, content@, hs));
    }
    out
}

/// A unified diff for the terminal, `hs` being the highlighted code of its
/// lines (used for added, removed and unchanged lines only).
pub open spec fn unified_text(diff: Seq<char>, hs: Seq<Seq<char>>) -> Seq<char> {
    let lines = lines_with_endings(diff);
    concat_all(Seq::new(lines.len(), |i: int| unified_rendering(lines[i], hs[i])))
}

/// Whether `hs` highlights the code of a unified diff: one for each line,
/// and for each added, removed or unchanged line what highlighting makes of
/// its code, the line after its sign.
pub open spec fn highlights_unified_diff(diff: Seq<char>, hs: Seq<Seq<char>>) -> bool {
    let lines = lines_with_endings(diff);
    &&& hs.len() == lines.len()
    &&& forall|i: int|
        0 <= i < hs.len() && is_code_line(unified_kind(lines[i])) ==> #[trigger] is_highlighting_of(
            lines[i].drop_first(),
            hs[i],
        )
}

/// A unified diff, highlighted for the terminal (see [`unified_text`]); the
/// code of added, removed and unchanged lines goes through one highlighter
/// in order.
pub fn highlight_unified_diff(file_path: &str, diff: &str, assets: &SyntaxAssets) -> (s: String)
    ensures
        exists|hs: Seq<Seq<char>>| #[trigger] highlights_unified_diff(diff@, hs) && s@ == unified_text(diff@, hs),
{
    let mut highlighter = highlighter_for(assets, file_path, diff);
    let lines = split_lines_with_endings(diff);
    let ghost ls = lines@.map_values(|r: String| r@);
    let ghost mut hs: Seq<Seq<char>> = Seq::empty();
    let mut out = String::new();
    let mut i: usize = 0;
    while i < lines.len()
        invariant
            i <= lines.len(),
            ls == lines@.map_values(|r: String| r@),
            hs.len() == i,
            forall|k: int|
                0 <= k < i && is_code_line(unified_kind(ls[k])) ==> #[trigger] is_highlighting_of(ls[k].drop_first(), hs[k]),
            out@ == concat_all(Seq::new(i as nat, |k: int| unified_rendering(ls[k], hs[k]))),
        decreases lines.len() - i,
    {
        let line = lines[i].as_str();
        let kind = unified_line_kind(line);
        let highlighted = match kind {
            UnifiedLine::Added | UnifiedLine::Removed | UnifiedLine::Context => {
                let code = code_of(line);
                highlight_code(&mut highlighter, code.as_str(), &assets.syntaxes)
            },
            _ => String::new(),
        };
        let rendered = render_unified_line(line, highlighted.as_str());
        let ghost before = out@;
        let ghost old_hs = hs;
        push_str(&mut out, rendered.as_str());
        proof {
            hs = hs.push(highlighted@);
            let f = |k: int| unified_rendering(ls[k], hs[k]);
            let g = |k: int| unified_rendering(ls[k], old_hs[k]);
            assert(Seq::new(i as nat, f) =~= Seq::new(i as nat, g));
            assert(Seq::new((i + 1) as nat, f).drop_last() =~= Seq::new(i as nat, f));
            assert(out@ =~= concat_all(Seq::new((i + 1) as nat, f)));
        }
        i += 1;
    }
    proof {
        assert(ls == lines_with_endings(diff@));
        assert(highlights_unified_diff(diff@, hs));
        assert(out@ == unified_text(diff@, hs));
    }
    out
}

} // verus!
