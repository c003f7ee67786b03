//! Styled text as the library produces it for the terminal: lines made of
//! spans, each span a piece of text with a foreground, a background and a
//! bold flag.

use vstd::prelude::*;
use crate::text::{chars_of, split_lines, string_from, text_lines};

verus! {

/// A terminal colour.
#[derive(Debug, Clone, Copy, PartialEq, Eq)]
pub enum Color {
    Reset,
    Black,
    Red,
    Green,
    Yellow,
    Blue,
    Magenta,
    Cyan,
    Gray,
    DarkGray,
    LightRed,
    LightGreen,
    LightYellow,
    LightBlue,
    LightMagenta,
    LightCyan,
    White,
    Rgb(u8, u8, u8),
    Indexed(u8),
}

/// How a span is drawn.
#[derive(Debug, Clone, Copy, PartialEq, Eq)]
pub struct Style {
    pub fg: Option<Color>,
    pub bg: Option<Color>,
    pub bold: bool,
}

impl Style {
    /// No colours, not bold.
    pub open spec fn spec_plain() -> Style {
        Style { fg: None, bg: None, bold: false }
    }

    /// No colours, not bold.
    pub fn plain() -> (s: Style)
        ensures
            s == Style::spec_plain(),
    {
        Style { fg: None, bg: None, bold: false }
    }

    /// Foreground `c` only.
    pub open spec fn spec_fg(c: Color) -> Style {
        Style { fg: Some(c), bg: None, bold: false }
    }

    /// Foreground `c` only.
    pub fn fg(c: Color) -> (s: Style)
        ensures
            s == Style::spec_fg(c),
    {
        Style { fg: Some(c), bg: None, bold: false }
    }

    /// Foreground `c`, bold.
    pub open spec fn spec_fg_bold(c: Color) -> Style {
        Style { fg: Some(c), bg: None, bold: true }
    }

    /// Foreground `c`, bold.
    pub fn fg_bold(c: Color) -> (s: Style)
        ensures
            s == Style::spec_fg_bold(c),
    {
        Style { fg: Some(c), bg: None, bold: true }
    }

    /// This style with background `c`.
    pub fn with_bg(self, c: Color) -> (s: Style)
        ensures
            s == (Style { bg: Some(c), ..self }),
    {
        Style { bg: Some(c), ..self }
    }
}

/// A piece of text drawn in one style.
#[derive(Debug, Clone, PartialEq, Eq)]
pub struct Span {
    pub content: String,
    pub style: Style,
}

/// A [`Span`] as values.
pub struct SpanView {
    pub content: Seq<char>,
    pub style: Style,
}

impl View for Span {
    type V = SpanView;

    open spec fn view(&self) -> SpanView {
        SpanView { content: self.content@, style: self.style }
    }
}

/// A span of `content` in `style`.
pub open spec fn span_of(content: Seq<char>, style: Style) -> SpanView {
    SpanView { content, style }
}

impl Span {
    pub fn new(content: String, style: Style) -> (s: Span)
        ensures
            s@ == span_of(content@, style),
    {
        Span { content, style }
    }

    /// A copy of this span.
    pub fn duplicate(&self) -> (s: Span)
        ensures
            s@ == self@,
    {
        Span { content: self.content.clone(), style: self.style }
    }
}

/// The views of a list of spans.
pub open spec fn span_views(spans: Seq<Span>) -> Seq<SpanView> {
    spans.map_values(|s: Span| s@)
}

/// One line of styled text.
#[derive(Debug, Clone, PartialEq, Eq)]
pub struct Line {
    pub spans: Vec<Span>,
}

impl View for Line {
    type V = Seq<SpanView>;

    open spec fn view(&self) -> Seq<SpanView> {
        span_views(self.spans@)
    }
}

/// The views of a list of lines.
pub open spec fn line_views(lines: Seq<Line>) -> Seq<Seq<SpanView>> {
    lines.map_values(|l: Line| l@)
}

/// The text of a line: its spans' texts, one after another.
pub open spec fn line_text(l: Seq<SpanView>) -> Seq<char>
    decreases l.len(),
{
    if l.len() == 0 {
        Seq::empty()
    } else {
        line_text(l.drop_last()) + l.last().content
    }
}

/// A line of unstyled text: one plain span per line of `content`, so empty
/// content gives no span.
pub open spec fn raw_line(content: Seq<char>) -> Seq<SpanView> {
    text_lines(content).map_values(|t: Seq<char>| span_of(t, Style::spec_plain()))
}

impl Line {
    /// A line of the given spans.
    pub fn from_spans(spans: Vec<Span>) -> (l: Line)
        ensures
            l@ == span_views(spans@),
    {
        Line { spans }
    }

    /// A line of one span.
    pub fn from_span(span: Span) -> (l: Line)
        ensures
            l@ == seq![span@],
    {
        let mut spans: Vec<Span> = Vec::new();
        spans.push(span);
        assert(span_views(spans@) =~= seq![spans@[0]@]);
        Line { spans }
    }

    /// A line of unstyled text, as `Line::from(&str)` makes it.
    pub fn raw(content: &str) -> (l: Line)
        ensures
            l@ == raw_line(content@),
    {
        let chars = chars_of(content);
        let pieces = split_lines(chars.as_slice());
        let ghost texts = pieces@.map_values(|r: Vec<char>| r@);
        let mut spans: Vec<Span> = Vec::new();
        let mut i: usize = 0;
        while i < pieces.len()
            invariant
                i <= pieces.len(),
                texts == pieces@.map_values(|r: Vec<char>| r@),
                span_views(spans@) == texts.take(i as int).map_values(
                    |t: Seq<char>| span_of(t, Style::spec_plain()),
                ),
            decreases pieces.len() - i,
        {
            let ghost before = spans@;
            spans.push(Span::new(string_from(pieces[i].as_slice()), Style::plain()));
            assert(span_views(spans@) =~= span_views(before).push(span_of(texts[i as int], Style::spec_plain())));
            assert(texts.take(i + 1) =~= texts.take(i as int).push(texts[i as int]));
            assert(texts.take(i + 1).map_values(|t: Seq<char>| span_of(t, Style::spec_plain())) =~= texts.take(
                i as int,
            ).map_values(|t: Seq<char>| span_of(t, Style::spec_plain())).push(span_of(texts[i as int], Style::spec_plain())));
            i += 1;
        }
        assert(texts.take(pieces.len() as int) == texts);
        Line { spans }
    }

    /// A copy of this line.
    pub fn duplicate(&self) -> (l: Line)
        ensures
            l@ == self@,
    {
        let mut spans: Vec<Span> = Vec::new();
        let mut i: usize = 0;
        while i < self.spans.len()
            invariant
                i <= self.spans.len(),
                span_views(spans@) == span_views(self.spans@).take(i as int),
            decreases self.spans.len() - i,
        {
            let ghost before = spans@;
            spans.push(self.spans[i].duplicate());
            assert(span_views(spans@) =~= span_views(before).push(self.spans@[i as int]@));
            assert(span_views(self.spans@).take(i + 1) =~= span_views(self.spans@).take(i as int).push(
                self.spans@[i as int]@,
            ));
            i += 1;
        }
        assert(span_views(self.spans@).take(self.spans.len() as int) =~= span_views(self.spans@));
        Line { spans }
    }
}

} // verus!
