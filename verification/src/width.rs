//! Display widths of text in terminal columns, and the cutting and padding
//! of text to a width.

use vstd::prelude::*;
use crate::text::{chars_of, push_char, push_repeated, repeat_char};

verus! {

// ---------------------------------------------------------------------------
// Widths from `unicode-width`
// ---------------------------------------------------------------------------

/// What `UnicodeWidthChar::width` gives for `c`.
pub uninterp spec fn char_columns(c: char) -> Option<usize>;

/// `unicode_width::UnicodeWidthChar::width`: the columns one character takes
/// (ambiguous characters narrow), `None` for control characters. The contract
/// names the result and states what the crate's first branch decides
/// without its tables: printable ASCII takes one column, C0 and C1 control
/// characters have no width, and no character is wider than three columns.
#[verifier::external_body]
pub(crate) fn char_width(c: char) -> (w: Option<usize>)
    ensures
        w == char_columns(c),
        0x20 <= (c as u32) < 0x7f ==> w == Some(1usize),
        (c as u32) < 0x20 || (0x7f <= (c as u32) < 0xa0) ==> w == None::<usize>,
        (c as u32) >= 0xa0 ==> (w.is_some() && w.unwrap() <= 3),
{
    unicode_width::UnicodeWidthChar::width(c)
}

/// What `UnicodeWidthStr::width` gives for a string.
pub uninterp spec fn text_columns(s: Seq<char>) -> usize;

/// Whether every character of `s` is printable ASCII.
pub open spec fn printable_ascii(s: Seq<char>) -> bool {
    forall|i: int| 0 <= i < s.len() ==> 0x20 <= (#[trigger] s[i] as u32) < 0x7f
}

/// `unicode_width::UnicodeWidthStr::width`: the columns a string takes,
/// ligatures and emoji sequences included. The contract names the result
/// and states what the crate's source shows without its tables: the empty
/// string takes no column, and a string of printable ASCII takes one column
/// per character.
#[verifier::external_body]
pub(crate) fn display_width(text: &str) -> (w: usize)
    ensures
        w == text_columns(text@),
        text@.len() == 0 ==> w == 0,
        printable_ascii(text@) ==> w == text@.len(),
{
    unicode_width::UnicodeWidthStr::width(text)
}

// ---------------------------------------------------------------------------
// Columns of characters
// ---------------------------------------------------------------------------

/// The columns the diff renderer counts for one character: its width, but at
/// least one (control characters and zero-width characters count one).
pub open spec fn col_width(c: char) -> nat {
    match char_columns(c) {
        Some(w) => if w >= 1 {
            w as nat
        } else {
            1
        },
        None => 1,
    }
}

pub fn column_width(c: char) -> (w: usize)
    ensures
        w == col_width(c),
        1 <= w <= 3,
{
    match char_width(c) {
        Some(w) => if w >= 1 {
            w
        } else {
            1
        },
        None => 1,
    }
}

/// How many characters of `s` make up the first `target` columns: none for a
/// target of zero; else the fewest characters whose columns reach the target,
/// or all of them.
pub open spec fn chars_before_col(s: Seq<char>, target: int) -> nat
    decreases s.len(),
{
    if target <= 0 || s.len() == 0 {
        0
    } else {
        1 + chars_before_col(s.drop_first(), target - col_width(s[0]))
    }
}

pub proof fn lemma_chars_before_col_bound(s: Seq<char>, target: int)
    ensures
        chars_before_col(s, target) <= s.len(),
    decreases s.len(),
{
    if target > 0 && s.len() > 0 {
        lemma_chars_before_col_bound(s.drop_first(), target - col_width(s[0]));
    }
}

/// The number of characters of `s` that the first `target_col` columns hold.
pub fn col_char_index(s: &[char], target_col: usize) -> (k: usize)
    ensures
        k == chars_before_col(s@, target_col as int),
        k <= s.len(),
{
    proof {
        lemma_chars_before_col_bound(s@, target_col as int);
    }
    if target_col == 0 {
        return 0;
    }
    let mut col: usize = 0;
    let mut i: usize = 0;
    assert(s@.skip(0) == s@);
    while i < s.len()
        invariant
            i <= s.len(),
            col < target_col,
            chars_before_col(s@, target_col as int) == i + chars_before_col(
                s@.skip(i as int),
                target_col - col,
            ),
        decreases s.len() - i,
    {
        let w = column_width(s[i]);
        assert(s@.skip(i as int)[0] == s@[i as int]);
        assert(s@.skip(i as int).drop_first() == s@.skip(i + 1));
        let ghost old_col = col;
        col = col.saturating_add(w);
        if col >= target_col {
            assert(target_col - old_col - w <= 0);
            assert(chars_before_col(s@.skip(i + 1), target_col - old_col - w) == 0);
            return i + 1;
        }
        i += 1;
    }
    assert(s@.skip(i as int).len() == 0);
    i
}

// ---------------------------------------------------------------------------
// UTF-8 lengths
// ---------------------------------------------------------------------------

/// The number of bytes of the UTF-8 encoding of `s`.
pub open spec fn utf8_len(s: Seq<char>) -> nat {
    vstd::utf8::encode_utf8(s).len()
}

pub(crate) proof fn lemma_encode_append(a: Seq<char>, b: Seq<char>)
    ensures
        vstd::utf8::encode_utf8(a + b) == vstd::utf8::encode_utf8(a) + vstd::utf8::encode_utf8(b),
    decreases a.len(),
{
    if a.len() == 0 {
        assert(a + b == b);
    } else {
        lemma_encode_append(a.drop_first(), b);
        assert((a + b).drop_first() == a.drop_first() + b);
        assert((a + b)[0] == a[0]);
    }
}

/// The number of bytes of the UTF-8 encoding of `c` (`char::len_utf8`).
pub fn char_utf8_len(c: char) -> (n: usize)
    ensures
        n == vstd::utf8::encode_scalar(c as u32).len(),
        n == utf8_len(seq![c]),
{
    proof {
        vstd::utf8::char_is_scalar(c);
        let e = vstd::utf8::encode_utf8(seq![c]);
        assert(seq![c].drop_first() =~= Seq::<char>::empty());
        assert(vstd::utf8::encode_utf8(Seq::<char>::empty()) == Seq::<u8>::empty());
        assert(e == vstd::utf8::encode_scalar(c as u32) + Seq::<u8>::empty());
    }
    let u = c as u32;
    if u <= 0x7f {
        1
    } else if u <= 0x7ff {
        2
    } else if u <= 0xffff {
        3
    } else {
        4
    }
}

/// The byte offset in `text` where its first `target_col` columns end (see
/// [`chars_before_col`]).
pub fn byte_index_for_display_col(text: &str, target_col: usize) -> (b: usize)
    ensures
        b == utf8_len(text@.take(chars_before_col(text@, target_col as int) as int)),
{
    let s = chars_of(text);
    let total = text.as_bytes().len();
    let k = col_char_index(s.as_slice(), target_col);
    let mut bytes: usize = 0;
    let mut i: usize = 0;
    proof {
        assert(s@.take(0) =~= Seq::<char>::empty());
        lemma_encode_append(s@.take(k as int), s@.skip(k as int));
        assert(s@.take(k as int) + s@.skip(k as int) == s@);
    }
    while i < k
        invariant
            i <= k <= s.len(),
            s@ == text@,
            bytes == utf8_len(s@.take(i as int)),
            utf8_len(s@.take(k as int)) <= total,
        decreases k - i,
    {
        let n = char_utf8_len(s[i]);
        proof {
            lemma_encode_append(s@.take(i as int), seq![s@[i as int]]);
            assert(s@.take(i + 1) == s@.take(i as int) + seq![s@[i as int]]);
            lemma_encode_append(s@.take(i + 1), s@.subrange(i + 1, k as int));
            assert(s@.take(i + 1) + s@.subrange(i + 1, k as int) == s@.take(k as int));
        }
        bytes = bytes + n;
        i += 1;
    }
    bytes
}

// ---------------------------------------------------------------------------
// Cutting and padding
// ---------------------------------------------------------------------------

/// The longest prefix of `s` whose columns fit in `budget`, taking characters
/// in order until one does not fit.
pub open spec fn fitting_prefix(s: Seq<char>, budget: int) -> Seq<char>
    decreases s.len(),
{
    if s.len() == 0 || col_width(s[0]) > budget {
        Seq::empty()
    } else {
        seq![s[0]] + fitting_prefix(s.drop_first(), budget - col_width(s[0]))
    }
}

/// `s` cut to `width` columns: unchanged when it fits, else the characters
/// that fit in one column less, followed by an ellipsis.
pub open spec fn truncated(s: Seq<char>, width: nat) -> Seq<char> {
    if width == 0 {
        Seq::empty()
    } else if text_columns(s) <= width {
        s
    } else {
        fitting_prefix(s, width - 1).push('…')
    }
}

/// `text` cut to `width` columns (see [`truncated`]).
pub fn truncate_to_width(text: &str, width: usize) -> (r: String)
    ensures
        r@ == truncated(text@, width as nat),
{
    if width == 0 {
        return String::new();
    }
    if display_width(text) <= width {
        return text.to_owned();
    }
    let s = chars_of(text);
    let budget = width - 1;
    let mut out = String::new();
    let mut used: usize = 0;
    let mut i: usize = 0;
    assert(s@.skip(0) == s@);
    while i < s.len()
        invariant
            i <= s.len(),
            used <= budget,
            fitting_prefix(s@, budget as int) == out@ + fitting_prefix(s@.skip(i as int), budget - used),
        ensures
            fitting_prefix(s@, budget as int) == out@ + fitting_prefix(s@.skip(i as int), budget - used),
            fitting_prefix(s@.skip(i as int), budget - used) == Seq::<char>::empty(),
        decreases s.len() - i,
    {
        let w = column_width(s[i]);
        assert(s@.skip(i as int)[0] == s@[i as int]);
        assert(s@.skip(i as int).drop_first() == s@.skip(i + 1));
        if w > budget - used {
            assert(fitting_prefix(s@.skip(i as int), budget - used) == Seq::<char>::empty());
            break;
        }
        let ghost before = out@;
        push_char(&mut out, s[i]);
        assert(before + (seq![s@[i as int]] + fitting_prefix(s@.skip(i + 1), budget - used - w)) == out@
            + fitting_prefix(s@.skip(i + 1), budget - (used + w)));
        used += w;
        i += 1;
    }
    proof {
        assert(out@ + Seq::<char>::empty() == out@);
        assert(fitting_prefix(s@, budget as int) == out@);
    }
    push_char(&mut out, '…');
    assert(out@ == fitting_prefix(text@, width - 1).push('…'));
    out
}

/// `s` padded with spaces to `width` columns (unchanged when it is that wide).
pub open spec fn padded(s: Seq<char>, width: nat) -> Seq<char> {
    if text_columns(s) >= width {
        s
    } else {
        s + repeat_char(' ', (width - text_columns(s)) as nat)
    }
}

/// `text` padded with spaces to `width` columns.
pub fn pad_to_width(text: &str, width: usize) -> (r: String)
    ensures
        r@ == padded(text@, width as nat),
{
    let current = display_width(text);
    if current >= width {
        return text.to_owned();
    }
    let mut out = text.to_owned();
    push_repeated(&mut out, ' ', width - current);
    out
}

} // verus!
