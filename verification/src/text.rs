//! Character-level helpers shared by the parsers and renderers: conversion
//! between `String` and character vectors, white-space trimming, field
//! splitting and decimal formatting.

use vstd::prelude::*;

verus! {

// ---------------------------------------------------------------------------
// Strings and character vectors
// ---------------------------------------------------------------------------

/// Appends one character (`String::push`).
#[verifier::external_body]
pub(crate) fn push_char(s: &mut String, c: char)
    ensures
        final(s)@ == old(s)@.push(c),
{
    s.push(c);
}

/// The characters of `s`, in order.
pub fn chars_of(s: &str) -> (v: Vec<char>)
    ensures
        v@ == s@,
{
    let mut v: Vec<char> = Vec::new();
    for c in it: s.chars()
        invariant
            v@ == it.seq().take(it.index() as int),
    {
        v.push(c);
    }
    v
}

/// Appends every character of `v` to `s`.
pub fn push_chars(s: &mut String, v: &[char])
    ensures
        final(s)@ == old(s)@ + v@,
{
    let ghost start = s@;
    let mut i: usize = 0;
    while i < v.len()
        invariant
            i <= v.len(),
            s@ == start + v@.take(i as int),
        decreases v.len() - i,
    {
        push_char(s, v[i]);
        assert(v@.take(i + 1) == v@.take(i as int).push(v@[i as int]));
        i += 1;
    }
    assert(v@.take(v.len() as int) == v@);
}

/// Appends every character of `t` to `s`.
pub fn push_str(s: &mut String, t: &str)
    ensures
        final(s)@ == old(s)@ + t@,
{
    let v = chars_of(t);
    push_chars(s, v.as_slice());
}

/// A `String` holding exactly the characters of `v`.
pub fn string_from(v: &[char]) -> (s: String)
    ensures
        s@ == v@,
{
    let mut s = String::new();
    push_chars(&mut s, v);
    assert(s@ =~= v@);
    s
}

/// `n` copies of `c`.
pub open spec fn repeat_char(c: char, n: nat) -> Seq<char> {
    Seq::new(n, |i: int| c)
}

/// Appends `n` copies of `c`.
pub fn push_repeated(s: &mut String, c: char, n: usize)
    ensures
        final(s)@ == old(s)@ + repeat_char(c, n as nat),
{
    let ghost start = s@;
    let mut i: usize = 0;
    while i < n
        invariant
            i <= n,
            s@ == start + repeat_char(c, i as nat),
        decreases n - i,
    {
        push_char(s, c);
        assert(repeat_char(c, (i + 1) as nat) == repeat_char(c, i as nat).push(c));
        i += 1;
    }
}

// ---------------------------------------------------------------------------
// White space and trimming (Unicode `White_Space`, as `char::is_whitespace`)
// ---------------------------------------------------------------------------

/// The characters with the Unicode `White_Space` property.
pub open spec fn is_white_space(c: char) -> bool {
    let u = c as u32;
    ||| 0x9 <= u <= 0xd
    ||| u == 0x20
    ||| u == 0x85
    ||| u == 0xa0
    ||| u == 0x1680
    ||| 0x2000 <= u <= 0x200a
    ||| u == 0x2028
    ||| u == 0x2029
    ||| u == 0x202f
    ||| u == 0x205f
    ||| u == 0x3000
}

pub fn is_whitespace(c: char) -> (b: bool)
    ensures
        b == is_white_space(c),
{
    let u = c as u32;
    (0x9 <= u && u <= 0xd) || u == 0x20 || u == 0x85 || u == 0xa0 || u == 0x1680 || (0x2000 <= u
        && u <= 0x200a) || u == 0x2028 || u == 0x2029 || u == 0x202f || u == 0x205f || u == 0x3000
}

/// `s` without its leading white space.
pub open spec fn trim_start_seq(s: Seq<char>) -> Seq<char>
    decreases s.len(),
{
    if s.len() > 0 && is_white_space(s[0]) {
        trim_start_seq(s.drop_first())
    } else {
        s
    }
}

/// `s` without its trailing white space.
pub open spec fn trim_end_seq(s: Seq<char>) -> Seq<char>
    decreases s.len(),
{
    if s.len() > 0 && is_white_space(s.last()) {
        trim_end_seq(s.drop_last())
    } else {
        s
    }
}

/// `s` without leading and trailing white space (`str::trim`).
pub open spec fn trim_seq(s: Seq<char>) -> Seq<char> {
    trim_end_seq(trim_start_seq(s))
}

proof fn lemma_trim_start_skip(s: Seq<char>, i: int)
    requires
        0 <= i <= s.len(),
        forall|j: int| 0 <= j < i ==> is_white_space(#[trigger] s[j]),
    ensures
        trim_start_seq(s) == trim_start_seq(s.skip(i)),
    decreases i,
{
    if i > 0 {
        assert(s.skip(1) == s.drop_first());
        lemma_trim_start_skip(s.drop_first(), i - 1);
        assert(s.drop_first().skip(i - 1) == s.skip(i));
    } else {
        assert(s.skip(0) == s);
    }
}

proof fn lemma_trim_end_take(s: Seq<char>, i: int)
    requires
        0 <= i <= s.len(),
        forall|j: int| i <= j < s.len() ==> is_white_space(#[trigger] s[j]),
    ensures
        trim_end_seq(s) == trim_end_seq(s.take(i)),
    decreases s.len() - i,
{
    if i < s.len() {
        assert(s.take(s.len() - 1) == s.drop_last());
        lemma_trim_end_take(s.drop_last(), i);
        assert(s.drop_last().take(i) == s.take(i));
    } else {
        assert(s.take(i) == s);
    }
}

/// `s` without its leading white space.
pub fn trim_start_chars(s: &[char]) -> (v: Vec<char>)
    ensures
        v@ == trim_start_seq(s@),
{
    let mut i: usize = 0;
    while i < s.len() && is_whitespace(s[i])
        invariant
            i <= s.len(),
            forall|j: int| 0 <= j < i ==> is_white_space(#[trigger] s@[j]),
        decreases s.len() - i,
    {
        i += 1;
    }
    proof {
        lemma_trim_start_skip(s@, i as int);
        if i < s.len() {
            assert(s@.skip(i as int)[0] == s@[i as int]);
        }
    }
    let mut v: Vec<char> = Vec::new();
    let mut k: usize = i;
    while k < s.len()
        invariant
            i <= k <= s.len(),
            v@ == s@.subrange(i as int, k as int),
        decreases s.len() - k,
    {
        v.push(s[k]);
        assert(s@.subrange(i as int, k + 1) == s@.subrange(i as int, k as int).push(s@[k as int]));
        k += 1;
    }
    assert(s@.skip(i as int) == s@.subrange(i as int, s.len() as int));
    v
}

/// `s` without leading and trailing white space (`str::trim`).
pub fn trim_chars(s: &[char]) -> (v: Vec<char>)
    ensures
        v@ == trim_seq(s@),
{
    let t = trim_start_chars(s);
    let mut e: usize = t.len();
    while e > 0 && is_whitespace(t[e - 1])
        invariant
            e <= t.len(),
            forall|j: int| e <= j < t.len() ==> is_white_space(#[trigger] t@[j]),
        decreases e,
    {
        e -= 1;
    }
    proof {
        lemma_trim_end_take(t@, e as int);
        if e > 0 {
            assert(t@.take(e as int).last() == t@[e - 1]);
        }
    }
    let mut v: Vec<char> = Vec::new();
    let mut k: usize = 0;
    while k < e
        invariant
            k <= e <= t.len(),
            v@ == t@.take(k as int),
        decreases e - k,
    {
        v.push(t[k]);
        assert(t@.take(k + 1) == t@.take(k as int).push(t@[k as int]));
        k += 1;
    }
    v
}

/// `s` trimmed, as a `String`.
pub fn trim_str(s: &str) -> (t: String)
    ensures
        t@ == trim_seq(s@),
{
    let v = chars_of(s);
    let w = trim_chars(v.as_slice());
    string_from(w.as_slice())
}


// ---------------------------------------------------------------------------
// Searching and splitting
// ---------------------------------------------------------------------------

/// Index of the first `x` in `s`, or `s.len()` when there is none.
pub open spec fn find_first<T>(s: Seq<T>, x: T) -> int
    decreases s.len(),
{
    if s.len() == 0 {
        0
    } else if s[0] == x {
        0
    } else {
        1 + find_first(s.drop_first(), x)
    }
}

pub proof fn lemma_find_first<T>(s: Seq<T>, x: T)
    ensures
        0 <= find_first(s, x) <= s.len(),
        forall|j: int| 0 <= j < find_first(s, x) ==> s[j] != x,
        find_first(s, x) < s.len() ==> s[find_first(s, x)] == x,
    decreases s.len(),
{
    if s.len() > 0 && s[0] != x {
        lemma_find_first(s.drop_first(), x);
        assert forall|j: int| 0 <= j < find_first(s, x) implies s[j] != x by {
            if j > 0 {
                assert(s[j] == s.drop_first()[j - 1]);
            }
        }
    }
}

pub proof fn lemma_find_first_is<T>(s: Seq<T>, x: T, r: int)
    requires
        0 <= r <= s.len(),
        forall|j: int| 0 <= j < r ==> s[j] != x,
        r < s.len() ==> s[r] == x,
    ensures
        find_first(s, x) == r,
{
    lemma_find_first(s, x);
    let f = find_first(s, x);
    if f < r {
        assert(s[f] != x);
    }
    if r < f {
        assert(s[r] != x);
    }
}

/// Index of the first `x` at or after `from` in `s`, or `s.len()`.
pub fn find_char_from(s: &[char], from: usize, x: char) -> (r: usize)
    requires
        from <= s.len(),
    ensures
        from <= r <= s.len(),
        forall|j: int| from <= j < r ==> s@[j] != x,
        r < s.len() ==> s@[r as int] == x,
{
    let mut i = from;
    while i < s.len()
        invariant
            from <= i <= s.len(),
            forall|j: int| from <= j < i ==> s@[j] != x,
        decreases s.len() - i,
    {
        if s[i] == x {
            return i;
        }
        i += 1;
    }
    i
}

/// The pieces of `s` between occurrences of `sep` (`slice::split`): there is
/// always at least one piece, and pieces may be empty.
pub open spec fn split_fields<T>(s: Seq<T>, sep: T) -> Seq<Seq<T>>
    decreases s.len(),
{
    if s.len() == 0 {
        seq![Seq::empty()]
    } else {
        let f = split_fields(s.drop_last(), sep);
        if s.last() == sep {
            f.push(Seq::empty())
        } else {
            f.update(f.len() - 1, f.last().push(s.last()))
        }
    }
}

pub proof fn lemma_split_fields_len<T>(s: Seq<T>, sep: T)
    ensures
        split_fields(s, sep).len() >= 1,
    decreases s.len(),
{
    if s.len() > 0 {
        lemma_split_fields_len(s.drop_last(), sep);
    }
}

/// The non-empty pieces of `fs`, in order.
pub open spec fn nonempty<T>(fs: Seq<Seq<T>>) -> Seq<Seq<T>>
    decreases fs.len(),
{
    if fs.len() == 0 {
        Seq::empty()
    } else {
        let r = nonempty(fs.drop_last());
        if fs.last().len() > 0 {
            r.push(fs.last())
        } else {
            r
        }
    }
}

/// The NUL-separated records of `b`, empty records dropped.
pub open spec fn nul_records(b: Seq<u8>) -> Seq<Seq<u8>> {
    nonempty(split_fields(b, 0u8))
}

/// Splits `b` at NUL bytes and keeps the non-empty records, in order.
pub fn split_nul_records(b: &[u8]) -> (out: Vec<Vec<u8>>)
    ensures
        out@.map_values(|r: Vec<u8>| r@) == nul_records(b@),
{
    let mut out: Vec<Vec<u8>> = Vec::new();
    let mut cur: Vec<u8> = Vec::new();
    let mut i: usize = 0;
    proof {
        assert(b@.take(0) =~= Seq::<u8>::empty());
    }
    while i < b.len()
        invariant
            i <= b.len(),
            split_fields(b@.take(i as int), 0u8).len() >= 1,
            out@.map_values(|r: Vec<u8>| r@) == nonempty(
                split_fields(b@.take(i as int), 0u8).drop_last(),
            ),
            cur@ == split_fields(b@.take(i as int), 0u8).last(),
        decreases b.len() - i,
    {
        let c = b[i];
        let ghost f = split_fields(b@.take(i as int), 0u8);
        assert(b@.take(i + 1).drop_last() == b@.take(i as int));
        assert(b@.take(i + 1).last() == c);
        if c == 0 {
            assert(split_fields(b@.take(i + 1), 0u8) == f.push(Seq::empty()));
            assert(f.push(Seq::<u8>::empty()).drop_last() == f);
            if cur.len() > 0 {
                let ghost before = out@;
                let moved = cur;
                out.push(moved);
                assert(out@.map_values(|r: Vec<u8>| r@) == before.map_values(|r: Vec<u8>| r@).push(
                    moved@,
                ));
                cur = Vec::new();
            }
            assert(cur@ =~= Seq::<u8>::empty());
        } else {
            let ghost g = f.update(f.len() - 1, f.last().push(c));
            assert(split_fields(b@.take(i + 1), 0u8) == g);
            assert(g.drop_last() =~= f.drop_last());
            cur.push(c);
        }
        i += 1;
    }
    assert(b@.take(b.len() as int) == b@);
    let ghost f = split_fields(b@, 0u8);
    assert(f == f.drop_last().push(f.last()));
    if cur.len() > 0 {
        let ghost before = out@;
        let moved = cur;
        out.push(moved);
        assert(out@.map_values(|r: Vec<u8>| r@) == before.map_values(|r: Vec<u8>| r@).push(moved@));
    }
    out
}

/// `f` without one trailing carriage return.
pub open spec fn strip_cr(f: Seq<char>) -> Seq<char> {
    if f.len() > 0 && f.last() == '\r' {
        f.drop_last()
    } else {
        f
    }
}

/// The lines of `s` as `str::lines` yields them: split at `\n`, a `\r`
/// right before a `\n` dropped, and no empty piece after a final `\n`.
pub open spec fn text_lines(s: Seq<char>) -> Seq<Seq<char>> {
    let f = split_fields(s, '\n');
    let body = f.drop_last().map_values(|x: Seq<char>| strip_cr(x));
    if f.last().len() > 0 {
        body.push(f.last())
    } else {
        body
    }
}

/// The lines of `s` (`str::lines`).
pub fn split_lines(s: &[char]) -> (out: Vec<Vec<char>>)
    ensures
        out@.map_values(|r: Vec<char>| r@) == text_lines(s@),
{
    let mut out: Vec<Vec<char>> = Vec::new();
    let mut cur: Vec<char> = Vec::new();
    let mut i: usize = 0;
    proof {
        assert(s@.take(0) =~= Seq::<char>::empty());
    }
    while i < s.len()
        invariant
            i <= s.len(),
            split_fields(s@.take(i as int), '\n').len() >= 1,
            out@.map_values(|r: Vec<char>| r@) == split_fields(s@.take(i as int), '\n').drop_last().map_values(
                |x: Seq<char>| strip_cr(x),
            ),
            cur@ == split_fields(s@.take(i as int), '\n').last(),
        decreases s.len() - i,
    {
        let c = s[i];
        let ghost f = split_fields(s@.take(i as int), '\n');
        assert(s@.take(i + 1).drop_last() == s@.take(i as int));
        assert(s@.take(i + 1).last() == c);
        if c == '\n' {
            assert(split_fields(s@.take(i + 1), '\n') == f.push(Seq::empty()));
            assert(f.push(Seq::<char>::empty()).drop_last() == f);
            let ghost before = out@;
            let mut line = cur;
            let n = line.len();
            if n > 0 && line[n - 1] == '\r' {
                line.pop();
            }
            assert(line@ == strip_cr(f.last()));
            out.push(line);
            assert(out@.map_values(|r: Vec<char>| r@) == before.map_values(|r: Vec<char>| r@).push(
                strip_cr(f.last()),
            ));
            assert(f == f.drop_last().push(f.last()));
            assert(f.map_values(|x: Seq<char>| strip_cr(x)) =~= f.drop_last().map_values(
                |x: Seq<char>| strip_cr(x),
            ).push(strip_cr(f.last())));
            cur = Vec::new();
            assert(cur@ =~= Seq::<char>::empty());
        } else {
            let ghost g = f.update(f.len() - 1, f.last().push(c));
            assert(split_fields(s@.take(i + 1), '\n') == g);
            assert(g.drop_last() =~= f.drop_last());
            cur.push(c);
        }
        i += 1;
    }
    assert(s@.take(s.len() as int) == s@);
    if cur.len() > 0 {
        let ghost before = out@;
        let moved = cur;
        out.push(moved);
        assert(out@.map_values(|r: Vec<char>| r@) == before.map_values(|r: Vec<char>| r@).push(
            moved@,
        ));
    }
    out
}

// ---------------------------------------------------------------------------
// Decimal formatting
// ---------------------------------------------------------------------------

/// The ASCII digit for `d` (`d < 10`).
pub open spec fn digit_char(d: nat) -> char {
    (48 + d) as char
}

/// The decimal digits of `n`, without leading zeros.
pub open spec fn decimal(n: nat) -> Seq<char>
    decreases n,
{
    if n < 10 {
        seq![digit_char(n)]
    } else {
        decimal(n / 10).push(digit_char(n % 10))
    }
}

/// Appends the decimal digits of `n`.
pub fn push_decimal(s: &mut String, n: u64)
    ensures
        final(s)@ == old(s)@ + decimal(n as nat),
    decreases n,
{
    if n >= 10 {
        push_decimal(s, n / 10);
    }
    let d: u8 = (n % 10) as u8;
    let c: char = (48u8 + d) as char;
    assert(c == digit_char((n % 10) as nat));
    push_char(s, c);
    proof {
        if n >= 10 {
            assert(decimal(n as nat) == decimal((n / 10) as nat).push(digit_char((n % 10) as nat)));
        }
    }
}

/// `n` right-aligned in a field of `width` characters (`format!("{:>w$}")`).
pub open spec fn right_aligned(n: nat, width: nat) -> Seq<char> {
    let d = decimal(n);
    if d.len() < width {
        repeat_char(' ', (width - d.len()) as nat) + d
    } else {
        d
    }
}

pub proof fn lemma_decimal_len(n: nat)
    ensures
        1 <= decimal(n).len(),
        n < 10 ==> decimal(n).len() == 1,
        10 <= n < 100 ==> decimal(n).len() == 2,
        100 <= n < 1000 ==> decimal(n).len() == 3,
        1000 <= n < 10000 ==> decimal(n).len() == 4,
    decreases n,
{
    if n >= 10 {
        lemma_decimal_len(n / 10);
    }
}

/// Appends `n` right-aligned in a field of `width` characters.
pub fn push_right_aligned(s: &mut String, n: u64, width: usize)
    ensures
        final(s)@ == old(s)@ + right_aligned(n as nat, width as nat),
{
    let mut digits = String::new();
    push_decimal(&mut digits, n);
    let dv = chars_of(digits.as_str());
    assert(dv@ =~= decimal(n as nat));
    if dv.len() < width {
        push_repeated(s, ' ', width - dv.len());
    }
    push_chars(s, dv.as_slice());
    assert(final(s)@ == old(s)@ + right_aligned(n as nat, width as nat)) by {
        if dv.len() < width {
            assert(old(s)@ + repeat_char(' ', (width - dv.len()) as nat) + decimal(n as nat) =~= old(s)@
                + (repeat_char(' ', (width - dv.len()) as nat) + decimal(n as nat)));
        }
    }
}

/// The piece of `s` before the first `sep` (all of `s` when there is none).
pub open spec fn first_field<T>(s: Seq<T>, sep: T) -> Seq<T> {
    s.take(find_first(s, sep))
}

/// What follows the first `sep` in `s`, if there is one.
pub open spec fn after_sep<T>(s: Seq<T>, sep: T) -> Option<Seq<T>> {
    if find_first(s, sep) < s.len() {
        Some(s.skip(find_first(s, sep) + 1))
    } else {
        None
    }
}

/// What follows the `k`-th `sep` in `s`, if there are that many.
pub open spec fn after_seps<T>(s: Seq<T>, sep: T, k: nat) -> Option<Seq<T>>
    decreases k,
{
    if k == 0 {
        Some(s)
    } else {
        match after_sep(s, sep) {
            None => None,
            Some(r) => after_seps(r, sep, (k - 1) as nat),
        }
    }
}

pub proof fn lemma_find_first_skip(s: Seq<char>, p: int, x: char, f: int)
    requires
        0 <= p <= f <= s.len(),
        forall|j: int| p <= j < f ==> s[j] != x,
        f < s.len() ==> s[f] == x,
    ensures
        find_first(s.skip(p), x) == f - p,
{
    let t = s.skip(p);
    assert forall|j: int| 0 <= j < f - p implies t[j] != x by {
        assert(t[j] == s[p + j]);
    }
    if f < s.len() {
        assert(t[f - p] == s[f]);
    }
    lemma_find_first_is(t, x, f - p);
}

/// Where the piece of `s` that starts at `from` ends: the next `sep`, or the end.
pub fn field_end(s: &[char], from: usize, sep: char) -> (e: usize)
    requires
        from <= s.len(),
    ensures
        from <= e <= s.len(),
        find_first(s@.skip(from as int), sep) == e - from,
        first_field(s@.skip(from as int), sep) == s@.subrange(from as int, e as int),
{
    let e = find_char_from(s, from, sep);
    proof {
        lemma_find_first_skip(s@, from as int, sep, e as int);
        assert(s@.skip(from as int).take(e - from) == s@.subrange(from as int, e as int));
    }
    e
}

/// Where what follows the `k`-th `sep` in `s` starts, if there are that many.
pub fn after_seps_start(s: &[char], sep: char, k: usize) -> (r: Option<usize>)
    ensures
        match r {
            Some(p) => p <= s.len() && after_seps(s@, sep, k as nat) == Some(s@.skip(p as int)),
            None => after_seps(s@, sep, k as nat) is None,
        },
{
    let mut p: usize = 0;
    let mut left: usize = k;
    assert(s@.skip(0) == s@);
    while left > 0
        invariant
            p <= s.len(),
            left <= k,
            after_seps(s@, sep, k as nat) == after_seps(s@.skip(p as int), sep, left as nat),
        decreases left,
    {
        let f = field_end(s, p, sep);
        if f == s.len() {
            return None;
        }
        assert(s@.skip(p as int).skip(f - p + 1) == s@.skip(f + 1));
        p = f + 1;
        left -= 1;
    }
    Some(p)
}

/// The characters `s[from..to]`.
pub fn sub_chars(s: &[char], from: usize, to: usize) -> (v: Vec<char>)
    requires
        from <= to <= s.len(),
    ensures
        v@ == s@.subrange(from as int, to as int),
{
    let mut v: Vec<char> = Vec::new();
    let mut k = from;
    while k < to
        invariant
            from <= k <= to <= s.len(),
            v@ == s@.subrange(from as int, k as int),
        decreases to - k,
    {
        v.push(s[k]);
        assert(s@.subrange(from as int, k + 1) == s@.subrange(from as int, k as int).push(s@[k as int]));
        k += 1;
    }
    v
}

// ---------------------------------------------------------------------------
// UTF-8
// ---------------------------------------------------------------------------

/// `std::str::from_utf8`: the text that `bytes` encode, when they are valid
/// UTF-8. The contract states validity and decoding through vstd's model of
/// UTF-8; `None` stands for the `Utf8Error`.
#[verifier::external_body]
pub(crate) fn utf8_str(bytes: &[u8]) -> (r: Option<&str>)
    ensures
        r is Some <==> vstd::utf8::valid_utf8(bytes@),
        r matches Some(s) ==> s@ == vstd::utf8::decode_utf8(bytes@),
{
    std::str::from_utf8(bytes).ok()
}

/// What `String::from_utf8_lossy` makes of `bytes`.
pub uninterp spec fn lossy_text(bytes: Seq<u8>) -> Seq<char>;

/// `String::from_utf8_lossy`: the text of `bytes` with every invalid sequence
/// replaced by U+FFFD. The contract names the result and states the case that
/// the documentation gives: valid UTF-8 is decoded unchanged.
#[verifier::external_body]
pub(crate) fn lossy_string(bytes: &[u8]) -> (s: String)
    ensures
        s@ == lossy_text(bytes@),
        vstd::utf8::valid_utf8(bytes@) ==> s@ == vstd::utf8::decode_utf8(bytes@),
{
    String::from_utf8_lossy(bytes).into_owned()
}

/// The characters that `bytes` encode, when they are valid UTF-8.
pub fn decode_chars(bytes: &[u8]) -> (r: Option<Vec<char>>)
    ensures
        r is Some <==> vstd::utf8::valid_utf8(bytes@),
        r matches Some(v) ==> v@ == vstd::utf8::decode_utf8(bytes@),
{
    match utf8_str(bytes) {
        Some(s) => Some(chars_of(s)),
        None => None,
    }
}

// ---------------------------------------------------------------------------
// Unsigned decimal numbers (`str::parse::<u32>`)
// ---------------------------------------------------------------------------

pub open spec fn is_digit(c: char) -> bool {
    '0' <= c && c <= '9'
}

/// The value of a string of decimal digits.
pub open spec fn digits_value(s: Seq<char>) -> nat
    decreases s.len(),
{
    if s.len() == 0 {
        0
    } else {
        digits_value(s.drop_last()) * 10 + ((s.last() as nat) - 48) as nat
    }
}

/// Whether every character of `d` is a decimal digit.
pub open spec fn all_digits(d: Seq<char>) -> bool {
    forall|i: int| 0 <= i < d.len() ==> is_digit(#[trigger] d[i])
}

/// `s` without one leading `+`.
pub open spec fn unsigned_digits(s: Seq<char>) -> Seq<char> {
    if s.len() > 0 && s[0] == '+' {
        s.skip(1)
    } else {
        s
    }
}

/// What `str::parse::<u32>` accepts: an optional `+`, then one or more
/// decimal digits whose value fits in a `u32`.
pub open spec fn spec_parse_u32(s: Seq<char>) -> Option<u32> {
    let d = unsigned_digits(s);
    if d.len() > 0 && all_digits(d) && digits_value(d) <= u32::MAX {
        Some(digits_value(d) as u32)
    } else {
        None
    }
}

proof fn lemma_digits_value_grows(s: Seq<char>, i: int)
    requires
        0 <= i <= s.len(),
        forall|k: int| 0 <= k < s.len() ==> is_digit(#[trigger] s[k]),
    ensures
        digits_value(s.take(i)) <= digits_value(s),
    decreases s.len() - i,
{
    if i < s.len() {
        assert(s.drop_last().take(i) == s.take(i));
        assert forall|k: int| 0 <= k < s.drop_last().len() implies is_digit(#[trigger] s.drop_last()[k]) by {
            assert(s.drop_last()[k] == s[k]);
        }
        lemma_digits_value_grows(s.drop_last(), i);
    } else {
        assert(s.take(i) == s);
    }
}

/// `s.parse::<u32>()`, as an `Option`.
pub fn parse_u32(s: &[char]) -> (r: Option<u32>)
    ensures
        r == spec_parse_u32(s@),
{
    let start: usize = if s.len() > 0 && s[0] == '+' { 1 } else { 0 };
    let ghost d = unsigned_digits(s@);
    assert(d == s@.skip(start as int));
    if start == s.len() {
        return None;
    }
    let mut value: u64 = 0;
    let mut i: usize = start;
    assert(d.take(0) =~= Seq::<char>::empty());
    while i < s.len()
        invariant
            start <= i <= s.len(),
            start < s.len(),
            d == s@.skip(start as int),
            d == unsigned_digits(s@),
            forall|k: int| start <= k < i ==> is_digit(#[trigger] s@[k]),
            value == digits_value(d.take(i - start)),
            value <= u32::MAX,
        decreases s.len() - i,
    {
        let c = s[i];
        if !('0' <= c && c <= '9') {
            assert(!is_digit(d[i - start]));
            assert(!all_digits(d));
            return None;
        }
        let digit: u64 = (c as u32 - 48) as u64;
        assert(d.take(i + 1 - start).drop_last() == d.take(i - start));
        assert(d.take(i + 1 - start).last() == c);
        value = value * 10 + digit;
        if value > 0xffff_ffff {
            proof {
                assert forall|k: int| 0 <= k < d.take(i + 1 - start).len() implies is_digit(
                    #[trigger] d.take(i + 1 - start)[k],
                ) by {
                    assert(d.take(i + 1 - start)[k] == s@[start + k]);
                }
                if all_digits(d) {
                    lemma_digits_value_grows(d, i + 1 - start);
                }
            }
            return None;
        }
        i += 1;
    }
    assert(d.take(i - start) == d);
    assert forall|k: int| 0 <= k < d.len() implies is_digit(#[trigger] d[k]) by {
        assert(d[k] == s@[start + k]);
    }
    assert(all_digits(d));
    Some(value as u32)
}

/// The pieces of `s` one after another.
pub open spec fn concat_all<T>(s: Seq<Seq<T>>) -> Seq<T>
    decreases s.len(),
{
    if s.len() == 0 {
        Seq::empty()
    } else {
        concat_all(s.drop_last()) + s.last()
    }
}

} // verus!
