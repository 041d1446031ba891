//! Character-level string building blocks.

use vstd::prelude::*;

verus! {

/// The text of each string.
pub open spec fn string_views(v: Seq<String>) -> Seq<Seq<char>> {
    v.map_values(|s: String| s@)
}

/// A run of `n` spaces.
pub open spec fn spaces(n: nat) -> Seq<char> {
    Seq::new(n, |i: int| ' ')
}

/// Appends one character; calls `String::push`.
#[verifier::external_body]
pub(crate) fn push_char(s: &mut String, c: char)
    ensures
        final(s)@ == old(s)@.push(c),
{
    s.push(c);
}

/// Appends a string slice; calls `String::push_str`.
#[verifier::external_body]
pub(crate) fn push_text(s: &mut String, t: &str)
    ensures
        final(s)@ == old(s)@ + t@,
{
    s.push_str(t);
}

/// Whether two string slices hold the same characters.
pub(crate) fn text_equals(a: &str, b: &str) -> (r: bool)
    ensures
        r == (a@ == b@),
{
    let x = chars_of(a);
    let y = chars_of(b);
    if x.len() != y.len() {
        return false;
    }
    let mut i: usize = 0;
    while i < x.len()
        invariant
            x@ == a@,
            y@ == b@,
            x@.len() == y@.len(),
            i <= x@.len(),
            forall|k: int| 0 <= k < i ==> x@[k] == y@[k],
        decreases x.len() - i,
    {
        if x[i] != y[i] {
            return false;
        }
        i = i + 1;
    }
    proof {
        assert(x@ =~= y@);
    }
    true
}

/// The characters of a string, in order.
pub fn chars_of(s: &str) -> (v: Vec<char>)
    ensures
        v@ == s@,
{
    let mut v: Vec<char> = Vec::new();
    for c in it: s.chars()
        invariant
            v@ == it.seq().take(it.index() as int),
    {
        v.push(c);
    }
    v
}

/// A string holding the characters `chars[start..end]`.
pub fn string_from_chars(chars: &Vec<char>, start: usize, end: usize) -> (s: String)
    requires
        start <= end <= chars@.len(),
    ensures
        s@ == chars@.subrange(start as int, end as int),
{
    let mut s = String::new();
    let mut i: usize = start;
    while i < end
        invariant
            start <= i <= end <= chars@.len(),
            s@ == chars@.subrange(start as int, i as int),
        decreases end - i,
    {
        push_char(&mut s, chars[i]);
        proof {
            assert(chars@.subrange(start as int, i + 1) =~= chars@.subrange(start as int, i as int).push(chars@[i as int]));
        }
        i = i + 1;
    }
    s
}

/// A string of `n` spaces.
pub fn blank(n: usize) -> (s: String)
    ensures
        s@ == spaces(n as nat),
{
    let mut s = String::new();
    let mut i: usize = 0;
    while i < n
        invariant
            i <= n,
            s@ == spaces(i as nat),
        decreases n - i,
    {
        push_char(&mut s, ' ');
        proof {
            assert(spaces((i + 1) as nat) =~= spaces(i as nat).push(' '));
        }
        i = i + 1;
    }
    s
}


pub open spec fn is_ascii_letter(c: char) -> bool {
    ('a' <= c && c <= 'z') || ('A' <= c && c <= 'Z')
}

/// The characters of `s` from position `i` on that a terminal shows: an
/// escape sequence `ESC [` up to and including its final letter is skipped.
pub open spec fn visible_from(s: Seq<char>, i: int, in_sequence: bool) -> Seq<char>
    decreases s.len() - i,
{
    if i < 0 || i >= s.len() {
        Seq::empty()
    } else if in_sequence {
        visible_from(s, i + 1, !is_ascii_letter(s[i]))
    } else if s[i] == '\u{1b}' && i + 1 < s.len() && s[i + 1] == '[' {
        visible_from(s, i + 2, true)
    } else {
        seq![s[i]] + visible_from(s, i + 1, false)
    }
}

pub open spec fn without_ansi(s: Seq<char>) -> Seq<char> {
    visible_from(s, 0, false)
}

/// The display width of a line once its ANSI escape sequences are removed.
pub fn visible_width_without_ansi(line: &str) -> (w: usize)
    ensures
        w == crate::width::str_width(without_ansi(line@)),
{
    let chars = chars_of(line);
    let ghost s = chars@;
    let mut visible: Vec<char> = Vec::new();
    let mut i: usize = 0;
    let mut in_sequence = false;
    while i < chars.len()
        invariant
            s == chars@,
            i <= chars.len(),
            without_ansi(s) == visible@ + visible_from(s, i as int, in_sequence),
        decreases chars.len() - i,
    {
        let c = chars[i];
        if in_sequence {
            in_sequence = !(('a' <= c && c <= 'z') || ('A' <= c && c <= 'Z'));
            i = i + 1;
        } else if c == '\u{1b}' && i + 1 < chars.len() && chars[i + 1] == '[' {
            in_sequence = true;
            i = i + 2;
        } else {
            proof {
                assert(visible@.push(c) + visible_from(s, i + 1, false) =~= visible@ + (seq![c] + visible_from(s, i + 1, false)));
            }
            visible.push(c);
            i = i + 1;
        }
    }
    proof {
        assert(visible@ + visible_from(s, i as int, in_sequence) =~= visible@);
    }
    let text = string_from_chars(&visible, 0, visible.len());
    proof {
        assert(visible@.subrange(0, visible@.len() as int) =~= visible@);
    }
    crate::width::text_width(text.as_str())
}


/// `text` padded with spaces to `width` columns.
pub open spec fn padded(text: Seq<char>, width: int) -> Seq<char> {
    if crate::width::str_width(text) >= width {
        text
    } else {
        text + spaces((width - crate::width::str_width(text)) as nat)
    }
}

/// `text` padded with spaces to `width` columns; unchanged when it is as
/// wide already.
pub fn pad_to_width(text: &str, width: usize) -> (out: String)
    ensures
        out@ == padded(text@, width as int),
{
    let text_width = crate::width::text_width(text);
    if text_width >= width {
        return text.to_owned();
    }
    let mut out = text.to_owned();
    let fill = blank(width - text_width);
    push_text(&mut out, fill.as_str());
    out
}

/// The decimal digit for `d`.
pub open spec fn digit_char(d: nat) -> char {
    if d == 0 { '0' } else if d == 1 { '1' } else if d == 2 { '2' } else if d == 3 { '3' }
    else if d == 4 { '4' } else if d == 5 { '5' } else if d == 6 { '6' } else if d == 7 { '7' }
    else if d == 8 { '8' } else { '9' }
}

/// The decimal digits of `n`, most significant first, without leading zeros.
pub open spec fn decimal(n: nat) -> Seq<char>
    decreases n,
{
    if n < 10 {
        seq![digit_char(n)]
    } else {
        decimal(n / 10).push(digit_char(n % 10))
    }
}

/// `n` written in decimal, with a minus sign when negative.
pub open spec fn signed_decimal(n: int) -> Seq<char> {
    if n < 0 {
        seq!['-'] + decimal((-n) as nat)
    } else {
        decimal(n as nat)
    }
}

fn digit(d: u64) -> (c: char)
    requires
        d < 10,
    ensures
        c == digit_char(d as nat),
{
    if d == 0 { '0' } else if d == 1 { '1' } else if d == 2 { '2' } else if d == 3 { '3' }
    else if d == 4 { '4' } else if d == 5 { '5' } else if d == 6 { '6' } else if d == 7 { '7' }
    else if d == 8 { '8' } else { '9' }
}

/// Appends the decimal digits of `n`.
pub fn push_decimal(s: &mut String, n: u64)
    ensures
        final(s)@ == old(s)@ + decimal(n as nat),
    decreases n,
{
    if n >= 10 {
        push_decimal(s, n / 10);
    }
    push_char(s, digit(n % 10));
    proof {
        if n >= 10 {
            assert(old(s)@ + decimal(n as nat) =~= (old(s)@ + decimal((n / 10) as nat)).push(digit_char((n % 10) as nat)));
        } else {
            assert(old(s)@ + decimal(n as nat) =~= old(s)@.push(digit_char((n % 10) as nat)));
        }
    }
}

/// `n` written in decimal, as `to_string` writes an `i64`.
pub fn signed_decimal_text(n: i64) -> (s: String)
    ensures
        s@ == signed_decimal(n as int),
{
    let mut s = String::new();
    if n < 0 {
        push_char(&mut s, '-');
        let magnitude: u64 = ((-(n + 1)) as u64) + 1;
        push_decimal(&mut s, magnitude);
        proof {
            assert(s@ =~= seq!['-'] + decimal((-n) as nat));
        }
    } else {
        push_decimal(&mut s, n as u64);
        proof {
            assert(s@ =~= decimal(n as nat));
        }
    }
    s
}

/// `parts` joined with `sep` between each neighbouring pair.
pub open spec fn joined(parts: Seq<Seq<char>>, sep: Seq<char>) -> Seq<char>
    decreases parts.len(),
{
    if parts.len() == 0 {
        Seq::empty()
    } else if parts.len() == 1 {
        parts[0]
    } else {
        joined(parts.drop_last(), sep) + sep + parts.last()
    }
}

/// Joins `parts` with `sep`, as `join` does on a slice of strings.
pub fn join_texts(parts: &Vec<String>, sep: &str) -> (s: String)
    ensures
        s@ == joined(parts@.map_values(|p: String| p@), sep@),
{
    let ghost views = parts@.map_values(|p: String| p@);
    let mut s = String::new();
    let mut i: usize = 0;
    while i < parts.len()
        invariant
            views == parts@.map_values(|p: String| p@),
            i <= parts.len(),
            s@ == joined(views.take(i as int), sep@),
        decreases parts.len() - i,
    {
        if i > 0 {
            push_text(&mut s, sep);
        }
        push_text(&mut s, parts[i].as_str());
        proof {
            let next = views.take(i + 1);
            assert(next.drop_last() =~= views.take(i as int));
            if i == 0 {
                assert(s@ =~= next[0]);
            }
        }
        i = i + 1;
    }
    proof {
        assert(views.take(parts.len() as int) =~= views);
    }
    s
}

/// `true` or `false`, as `to_string` writes a `bool`.
pub open spec fn bool_text_spec(value: bool) -> Seq<char> {
    if value { seq!['t', 'r', 'u', 'e'] } else { seq!['f', 'a', 'l', 's', 'e'] }
}

pub fn bool_text(value: bool) -> (s: &'static str)
    ensures
        s@ == bool_text_spec(value),
{
    proof {
        reveal_strlit("true");
        reveal_strlit("false");
    }
    if value { "true" } else { "false" }
}

/// The characters with the Unicode `White_Space` property.
pub open spec fn white_space(c: char) -> bool {
    ('\u{9}' <= c && c <= '\u{d}') || c == ' ' || c == '\u{85}' || c == '\u{a0}' || c == '\u{1680}'
        || ('\u{2000}' <= c && c <= '\u{200a}') || c == '\u{2028}' || c == '\u{2029}' || c == '\u{202f}'
        || c == '\u{205f}' || c == '\u{3000}'
}

/// Whether `c` is white space, in the sense of the Unicode `White_Space`
/// property that `char::is_whitespace` follows.
fn is_whitespace_char(c: char) -> (r: bool)
    ensures
        r == white_space(c),
{
    ('\u{9}' <= c && c <= '\u{d}') || c == ' ' || c == '\u{85}' || c == '\u{a0}' || c == '\u{1680}'
        || ('\u{2000}' <= c && c <= '\u{200a}') || c == '\u{2028}' || c == '\u{2029}' || c == '\u{202f}'
        || c == '\u{205f}' || c == '\u{3000}'
}

/// The words of `s`: its longest runs of characters that are not white
/// space, in order.
pub open spec fn words(s: Seq<char>) -> Seq<Seq<char>>
    decreases s.len(),
{
    if s.len() == 0 {
        Seq::empty()
    } else {
        let before = words(s.drop_last());
        if white_space(s.last()) {
            before
        } else if s.len() >= 2 && !white_space(s[s.len() - 2]) {
            before.drop_last().push(before.last().push(s.last()))
        } else {
            before.push(seq![s.last()])
        }
    }
}

/// The words of `text`, as `split_whitespace` gives them.
pub fn split_words(text: &str) -> (out: Vec<String>)
    ensures
        out@.map_values(|w: String| w@) == words(text@),
{
    let chars = chars_of(text);
    let ghost s = chars@;
    let mut done: Vec<String> = Vec::new();
    let mut current = String::new();
    let mut in_word = false;
    let mut i: usize = 0;
    while i < chars.len()
        invariant
            s == chars@,
            i <= s.len(),
            in_word == (i > 0 && !white_space(s[i - 1])),
            in_word ==> words(s.take(i as int)) == done@.map_values(|w: String| w@).push(current@),
            !in_word ==> words(s.take(i as int)) == done@.map_values(|w: String| w@),
            !in_word ==> current@.len() == 0,
        decreases chars.len() - i,
    {
        let c = chars[i];
        proof {
            let t = s.take(i + 1);
            assert(t.drop_last() =~= s.take(i as int));
            assert(t.last() == c);
            if i > 0 {
                assert(t[t.len() - 2] == s[i - 1]);
            }
        }
        if is_whitespace_char(c) {
            if in_word {
                proof {
                    assert(done@.push(current).map_values(|w: String| w@) =~= done@.map_values(|w: String| w@).push(current@));
                }
                done.push(current);
                current = String::new();
            }
            in_word = false;
        } else {
            push_char(&mut current, c);
            proof {
                let before = words(s.take(i as int));
                if !in_word {
                    assert(current@ =~= seq![c]);
                } else {
                    assert(before.drop_last() =~= done@.map_values(|w: String| w@));
                }
            }
            in_word = true;
        }
        i = i + 1;
    }
    if in_word {
        proof {
            assert(done@.push(current).map_values(|w: String| w@) =~= done@.map_values(|w: String| w@).push(current@));
        }
        done.push(current);
    }
    proof {
        assert(s.take(s.len() as int) =~= s);
    }
    done
}

} // verus!
