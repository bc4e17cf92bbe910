//! Characters and character sequences: the vocabulary the rest of the crate is
//! written in. Every text is modelled as a `Seq<char>` of Unicode scalar values.

use vstd::prelude::*;
use vstd::slice::slice_subrange;

verus! {

/// `String::push` appends one character to the end of the string.
pub assume_specification[ String::push ](s: &mut String, ch: char)
    ensures
        final(s)@ == old(s)@.push(ch),
;

/// An ASCII decimal digit.
pub open spec fn spec_is_digit(c: char) -> bool {
    '0' <= c <= '9'
}

/// An ASCII letter or the underscore: what a name may begin with.
pub open spec fn spec_is_name_start(c: char) -> bool {
    ('a' <= c <= 'z') || ('A' <= c <= 'Z') || c == '_'
}

/// What a name may continue with: a letter, a digit or the underscore.
pub open spec fn spec_is_name_char(c: char) -> bool {
    spec_is_name_start(c) || spec_is_digit(c)
}

/// Whether `s` is shaped like a name: a letter or underscore, then letters,
/// digits and underscores.
pub open spec fn is_identifier(s: Seq<char>) -> bool {
    &&& s.len() > 0
    &&& spec_is_name_start(s[0])
    &&& forall|i: int| 0 < i < s.len() ==> spec_is_name_char(#[trigger] s[i])
}

/// The characters with the Unicode property `White_Space`.
pub open spec fn spec_is_whitespace(c: char) -> bool {
    ||| '\u{9}' <= c <= '\u{D}'
    ||| c == ' '
    ||| c == '\u{85}'
    ||| c == '\u{A0}'
    ||| c == '\u{1680}'
    ||| '\u{2000}' <= c <= '\u{200A}'
    ||| c == '\u{2028}'
    ||| c == '\u{2029}'
    ||| c == '\u{202F}'
    ||| c == '\u{205F}'
    ||| c == '\u{3000}'
}

/// Whether `c` is an ASCII decimal digit.
#[verifier::when_used_as_spec(spec_is_digit)]
pub fn is_digit(c: char) -> (r: bool)
    ensures
        r == spec_is_digit(c),
{
    '0' <= c && c <= '9'
}

/// Whether a name may begin with `c`.
#[verifier::when_used_as_spec(spec_is_name_start)]
pub fn is_name_start(c: char) -> (r: bool)
    ensures
        r == spec_is_name_start(c),
{
    ('a' <= c && c <= 'z') || ('A' <= c && c <= 'Z') || c == '_'
}

/// Whether a name may continue with `c`.
#[verifier::when_used_as_spec(spec_is_name_char)]
pub fn is_name_char(c: char) -> (r: bool)
    ensures
        r == spec_is_name_char(c),
{
    is_name_start(c) || is_digit(c)
}

/// Whether `c` is whitespace: whether it has the Unicode property
/// `White_Space`.
#[verifier::when_used_as_spec(spec_is_whitespace)]
pub fn is_whitespace(c: char) -> (r: bool)
    ensures
        r == spec_is_whitespace(c),
{
    ('\u{9}' <= c && c <= '\u{D}') || c == ' ' || c == '\u{85}' || c == '\u{A0}' || c
        == '\u{1680}' || ('\u{2000}' <= c && c <= '\u{200A}') || c == '\u{2028}' || c
        == '\u{2029}' || c == '\u{202F}' || c == '\u{205F}' || c == '\u{3000}'
}

/// The characters of `s`, in order.
pub fn chars_of(s: &str) -> (chars: Vec<char>)
    ensures
        chars@ == s@,
{
    let mut chars: Vec<char> = Vec::new();
    for c in it: s.chars()
        invariant
            it.seq() == s@,
            chars@ == it.seq().take(it.index() as int),
    {
        chars.push(c);
    }
    chars
}

/// Appends `chars` to `out`.
pub fn push_chars(out: &mut String, chars: &[char])
    ensures
        final(out)@ == old(out)@ + chars@,
{
    let mut i: usize = 0;
    while i < chars.len()
        invariant
            i <= chars@.len(),
            out@ == old(out)@ + chars@.take(i as int),
        decreases chars@.len() - i,
    {
        out.push(chars[i]);
        i += 1;
    }
}

/// The string made of `chars`.
pub fn string_of(chars: &[char]) -> (s: String)
    ensures
        s@ == chars@,
{
    let mut s = String::new();
    push_chars(&mut s, chars);
    s
}

/// Whether two character sequences hold the same characters.
pub fn same_chars(a: &[char], b: &[char]) -> (r: bool)
    ensures
        r == (a@ == b@),
{
    if a.len() != b.len() {
        return false;
    }
    let mut i: usize = 0;
    while i < a.len()
        invariant
            a@.len() == b@.len(),
            i <= a@.len(),
            a@.take(i as int) == b@.take(i as int),
        decreases a@.len() - i,
    {
        if a[i] != b[i] {
            return false;
        }
        i += 1;
    }
    proof {
        assert(a@.take(i as int) == a@);
        assert(b@.take(i as int) == b@);
    }
    true
}

/// How many characters of `s` are left at position `i`.
pub open spec fn left(s: Seq<char>, i: int) -> nat {
    if 0 <= i <= s.len() {
        (s.len() - i) as nat
    } else {
        0
    }
}

/// `s` without its leading whitespace.
pub open spec fn trim_start(s: Seq<char>) -> Seq<char>
    decreases s.len(),
{
    if s.len() > 0 && spec_is_whitespace(s[0]) {
        trim_start(s.drop_first())
    } else {
        s
    }
}

/// `s` without its trailing whitespace.
pub open spec fn trim_end(s: Seq<char>) -> Seq<char>
    decreases s.len(),
{
    if s.len() > 0 && spec_is_whitespace(s.last()) {
        trim_end(s.drop_last())
    } else {
        s
    }
}

/// `s` without its leading and trailing whitespace.
pub open spec fn trim(s: Seq<char>) -> Seq<char> {
    trim_end(trim_start(s))
}

/// The part of `chars` that is left when its leading whitespace is dropped.
pub fn trimmed_start<'a>(chars: &'a [char]) -> (rest: &'a [char])
    ensures
        rest@ == trim_start(chars@),
{
    let mut i: usize = 0;
    assert(chars@.skip(0) == chars@);
    while i < chars.len() && is_whitespace(chars[i])
        invariant
            i <= chars@.len(),
            trim_start(chars@) == trim_start(chars@.skip(i as int)),
        decreases chars@.len() - i,
    {
        proof {
            assert(chars@.skip(i as int).drop_first() == chars@.skip(i + 1));
        }
        i += 1;
    }
    slice_subrange(chars, i, chars.len())
}

/// The part of `chars` that is left when its trailing whitespace is dropped.
pub fn trimmed_end<'a>(chars: &'a [char]) -> (rest: &'a [char])
    ensures
        rest@ == trim_end(chars@),
{
    let mut n: usize = chars.len();
    assert(chars@.take(n as int) == chars@);
    while n > 0 && is_whitespace(chars[n - 1])
        invariant
            n <= chars@.len(),
            trim_end(chars@) == trim_end(chars@.take(n as int)),
        decreases n,
    {
        proof {
            assert(chars@.take(n as int).drop_last() == chars@.take(n - 1));
        }
        n -= 1;
    }
    slice_subrange(chars, 0, n)
}

/// The part of `chars` between its leading and its trailing whitespace.
pub fn trimmed<'a>(chars: &'a [char]) -> (rest: &'a [char])
    ensures
        rest@ == trim(chars@),
{
    trimmed_end(trimmed_start(chars))
}

/// Whether `chars` begins with the characters of `word`.
pub fn starts_with(chars: &[char], word: &str) -> (r: bool)
    ensures
        r == word@.is_prefix_of(chars@),
{
    let w = chars_of(word);
    if w.len() > chars.len() {
        return false;
    }
    same_chars(slice_subrange(chars, 0, w.len()), w.as_slice())
}

/// How many characters of `s` stand before its first `stop`: all of them
/// where it has none.
pub open spec fn span_before(s: Seq<char>, stop: char) -> nat
    decreases s.len(),
{
    if s.len() == 0 || s[0] == stop {
        0
    } else {
        1 + span_before(s.drop_first(), stop)
    }
}

/// How many characters stand before the first line feed of `s`.
pub open spec fn first_line_len(s: Seq<char>) -> nat {
    span_before(s, '\n')
}

/// `line` without one carriage return at its end.
pub open spec fn strip_cr(line: Seq<char>) -> Seq<char> {
    if line.len() > 0 && line.last() == '\r' {
        line.drop_last()
    } else {
        line
    }
}

/// The lines of `s`. A line ends at a line feed, or at a carriage return
/// directly followed by one; neither belongs to the line. What follows the
/// last line feed is a line of its own unless it is empty, and is kept whole.
pub open spec fn lines_of(s: Seq<char>) -> Seq<Seq<char>>
    decreases s.len(),
{
    if s.len() == 0 {
        Seq::empty()
    } else {
        let n = first_line_len(s);
        if n >= s.len() {
            seq![s]
        } else {
            seq![strip_cr(s.take(n as int))] + lines_of(s.skip(n + 1 as int))
        }
    }
}

/// What an optional string holds.
pub open spec fn text_of(value: Option<String>) -> Option<Seq<char>> {
    match value {
        Some(v) => Some(v@),
        None => None,
    }
}

/// What each of `lines` holds.
pub open spec fn texts(lines: Seq<String>) -> Seq<Seq<char>> {
    lines.map_values(|line: String| line@)
}

/// The position of the first `stop` at or after `from`, or the length of
/// `chars` where there is none.
pub fn find_char(chars: &[char], from: usize, stop: char) -> (at: usize)
    ensures
        from <= chars@.len() ==> at == from + span_before(chars@.skip(from as int), stop),
        from > chars@.len() ==> at == chars@.len(),
        at <= chars@.len(),
{
    if from > chars.len() {
        return chars.len();
    }
    let mut at = from;
    while at < chars.len() && chars[at] != stop
        invariant
            from <= at <= chars@.len(),
            from + span_before(chars@.skip(from as int), stop) == at + span_before(
                chars@.skip(at as int),
                stop,
            ),
        decreases chars@.len() - at,
    {
        proof {
            assert(chars@.skip(at as int).drop_first() == chars@.skip(at + 1));
        }
        at += 1;
    }
    at
}

/// Splits `text` into its lines.
pub fn split_lines(text: &str) -> (lines: Vec<String>)
    ensures
        texts(lines@) == lines_of(text@),
{
    let chars = chars_of(text);
    let chars = chars.as_slice();
    let mut lines: Vec<String> = Vec::new();
    let mut start: usize = 0;
    proof {
        assert(chars@.skip(0) == chars@);
        assert(texts(lines@) == Seq::<Seq<char>>::empty());
    }
    while start < chars.len()
        invariant
            start <= chars@.len(),
            chars@ == text@,
            lines_of(chars@) == texts(lines@) + lines_of(chars@.skip(start as int)),
        decreases chars@.len() - start,
    {
        let ghost rest = chars@.skip(start as int);
        let ghost done = texts(lines@);
        let end = find_char(chars, start, '\n');
        if end >= chars.len() {
            let line = string_of(slice_subrange(chars, start, end));
            lines.push(line);
            proof {
                assert(line@ == rest);
                assert(texts(lines@) == done.push(rest));
                assert(chars@.skip(end as int).len() == 0);
                assert(done + seq![rest] == done.push(rest));
            }
            start = end;
        } else {
            let stop = if end > start && chars[end - 1] == '\r' {
                end - 1
            } else {
                end
            };
            let line = string_of(slice_subrange(chars, start, stop));
            lines.push(line);
            proof {
                let n = first_line_len(rest);
                assert(rest.take(n as int) == chars@.subrange(start as int, end as int));
                assert(line@ == strip_cr(rest.take(n as int)));
                assert(rest.skip(n + 1 as int) == chars@.skip(end + 1));
                assert(texts(lines@) == done.push(line@));
                assert(done + (seq![line@] + lines_of(chars@.skip(end + 1))) == done.push(line@)
                    + lines_of(chars@.skip(end + 1)));
            }
            start = end + 1;
        }
    }
    lines
}

/// The decimal digit that stands for `d`.
pub open spec fn digit_char(d: nat) -> char
    recommends
        d < 10,
{
    ('0' as nat + d) as char
}

/// `n` written in decimal, without leading zeros.
pub open spec fn decimal(n: nat) -> Seq<char>
    decreases n,
{
    if n < 10 {
        seq![digit_char(n)]
    } else {
        decimal(n / 10).push(digit_char(n % 10))
    }
}

/// Appends `n`, written in decimal, to `out`.
pub fn push_decimal(out: &mut String, n: usize)
    ensures
        final(out)@ == old(out)@ + decimal(n as nat),
    decreases n,
{
    if n >= 10 {
        push_decimal(out, n / 10);
    }
    let d = match n % 10 {
        0 => '0',
        1 => '1',
        2 => '2',
        3 => '3',
        4 => '4',
        5 => '5',
        6 => '6',
        7 => '7',
        8 => '8',
        _ => '9',
    };
    assert(d == digit_char((n % 10) as nat));
    out.push(d);
    proof {
        if n >= 10 {
            assert(old(out)@ + decimal(n as nat) == (old(out)@ + decimal((n / 10) as nat)).push(d));
        } else {
            assert(old(out)@ + decimal(n as nat) == old(out)@.push(d));
        }
    }
}

/// `lines` one after the other, each with a line feed behind it.
pub open spec fn unlines(lines: Seq<Seq<char>>) -> Seq<char>
    decreases lines.len(),
{
    if lines.len() == 0 {
        Seq::empty()
    } else {
        lines[0].push('\n') + unlines(lines.drop_first())
    }
}

/// Whether every line of `s` ends with a line feed that no carriage return
/// stands before: the form in which lines are written out.
pub open spec fn ends_lines_plainly(s: Seq<char>) -> bool {
    &&& s.len() == 0 || s.last() == '\n'
    &&& forall|i: int| 0 < i < s.len() && #[trigger] s[i] == '\n' ==> s[i - 1] != '\r'
}

/// Where `stop` does not occur in `s`, the first `stop` of `s + more` is the
/// first one of `more`.
pub proof fn lemma_span_before_absent(s: Seq<char>, stop: char, more: Seq<char>)
    requires
        !s.contains(stop),
    ensures
        span_before(s + more, stop) == s.len() + span_before(more, stop),
    decreases s.len(),
{
    if s.len() == 0 {
        assert(s + more == more);
    } else {
        assert(s[0] != stop);
        assert((s + more).drop_first() == s.drop_first() + more);
        assert forall|c: char| s.drop_first().contains(c) implies s.contains(c) by {
            let i = choose|i: int| 0 <= i < s.drop_first().len() && s.drop_first()[i] == c;
            assert(s[i + 1] == c);
        }
        lemma_span_before_absent(s.drop_first(), stop, more);
    }
}

/// Where `stop` occurs in `s`, the first one stands inside `s`, and none
/// stands before it.
pub proof fn lemma_span_before_found(s: Seq<char>, stop: char)
    ensures
        span_before(s, stop) <= s.len(),
        span_before(s, stop) < s.len() ==> s[span_before(s, stop) as int] == stop,
        forall|i: int| 0 <= i < span_before(s, stop) ==> s[i] != stop,
    decreases s.len(),
{
    if s.len() == 0 || s[0] == stop {
    } else {
        let rest = s.drop_first();
        lemma_span_before_found(rest, stop);
        assert forall|i: int| 0 <= i < span_before(s, stop) implies s[i] != stop by {
            if i > 0 {
                assert(s[i] == rest[i - 1]);
            }
        }
    }
}

/// Splitting a text into lines and writing the lines out again gives the
/// text back, where each of its lines ends with a line feed that no carriage
/// return stands before.
pub proof fn lemma_unlines_lines_of(s: Seq<char>)
    requires
        ends_lines_plainly(s),
    ensures
        unlines(lines_of(s)) == s,
    decreases s.len(),
{
    if s.len() > 0 {
        lemma_span_before_found(s, '\n');
        let n = first_line_len(s) as int;
        assert(n < s.len()) by {
            if n >= s.len() {
                assert(s[s.len() - 1] != '\n');
            }
        }
        let line = s.take(n);
        let rest = s.skip(n + 1);
        assert(strip_cr(line) == line) by {
            if line.len() > 0 {
                assert(line.last() == s[n - 1]);
            }
        }
        assert(ends_lines_plainly(rest)) by {
            if rest.len() > 0 {
                assert(rest.last() == s.last());
            }
            assert forall|i: int| 0 < i < rest.len() && #[trigger] rest[i] == '\n' implies rest[i
                - 1] != '\r' by {
                assert(rest[i] == s[i + n + 1]);
                assert(rest[i - 1] == s[i + n]);
            }
        }
        lemma_unlines_lines_of(rest);
        let lines = lines_of(s);
        assert(lines == seq![line] + lines_of(rest));
        assert(lines[0] == line);
        assert(lines.drop_first() == lines_of(rest));
        assert(line.push('\n') + rest == s);
    }
}

} // verus!
