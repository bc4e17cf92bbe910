//! Variable substitution: `$$name$$` in content lines, `##name##` in the
//! argument of an include.

use vstd::prelude::*;
use vstd::slice::slice_subrange;
use vstd::string::StringExecFns;
use crate::defs::{value_of, Defs, Table};
use crate::text::{
    chars_of,
    is_identifier,
    is_name_char,
    is_name_start,
    left,
    push_chars,
    spec_is_name_char,
};

verus! {

/// Whether the delimiter `d` stands at `i` and again directly behind it.
pub open spec fn pair_at(s: Seq<char>, i: int, d: char) -> bool {
    0 <= i && i + 1 < s.len() && s[i] == d && s[i + 1] == d
}

/// How many characters stand between `from` and the first doubled `d` at or
/// after it; `None` where no doubled `d` follows.
pub open spec fn gap_to_pair(s: Seq<char>, from: int, d: char) -> Option<nat>
    decreases left(s, from),
{
    if from < 0 || from + 1 >= s.len() {
        None
    } else if pair_at(s, from, d) {
        Some(0nat)
    } else {
        match gap_to_pair(s, from + 1, d) {
            Some(n) => Some(n + 1),
            None => None,
        }
    }
}

/// What a delimited span with `name` inside is replaced by: the value that
/// `name` resolves to where it is shaped like a name, nothing where it is
/// not. An undefined name resolves to the empty text, so that such a span
/// leaves nothing behind either.
pub open spec fn replacement(table: Table, name: Seq<char>) -> Seq<char> {
    if is_identifier(name) {
        value_of(table, name)
    } else {
        Seq::empty()
    }
}

/// The text `s` from position `i` on, with every span between two doubled
/// `d` replaced. Spans are found from left to right and do not overlap; a
/// doubled `d` that no second one follows stays, with all that follows it.
pub open spec fn substituted_from(s: Seq<char>, i: int, d: char, table: Table) -> Seq<char>
    decreases left(s, i),
{
    if i < 0 || i >= s.len() {
        Seq::empty()
    } else if pair_at(s, i, d) {
        match gap_to_pair(s, i + 2, d) {
            Some(n) => replacement(table, s.subrange(i + 2, i + 2 + n)) + substituted_from(
                s,
                i + 2 + n + 2,
                d,
                table,
            ),
            None => s.skip(i),
        }
    } else {
        seq![s[i]] + substituted_from(s, i + 1, d, table)
    }
}

/// The text `s` with every span between two doubled `d` replaced.
pub open spec fn substituted(s: Seq<char>, d: char, table: Table) -> Seq<char> {
    substituted_from(s, 0, d, table)
}

/// The first doubled `d` at or after `from` is where [`gap_to_pair`] says.
pub proof fn lemma_gap_is_first_pair(s: Seq<char>, from: int, d: char)
    requires
        0 <= from,
    ensures
        match gap_to_pair(s, from, d) {
            Some(n) => pair_at(s, from + n, d) && forall|k: int|
                from <= k < from + n ==> !pair_at(s, k, d),
            None => forall|k: int| from <= k ==> !pair_at(s, k, d),
        },
    decreases left(s, from),
{
    if from + 1 >= s.len() {
    } else if pair_at(s, from, d) {
    } else {
        lemma_gap_is_first_pair(s, from + 1, d);
    }
}

/// Whether `chars` is shaped like a name.
pub fn is_ident_chars(chars: &[char]) -> (r: bool)
    ensures
        r == is_identifier(chars@),
{
    if chars.len() == 0 || !is_name_start(chars[0]) {
        return false;
    }
    let mut i: usize = 1;
    while i < chars.len()
        invariant
            1 <= i <= chars@.len(),
            forall|k: int| 0 < k < i ==> spec_is_name_char(#[trigger] chars@[k]),
        decreases chars@.len() - i,
    {
        if !is_name_char(chars[i]) {
            return false;
        }
        i += 1;
    }
    true
}

/// Whether `s` is shaped like a name: a letter or underscore, then letters,
/// digits and underscores.
pub fn is_ident(s: &str) -> (r: bool)
    ensures
        r == is_identifier(s@),
{
    let chars = chars_of(s);
    is_ident_chars(chars.as_slice())
}

/// The position of the first doubled `d` at or after `start`.
pub fn find_pair(chars: &[char], start: usize, d: char) -> (end: Option<usize>)
    ensures
        match end {
            Some(j) => start <= j && pair_at(chars@, j as int, d) && forall|k: int|
                start <= k < j ==> !pair_at(chars@, k, d),
            None => forall|k: int| start <= k ==> !pair_at(chars@, k, d),
        },
{
    if start >= chars.len() {
        return None;
    }
    let len = chars.len();
    let mut j = start;
    while j + 1 < len
        invariant
            len == chars@.len(),
            start <= j < len,
            forall|k: int| start <= k < j ==> !pair_at(chars@, k, d),
        decreases chars@.len() - j,
    {
        if chars[j] == d && chars[j + 1] == d {
            return Some(j);
        }
        j += 1;
    }
    None
}

/// The position of the first `$$` at or after `start`: where a span that
/// was opened before `start` closes.
pub fn find_double_dollar_end(chars: &[char], start: usize) -> (end: Option<usize>)
    ensures
        match end {
            Some(j) => start <= j && pair_at(chars@, j as int, '$') && forall|k: int|
                start <= k < j ==> !pair_at(chars@, k, '$'),
            None => forall|k: int| start <= k ==> !pair_at(chars@, k, '$'),
        },
{
    find_pair(chars, start, '$')
}

/// The position of the first `##` at or after `start`: where a span that
/// was opened before `start` closes.
pub fn find_double_hash_end(chars: &[char], start: usize) -> (end: Option<usize>)
    ensures
        match end {
            Some(j) => start <= j && pair_at(chars@, j as int, '#') && forall|k: int|
                start <= k < j ==> !pair_at(chars@, k, '#'),
            None => forall|k: int| start <= k ==> !pair_at(chars@, k, '#'),
        },
{
    find_pair(chars, start, '#')
}

/// The text `chars` with every span between two doubled `d` replaced by
/// what its name resolves to in `defs`.
pub fn substitute(chars: &[char], d: char, defs: &Defs) -> (out: String)
    ensures
        out@ == substituted(chars@, d, defs@),
{
    let mut out = String::new();
    let mut i: usize = 0;
    proof {
        assert(Seq::<char>::empty() + substituted(chars@, d, defs@) == substituted(
            chars@,
            d,
            defs@,
        ));
    }
    while i < chars.len()
        invariant
            i <= chars@.len(),
            substituted(chars@, d, defs@) == out@ + substituted_from(chars@, i as int, d, defs@),
        decreases chars@.len() - i,
    {
        let ghost before = out@;
        let ghost rest = substituted_from(chars@, i as int, d, defs@);
        if i + 1 < chars.len() && chars[i] == d && chars[i + 1] == d {
            let found = find_pair(chars, i + 2, d);
            proof {
                lemma_gap_is_first_pair(chars@, i + 2, d);
            }
            match found {
                Some(end) => {
                    let name = slice_subrange(chars, i + 2, end);
                    let ghost tail = substituted_from(chars@, end + 2, d, defs@);
                    assert(gap_to_pair(chars@, i + 2, d) == Some((end - (i + 2)) as nat));
                    assert(rest == replacement(defs@, name@) + tail);
                    if is_ident_chars(name) {
                        if let Some(value) = defs.lookup(name) {
                            out.append(value.as_str());
                        }
                    }
                    proof {
                        assert(out@ == before + replacement(defs@, name@));
                        assert(before + (replacement(defs@, name@) + tail) == out@ + tail);
                    }
                    i = end + 2;
                },
                None => {
                    assert(gap_to_pair(chars@, i + 2, d) is None);
                    push_chars(&mut out, slice_subrange(chars, i, chars.len()));
                    proof {
                        assert(chars@.subrange(i as int, chars@.len() as int) == chars@.skip(
                            i as int,
                        ));
                        assert(out@ + Seq::<char>::empty() == out@);
                    }
                    i = chars.len();
                },
            }
        } else {
            out.push(chars[i]);
            proof {
                let tail = substituted_from(chars@, i + 1, d, defs@);
                assert(before + (seq![chars@[i as int]] + tail) == out@ + tail);
            }
            i += 1;
        }
    }
    proof {
        assert(out@ + Seq::<char>::empty() == out@);
    }
    out
}

/// Replaces every `$$name$$` in a content line by the value that `name`
/// resolves to: the empty text where the name is not defined. A span that
/// holds no name is deleted, delimiters included. Text outside the spans,
/// and a `$$` that no second one follows, stay as they are.
pub fn replace_dollar_vars(input: &str, defs: &Defs) -> (out: String)
    ensures
        out@ == substituted(input@, '$', defs@),
{
    let chars = chars_of(input);
    substitute(chars.as_slice(), '$', defs)
}

/// Replaces every `##name##` in the argument of an include by the value of
/// `name`, where `name` is defined. A span whose name is not defined, or that
/// holds no name, is deleted, delimiters included.
pub fn replace_hash_vars(input: &str, defs: &Defs) -> (out: String)
    ensures
        out@ == substituted(input@, '#', defs@),
{
    let chars = chars_of(input);
    substitute(chars.as_slice(), '#', defs)
}

/// In the argument of an include a span is replaced only where its name is
/// defined, in a content line wherever it holds a name. Both come to the
/// same, since a name that is not defined resolves to the empty text.
pub proof fn lemma_forms_agree(table: Table, name: Seq<char>)
    ensures
        replacement(table, name) == if is_identifier(name) && table.contains_key(name) {
            table[name]
        } else {
            Seq::<char>::empty()
        },
{
}

/// Whether `s` holds a span: a doubled `d` with another one behind it.
pub open spec fn has_span(s: Seq<char>, d: char) -> bool {
    exists|i: int, j: int| pair_at(s, i, d) && pair_at(s, j, d) && i + 2 <= j
}

/// From a position behind which no doubled `d` is followed by another one,
/// substitution leaves the text as it is.
proof fn lemma_rest_without_span(s: Seq<char>, i: int, d: char, table: Table)
    requires
        0 <= i <= s.len(),
        !has_span(s, d),
    ensures
        substituted_from(s, i, d, table) == s.skip(i),
    decreases left(s, i),
{
    if i >= s.len() {
    } else if pair_at(s, i, d) {
        lemma_gap_is_first_pair(s, i + 2, d);
        if let Some(n) = gap_to_pair(s, i + 2, d) {
            assert(pair_at(s, i, d) && pair_at(s, i + 2 + n, d) && i + 2 <= i + 2 + n);
        }
    } else {
        lemma_rest_without_span(s, i + 1, d, table);
        assert(seq![s[i]] + s.skip(i + 1) == s.skip(i));
    }
}

/// A text that holds no span is left as it is, whatever is defined.
pub proof fn lemma_no_span_no_change(s: Seq<char>, d: char, table: Table)
    requires
        !has_span(s, d),
    ensures
        substituted(s, d, table) == s,
{
    lemma_rest_without_span(s, 0, d, table);
    assert(s.skip(0) == s);
}

} // verus!
