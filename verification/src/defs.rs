//! The definition store: which names are defined, and with what value.

use vstd::prelude::*;
use vstd::slice::{slice_subrange, slice_to_vec};
use crate::text::{
    chars_of,
    find_char,
    lemma_span_before_absent,
    same_chars,
    span_before,
    string_of,
    text_of,
};

verus! {

/// A table of definitions: the defined names, each with its value.
pub type Table = Map<Seq<char>, Seq<char>>;

/// The table `table` after `name` was set: to `value` where there is one,
/// to undefined where there is none.
pub open spec fn updated(table: Table, name: Seq<char>, value: Option<Seq<char>>) -> Table {
    match value {
        Some(v) => table.insert(name, v),
        None => table.remove(name),
    }
}

/// The value that `name` resolves to: its value where it is defined, the
/// empty text where it is not.
pub open spec fn value_of(table: Table, name: Seq<char>) -> Seq<char> {
    if table.contains_key(name) {
        table[name]
    } else {
        Seq::empty()
    }
}

/// What a definition written as `name`, `name=value` or `name=` asks for:
/// the name, and the value to set it to. A bare name gets the value `TRUE`;
/// nothing after the `=` undefines the name. The empty text asks for nothing.
pub open spec fn parse_definition(text: Seq<char>) -> Option<(Seq<char>, Option<Seq<char>>)> {
    let k = span_before(text, '=') as int;
    if text.len() == 0 {
        None
    } else if k >= text.len() {
        Some((text, Some("TRUE"@)))
    } else if k + 1 == text.len() {
        Some((text.take(k), None))
    } else {
        Some((text.take(k), Some(text.skip(k + 1))))
    }
}

/// The table `table` after the written definition `text` was applied.
pub open spec fn applied(table: Table, text: Seq<char>) -> Table {
    match parse_definition(text) {
        Some((name, value)) => updated(table, name, value),
        None => table,
    }
}

/// The table that the settings `settings`, made in order on the empty table,
/// leave behind.
pub open spec fn table_of(settings: Seq<(Seq<char>, Option<Seq<char>>)>) -> Table
    decreases settings.len(),
{
    if settings.len() == 0 {
        Map::empty()
    } else {
        updated(table_of(settings.drop_last()), settings.last().0, settings.last().1)
    }
}

/// One setting of a name: with a value, or to undefined.
#[derive(Debug, Clone)]
struct Definition {
    name: Vec<char>,
    value: Option<String>,
}

/// The definition store. It is filled once, before a run, and only read
/// after that.
#[derive(Debug, Clone)]
pub struct Defs {
    /// Every setting made, oldest first; the last one of a name decides.
    entries: Vec<Definition>,
}

/// The table that `entries`, applied in order, leave behind.
spec fn folded(entries: Seq<Definition>) -> Table
    decreases entries.len(),
{
    if entries.len() == 0 {
        Map::empty()
    } else {
        updated(folded(entries.drop_last()), entries.last().name@, text_of(entries.last().value))
    }
}

/// Entries that do not set `name` do not change what `name` resolves to.
proof fn lemma_other_names_do_not_matter(entries: Seq<Definition>, from: int, name: Seq<char>)
    requires
        0 <= from <= entries.len(),
        forall|j: int| from <= j < entries.len() ==> entries[j].name@ != name,
    ensures
        folded(entries).contains_key(name) == folded(entries.take(from)).contains_key(name),
        value_of(folded(entries), name) == value_of(folded(entries.take(from)), name),
    decreases entries.len() - from,
{
    if from == entries.len() {
        assert(entries.take(from) == entries);
    } else {
        let shorter = entries.drop_last();
        lemma_other_names_do_not_matter(shorter, from, name);
        assert(shorter.take(from) == entries.take(from));
    }
}

impl View for Defs {
    type V = Table;

    closed spec fn view(&self) -> Table {
        folded(self.entries@)
    }
}

impl Defs {
    /// A store in which no name is defined.
    pub fn new() -> (defs: Defs)
        ensures
            defs@ == Table::empty(),
    {
        Defs { entries: Vec::new() }
    }

    /// Sets `key`: with a value it becomes defined with that value; without
    /// one it becomes undefined, whatever it was before.
    pub fn set_defined(&mut self, key: &str, value: Option<String>)
        ensures
            final(self)@ == updated(old(self)@, key@, text_of(value)),
    {
        let entry = Definition { name: chars_of(key), value };
        self.entries.push(entry);
        proof {
            assert(self.entries@.drop_last() == old(self).entries@);
        }
    }

    /// Applies a definition written as `name`, `name=value` or `name=`.
    pub fn define(&mut self, definition: &str)
        ensures
            final(self)@ == applied(old(self)@, definition@),
    {
        let chars = chars_of(definition);
        let chars = chars.as_slice();
        if chars.len() == 0 {
            return ;
        }
        proof {
            assert(chars@.skip(0) == chars@);
        }
        let k = find_char(chars, 0, '=');
        let entry = if k >= chars.len() {
            Definition { name: slice_to_vec(chars), value: Some("TRUE".to_owned()) }
        } else {
            let name = slice_to_vec(slice_subrange(chars, 0, k));
            if k + 1 == chars.len() {
                Definition { name, value: None }
            } else {
                let value = string_of(slice_subrange(chars, k + 1, chars.len()));
                Definition { name, value: Some(value) }
            }
        };
        self.entries.push(entry);
        proof {
            assert(self.entries@.drop_last() == old(self).entries@);
        }
    }

    /// The value that `name` is defined with, if it is defined.
    pub fn lookup(&self, name: &[char]) -> (found: Option<&String>)
        ensures
            match found {
                Some(v) => self@.contains_key(name@) && v@ == self@[name@],
                None => !self@.contains_key(name@),
            },
    {
        let mut i = self.entries.len();
        while i > 0
            invariant
                i <= self.entries@.len(),
                forall|j: int| i <= j < self.entries@.len() ==> self.entries@[j].name@ != name@,
            decreases i,
        {
            i -= 1;
            if same_chars(self.entries[i].name.as_slice(), name) {
                proof {
                    lemma_other_names_do_not_matter(self.entries@, i + 1, name@);
                    assert(self.entries@.take(i + 1).drop_last() == self.entries@.take(i as int));
                }
                return match &self.entries[i].value {
                    Some(v) => Some(v),
                    None => None,
                };
            }
        }
        proof {
            lemma_other_names_do_not_matter(self.entries@, 0, name@);
        }
        None
    }

    /// Whether `key` is defined: false for a name that was never set, and for
    /// one that was last set without a value.
    pub fn is_defined(&self, key: &str) -> (defined: bool)
        ensures
            defined == self@.contains_key(key@),
    {
        let name = chars_of(key);
        self.lookup(name.as_slice()).is_some()
    }

    /// The value that `key` resolves to: its value where it is defined, the
    /// empty string where it is not.
    pub fn get_value(&self, key: &str) -> (value: String)
        ensures
            value@ == value_of(self@, key@),
    {
        let name = chars_of(key);
        match self.lookup(name.as_slice()) {
            Some(v) => v.clone(),
            None => String::new(),
        }
    }
}

/// A name that no setting names is not defined and resolves to the empty
/// text, whatever was set before or after.
pub proof fn lemma_unset_name_is_undefined(
    settings: Seq<(Seq<char>, Option<Seq<char>>)>,
    name: Seq<char>,
)
    requires
        forall|i: int| 0 <= i < settings.len() ==> settings[i].0 != name,
    ensures
        !table_of(settings).contains_key(name),
        value_of(table_of(settings), name) == Seq::<char>::empty(),
    decreases settings.len(),
{
    if settings.len() > 0 {
        lemma_unset_name_is_undefined(settings.drop_last(), name);
    }
}

/// Setting a name without a value leaves it undefined, whatever it was
/// before, and touches no other name. A name that was not defined before
/// cannot be told from one that was never set: the table is as it was.
pub proof fn lemma_set_without_value_undefines(table: Table, name: Seq<char>)
    ensures
        !updated(table, name, None).contains_key(name),
        value_of(updated(table, name, None), name) == Seq::<char>::empty(),
        forall|other: Seq<char>|
            other != name ==> updated(table, name, None).contains_key(other) == table.contains_key(
                other,
            ) && value_of(updated(table, name, None), other) == value_of(table, other),
        !table.contains_key(name) ==> updated(table, name, None) == table,
{
    if !table.contains_key(name) {
        assert(table.remove(name) =~= table);
    }
}

/// The written definition `name=` leaves `name` undefined, whatever it was
/// before.
pub proof fn lemma_empty_value_undefines(table: Table, name: Seq<char>)
    requires
        !name.contains('='),
    ensures
        !applied(table, name.push('=')).contains_key(name),
        value_of(applied(table, name.push('=')), name) == Seq::<char>::empty(),
{
    let text = name.push('=');
    lemma_span_before_absent(name, '=', seq!['=']);
    assert(name + seq!['='] == text);
    assert(text.take(name.len() as int) == name);
}

} // verus!
