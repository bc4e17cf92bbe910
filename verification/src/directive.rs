//! Directives: which lines are directives, what each asks for, and what one
//! line does to the conditional stack and to the output.

use vstd::prelude::*;
use vstd::slice::slice_subrange;
use crate::cond::{
    emitting,
    flipped,
    lemma_close_restores,
    lemma_flip_nests,
    lemma_open_nests,
    opened,
    well_nested,
    CondFrame,
    CondStack,
};
use crate::defs::{Defs, Table};
use crate::error::Error;
use crate::expr::{eval_expr, value_of_expr};
use crate::subst::{replace_dollar_vars, substitute, substituted};
use crate::text::{chars_of, starts_with, string_of, trim, trim_start, trimmed, trimmed_start};

verus! {

/// What a line is.
#[derive(Debug, PartialEq, Eq)]
pub enum Directive {
    /// `#include`; the field is the line from the keyword on.
    Include(String),
    /// `#ifdef`, with the name that follows it.
    Ifdef(String),
    /// `#ifndef`, with the name that follows it.
    Ifndef(String),
    /// `#if`, with the expression that follows it.
    If(String),
    /// `#else`
    Else,
    /// `#endif`
    Endif,
    /// Any other line: content.
    Content,
}

/// What a [`Directive`] stands for.
pub enum Kind {
    Include(Seq<char>),
    Ifdef(Seq<char>),
    Ifndef(Seq<char>),
    If(Seq<char>),
    Else,
    Endif,
    Content,
}

impl View for Directive {
    type V = Kind;

    open spec fn view(&self) -> Kind {
        match self {
            Directive::Include(rest) => Kind::Include(rest@),
            Directive::Ifdef(name) => Kind::Ifdef(name@),
            Directive::Ifndef(name) => Kind::Ifndef(name@),
            Directive::If(expr) => Kind::If(expr@),
            Directive::Else => Kind::Else,
            Directive::Endif => Kind::Endif,
            Directive::Content => Kind::Content,
        }
    }
}

/// What follows the keyword `word` in `rest`, without the whitespace around
/// it.
pub open spec fn argument(rest: Seq<char>, word: Seq<char>) -> Seq<char> {
    trim(rest.skip(word.len() as int))
}

/// What the line `line` is. Only a line whose very first character is `#`
/// can be a directive. Of such a line the whitespace behind the `#` is
/// skipped, and what follows is tried against the keywords in the order
/// `include`, `ifdef`, `ifndef`, `if`, `else`, `endif`, each as a prefix. A
/// line that begins with none of them is content, `#` and all.
pub open spec fn directive_of(line: Seq<char>) -> Kind {
    if line.len() == 0 || line[0] != '#' {
        Kind::Content
    } else {
        let rest = trim_start(line.skip(1));
        if "include"@.is_prefix_of(rest) {
            Kind::Include(rest)
        } else if "ifdef"@.is_prefix_of(rest) {
            Kind::Ifdef(argument(rest, "ifdef"@))
        } else if "ifndef"@.is_prefix_of(rest) {
            Kind::Ifndef(argument(rest, "ifndef"@))
        } else if "if"@.is_prefix_of(rest) {
            Kind::If(argument(rest, "if"@))
        } else if "else"@.is_prefix_of(rest) {
            Kind::Else
        } else if "endif"@.is_prefix_of(rest) {
            Kind::Endif
        } else {
            Kind::Content
        }
    }
}

/// What follows the keyword `word` in `rest`, without the whitespace around
/// it.
fn argument_of(rest: &[char], word: &str) -> (arg: String)
    requires
        word@.is_prefix_of(rest@),
    ensures
        arg@ == argument(rest@, word@),
{
    let n = word.unicode_len();
    string_of(trimmed(slice_subrange(rest, n, rest.len())))
}

/// Says what the line `line` is.
pub fn classify(line: &str) -> (directive: Directive)
    ensures
        directive@ == directive_of(line@),
{
    let chars = chars_of(line);
    let chars = chars.as_slice();
    if chars.len() == 0 || chars[0] != '#' {
        return Directive::Content;
    }
    let rest = trimmed_start(slice_subrange(chars, 1, chars.len()));
    if starts_with(rest, "include") {
        Directive::Include(string_of(rest))
    } else if starts_with(rest, "ifdef") {
        Directive::Ifdef(argument_of(rest, "ifdef"))
    } else if starts_with(rest, "ifndef") {
        Directive::Ifndef(argument_of(rest, "ifndef"))
    } else if starts_with(rest, "if") {
        Directive::If(argument_of(rest, "if"))
    } else if starts_with(rest, "else") {
        Directive::Else
    } else if starts_with(rest, "endif") {
        Directive::Endif
    } else {
        Directive::Content
    }
}

/// `s` without every occurrence of `c`.
pub open spec fn without(s: Seq<char>, c: char) -> Seq<char>
    decreases s.len(),
{
    if s.len() == 0 {
        Seq::empty()
    } else if s.last() == c {
        without(s.drop_last(), c)
    } else {
        without(s.drop_last(), c).push(s.last())
    }
}

/// The path that an include names. `rest` is the line from the keyword
/// `include` on. What follows the keyword is trimmed, every double quote in
/// it is dropped, wherever it stands, and each `##name##` is replaced. An
/// include whose path comes out empty names no file.
pub open spec fn include_path(rest: Seq<char>, table: Table) -> Option<Seq<char>> {
    let behind = if rest.len() >= "include"@.len() {
        rest.skip("include"@.len() as int)
    } else {
        Seq::empty()
    };
    let path = substituted(without(trim(behind), '"'), '#', table);
    if path.len() == 0 {
        None
    } else {
        Some(path)
    }
}

/// The path that an include names, if it names one. `rest` is the line from
/// the keyword `include` on.
pub fn parse_include_path(rest: &str, defs: &Defs) -> (path: Option<String>)
    ensures
        match include_path(rest@, defs@) {
            Some(p) => path matches Some(found) && found@ == p,
            None => path is None,
        },
{
    let chars = chars_of(rest);
    let chars = chars.as_slice();
    let n = "include".unicode_len();
    let behind = if chars.len() >= n {
        slice_subrange(chars, n, chars.len())
    } else {
        slice_subrange(chars, 0, 0)
    };
    let quoted = trimmed(behind);
    let mut cleaned: Vec<char> = Vec::new();
    let mut i: usize = 0;
    while i < quoted.len()
        invariant
            i <= quoted@.len(),
            cleaned@ == without(quoted@.take(i as int), '"'),
        decreases quoted@.len() - i,
    {
        proof {
            assert(quoted@.take(i + 1).drop_last() == quoted@.take(i as int));
        }
        if quoted[i] != '"' {
            cleaned.push(quoted[i]);
        }
        i += 1;
    }
    proof {
        assert(quoted@.take(i as int) == quoted@);
        assert(chars@.subrange(0, 0) == Seq::<char>::empty());
    }
    let replaced = substitute(cleaned.as_slice(), '#', defs);
    if replaced.unicode_len() == 0 {
        None
    } else {
        Some(replaced)
    }
}

/// What a line asks for, besides what it does to the conditional stack.
#[derive(Debug, PartialEq, Eq)]
pub enum Effect {
    /// Nothing.
    Nothing,
    /// This text is to be appended to the output, and a line feed after it.
    Emit(String),
    /// The file of this path, as written in the include, is to be processed
    /// here.
    Include(String),
}

/// What an [`Effect`] stands for.
pub enum Request {
    Nothing,
    Emit(Seq<char>),
    Include(Seq<char>),
}

impl View for Effect {
    type V = Request;

    open spec fn view(&self) -> Request {
        match self {
            Effect::Nothing => Request::Nothing,
            Effect::Emit(text) => Request::Emit(text@),
            Effect::Include(path) => Request::Include(path@),
        }
    }
}

/// What the line `line` does where the conditionals `frames` are open: the
/// conditionals that are open after it and what it asks for, or the error
/// that it fails with.
///
/// - A content line is emitted, with each `$$name$$` replaced, where lines
///   are emitted at the moment; elsewhere it is dropped.
/// - An include asks for its file where lines are emitted and it names one.
/// - `#ifdef`, `#ifndef` and `#if` open a conditional, whether or not lines
///   are emitted; the expression of an `#if` is evaluated in either case.
/// - `#else` and `#endif` need an open conditional.
pub open spec fn line_step(frames: Seq<CondFrame>, line: Seq<char>, table: Table) -> Result<
    (Seq<CondFrame>, Request),
    Error,
> {
    match directive_of(line) {
        Kind::Include(rest) => Ok(
            (
                frames,
                if emitting(frames) {
                    match include_path(rest, table) {
                        Some(path) => Request::Include(path),
                        None => Request::Nothing,
                    }
                } else {
                    Request::Nothing
                },
            ),
        ),
        Kind::Ifdef(name) => Ok((opened(frames, table.contains_key(name)), Request::Nothing)),
        Kind::Ifndef(name) => Ok((opened(frames, !table.contains_key(name)), Request::Nothing)),
        Kind::If(expr) => match value_of_expr(expr, table) {
            Ok(v) => Ok((opened(frames, v), Request::Nothing)),
            Err(e) => Err(Error::Expression(e)),
        },
        Kind::Else => if frames.len() == 0 {
            Err(Error::ElseWithoutIf)
        } else {
            Ok((flipped(frames), Request::Nothing))
        },
        Kind::Endif => if frames.len() == 0 {
            Err(Error::EndifWithoutIf)
        } else {
            Ok((frames.drop_last(), Request::Nothing))
        },
        Kind::Content => Ok(
            (
                frames,
                if emitting(frames) {
                    Request::Emit(substituted(line, '$', table))
                } else {
                    Request::Nothing
                },
            ),
        ),
    }
}

/// Handles one line: changes the conditional stack as the line says, and
/// returns what the line asks for. After an error the stack is as it was.
pub fn process_line(conds: &mut CondStack, line: &str, defs: &Defs) -> (result: Result<
    Effect,
    Error,
>)
    ensures
        match line_step(old(conds)@, line@, defs@) {
            Ok((frames, request)) => result matches Ok(effect) && effect@ == request
                && final(conds)@ == frames,
            Err(e) => result matches Err(err) && err == e && final(conds)@ == old(conds)@,
        },
{
    match classify(line) {
        Directive::Include(rest) => {
            if conds.is_emitting() {
                if let Some(path) = parse_include_path(rest.as_str(), defs) {
                    return Ok(Effect::Include(path));
                }
            }
            Ok(Effect::Nothing)
        },
        Directive::Ifdef(name) => {
            conds.open(defs.is_defined(name.as_str()));
            Ok(Effect::Nothing)
        },
        Directive::Ifndef(name) => {
            conds.open(!defs.is_defined(name.as_str()));
            Ok(Effect::Nothing)
        },
        Directive::If(expr) => match eval_expr(expr.as_str(), defs) {
            Ok(v) => {
                conds.open(v);
                Ok(Effect::Nothing)
            },
            Err(e) => Err(Error::Expression(e)),
        },
        Directive::Else => match conds.flip() {
            Ok(()) => Ok(Effect::Nothing),
            Err(e) => Err(e),
        },
        Directive::Endif => match conds.close() {
            Ok(()) => Ok(Effect::Nothing),
            Err(e) => Err(e),
        },
        Directive::Content => {
            if conds.is_emitting() {
                Ok(Effect::Emit(replace_dollar_vars(line, defs)))
            } else {
                Ok(Effect::Nothing)
            }
        },
    }
}

/// A line that does not begin with `#` is content, whatever follows, even
/// a keyword behind whitespace.
pub proof fn lemma_directives_begin_lines(line: Seq<char>)
    requires
        line.len() == 0 || line[0] != '#',
    ensures
        directive_of(line) is Content,
{
}

/// A content line, and so every line that begins with `#` but with no
/// keyword, is emitted with its variables replaced and nothing else changed
/// where lines are emitted, and dropped elsewhere. In either case the
/// conditionals stay as they are.
pub proof fn lemma_content_is_emitted(frames: Seq<CondFrame>, line: Seq<char>, table: Table)
    requires
        directive_of(line) is Content,
    ensures
        line_step(frames, line, table) == Ok::<(Seq<CondFrame>, Request), Error>(
            (
                frames,
                if emitting(frames) {
                    Request::Emit(substituted(line, '$', table))
                } else {
                    Request::Nothing
                },
            ),
        ),
{
}

/// An `#else` or `#endif` outside every conditional fails, each with an
/// error of its own. An `#if` whose expression is malformed fails wherever
/// it stands, with the error of the expression.
pub proof fn lemma_unbalanced_lines_fail(frames: Seq<CondFrame>, line: Seq<char>, table: Table)
    ensures
        directive_of(line) is Else ==> line_step(Seq::empty(), line, table) == Err::<
            (Seq<CondFrame>, Request),
            Error,
        >(Error::ElseWithoutIf),
        directive_of(line) is Endif ==> line_step(Seq::empty(), line, table) == Err::<
            (Seq<CondFrame>, Request),
            Error,
        >(Error::EndifWithoutIf),
        directive_of(line) matches Kind::If(expr) ==> (value_of_expr(expr, table) matches Err(e)
            ==> line_step(frames, line, table) == Err::<(Seq<CondFrame>, Request), Error>(
            Error::Expression(e),
        )),
{
}

/// Whatever a line does, the conditionals stay well nested.
pub proof fn lemma_lines_keep_nesting(frames: Seq<CondFrame>, line: Seq<char>, table: Table)
    requires
        well_nested(frames),
    ensures
        line_step(frames, line, table) matches Ok((next, _)) ==> well_nested(next),
{
    match directive_of(line) {
        Kind::Ifdef(name) => {
            lemma_open_nests(frames, table.contains_key(name));
        },
        Kind::Ifndef(name) => {
            lemma_open_nests(frames, !table.contains_key(name));
        },
        Kind::If(expr) => {
            if let Ok(v) = value_of_expr(expr, table) {
                lemma_open_nests(frames, v);
            }
        },
        Kind::Else => {
            if frames.len() > 0 {
                lemma_flip_nests(frames);
            }
        },
        Kind::Endif => {
            if frames.len() > 0 {
                lemma_close_restores(frames);
            }
        },
        _ => {},
    }
}

} // verus!
