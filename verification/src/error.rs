//! What can go wrong: a malformed expression or an unbalanced conditional.

use vstd::prelude::*;
use crate::text::{decimal, push_decimal};

verus! {

/// Why an expression could not be tokenized or evaluated.
#[derive(Debug, Clone, Copy, PartialEq, Eq)]
pub enum ExprError {
    /// An `&` that no second `&` follows.
    SingleAmpersand,
    /// A `|` that no second `|` follows.
    SinglePipe,
    /// An `=` that no second `=` follows.
    SingleEquals,
    /// A string literal without its closing quote.
    UnterminatedString,
    /// A character that begins no token.
    UnexpectedChar(char),
    /// A complete expression followed by more tokens; the field is the index
    /// of the first token left over.
    UnexpectedToken(usize),
    /// An opening parenthesis whose expression is not followed by `)`.
    MissingParen,
    /// A token that is no value where a value must stand.
    ExpectedValue,
    /// The end of the tokens where a value must stand.
    UnexpectedEnd,
}

/// Why a run failed.
#[derive(Debug, Clone, Copy, PartialEq, Eq)]
pub enum Error {
    /// The expression of an `#if` is malformed.
    Expression(ExprError),
    /// An `#else` outside every conditional.
    ElseWithoutIf,
    /// An `#endif` outside every conditional.
    EndifWithoutIf,
    /// A file ended inside a conditional.
    MissingEndif,
}

impl ExprError {
    /// The message of this error.
    pub open spec fn message_text(self) -> Seq<char> {
        match self {
            ExprError::SingleAmpersand => "invalid expression: single '&'"@,
            ExprError::SinglePipe => "invalid expression: single '|'"@,
            ExprError::SingleEquals => "invalid expression: single '='"@,
            ExprError::UnterminatedString => "invalid expression: unterminated string"@,
            ExprError::UnexpectedChar(c) => "invalid expression: unexpected char '"@.push(c).push(
                '\'',
            ),
            ExprError::UnexpectedToken(pos) => "invalid expression: unexpected token at position "@
                + decimal(pos as nat),
            ExprError::MissingParen => "invalid expression: missing ')'"@,
            ExprError::ExpectedValue => "invalid expression: expected value"@,
            ExprError::UnexpectedEnd => "invalid expression: unexpected end"@,
        }
    }

    /// A message for people, which begins with `invalid expression`.
    pub fn message(&self) -> (msg: String)
        ensures
            msg@ == self.message_text(),
    {
        match self {
            ExprError::SingleAmpersand => "invalid expression: single '&'".to_owned(),
            ExprError::SinglePipe => "invalid expression: single '|'".to_owned(),
            ExprError::SingleEquals => "invalid expression: single '='".to_owned(),
            ExprError::UnterminatedString => "invalid expression: unterminated string".to_owned(),
            ExprError::UnexpectedChar(c) => {
                let mut msg = "invalid expression: unexpected char '".to_owned();
                msg.push(*c);
                msg.push('\'');
                msg
            },
            ExprError::UnexpectedToken(pos) => {
                let mut msg = "invalid expression: unexpected token at position ".to_owned();
                push_decimal(&mut msg, *pos);
                msg
            },
            ExprError::MissingParen => "invalid expression: missing ')'".to_owned(),
            ExprError::ExpectedValue => "invalid expression: expected value".to_owned(),
            ExprError::UnexpectedEnd => "invalid expression: unexpected end".to_owned(),
        }
    }
}

impl Error {
    /// The message of this error.
    pub open spec fn message_text(self) -> Seq<char> {
        match self {
            Error::Expression(e) => e.message_text(),
            Error::ElseWithoutIf =>
                "invalid directive structure: #else without matching #if/#ifdef/#ifndef"@,
            Error::EndifWithoutIf =>
                "invalid directive structure: #endif without matching #if/#ifdef/#ifndef"@,
            Error::MissingEndif => "invalid directive structure: missing #endif"@,
        }
    }

    /// A message for people. That of a malformed expression begins with
    /// `invalid expression`, every other with `invalid directive structure`.
    pub fn message(&self) -> (msg: String)
        ensures
            msg@ == self.message_text(),
    {
        match self {
            Error::Expression(e) => e.message(),
            Error::ElseWithoutIf =>
                "invalid directive structure: #else without matching #if/#ifdef/#ifndef".to_owned(),
            Error::EndifWithoutIf =>
                "invalid directive structure: #endif without matching #if/#ifdef/#ifndef".to_owned(),
            Error::MissingEndif => "invalid directive structure: missing #endif".to_owned(),
        }
    }
}

/// The message of an error says what kind of error it is: that of a
/// malformed expression begins with `invalid expression`, that of an
/// unbalanced conditional with `invalid directive structure`, and the three
/// errors of unbalanced conditionals have three different messages.
pub proof fn lemma_messages_tell_errors_apart(a: Error, b: Error)
    ensures
        a is Expression <==> "invalid expression"@.is_prefix_of(a.message_text()),
        !(a is Expression) <==> "invalid directive structure"@.is_prefix_of(a.message_text()),
        !(a is Expression) && a.message_text() == b.message_text() ==> a == b,
{
    reveal_strlit("invalid expression");
    reveal_strlit("invalid directive structure");
    reveal_strlit("invalid expression: single '&'");
    reveal_strlit("invalid expression: single '|'");
    reveal_strlit("invalid expression: single '='");
    reveal_strlit("invalid expression: unterminated string");
    reveal_strlit("invalid expression: unexpected char '");
    reveal_strlit("invalid expression: unexpected token at position ");
    reveal_strlit("invalid expression: missing ')'");
    reveal_strlit("invalid expression: expected value");
    reveal_strlit("invalid expression: unexpected end");
    reveal_strlit("invalid directive structure: #else without matching #if/#ifdef/#ifndef");
    reveal_strlit("invalid directive structure: #endif without matching #if/#ifdef/#ifndef");
    reveal_strlit("invalid directive structure: missing #endif");
    lemma_kind_of_message(a);
    lemma_kind_of_message(b);
    let x = a.message_text();
    let y = b.message_text();
    let e = "invalid expression"@;
    let d = "invalid directive structure"@;
    if e.is_prefix_of(x) {
        assert(x[8] == x.subrange(0, e.len() as int)[8]);
    }
    if d.is_prefix_of(x) {
        assert(x[8] == x.subrange(0, d.len() as int)[8]);
    }
    if !(a is Expression) && x == y {
        assert(y[8] == 'd');
        assert(!(b is Expression));
        assert(x[28] == y[28]);
        assert(x[30] == y[30]);
    }
}

/// The ninth character of a message is `e` for a malformed expression and
/// `d` for an unbalanced conditional.
proof fn lemma_kind_of_message(a: Error)
    ensures
        a.message_text().len() > 8,
        !(a is Expression) ==> a.message_text().len() > 30,
        a is Expression ==> "invalid expression"@.is_prefix_of(a.message_text())
            && a.message_text()[8] == 'e',
        !(a is Expression) ==> "invalid directive structure"@.is_prefix_of(a.message_text())
            && a.message_text()[8] == 'd',
{
    reveal_strlit("invalid expression");
    reveal_strlit("invalid directive structure");
    reveal_strlit("invalid expression: single '&'");
    reveal_strlit("invalid expression: single '|'");
    reveal_strlit("invalid expression: single '='");
    reveal_strlit("invalid expression: unterminated string");
    reveal_strlit("invalid expression: unexpected char '");
    reveal_strlit("invalid expression: unexpected token at position ");
    reveal_strlit("invalid expression: missing ')'");
    reveal_strlit("invalid expression: expected value");
    reveal_strlit("invalid expression: unexpected end");
    reveal_strlit("invalid directive structure: #else without matching #if/#ifdef/#ifndef");
    reveal_strlit("invalid directive structure: #endif without matching #if/#ifdef/#ifndef");
    reveal_strlit("invalid directive structure: missing #endif");
    let m = a.message_text();
    match a {
        Error::Expression(e) => {
            let p = "invalid expression"@;
            match e {
                ExprError::UnexpectedChar(c) => {
                    let lit = "invalid expression: unexpected char '"@;
                    assert(m == lit.push(c).push('\''));
                    assert(m.subrange(0, p.len() as int) =~= p);
                },
                ExprError::UnexpectedToken(pos) => {
                    let lit = "invalid expression: unexpected token at position "@;
                    assert(m == lit + decimal(pos as nat));
                    assert(m.subrange(0, p.len() as int) =~= p);
                },
                _ => {
                    assert(m.subrange(0, p.len() as int) =~= p);
                },
            }
        },
        _ => {
            let p = "invalid directive structure"@;
            assert(m.subrange(0, p.len() as int) =~= p);
        },
    }
}

} // verus!
