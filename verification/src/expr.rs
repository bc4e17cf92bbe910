//! Conditions: the grammar of `#if` expressions and their evaluation.
//!
//! ```text
//! or    := and ( '||' and )*
//! and   := not ( '&&' not )*
//! not   := '!' not | cmp
//! cmp   := '(' or ')' | value ( ('==' | '!=') value )?
//! value := IDENT | STRING | NUMBER
//! ```
//!
//! An expression is evaluated while it is read. What reading yields is
//! stated by the functions [`or_at`], [`and_at`], [`not_at`] and
//! [`comparison_at`], one for each rule: the value of the longest piece that
//! the rule accepts at a position, and the number of tokens it takes.

use vstd::prelude::*;
use crate::defs::{value_of, Defs, Table};
use crate::error::ExprError;
use crate::text::{chars_of, same_chars};
use crate::token::{lexemes, tokenize, tokens_of, Lexeme, Token};

verus! {

/// `c` in upper case where it is an ASCII letter, `c` itself where not.
pub open spec fn spec_to_upper(c: char) -> char {
    if 'a' <= c <= 'z' {
        ((c as int) - 32) as char
    } else {
        c
    }
}

/// `s` with its ASCII letters in upper case.
pub open spec fn upper(s: Seq<char>) -> Seq<char> {
    s.map_values(|c: char| spec_to_upper(c))
}

/// Whether a text counts as true where it stands alone as a condition: it is
/// not empty and is none of `0`, `F`, `FALSE` and `NO`, in whatever case.
pub open spec fn is_truthy(s: Seq<char>) -> bool {
    &&& s.len() > 0
    &&& upper(s) != "0"@
    &&& upper(s) != "F"@
    &&& upper(s) != "FALSE"@
    &&& upper(s) != "NO"@
}

/// What reading a piece of an expression yields: its value and the number of
/// tokens read, or the error and the number of tokens read before it.
pub type Parsed = Result<(bool, nat), (ExprError, nat)>;

/// How many tokens are left at position `pos`.
pub open spec fn remaining(ts: Seq<Lexeme>, pos: nat) -> nat {
    if pos <= ts.len() {
        (ts.len() - pos) as nat
    } else {
        0
    }
}

/// Whether the token `t` stands at position `pos`.
pub open spec fn has_token(ts: Seq<Lexeme>, pos: nat, t: Lexeme) -> bool {
    pos < ts.len() && ts[pos as int] == t
}

/// `parsed` as seen from `k` tokens earlier.
pub open spec fn later(k: nat, parsed: Parsed) -> Parsed {
    match parsed {
        Ok((v, n)) => Ok((v, k + n)),
        Err((e, n)) => Err((e, k + n)),
    }
}

/// The text of the value at `pos`: what a name resolves to, or what a string
/// or number literal holds.
pub open spec fn value_at(ts: Seq<Lexeme>, pos: nat, table: Table) -> Result<Seq<char>, ExprError> {
    if pos < ts.len() {
        match ts[pos as int] {
            Lexeme::Ident(name) => Ok(value_of(table, name)),
            Lexeme::Str(text) => Ok(text),
            Lexeme::Num(text) => Ok(text),
            _ => Err(ExprError::ExpectedValue),
        }
    } else {
        Err(ExprError::UnexpectedEnd)
    }
}

/// Reads `or := and ( '||' and )*` at `pos`.
pub open spec fn or_at(ts: Seq<Lexeme>, pos: nat, table: Table) -> Parsed
    decreases remaining(ts, pos), 6nat,
{
    match and_at(ts, pos, table) {
        Ok((v, n)) => later(n, or_rest(ts, pos + n, v, table)),
        Err(e) => Err(e),
    }
}

/// Reads `( '||' and )*` at `pos`, where the operands read so far gave `acc`.
pub open spec fn or_rest(ts: Seq<Lexeme>, pos: nat, acc: bool, table: Table) -> Parsed
    decreases remaining(ts, pos), 5nat,
{
    if has_token(ts, pos, Lexeme::Or) {
        match and_at(ts, pos + 1, table) {
            Ok((v, n)) => later(1 + n, or_rest(ts, pos + 1 + n, acc || v, table)),
            Err((e, n)) => Err((e, 1 + n)),
        }
    } else {
        Ok((acc, 0nat))
    }
}

/// Reads `and := not ( '&&' not )*` at `pos`.
pub open spec fn and_at(ts: Seq<Lexeme>, pos: nat, table: Table) -> Parsed
    decreases remaining(ts, pos), 4nat,
{
    match not_at(ts, pos, table) {
        Ok((v, n)) => later(n, and_rest(ts, pos + n, v, table)),
        Err(e) => Err(e),
    }
}

/// Reads `( '&&' not )*` at `pos`, where the operands read so far gave `acc`.
pub open spec fn and_rest(ts: Seq<Lexeme>, pos: nat, acc: bool, table: Table) -> Parsed
    decreases remaining(ts, pos), 3nat,
{
    if has_token(ts, pos, Lexeme::And) {
        match not_at(ts, pos + 1, table) {
            Ok((v, n)) => later(1 + n, and_rest(ts, pos + 1 + n, acc && v, table)),
            Err((e, n)) => Err((e, 1 + n)),
        }
    } else {
        Ok((acc, 0nat))
    }
}

/// Reads `not := '!' not | cmp` at `pos`.
pub open spec fn not_at(ts: Seq<Lexeme>, pos: nat, table: Table) -> Parsed
    decreases remaining(ts, pos), 2nat,
{
    if has_token(ts, pos, Lexeme::Not) {
        match not_at(ts, pos + 1, table) {
            Ok((v, n)) => Ok((!v, 1 + n)),
            Err((e, n)) => Err((e, 1 + n)),
        }
    } else {
        comparison_at(ts, pos, table)
    }
}

/// Reads `cmp := '(' or ')' | value ( ('==' | '!=') value )?` at `pos`. Two
/// values are compared as texts; a value that stands alone is true or false
/// by [`is_truthy`].
pub open spec fn comparison_at(ts: Seq<Lexeme>, pos: nat, table: Table) -> Parsed
    decreases remaining(ts, pos), 1nat,
{
    if has_token(ts, pos, Lexeme::LParen) {
        match or_at(ts, pos + 1, table) {
            Ok((v, n)) => if has_token(ts, pos + 1 + n, Lexeme::RParen) {
                Ok((v, n + 2))
            } else {
                Err((ExprError::MissingParen, 1 + n))
            },
            Err((e, n)) => Err((e, 1 + n)),
        }
    } else {
        match value_at(ts, pos, table) {
            Err(e) => Err((e, 0nat)),
            Ok(left) => if has_token(ts, pos + 1, Lexeme::Eq) {
                match value_at(ts, pos + 2, table) {
                    Ok(right) => Ok((left == right, 3nat)),
                    Err(e) => Err((e, 2nat)),
                }
            } else if has_token(ts, pos + 1, Lexeme::Ne) {
                match value_at(ts, pos + 2, table) {
                    Ok(right) => Ok((left != right, 3nat)),
                    Err(e) => Err((e, 2nat)),
                }
            } else {
                Ok((is_truthy(left), 1nat))
            },
        }
    }
}

/// The value of the expression made of the tokens `ts`: that of the `or` at
/// their start, which must take them all.
pub open spec fn value_of_tokens(ts: Seq<Lexeme>, table: Table) -> Result<bool, ExprError> {
    match or_at(ts, 0, table) {
        Ok((v, n)) => if n == ts.len() {
            Ok(v)
        } else {
            Err(ExprError::UnexpectedToken(n as usize))
        },
        Err((e, _)) => Err(e),
    }
}

/// The value of the expression written as `s`.
pub open spec fn value_of_expr(s: Seq<char>, table: Table) -> Result<bool, ExprError> {
    match tokens_of(s) {
        Ok(ts) => value_of_tokens(ts, table),
        Err(e) => Err(e),
    }
}

/// How many tokens were read.
pub open spec fn taken(parsed: Parsed) -> nat {
    match parsed {
        Ok((_, n)) => n,
        Err((_, n)) => n,
    }
}

/// The tokens read for an `or` lie inside the expression; likewise below
/// for each of the other rules.
proof fn lemma_or_inside(ts: Seq<Lexeme>, pos: nat, table: Table)
    requires
        pos <= ts.len(),
    ensures
        pos + taken(or_at(ts, pos, table)) <= ts.len(),
    decreases remaining(ts, pos), 6nat,
{
    lemma_and_inside(ts, pos, table);
    if let Ok((v, n)) = and_at(ts, pos, table) {
        lemma_or_rest_inside(ts, pos + n, v, table);
    }
}

proof fn lemma_or_rest_inside(ts: Seq<Lexeme>, pos: nat, acc: bool, table: Table)
    requires
        pos <= ts.len(),
    ensures
        pos + taken(or_rest(ts, pos, acc, table)) <= ts.len(),
    decreases remaining(ts, pos), 5nat,
{
    if has_token(ts, pos, Lexeme::Or) {
        lemma_and_inside(ts, pos + 1, table);
        if let Ok((v, n)) = and_at(ts, pos + 1, table) {
            lemma_or_rest_inside(ts, pos + 1 + n, acc || v, table);
        }
    }
}

proof fn lemma_and_inside(ts: Seq<Lexeme>, pos: nat, table: Table)
    requires
        pos <= ts.len(),
    ensures
        pos + taken(and_at(ts, pos, table)) <= ts.len(),
    decreases remaining(ts, pos), 4nat,
{
    lemma_not_inside(ts, pos, table);
    if let Ok((v, n)) = not_at(ts, pos, table) {
        lemma_and_rest_inside(ts, pos + n, v, table);
    }
}

proof fn lemma_and_rest_inside(ts: Seq<Lexeme>, pos: nat, acc: bool, table: Table)
    requires
        pos <= ts.len(),
    ensures
        pos + taken(and_rest(ts, pos, acc, table)) <= ts.len(),
    decreases remaining(ts, pos), 3nat,
{
    if has_token(ts, pos, Lexeme::And) {
        lemma_not_inside(ts, pos + 1, table);
        if let Ok((v, n)) = not_at(ts, pos + 1, table) {
            lemma_and_rest_inside(ts, pos + 1 + n, acc && v, table);
        }
    }
}

proof fn lemma_not_inside(ts: Seq<Lexeme>, pos: nat, table: Table)
    requires
        pos <= ts.len(),
    ensures
        pos + taken(not_at(ts, pos, table)) <= ts.len(),
    decreases remaining(ts, pos), 2nat,
{
    if has_token(ts, pos, Lexeme::Not) {
        lemma_not_inside(ts, pos + 1, table);
    } else {
        lemma_comparison_inside(ts, pos, table);
    }
}

proof fn lemma_comparison_inside(ts: Seq<Lexeme>, pos: nat, table: Table)
    requires
        pos <= ts.len(),
    ensures
        pos + taken(comparison_at(ts, pos, table)) <= ts.len(),
    decreases remaining(ts, pos), 1nat,
{
    if has_token(ts, pos, Lexeme::LParen) {
        lemma_or_inside(ts, pos + 1, table);
    }
}

/// Reading never goes beyond the last token: whatever rule is read at a
/// position, and whether reading succeeds or fails, the tokens read lie
/// inside the expression.
pub proof fn lemma_reading_stays_inside(ts: Seq<Lexeme>, pos: nat, table: Table)
    requires
        pos <= ts.len(),
    ensures
        pos + taken(or_at(ts, pos, table)) <= ts.len(),
        pos + taken(and_at(ts, pos, table)) <= ts.len(),
        pos + taken(not_at(ts, pos, table)) <= ts.len(),
        pos + taken(comparison_at(ts, pos, table)) <= ts.len(),
{
    lemma_or_inside(ts, pos, table);
    lemma_and_inside(ts, pos, table);
    lemma_not_inside(ts, pos, table);
    lemma_comparison_inside(ts, pos, table);
}

/// `c` in upper case where it is an ASCII letter, `c` itself where not.
#[verifier::when_used_as_spec(spec_to_upper)]
pub fn to_upper(c: char) -> (u: char)
    ensures
        u == spec_to_upper(c),
{
    if 'a' <= c && c <= 'z' {
        ((c as u8) - 32) as char
    } else {
        c
    }
}

/// Whether `chars`, with its ASCII letters in upper case, reads `word`.
fn reads(chars: &[char], word: &str) -> (r: bool)
    ensures
        r == (upper(chars@) == word@),
{
    let letters = chars_of(word);
    if letters.len() != chars.len() {
        return false;
    }
    let mut i: usize = 0;
    while i < chars.len()
        invariant
            i <= chars@.len(),
            letters@ == word@,
            letters@.len() == chars@.len(),
            forall|k: int| 0 <= k < i ==> spec_to_upper(chars@[k]) == letters@[k],
        decreases chars@.len() - i,
    {
        if to_upper(chars[i]) != letters[i] {
            assert(upper(chars@)[i as int] != word@[i as int]);
            return false;
        }
        i += 1;
    }
    assert(upper(chars@) =~= word@);
    true
}

/// Whether a value counts as true where it stands alone as a condition: the
/// empty text does not, nor do `0`, `F`, `FALSE` and `NO` in whatever case;
/// everything else does.
pub fn truthy(value: &str) -> (r: bool)
    ensures
        r == is_truthy(value@),
{
    let chars = chars_of(value);
    let chars = chars.as_slice();
    if chars.len() == 0 {
        return false;
    }
    !(reads(chars, "0") || reads(chars, "F") || reads(chars, "FALSE") || reads(chars, "NO"))
}

/// A reader of one expression: the tokens, the position of the next one, and
/// the definitions that names resolve against.
pub struct Parser<'a> {
    pub tokens: &'a [Token],
    pub pos: usize,
    pub defs: &'a Defs,
}

impl<'a> Parser<'a> {
    /// What the tokens stand for.
    pub open spec fn input(&self) -> Seq<Lexeme> {
        lexemes(self.tokens@)
    }

    /// The position of the next token.
    pub open spec fn at(&self) -> nat {
        self.pos as nat
    }

    /// The definitions that names resolve against.
    pub open spec fn table(&self) -> Table {
        self.defs@
    }

    /// How many tokens this reader is ahead of `start`.
    pub open spec fn ahead_of(&self, start: nat) -> nat {
        (self.pos - start) as nat
    }

    /// Takes the next token if `pred` accepts it, and says whether it did.
    pub fn match_token<F>(&mut self, pred: F) -> (hit: bool) where F: Fn(&Token) -> bool
        requires
            forall|t: &Token| pred.requires((t,)),
        ensures
            final(self).tokens@ == old(self).tokens@,
            final(self).defs@ == old(self).defs@,
            hit ==> old(self).pos < old(self).tokens@.len() && pred.ensures(
                (&old(self).tokens@[old(self).pos as int],),
                true,
            ) && final(self).pos == old(self).pos + 1,
            !hit ==> final(self).pos == old(self).pos && (old(self).pos < old(self).tokens@.len()
                ==> pred.ensures((&old(self).tokens@[old(self).pos as int],), false)),
    {
        if self.pos < self.tokens.len() {
            if pred(&self.tokens[self.pos]) {
                self.pos += 1;
                return true;
            }
        }
        false
    }

    /// Reads a value: a name, which resolves to its value, or a string or
    /// number literal, which stands for its text.
    pub fn parse_value(&mut self) -> (result: Result<String, ExprError>)
        ensures
            final(self).tokens@ == old(self).tokens@,
            final(self).defs@ == old(self).defs@,
            match value_at(old(self).input(), old(self).at(), old(self).table()) {
                Ok(text) => result matches Ok(value) && value@ == text && final(self).pos
                    == old(self).pos + 1,
                Err(e) => result matches Err(err) && err == e && final(self).pos == old(self).pos,
            },
    {
        if self.pos < self.tokens.len() {
            let value = match &self.tokens[self.pos] {
                Token::Ident(name) => self.defs.get_value(name.as_str()),
                Token::Str(text) => text.clone(),
                Token::Num(text) => text.clone(),
                _ => {
                    return Err(ExprError::ExpectedValue);
                },
            };
            self.pos += 1;
            return Ok(value);
        }
        Err(ExprError::UnexpectedEnd)
    }

    /// Reads `or := and ( '||' and )*`.
    pub fn parse_or(&mut self) -> (result: Result<bool, ExprError>)
        ensures
            final(self).tokens@ == old(self).tokens@,
            final(self).defs@ == old(self).defs@,
            final(self).pos == old(self).pos + taken(
                or_at(old(self).input(), old(self).at(), old(self).table()),
            ),
            match or_at(old(self).input(), old(self).at(), old(self).table()) {
                Ok((v, _)) => result == Ok::<bool, ExprError>(v),
                Err((e, _)) => result == Err::<bool, ExprError>(e),
            },
        decreases remaining(old(self).input(), old(self).at()), 4nat,
    {
        let mut left = match self.parse_and() {
            Ok(v) => v,
            Err(e) => {
                return Err(e);
            },
        };
        loop
            invariant
                self.tokens@ == old(self).tokens@,
                self.defs@ == old(self).defs@,
                self.pos >= old(self).pos,
                or_at(old(self).input(), old(self).at(), old(self).table()) == later(
                    self.ahead_of(old(self).at()),
                    or_rest(self.input(), self.at(), left, self.table()),
                ),
            decreases remaining(self.input(), self.at()),
        {
            let is_or = |t: &Token| -> (b: bool)
                ensures
                    b == (t@ == Lexeme::Or),
                { matches!(t, Token::Or) };
            if !self.match_token(is_or) {
                return Ok(left);
            }
            let right = match self.parse_and() {
                Ok(v) => v,
                Err(e) => {
                    return Err(e);
                },
            };
            left = left || right;
        }
    }

    /// Reads `and := not ( '&&' not )*`.
    pub fn parse_and(&mut self) -> (result: Result<bool, ExprError>)
        ensures
            final(self).tokens@ == old(self).tokens@,
            final(self).defs@ == old(self).defs@,
            final(self).pos == old(self).pos + taken(
                and_at(old(self).input(), old(self).at(), old(self).table()),
            ),
            match and_at(old(self).input(), old(self).at(), old(self).table()) {
                Ok((v, _)) => result == Ok::<bool, ExprError>(v),
                Err((e, _)) => result == Err::<bool, ExprError>(e),
            },
        decreases remaining(old(self).input(), old(self).at()), 3nat,
    {
        let mut left = match self.parse_not() {
            Ok(v) => v,
            Err(e) => {
                return Err(e);
            },
        };
        loop
            invariant
                self.tokens@ == old(self).tokens@,
                self.defs@ == old(self).defs@,
                self.pos >= old(self).pos,
                and_at(old(self).input(), old(self).at(), old(self).table()) == later(
                    self.ahead_of(old(self).at()),
                    and_rest(self.input(), self.at(), left, self.table()),
                ),
            decreases remaining(self.input(), self.at()),
        {
            let is_and = |t: &Token| -> (b: bool)
                ensures
                    b == (t@ == Lexeme::And),
                { matches!(t, Token::And) };
            if !self.match_token(is_and) {
                return Ok(left);
            }
            let right = match self.parse_not() {
                Ok(v) => v,
                Err(e) => {
                    return Err(e);
                },
            };
            left = left && right;
        }
    }

    /// Reads `not := '!' not | cmp`.
    pub fn parse_not(&mut self) -> (result: Result<bool, ExprError>)
        ensures
            final(self).tokens@ == old(self).tokens@,
            final(self).defs@ == old(self).defs@,
            final(self).pos == old(self).pos + taken(
                not_at(old(self).input(), old(self).at(), old(self).table()),
            ),
            match not_at(old(self).input(), old(self).at(), old(self).table()) {
                Ok((v, _)) => result == Ok::<bool, ExprError>(v),
                Err((e, _)) => result == Err::<bool, ExprError>(e),
            },
        decreases remaining(old(self).input(), old(self).at()), 2nat,
    {
        let is_not = |t: &Token| -> (b: bool)
            ensures
                b == (t@ == Lexeme::Not),
            { matches!(t, Token::Not) };
        if self.match_token(is_not) {
            return match self.parse_not() {
                Ok(v) => Ok(!v),
                Err(e) => Err(e),
            };
        }
        self.parse_cmp()
    }

    /// Reads `cmp := '(' or ')' | value ( ('==' | '!=') value )?`. Two values
    /// are compared as texts; a value that stands alone is judged by
    /// [`truthy`].
    pub fn parse_cmp(&mut self) -> (result: Result<bool, ExprError>)
        ensures
            final(self).tokens@ == old(self).tokens@,
            final(self).defs@ == old(self).defs@,
            final(self).pos == old(self).pos + taken(
                comparison_at(old(self).input(), old(self).at(), old(self).table()),
            ),
            match comparison_at(old(self).input(), old(self).at(), old(self).table()) {
                Ok((v, _)) => result == Ok::<bool, ExprError>(v),
                Err((e, _)) => result == Err::<bool, ExprError>(e),
            },
        decreases remaining(old(self).input(), old(self).at()), 1nat,
    {
        let is_open = |t: &Token| -> (b: bool)
            ensures
                b == (t@ == Lexeme::LParen),
            { matches!(t, Token::LParen) };
        let is_close = |t: &Token| -> (b: bool)
            ensures
                b == (t@ == Lexeme::RParen),
            { matches!(t, Token::RParen) };
        let is_eq = |t: &Token| -> (b: bool)
            ensures
                b == (t@ == Lexeme::Eq),
            { matches!(t, Token::Eq) };
        let is_ne = |t: &Token| -> (b: bool)
            ensures
                b == (t@ == Lexeme::Ne),
            { matches!(t, Token::Ne) };
        if self.match_token(is_open) {
            let v = match self.parse_or() {
                Ok(v) => v,
                Err(e) => {
                    return Err(e);
                },
            };
            if !self.match_token(is_close) {
                return Err(ExprError::MissingParen);
            }
            return Ok(v);
        }
        let left = match self.parse_value() {
            Ok(v) => v,
            Err(e) => {
                return Err(e);
            },
        };
        if self.match_token(is_eq) {
            return match self.parse_value() {
                Ok(right) => Ok(left == right),
                Err(e) => Err(e),
            };
        }
        if self.match_token(is_ne) {
            return match self.parse_value() {
                Ok(right) => Ok(left != right),
                Err(e) => Err(e),
            };
        }
        Ok(truthy(left.as_str()))
    }
}

/// Evaluates the expression of an `#if`. A name stands for what it resolves
/// to in `defs`, a literal for its text.
pub fn eval_expr(expr: &str, defs: &Defs) -> (result: Result<bool, ExprError>)
    ensures
        result == value_of_expr(expr@, defs@),
{
    let tokens = match tokenize(expr) {
        Ok(tokens) => tokens,
        Err(e) => {
            return Err(e);
        },
    };
    let mut parser = Parser { tokens: tokens.as_slice(), pos: 0, defs };
    let value = match parser.parse_or() {
        Ok(v) => v,
        Err(e) => {
            return Err(e);
        },
    };
    if parser.pos != tokens.len() {
        return Err(ExprError::UnexpectedToken(parser.pos));
    }
    Ok(value)
}

} // verus!
