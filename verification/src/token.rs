//! The tokens of a condition, and the tokenizer that finds them.

use vstd::prelude::*;
use crate::error::ExprError;
use crate::text::{
    chars_of,
    is_digit,
    is_identifier,
    is_name_char,
    is_name_start,
    is_whitespace,
    left,
    spec_is_digit,
    spec_is_name_char,
    spec_is_name_start,
    spec_is_whitespace,
    string_of,
};
use vstd::slice::slice_subrange;

verus! {

/// One token of a condition.
#[derive(Debug, Clone, PartialEq, Eq)]
pub enum Token {
    /// A name: a letter or underscore, then letters, digits and underscores.
    Ident(String),
    /// A string literal, without its quotes and with its escapes resolved.
    Str(String),
    /// A run of decimal digits, kept as written.
    Num(String),
    /// `&&`
    And,
    /// `||`
    Or,
    /// `==`
    Eq,
    /// `!=`
    Ne,
    /// `!`
    Not,
    /// `(`
    LParen,
    /// `)`
    RParen,
}

/// What a [`Token`] stands for.
pub enum Lexeme {
    Ident(Seq<char>),
    Str(Seq<char>),
    Num(Seq<char>),
    And,
    Or,
    Eq,
    Ne,
    Not,
    LParen,
    RParen,
}

impl View for Token {
    type V = Lexeme;

    open spec fn view(&self) -> Lexeme {
        match self {
            Token::Ident(s) => Lexeme::Ident(s@),
            Token::Str(s) => Lexeme::Str(s@),
            Token::Num(s) => Lexeme::Num(s@),
            Token::And => Lexeme::And,
            Token::Or => Lexeme::Or,
            Token::Eq => Lexeme::Eq,
            Token::Ne => Lexeme::Ne,
            Token::Not => Lexeme::Not,
            Token::LParen => Lexeme::LParen,
            Token::RParen => Lexeme::RParen,
        }
    }
}

/// What each of `tokens` stands for.
pub open spec fn lexemes(tokens: Seq<Token>) -> Seq<Lexeme> {
    tokens.map_values(|t: Token| t@)
}

/// The length of the longest run of name characters that begins at `i`.
pub open spec fn name_run(s: Seq<char>, i: int) -> nat
    decreases left(s, i),
{
    if 0 <= i < s.len() && spec_is_name_char(s[i]) {
        1 + name_run(s, i + 1)
    } else {
        0
    }
}

/// The length of the longest run of digits that begins at `i`.
pub open spec fn digit_run(s: Seq<char>, i: int) -> nat
    decreases left(s, i),
{
    if 0 <= i < s.len() && spec_is_digit(s[i]) {
        1 + digit_run(s, i + 1)
    } else {
        0
    }
}

/// Reads a string literal from just behind its opening quote at `i`: its
/// text, and how many characters it takes up to and with the closing quote.
/// A backslash makes the character after it part of the text, whatever it is;
/// a backslash at the very end stands for itself. `None` where no closing
/// quote is found.
pub open spec fn quoted(s: Seq<char>, i: int) -> Option<(Seq<char>, nat)>
    decreases left(s, i),
{
    if i < 0 || i >= s.len() {
        None
    } else if s[i] == '"' {
        Some((Seq::empty(), 1nat))
    } else if s[i] == '\\' && i + 1 < s.len() {
        match quoted(s, i + 2) {
            Some((text, n)) => Some((seq![s[i + 1]] + text, 2 + n)),
            None => None,
        }
    } else {
        match quoted(s, i + 1) {
            Some((text, n)) => Some((seq![s[i]] + text, 1 + n)),
            None => None,
        }
    }
}

/// Whether the character `c` stands at `i`.
pub open spec fn has_at(s: Seq<char>, i: int, c: char) -> bool {
    0 <= i < s.len() && s[i] == c
}

/// The token that begins at `i`, where no whitespace stands, and its length.
pub open spec fn token_at(s: Seq<char>, i: int) -> Result<(Lexeme, nat), ExprError>
    recommends
        0 <= i < s.len(),
{
    let c = s[i];
    if c == '&' {
        if has_at(s, i + 1, '&') {
            Ok((Lexeme::And, 2nat))
        } else {
            Err(ExprError::SingleAmpersand)
        }
    } else if c == '|' {
        if has_at(s, i + 1, '|') {
            Ok((Lexeme::Or, 2nat))
        } else {
            Err(ExprError::SinglePipe)
        }
    } else if c == '=' {
        if has_at(s, i + 1, '=') {
            Ok((Lexeme::Eq, 2nat))
        } else {
            Err(ExprError::SingleEquals)
        }
    } else if c == '!' {
        if has_at(s, i + 1, '=') {
            Ok((Lexeme::Ne, 2nat))
        } else {
            Ok((Lexeme::Not, 1nat))
        }
    } else if c == '(' {
        Ok((Lexeme::LParen, 1nat))
    } else if c == ')' {
        Ok((Lexeme::RParen, 1nat))
    } else if c == '"' {
        match quoted(s, i + 1) {
            Some((text, n)) => Ok((Lexeme::Str(text), 1 + n)),
            None => Err(ExprError::UnterminatedString),
        }
    } else if spec_is_digit(c) {
        let n = 1 + digit_run(s, i + 1);
        Ok((Lexeme::Num(s.subrange(i, i + n)), n))
    } else if spec_is_name_start(c) {
        let n = 1 + name_run(s, i + 1);
        Ok((Lexeme::Ident(s.subrange(i, i + n)), n))
    } else {
        Err(ExprError::UnexpectedChar(c))
    }
}

/// The tokens of `s` from position `i` on: whitespace between tokens is
/// skipped, and the first character that begins no token ends the reading
/// with its error.
pub open spec fn tokens_from(s: Seq<char>, i: int) -> Result<Seq<Lexeme>, ExprError>
    decreases left(s, i),
{
    if i < 0 || i >= s.len() {
        Ok(Seq::empty())
    } else if spec_is_whitespace(s[i]) {
        tokens_from(s, i + 1)
    } else {
        match token_at(s, i) {
            Err(e) => Err(e),
            Ok((token, n)) => match tokens_from(s, i + n) {
                Err(e) => Err(e),
                Ok(rest) => Ok(seq![token] + rest),
            },
        }
    }
}

/// The tokens of the expression `s`.
pub open spec fn tokens_of(s: Seq<char>) -> Result<Seq<Lexeme>, ExprError> {
    tokens_from(s, 0)
}

/// `found`, with the characters `text` and the count `n` put before it.
spec fn after_chars(text: Seq<char>, n: nat, found: Option<(Seq<char>, nat)>) -> Option<
    (Seq<char>, nat),
> {
    match found {
        Some((more, m)) => Some((text + more, n + m)),
        None => None,
    }
}

/// `found`, with the tokens `done` put before it.
spec fn after_tokens(done: Seq<Lexeme>, found: Result<Seq<Lexeme>, ExprError>) -> Result<
    Seq<Lexeme>,
    ExprError,
> {
    match found {
        Ok(more) => Ok(done + more),
        Err(e) => Err(e),
    }
}

/// Where the run of name characters that begins at `from` ends.
pub fn scan_name(chars: &[char], from: usize) -> (end: usize)
    ensures
        end == from + name_run(chars@, from as int),
        from <= chars@.len() ==> end <= chars@.len(),
{
    let mut end = from;
    while end < chars.len() && is_name_char(chars[end])
        invariant
            from <= end,
            from <= chars@.len() ==> end <= chars@.len(),
            from + name_run(chars@, from as int) == end + name_run(chars@, end as int),
        decreases chars@.len() - end,
    {
        end += 1;
    }
    end
}

/// Where the run of digits that begins at `from` ends.
pub fn scan_digits(chars: &[char], from: usize) -> (end: usize)
    ensures
        end == from + digit_run(chars@, from as int),
        from <= chars@.len() ==> end <= chars@.len(),
{
    let mut end = from;
    while end < chars.len() && is_digit(chars[end])
        invariant
            from <= end,
            from <= chars@.len() ==> end <= chars@.len(),
            from + digit_run(chars@, from as int) == end + digit_run(chars@, end as int),
        decreases chars@.len() - end,
    {
        end += 1;
    }
    end
}

/// Reads a string literal from just behind its opening quote: its text and
/// the position behind its closing quote, or `None` where it has none.
pub fn scan_quoted(chars: &[char], from: usize) -> (found: Option<(String, usize)>)
    ensures
        match quoted(chars@, from as int) {
            Some((text, n)) => found matches Some((t, end)) && t@ == text && end == from + n && end
                <= chars@.len(),
            None => found is None,
        },
{
    let mut text = String::new();
    let mut i = from;
    proof {
        assert(Seq::<char>::empty() + Seq::<char>::empty() == Seq::<char>::empty());
    }
    while i < chars.len()
        invariant
            from <= i,
            quoted(chars@, from as int) == after_chars(
                text@,
                (i - from) as nat,
                quoted(chars@, i as int),
            ),
        decreases chars@.len() - i,
    {
        let ghost before = text@;
        let c = chars[i];
        if c == '"' {
            proof {
                assert(before + Seq::<char>::empty() == before);
            }
            return Some((text, i + 1));
        }
        if c == '\\' && i + 1 < chars.len() {
            text.push(chars[i + 1]);
            proof {
                let rest = quoted(chars@, i + 2);
                if let Some((more, m)) = rest {
                    assert(before + (seq![chars@[i + 1]] + more) == text@ + more);
                }
            }
            i += 2;
        } else {
            text.push(c);
            proof {
                let rest = quoted(chars@, i + 1);
                if let Some((more, m)) = rest {
                    assert(before + (seq![c] + more) == text@ + more);
                }
            }
            i += 1;
        }
    }
    None
}

/// Splits an expression into its tokens.
///
/// Whitespace between tokens is skipped. The first character that can begin
/// no token, a lone `&`, `|` or `=`, or a string literal without its closing
/// quote ends the reading with the error that names it.
pub fn tokenize(expr: &str) -> (result: Result<Vec<Token>, ExprError>)
    ensures
        match tokens_of(expr@) {
            Ok(found) => result matches Ok(tokens) && lexemes(tokens@) == found,
            Err(e) => result == Err::<Vec<Token>, ExprError>(e),
        },
{
    let chars = chars_of(expr);
    let chars = chars.as_slice();
    let mut tokens: Vec<Token> = Vec::new();
    let mut i: usize = 0;
    proof {
        assert(lexemes(tokens@) == Seq::<Lexeme>::empty());
        if let Ok(all) = tokens_from(chars@, 0) {
            assert(Seq::<Lexeme>::empty() + all == all);
        }
    }
    while i < chars.len()
        invariant
            i <= chars@.len(),
            chars@ == expr@,
            tokens_of(expr@) == after_tokens(lexemes(tokens@), tokens_from(chars@, i as int)),
        decreases chars@.len() - i,
    {
        let c = chars[i];
        if is_whitespace(c) {
            i += 1;
            continue ;
        }
        let ghost done = lexemes(tokens@);
        let ghost here = token_at(chars@, i as int);
        let paired = i + 1 < chars.len() && chars[i + 1] == c;
        let end: usize;
        let token: Token;
        if c == '&' {
            if !paired {
                return Err(ExprError::SingleAmpersand);
            }
            token = Token::And;
            end = i + 2;
        } else if c == '|' {
            if !paired {
                return Err(ExprError::SinglePipe);
            }
            token = Token::Or;
            end = i + 2;
        } else if c == '=' {
            if !paired {
                return Err(ExprError::SingleEquals);
            }
            token = Token::Eq;
            end = i + 2;
        } else if c == '!' {
            if i + 1 < chars.len() && chars[i + 1] == '=' {
                token = Token::Ne;
                end = i + 2;
            } else {
                token = Token::Not;
                end = i + 1;
            }
        } else if c == '(' {
            token = Token::LParen;
            end = i + 1;
        } else if c == ')' {
            token = Token::RParen;
            end = i + 1;
        } else if c == '"' {
            match scan_quoted(chars, i + 1) {
                Some((text, behind)) => {
                    token = Token::Str(text);
                    end = behind;
                },
                None => {
                    return Err(ExprError::UnterminatedString);
                },
            }
        } else if is_digit(c) {
            end = scan_digits(chars, i + 1);
            token = Token::Num(string_of(slice_subrange(chars, i, end)));
        } else if is_name_start(c) {
            end = scan_name(chars, i + 1);
            token = Token::Ident(string_of(slice_subrange(chars, i, end)));
        } else {
            return Err(ExprError::UnexpectedChar(c));
        }
        proof {
            assert(here matches Ok((l, n)) && l == token@ && end == i + n);
            if let Ok(more) = tokens_from(chars@, end as int) {
                assert(done + (seq![token@] + more) == done.push(token@) + more);
            }
        }
        tokens.push(token);
        proof {
            assert(lexemes(tokens@) == done.push(token@));
        }
        i = end;
    }
    proof {
        assert(lexemes(tokens@) + Seq::<Lexeme>::empty() == lexemes(tokens@));
    }
    Ok(tokens)
}

/// A run of name characters holds name characters only, and ends inside
/// the text.
proof fn lemma_name_run(s: Seq<char>, i: int)
    requires
        0 <= i <= s.len(),
    ensures
        i + name_run(s, i) <= s.len(),
        forall|k: int| i <= k < i + name_run(s, i) ==> spec_is_name_char(#[trigger] s[k]),
    decreases left(s, i),
{
    if i < s.len() && spec_is_name_char(s[i]) {
        lemma_name_run(s, i + 1);
    }
}

/// A run of digits holds digits only, and ends inside the text.
proof fn lemma_digit_run(s: Seq<char>, i: int)
    requires
        0 <= i <= s.len(),
    ensures
        i + digit_run(s, i) <= s.len(),
        forall|k: int| i <= k < i + digit_run(s, i) ==> spec_is_digit(#[trigger] s[k]),
    decreases left(s, i),
{
    if i < s.len() && spec_is_digit(s[i]) {
        lemma_digit_run(s, i + 1);
    }
}

/// A string literal ends inside the text.
proof fn lemma_quoted(s: Seq<char>, i: int)
    requires
        0 <= i <= s.len(),
    ensures
        quoted(s, i) matches Some((_, n)) ==> i + n <= s.len(),
    decreases left(s, i),
{
    if i < s.len() && s[i] != '"' {
        if s[i] == '\\' && i + 1 < s.len() {
            lemma_quoted(s, i + 2);
        } else {
            lemma_quoted(s, i + 1);
        }
    }
}

/// Whether `token` holds what a token of its kind may hold: a name is shaped
/// like a name, a number is made of digits and has at least one.
pub open spec fn well_formed(token: Lexeme) -> bool {
    match token {
        Lexeme::Ident(name) => is_identifier(name),
        Lexeme::Num(text) => text.len() > 0 && forall|k: int|
            0 <= k < text.len() ==> spec_is_digit(#[trigger] text[k]),
        _ => true,
    }
}

/// A token takes at least one character, ends inside the text, and holds
/// what a token of its kind may hold.
pub proof fn lemma_token_at(s: Seq<char>, i: int)
    requires
        0 <= i < s.len(),
    ensures
        token_at(s, i) matches Ok((token, n)) ==> 0 < n && i + n <= s.len() && well_formed(token),
{
    lemma_name_run(s, i + 1);
    lemma_digit_run(s, i + 1);
    lemma_quoted(s, i + 1);
    if let Ok((token, n)) = token_at(s, i) {
        match token {
            Lexeme::Ident(name) => {
                assert(name[0] == s[i]);
                assert forall|k: int| 0 < k < name.len() implies spec_is_name_char(
                    #[trigger] name[k],
                ) by {
                    assert(name[k] == s[i + k]);
                }
            },
            Lexeme::Num(text) => {
                assert forall|k: int| 0 <= k < text.len() implies spec_is_digit(
                    #[trigger] text[k],
                ) by {
                    assert(text[k] == s[i + k]);
                }
            },
            _ => {},
        }
    }
}

/// Every token that the tokenizer finds holds what a token of its kind may
/// hold.
pub proof fn lemma_tokens_are_well_formed(s: Seq<char>, i: int)
    ensures
        tokens_from(s, i) matches Ok(tokens) ==> forall|k: int|
            0 <= k < tokens.len() ==> well_formed(#[trigger] tokens[k]),
    decreases left(s, i),
{
    if 0 <= i < s.len() {
        if spec_is_whitespace(s[i]) {
            lemma_tokens_are_well_formed(s, i + 1);
        } else if let Ok((token, n)) = token_at(s, i) {
            lemma_token_at(s, i);
            lemma_tokens_are_well_formed(s, i + n);
        }
    }
}

} // verus!
