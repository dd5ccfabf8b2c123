//! The tokenizer: source text to tokens, specified by `lex`, a recursive
//! spec function over the characters, with the laws it obeys.
use vstd::prelude::*;

use crate::elements::{
    chars_of, keyword_word, literal_word, string_of_chars, Identifier, IdentifierV, Keyword,
    Literal, LiteralV, Operator,
};
use crate::tokens::{lemma_tokens_view_push, tokens_view, Token, TokenV};

verus! {

/// Why a source text could not be tokenized.
#[derive(Debug, PartialEq, Eq, Structural, Clone, Copy)]
pub enum LexError {
    /// A character that starts no token.
    UnexpectedCharacter(char),
    /// The text ended inside a literal.
    UnexpectedEndOfInput,
    /// `''`.
    EmptyCharLiteral,
    /// A character literal with more than one character.
    CharLiteralTooLong,
    /// A backslash followed by a character that is no escape.
    UnrecognisedEscape(char),
    /// A second decimal point in a number.
    ExtraDecimalPoint,
    /// An exponent marker not followed by any digit.
    MissingExponentDigits,
    /// An integer literal larger than the largest 64-bit signed integer.
    IntegerOutOfRange,
}

impl LexError {
    /// A human-readable description of the error.
    pub fn message(&self) -> String {
        match self {
            LexError::UnexpectedCharacter(_) => String::from_str("Unexpected character"),
            LexError::UnexpectedEndOfInput => String::from_str("Unexpected end of input"),
            LexError::EmptyCharLiteral => String::from_str("Empty character literal"),
            LexError::CharLiteralTooLong => String::from_str(
                "Character literal must contain only one character",
            ),
            LexError::UnrecognisedEscape(_) => String::from_str("Unrecognised escape sequence"),
            LexError::ExtraDecimalPoint => String::from_str(
                "Unexpected extra decimal point in number literal",
            ),
            LexError::MissingExponentDigits => String::from_str(
                "Expected digits after the exponent marker",
            ),
            LexError::IntegerOutOfRange => String::from_str(
                "Integer literal does not fit in 64 bits",
            ),
        }
    }
}

pub open spec fn at(s: Seq<char>, i: int) -> Option<char> {
    if 0 <= i < s.len() {
        Some(s[i])
    } else {
        None
    }
}

pub open spec fn is_digit(c: char) -> bool {
    '0' <= c && c <= '9'
}

pub open spec fn is_word_start(c: char) -> bool {
    ('a' <= c && c <= 'z') || ('A' <= c && c <= 'Z') || c == '_'
}

pub open spec fn is_word_char(c: char) -> bool {
    is_word_start(c) || is_digit(c)
}

pub open spec fn is_blank(c: char) -> bool {
    c == ' ' || c == '\t'
}

pub open spec fn is_line_break(c: char) -> bool {
    c == '\n' || c == '\r'
}

/// The character that an escape sequence `\c` stands for.
pub open spec fn escaped(c: Option<char>) -> Result<char, LexError> {
    match c {
        None => Err(LexError::UnexpectedEndOfInput),
        Some(c) => if c == 'n' {
            Ok('\n')
        } else if c == 'r' {
            Ok('\r')
        } else if c == 't' {
            Ok('\t')
        } else if c == '\'' {
            Ok('\'')
        } else if c == '"' {
            Ok('"')
        } else if c == '\\' {
            Ok('\\')
        } else if c == '0' {
            Ok('\0')
        } else {
            Err(LexError::UnrecognisedEscape(c))
        },
    }
}

/// The symbol or operator token that `c` starts, given the character after it,
/// and whether the token takes that character too. `None` where `c` starts
/// something longer: a block comment, a number such as `.5`, or no symbol at all.
pub open spec fn symbol(c: char, next: Option<char>) -> Option<(TokenV, bool)> {
    if c == '(' {
        Some((TokenV::OpenParen, false))
    } else if c == ')' {
        Some((TokenV::CloseParen, false))
    } else if c == '{' {
        Some((TokenV::OpenBrace, false))
    } else if c == '}' {
        Some((TokenV::CloseBrace, false))
    } else if c == '[' {
        Some((TokenV::OpenSquareBracket, false))
    } else if c == ']' {
        Some((TokenV::CloseSquareBracket, false))
    } else if c == ',' {
        Some((TokenV::ListSeparator, false))
    } else if c == ':' {
        Some((TokenV::Colon, false))
    } else if c == '.' {
        if next is Some && is_digit(next->0) {
            None
        } else {
            Some((TokenV::Dot, false))
        }
    } else if c == '+' {
        Some((TokenV::Operator(Operator::Plus), false))
    } else if c == '-' {
        Some((TokenV::Operator(Operator::Minus), false))
    } else if c == '*' {
        if next == Some('*') {
            Some((TokenV::Operator(Operator::Power), true))
        } else {
            Some((TokenV::Operator(Operator::Times), false))
        }
    } else if c == '/' {
        if next == Some('*') {
            None
        } else {
            Some((TokenV::Operator(Operator::Divide), false))
        }
    } else if c == '%' {
        Some((TokenV::Operator(Operator::Modulo), false))
    } else if c == '&' {
        if next == Some('&') {
            Some((TokenV::Operator(Operator::And), true))
        } else {
            Some((TokenV::Operator(Operator::BitwiseAnd), false))
        }
    } else if c == '|' {
        if next == Some('|') {
            Some((TokenV::Operator(Operator::Or), true))
        } else {
            Some((TokenV::Operator(Operator::BitwiseOr), false))
        }
    } else if c == '^' {
        Some((TokenV::Operator(Operator::BitwiseXor), false))
    } else if c == '~' {
        Some((TokenV::Operator(Operator::BitwiseNot), false))
    } else if c == '!' {
        if next == Some('=') {
            Some((TokenV::Operator(Operator::NotEqual), true))
        } else {
            Some((TokenV::Operator(Operator::Not), false))
        }
    } else if c == '<' {
        if next == Some('<') {
            Some((TokenV::Operator(Operator::BitwiseLeftShift), true))
        } else if next == Some('=') {
            Some((TokenV::Operator(Operator::LessThanOrEqual), true))
        } else {
            Some((TokenV::Operator(Operator::LessThan), false))
        }
    } else if c == '>' {
        if next == Some('>') {
            Some((TokenV::Operator(Operator::BitwiseRightShift), true))
        } else if next == Some('=') {
            Some((TokenV::Operator(Operator::GreaterThanOrEqual), true))
        } else {
            Some((TokenV::Operator(Operator::GreaterThan), false))
        }
    } else if c == '=' {
        if next == Some('=') {
            Some((TokenV::Operator(Operator::Equal), true))
        } else {
            Some((TokenV::Assign, false))
        }
    } else if c == '?' {
        Some((TokenV::TernaryCondition, false))
    } else {
        None
    }
}

/// Where a `#` comment whose text starts at `i` ends: at the next line break
/// (which it leaves), or at the end of the text.
pub open spec fn comment_end(s: Seq<char>, i: int) -> int
    decreases s.len() - i,
{
    if 0 <= i < s.len() && !is_line_break(s[i]) {
        comment_end(s, i + 1)
    } else {
        i
    }
}

/// Where a `/* ... */` comment whose text starts at `i` ends: just after the
/// first `*/`, or at the end of the text.
pub open spec fn block_comment_end(s: Seq<char>, i: int) -> int
    decreases s.len() - i,
{
    if i + 1 >= s.len() {
        if i < s.len() {
            s.len() as int
        } else {
            i
        }
    } else if s[i] == '*' && s[i + 1] == '/' {
        i + 2
    } else {
        block_comment_end(s, i + 1)
    }
}

/// Where a run of blanks, line breaks and `#` comments from `i` ends, and
/// whether it held a line break (`newline` tells whether one came before `i`).
pub open spec fn whitespace_end(s: Seq<char>, i: int, newline: bool) -> (int, bool)
    decreases s.len() - i,
{
    if i < 0 || i >= s.len() {
        (i, newline)
    } else if is_blank(s[i]) {
        whitespace_end(s, i + 1, newline)
    } else if is_line_break(s[i]) {
        whitespace_end(s, i + 1, true)
    } else if s[i] == '#' {
        proof {
            lemma_comment_end_bounds(s, i + 1);
        }
        whitespace_end(s, comment_end(s, i + 1), newline)
    } else {
        (i, newline)
    }
}

/// A character literal whose text starts at `i` (just after the opening quote):
/// the literal and the index just after the closing quote.
pub open spec fn char_literal(s: Seq<char>, i: int) -> Result<(LiteralV, int), LexError> {
    if i < 0 || i >= s.len() {
        Err(LexError::UnexpectedEndOfInput)
    } else if s[i] == '\'' {
        Err(LexError::EmptyCharLiteral)
    } else {
        let (c, j) = if s[i] == '\\' {
            (escaped(at(s, i + 1)), i + 2)
        } else {
            (Ok(s[i]), i + 1)
        };
        match c {
            Err(e) => Err(e),
            Ok(c) => if j >= s.len() {
                Err(LexError::UnexpectedEndOfInput)
            } else if s[j] == '\'' {
                Ok((LiteralV::Char(c), j + 1))
            } else {
                Err(LexError::CharLiteralTooLong)
            },
        }
    }
}

/// A string literal whose text starts at `i` (just after the opening quote),
/// `text` holding what was decoded before `i`: the decoded text and the index
/// just after the closing quote. A text that ends inside the literal is an error.
pub open spec fn string_literal(s: Seq<char>, i: int, text: Seq<char>) -> Result<
    (Seq<char>, int),
    LexError,
>
    decreases s.len() - i,
{
    if i < 0 || i >= s.len() {
        Err(LexError::UnexpectedEndOfInput)
    } else if s[i] == '"' {
        Ok((text, i + 1))
    } else if s[i] == '\\' {
        match escaped(at(s, i + 1)) {
            Ok(c) => string_literal(s, i + 2, text.push(c)),
            Err(e) => Err(e),
        }
    } else {
        string_literal(s, i + 1, text.push(s[i]))
    }
}

/// The mantissa of a number from `i` on, `text` holding what was kept before
/// `i`: the text with underscores dropped, whether it is a float, whether an
/// exponent marker ended it, and the index after it.
pub open spec fn number_scan(s: Seq<char>, i: int, text: Seq<char>, is_float: bool) -> Result<
    (Seq<char>, bool, bool, int),
    LexError,
>
    decreases s.len() - i,
{
    if i < 0 || i >= s.len() {
        Ok((text, is_float, false, i))
    } else if is_digit(s[i]) {
        number_scan(s, i + 1, text.push(s[i]), is_float)
    } else if s[i] == '_' {
        number_scan(s, i + 1, text, is_float)
    } else if s[i] == '.' {
        if is_float {
            Err(LexError::ExtraDecimalPoint)
        } else {
            number_scan(s, i + 1, text.push('.'), true)
        }
    } else if s[i] == 'e' || s[i] == 'E' {
        Ok((text.push(s[i]), true, true, i + 1))
    } else {
        Ok((text, is_float, false, i))
    }
}

/// The digits of an exponent from `i` on, underscores dropped: the text, whether
/// any digit came, and the index after them.
pub open spec fn exponent_digits(s: Seq<char>, i: int, text: Seq<char>, any: bool) -> (
    Seq<char>,
    bool,
    int,
)
    decreases s.len() - i,
{
    if 0 <= i < s.len() && is_digit(s[i]) {
        exponent_digits(s, i + 1, text.push(s[i]), true)
    } else if 0 <= i < s.len() && s[i] == '_' {
        exponent_digits(s, i + 1, text, any)
    } else {
        (text, any, i)
    }
}

/// An exponent from `i` on (just after the `e`): an optional sign, then digits.
pub open spec fn exponent(s: Seq<char>, i: int, text: Seq<char>) -> Result<
    (Seq<char>, int),
    LexError,
> {
    let signed = 0 <= i < s.len() && (s[i] == '+' || s[i] == '-');
    let (j, t) = if signed {
        (i + 1, text.push(s[i]))
    } else {
        (i, text)
    };
    let (t2, any, k) = exponent_digits(s, j, t, false);
    if any {
        Ok((t2, k))
    } else {
        Err(LexError::MissingExponentDigits)
    }
}

/// The value of a string of decimal digits.
pub open spec fn digits_value(t: Seq<char>) -> int
    decreases t.len(),
{
    if t.len() == 0 {
        0
    } else {
        10 * digits_value(t.drop_last()) + (t.last() as int - '0' as int)
    }
}

pub open spec fn all_digits(t: Seq<char>) -> bool {
    forall|k: int| 0 <= k < t.len() ==> is_digit(#[trigger] t[k])
}

/// A number literal that starts with `current` and goes on at `i`: its value and
/// the index after it. A float keeps its text; an integer must fit in 64 bits.
pub open spec fn number_literal(s: Seq<char>, current: char, i: int) -> Result<
    (LiteralV, int),
    LexError,
> {
    match number_scan(s, i, seq![current], current == '.') {
        Err(e) => Err(e),
        Ok((text, is_float, has_exponent, j)) => if has_exponent {
            match exponent(s, j, text) {
                Err(e) => Err(e),
                Ok((t, k)) => Ok((LiteralV::Float(t), k)),
            }
        } else if is_float {
            Ok((LiteralV::Float(text), j))
        } else if digits_value(text) <= i64::MAX {
            Ok((LiteralV::Integer(digits_value(text) as i64), j))
        } else {
            Err(LexError::IntegerOutOfRange)
        },
    }
}

/// Where a run of letters, digits and underscores from `i` ends.
pub open spec fn word_end(s: Seq<char>, i: int) -> int
    decreases s.len() - i,
{
    if 0 <= i < s.len() && is_word_char(s[i]) {
        word_end(s, i + 1)
    } else {
        i
    }
}

/// The token for a word: a keyword, then a word literal, else an identifier.
pub open spec fn word_token(w: Seq<char>) -> TokenV {
    match keyword_word(w) {
        Some(k) => TokenV::Keyword(k),
        None => match literal_word(w) {
            Some(l) => TokenV::Literal(l),
            None => TokenV::Identifier(IdentifierV::Simple(w)),
        },
    }
}

pub open spec fn ends_with_newline(ts: Seq<TokenV>) -> bool {
    ts.len() > 0 && ts.last() is Newline
}

/// `acc` with a newline token added where a line break was seen and the last
/// token is not a newline already.
pub open spec fn with_newline(acc: Seq<TokenV>, newline: bool) -> Seq<TokenV> {
    if newline && !ends_with_newline(acc) {
        acc.push(TokenV::Newline)
    } else {
        acc
    }
}

/// The tokens of `s` from index `i` on, after the tokens `acc` of what came before.
pub open spec fn lex_from(s: Seq<char>, i: int, acc: Seq<TokenV>) -> Result<
    Seq<TokenV>,
    LexError,
>
    decreases s.len() - i,
{
    if i < 0 || i >= s.len() {
        Ok(acc.push(TokenV::EndOfModule))
    } else {
        let c = s[i];
        let next = at(s, i + 1);
        match symbol(c, next) {
            Some((t, two)) => lex_from(
                s,
                if two {
                    i + 2
                } else {
                    i + 1
                },
                acc.push(t),
            ),
            None => {
                proof {
                    lemma_scans_advance(s, i + 1);
                }
                if c == '/' {
                    lex_from(s, block_comment_end(s, i + 2), acc)
                } else if c == '\\' {
                    if next == Some('\n') || next == Some('\r') {
                        lex_from(s, whitespace_end(s, i + 1, false).0, acc)
                    } else {
                        Err(LexError::UnexpectedCharacter(c))
                    }
                } else if c == '\'' {
                    match char_literal(s, i + 1) {
                        Ok((l, j)) => lex_from(s, j, acc.push(TokenV::Literal(l))),
                        Err(e) => Err(e),
                    }
                } else if c == '"' {
                    match string_literal(s, i + 1, seq![]) {
                        Ok((t, j)) => lex_from(s, j, acc.push(TokenV::Literal(LiteralV::Str(t)))),
                        Err(e) => Err(e),
                    }
                } else if is_digit(c) || c == '.' {
                    match number_literal(s, c, i + 1) {
                        Ok((l, j)) => lex_from(s, j, acc.push(TokenV::Literal(l))),
                        Err(e) => Err(e),
                    }
                } else if is_word_start(c) {
                    let j = word_end(s, i + 1);
                    lex_from(s, j, acc.push(word_token(s.subrange(i, j))))
                } else if is_blank(c) || is_line_break(c) {
                    let (j, newline) = whitespace_end(s, i + 1, is_line_break(c));
                    lex_from(s, j, with_newline(acc, newline))
                } else if c == '#' {
                    lex_from(s, comment_end(s, i + 1), acc)
                } else {
                    Err(LexError::UnexpectedCharacter(c))
                }
            },
        }
    }
}

/// The tokens of a whole source text, ending with the end-of-module token.
pub open spec fn lex(s: Seq<char>) -> Result<Seq<TokenV>, LexError> {
    lex_from(s, 0, seq![])
}

/// Appends a token.
pub fn push_token(tokens: &mut Vec<Token>, t: Token)
    ensures
        tokens_view(final(tokens)@) == tokens_view(old(tokens)@).push(t@),
{
    proof {
        lemma_tokens_view_push(tokens@, t);
    }
    tokens.push(t);
}

/// The character at `i` (a call, so that its value is known to be a valid `char`).
fn char_of(chars: &[char], i: usize) -> (c: char)
    requires
        i < chars.len(),
    ensures
        c == chars@[i as int],
{
    chars[i]
}

fn char_token(c: char) -> (t: Token)
    ensures
        t@ == TokenV::Literal(LiteralV::Char(c)),
{
    Token::Literal(Literal::Char(c))
}

fn is_digit_char(c: char) -> (r: bool)
    ensures
        r == is_digit(c),
{
    '0' <= c && c <= '9'
}

fn is_word_char_exec(c: char) -> (r: bool)
    ensures
        r == is_word_char(c),
{
    ('a' <= c && c <= 'z') || ('A' <= c && c <= 'Z') || c == '_' || ('0' <= c && c <= '9')
}

/// The character after the backslash of an escape sequence, decoded.
pub fn convert_escaped_char(c: Option<char>) -> (r: Result<char, LexError>)
    ensures
        r == escaped(c),
{
    match c {
        None => Err(LexError::UnexpectedEndOfInput),
        Some('n') => Ok('\n'),
        Some('r') => Ok('\r'),
        Some('t') => Ok('\t'),
        Some('\'') => Ok('\''),
        Some('"') => Ok('"'),
        Some('\\') => Ok('\\'),
        Some('0') => Ok('\0'),
        Some(c) => Err(LexError::UnrecognisedEscape(c)),
    }
}

fn char_at(chars: &[char], i: usize) -> (r: Option<char>)
    ensures
        r == at(chars@, i as int),
{
    if i < chars.len() {
        Some(char_of(chars, i))
    } else {
        None
    }
}

/// The symbol or operator token that `c` starts, given the character after it.
pub fn symbol_token(c: char, next: Option<char>) -> (r: Option<(Token, bool)>)
    ensures
        match symbol(c, next) {
            Some((t, two)) => r is Some && (r->0).0@ == t && (r->0).1 == two,
            None => r is None,
        },
{
    match c {
        '(' => Some((Token::OpenParen, false)),
        ')' => Some((Token::CloseParen, false)),
        '{' => Some((Token::OpenBrace, false)),
        '}' => Some((Token::CloseBrace, false)),
        '[' => Some((Token::OpenSquareBracket, false)),
        ']' => Some((Token::CloseSquareBracket, false)),
        ',' => Some((Token::ListSeparator, false)),
        ':' => Some((Token::Colon, false)),
        '.' => match next {
            Some(d) if is_digit_char(d) => None,
            _ => Some((Token::Dot, false)),
        },
        '+' => Some((Token::Operator(Operator::Plus), false)),
        '-' => Some((Token::Operator(Operator::Minus), false)),
        '*' => match next {
            Some('*') => Some((Token::Operator(Operator::Power), true)),
            _ => Some((Token::Operator(Operator::Times), false)),
        },
        '/' => match next {
            Some('*') => None,
            _ => Some((Token::Operator(Operator::Divide), false)),
        },
        '%' => Some((Token::Operator(Operator::Modulo), false)),
        '&' => match next {
            Some('&') => Some((Token::Operator(Operator::And), true)),
            _ => Some((Token::Operator(Operator::BitwiseAnd), false)),
        },
        '|' => match next {
            Some('|') => Some((Token::Operator(Operator::Or), true)),
            _ => Some((Token::Operator(Operator::BitwiseOr), false)),
        },
        '^' => Some((Token::Operator(Operator::BitwiseXor), false)),
        '~' => Some((Token::Operator(Operator::BitwiseNot), false)),
        '!' => match next {
            Some('=') => Some((Token::Operator(Operator::NotEqual), true)),
            _ => Some((Token::Operator(Operator::Not), false)),
        },
        '<' => match next {
            Some('<') => Some((Token::Operator(Operator::BitwiseLeftShift), true)),
            Some('=') => Some((Token::Operator(Operator::LessThanOrEqual), true)),
            _ => Some((Token::Operator(Operator::LessThan), false)),
        },
        '>' => match next {
            Some('>') => Some((Token::Operator(Operator::BitwiseRightShift), true)),
            Some('=') => Some((Token::Operator(Operator::GreaterThanOrEqual), true)),
            _ => Some((Token::Operator(Operator::GreaterThan), false)),
        },
        '=' => match next {
            Some('=') => Some((Token::Operator(Operator::Equal), true)),
            _ => Some((Token::Assign, false)),
        },
        '?' => Some((Token::TernaryCondition, false)),
        _ => None,
    }
}

/// Skips a `/* ... */` comment; `pos` is at the `*` of the opening `/*`.
pub fn eat_block_comment(chars: &[char], pos: &mut usize)
    requires
        *old(pos) < chars.len(),
    ensures
        *final(pos) == block_comment_end(chars@, *old(pos) + 1),
{
    let mut j: usize = *pos + 1;
    while j < chars.len() && j + 1 < chars.len() && !(char_of(chars, j) == '*' && char_of(chars, j + 1) == '/')
        invariant
            j <= chars.len(),
            block_comment_end(chars@, j as int) == block_comment_end(chars@, *old(pos) + 1),
        decreases chars.len() - j,
    {
        j += 1;
    }
    if j < chars.len() && j + 1 < chars.len() {
        *pos = j + 2;
    } else {
        *pos = chars.len();
    }
}

/// Skips the text of a `#` comment, up to the next line break.
pub fn eat_inline_comment(chars: &[char], pos: &mut usize)
    requires
        *old(pos) <= chars.len(),
    ensures
        *final(pos) == comment_end(chars@, *old(pos) as int),
{
    let mut j: usize = *pos;
    while j < chars.len() && !(char_of(chars, j) == '\n' || char_of(chars, j) == '\r')
        invariant
            j <= chars.len(),
            comment_end(chars@, j as int) == comment_end(chars@, *old(pos) as int),
        decreases chars.len() - j,
    {
        j += 1;
    }
    *pos = j;
}

/// Skips blanks, line breaks and `#` comments after `current`; where
/// `allow_newline` holds and a line break was seen, adds one newline token
/// unless the last token is one already.
pub fn eat_whitespace(
    current: char,
    chars: &[char],
    pos: &mut usize,
    tokens: &mut Vec<Token>,
    allow_newline: bool,
)
    requires
        *old(pos) <= chars.len(),
    ensures
        ({
            let (j, newline) = whitespace_end(chars@, *old(pos) as int, is_line_break(current));
            &&& *final(pos) == j
            &&& tokens_view(final(tokens)@) == if allow_newline {
                with_newline(tokens_view(old(tokens)@), newline)
            } else {
                tokens_view(old(tokens)@)
            }
        }),
{
    let mut newline = current == '\n' || current == '\r';
    let mut j: usize = *pos;
    while j < chars.len() && (char_of(chars, j) == ' ' || char_of(chars, j) == '\t' || char_of(chars, j) == '\n' || char_of(chars, j)
        == '\r' || char_of(chars, j) == '#')
        invariant
            j <= chars.len(),
            whitespace_end(chars@, j as int, newline) == whitespace_end(
                chars@,
                *old(pos) as int,
                is_line_break(current),
            ),
        decreases chars.len() - j,
    {
        if char_of(chars, j) == '#' {
            j += 1;
            proof {
                lemma_comment_end_bounds(chars@, j as int);
            }
            eat_inline_comment(chars, &mut j);
        } else {
            if char_of(chars, j) == '\n' || char_of(chars, j) == '\r' {
                newline = true;
            }
            j += 1;
        }
    }
    *pos = j;
    let last_is_newline = tokens.len() > 0 && matches!(tokens[tokens.len() - 1], Token::Newline);
    if allow_newline && newline && !last_is_newline {
        proof {
            lemma_tokens_view_push(tokens@, Token::Newline);
        }
        tokens.push(Token::Newline);
    }
}

/// Reads a character literal; `pos` is just after the opening quote.
pub fn read_char_literal(chars: &[char], pos: &mut usize, tokens: &mut Vec<Token>) -> (r: Result<
    (),
    LexError,
>)
    requires
        *old(pos) <= chars.len(),
    ensures
        match char_literal(chars@, *old(pos) as int) {
            Ok((l, j)) => r is Ok && *final(pos) == j && tokens_view(final(tokens)@) == tokens_view(
                old(tokens)@,
            ).push(TokenV::Literal(l)),
            Err(e) => r == Err::<(), LexError>(e),
        },
{
    let i: usize = *pos;
    if i >= chars.len() {
        return Err(LexError::UnexpectedEndOfInput);
    }
    if char_of(chars, i) == '\'' {
        return Err(LexError::EmptyCharLiteral);
    }
    let mut c: char = char_of(chars, i);
    let mut j: usize = i + 1;
    if char_of(chars, i) == '\\' {
        match convert_escaped_char(char_at(chars, i + 1)) {
            Ok(e) => {
                c = e;
                j = i + 2;
            },
            Err(e) => {
                return Err(e);
            },
        }
    }
    if j >= chars.len() {
        return Err(LexError::UnexpectedEndOfInput);
    }
    if char_of(chars, j) != '\'' {
        return Err(LexError::CharLiteralTooLong);
    }
    *pos = j + 1;
    push_token(tokens, char_token(c));
    Ok(())
}

/// Reads a string literal; `pos` is just after the opening quote.
pub fn read_string_literal(chars: &[char], pos: &mut usize, tokens: &mut Vec<Token>) -> (r: Result<
    (),
    LexError,
>)
    requires
        *old(pos) <= chars.len(),
    ensures
        match string_literal(chars@, *old(pos) as int, seq![]) {
            Ok((t, j)) => r is Ok && *final(pos) == j && tokens_view(final(tokens)@) == tokens_view(
                old(tokens)@,
            ).push(TokenV::Literal(LiteralV::Str(t))),
            Err(e) => r == Err::<(), LexError>(e),
        },
{
    let mut text: Vec<char> = Vec::new();
    let mut i: usize = *pos;
    while i < chars.len() && char_of(chars, i) != '"'
        invariant
            i <= chars.len(),
            string_literal(chars@, i as int, text@) == string_literal(
                chars@,
                *old(pos) as int,
                seq![],
            ),
        decreases chars.len() - i,
    {
        if char_of(chars, i) == '\\' {
            match convert_escaped_char(char_at(chars, i + 1)) {
                Ok(c) => {
                    text.push(c);
                    i += 2;
                },
                Err(e) => return Err(e),
            }
        } else {
            text.push(char_of(chars, i));
            i += 1;
        }
    }
    if i >= chars.len() {
        return Err(LexError::UnexpectedEndOfInput);
    }
    *pos = i + 1;
    let string = string_of_chars(text.as_slice());
    push_token(tokens, Token::Literal(Literal::String(string)));
    Ok(())
}

fn float_token(text: &[char]) -> (t: Token)
    ensures
        t@ == TokenV::Literal(LiteralV::Float(text@)),
{
    Token::Literal(Literal::Float(string_of_chars(text)))
}

fn integer_token(v: i64) -> (t: Token)
    ensures
        t@ == TokenV::Literal(LiteralV::Integer(v)),
{
    Token::Literal(Literal::Integer(v))
}

pub proof fn lemma_digits_value_nonneg(t: Seq<char>)
    requires
        all_digits(t),
    ensures
        digits_value(t) >= 0,
    decreases t.len(),
{
    if t.len() > 0 {
        assert(all_digits(t.drop_last())) by {
            assert forall|k: int| 0 <= k < t.drop_last().len() implies is_digit(
                #[trigger] t.drop_last()[k],
            ) by {
                assert(t.drop_last()[k] == t[k]);
            }
        }
        lemma_digits_value_nonneg(t.drop_last());
        assert(is_digit(t[t.len() - 1]));
    }
}

/// The value of a prefix of a digit string is at most the value of the whole.
pub proof fn lemma_digits_value_prefix(t: Seq<char>, k: int)
    requires
        all_digits(t),
        0 <= k <= t.len(),
    ensures
        0 <= digits_value(t.take(k)) <= digits_value(t),
    decreases t.len(),
{
    if k == t.len() {
        assert(t.take(k) == t);
        lemma_digits_value_nonneg(t);
    } else {
        let u = t.drop_last();
        assert(all_digits(u)) by {
            assert forall|m: int| 0 <= m < u.len() implies is_digit(#[trigger] u[m]) by {
                assert(u[m] == t[m]);
            }
        }
        lemma_digits_value_prefix(u, k);
        assert(u.take(k) == t.take(k));
        lemma_digits_value_nonneg(u);
        assert(is_digit(t[t.len() - 1]));
    }
}

/// The value of a string of decimal digits, if it fits in 64 bits.
pub fn integer_value(digits: &[char]) -> (r: Option<i64>)
    requires
        all_digits(digits@),
    ensures
        match r {
            Some(v) => v == digits_value(digits@),
            None => digits_value(digits@) > i64::MAX,
        },
{
    let mut v: i64 = 0;
    let mut k: usize = 0;
    proof {
        assert(digits@.take(0) =~= Seq::<char>::empty());
    }
    while k < digits.len()
        invariant
            k <= digits.len(),
            all_digits(digits@),
            v == digits_value(digits@.take(k as int)),
            v >= 0,
        decreases digits.len() - k,
    {
        let c = digits[k];
        assert(is_digit(digits@[k as int]));
        let d: i64 = (c as u32 - '0' as u32) as i64;
        proof {
            assert(digits@.take(k as int + 1).drop_last() =~= digits@.take(k as int));
            assert(digits@.take(k as int + 1).last() == c);
            lemma_digits_value_prefix(digits@, k as int + 1);
        }
        match v.checked_mul(10) {
            None => {
                return None;
            },
            Some(m) => match m.checked_add(d) {
                None => {
                    return None;
                },
                Some(n) => {
                    v = n;
                },
            },
        }
        k += 1;
    }
    proof {
        assert(digits@.take(k as int) == digits@);
    }
    Some(v)
}

/// Reads the exponent of a number, just after its `e`: an optional sign, then
/// digits and underscores, adding the sign and digits to `number`.
pub fn read_exponent(chars: &[char], pos: &mut usize, number: &mut Vec<char>) -> (r: Result<
    (),
    LexError,
>)
    requires
        *old(pos) <= chars.len(),
    ensures
        match exponent(chars@, *old(pos) as int, old(number)@) {
            Ok((t, k)) => r is Ok && final(number)@ == t && *final(pos) == k,
            Err(e) => r == Err::<(), LexError>(e),
        },
{
    let mut i: usize = *pos;
    if i < chars.len() && (char_of(chars, i) == '+' || char_of(chars, i) == '-') {
        number.push(char_of(chars, i));
        i += 1;
    }
    let mut any = false;
    while i < chars.len() && (is_digit_char(char_of(chars, i)) || char_of(chars, i) == '_')
        invariant
            i <= chars.len(),
            ({
                let s = chars@;
                let p = *old(pos) as int;
                let signed = 0 <= p < s.len() && (s[p] == '+' || s[p] == '-');
                let (j, t) = if signed {
                    (p + 1, old(number)@.push(s[p]))
                } else {
                    (p, old(number)@)
                };
                exponent_digits(s, i as int, number@, any) == exponent_digits(s, j, t, false)
            }),
        decreases chars.len() - i,
    {
        if char_of(chars, i) != '_' {
            number.push(char_of(chars, i));
            any = true;
        }
        i += 1;
    }
    if !any {
        return Err(LexError::MissingExponentDigits);
    }
    *pos = i;
    Ok(())
}

/// Reads a number literal that starts with `current`; `pos` is just after it.
pub fn read_number_literal(current: char, chars: &[char], pos: &mut usize, tokens: &mut Vec<Token>) -> (r: Result<
    (),
    LexError,
>)
    requires
        *old(pos) <= chars.len(),
        is_digit(current) || current == '.',
    ensures
        match number_literal(chars@, current, *old(pos) as int) {
            Ok((l, j)) => r is Ok && *final(pos) == j && tokens_view(final(tokens)@) == tokens_view(
                old(tokens)@,
            ).push(TokenV::Literal(l)),
            Err(e) => r == Err::<(), LexError>(e),
        },
{
    let mut number: Vec<char> = Vec::new();
    number.push(current);
    let mut is_float = current == '.';
    let mut i: usize = *pos;
    proof {
        assert(number@ =~= seq![current]);
    }
    while i < chars.len() && (is_digit_char(char_of(chars, i)) || char_of(chars, i) == '_' || char_of(chars, i) == '.')
        invariant
            i <= chars.len(),
            number_scan(chars@, i as int, number@, is_float) == number_scan(
                chars@,
                *old(pos) as int,
                seq![current],
                current == '.',
            ),
            !is_float ==> all_digits(number@),
        decreases chars.len() - i,
    {
        let c = char_of(chars, i);
        if c == '.' {
            if is_float {
                return Err(LexError::ExtraDecimalPoint);
            }
            is_float = true;
            number.push('.');
        } else if c != '_' {
            let ghost before = number@;
            number.push(c);
            proof {
                if !is_float {
                    assert forall|k: int| 0 <= k < number@.len() implies is_digit(
                        #[trigger] number@[k],
                    ) by {
                        if k < before.len() {
                            assert(number@[k] == before[k]);
                        }
                    }
                }
            }
        }
        i += 1;
    }
    if i < chars.len() && (char_of(chars, i) == 'e' || char_of(chars, i) == 'E') {
        number.push(char_of(chars, i));
        i += 1;
        *pos = i;
        match read_exponent(chars, pos, &mut number) {
            Ok(()) => {},
            Err(e) => {
                return Err(e);
            },
        }
        push_token(tokens, float_token(number.as_slice()));
        Ok(())
    } else {
        *pos = i;
        if is_float {
            push_token(tokens, float_token(number.as_slice()));
            Ok(())
        } else {
            match integer_value(number.as_slice()) {
                Some(v) => {
                    push_token(tokens, integer_token(v));
                    Ok(())
                },
                None => Err(LexError::IntegerOutOfRange),
            }
        }
    }
}

/// The token for a word: a keyword, a word literal or an identifier.
pub fn match_keyword_or_literal(word: &[char]) -> (t: Token)
    ensures
        t@ == word_token(word@),
{
    match Keyword::from_chars(word) {
        Some(k) => Token::Keyword(k),
        None => match Literal::from_chars(word) {
            Some(l) => Token::Literal(l),
            None => Token::Identifier(Identifier::Simple(string_of_chars(word))),
        },
    }
}

/// Reads a word that starts with `current`; `pos` is just after it.
pub fn read_alphanumeric_sequence(
    current: char,
    chars: &[char],
    pos: &mut usize,
    tokens: &mut Vec<Token>,
)
    requires
        *old(pos) <= chars.len(),
    ensures
        *final(pos) == word_end(chars@, *old(pos) as int),
        tokens_view(final(tokens)@) == tokens_view(old(tokens)@).push(
            word_token(seq![current] + chars@.subrange(*old(pos) as int, *final(pos) as int)),
        ),
{
    let mut word: Vec<char> = Vec::new();
    word.push(current);
    let mut i: usize = *pos;
    while i < chars.len() && is_word_char_exec(char_of(chars, i))
        invariant
            *old(pos) <= i <= chars.len(),
            word_end(chars@, i as int) == word_end(chars@, *old(pos) as int),
            word@ == seq![current] + chars@.subrange(*old(pos) as int, i as int),
        decreases chars.len() - i,
    {
        word.push(char_of(chars, i));
        i += 1;
        proof {
            assert(word@ =~= seq![current] + chars@.subrange(*old(pos) as int, i as int));
        }
    }
    *pos = i;
    push_token(tokens, match_keyword_or_literal(word.as_slice()));
}

/// The tokens of a text given as characters, ending with the end-of-module token.
pub fn tokenize_chars(chars: &[char]) -> (r: Result<Vec<Token>, LexError>)
    ensures
        match lex(chars@) {
            Ok(ts) => r is Ok && tokens_view(r->Ok_0@) == ts,
            Err(e) => r == Err::<Vec<Token>, LexError>(e),
        },
{
    let mut tokens: Vec<Token> = Vec::new();
    let mut pos: usize = 0;
    proof {
        assert(tokens_view(tokens@) =~= Seq::<TokenV>::empty());
    }
    while pos < chars.len()
        invariant
            pos <= chars.len(),
            lex_from(chars@, pos as int, tokens_view(tokens@)) == lex(chars@),
        decreases chars.len() - pos,
    {
        let c = char_of(chars, pos);
        let next = char_at(chars, pos + 1);
        proof {
            lemma_scans_advance(chars@, pos as int + 1);
        }
        pos += 1;
        match symbol_token(c, next) {
            Some((t, two)) => {
                if two {
                    pos += 1;
                }
                push_token(&mut tokens, t);
            },
            None => {
                if c == '/' {
                    eat_block_comment(chars, &mut pos);
                } else if c == '\\' {
                    if matches!(next, Some('\n') | Some('\r')) {
                        eat_whitespace(c, chars, &mut pos, &mut tokens, false);
                    } else {
                        return Err(LexError::UnexpectedCharacter(c));
                    }
                } else if c == '\'' {
                    match read_char_literal(chars, &mut pos, &mut tokens) {
                        Ok(()) => {},
                        Err(e) => {
                            return Err(e);
                        },
                    }
                } else if c == '"' {
                    match read_string_literal(chars, &mut pos, &mut tokens) {
                        Ok(()) => {},
                        Err(e) => {
                            return Err(e);
                        },
                    }
                } else if is_digit_char(c) || c == '.' {
                    match read_number_literal(c, chars, &mut pos, &mut tokens) {
                        Ok(()) => {},
                        Err(e) => {
                            return Err(e);
                        },
                    }
                } else if ('a' <= c && c <= 'z') || ('A' <= c && c <= 'Z') || c == '_' {
                    proof {
                        assert(seq![c] + chars@.subrange(pos as int, word_end(chars@, pos as int))
                            =~= chars@.subrange(pos - 1, word_end(chars@, pos as int)));
                    }
                    read_alphanumeric_sequence(c, chars, &mut pos, &mut tokens);
                } else if c == ' ' || c == '\t' || c == '\n' || c == '\r' {
                    eat_whitespace(c, chars, &mut pos, &mut tokens, true);
                } else if c == '#' {
                    eat_inline_comment(chars, &mut pos);
                } else {
                    return Err(LexError::UnexpectedCharacter(c));
                }
            },
        }
    }
    push_token(&mut tokens, Token::EndOfModule);
    Ok(tokens)
}

/// The tokens of a source text, ending with the end-of-module token.
pub fn tokenize(source: &str) -> (r: Result<Vec<Token>, LexError>)
    ensures
        match lex(source@) {
            Ok(ts) => r is Ok && tokens_view(r->Ok_0@) == ts,
            Err(e) => r == Err::<Vec<Token>, LexError>(e),
        },
{
    let chars = chars_of(source);
    tokenize_chars(chars.as_slice())
}

proof fn lemma_whitespace_over_blanks(s: Seq<char>, a: int, j: int, newline: bool)
    requires
        0 <= a <= j <= s.len(),
        forall|k: int| a <= k < j ==> is_blank(#[trigger] s[k]),
    ensures
        whitespace_end(s, a, newline) == whitespace_end(s, j, newline),
    decreases j - a,
{
    if a < j {
        assert(is_blank(s[a]));
        lemma_whitespace_over_blanks(s, a + 1, j, newline);
    }
}

proof fn lemma_comment_end_at_line_break(s: Seq<char>, a: int)
    requires
        0 <= a <= s.len(),
    ensures
        comment_end(s, a) < s.len() ==> is_line_break(s[comment_end(s, a)]),
    decreases s.len() - a,
{
    if a < s.len() && !is_line_break(s[a]) {
        lemma_comment_end_at_line_break(s, a + 1);
    }
}

/// A run of blanks (spaces and tabs) at a point where a token may start is
/// skipped as a whole: lexing from its first blank gives the same tokens as
/// lexing from just after it, so how many blanks stand there never matters.
pub proof fn lemma_blank_run_irrelevant(s: Seq<char>, i: int, j: int, acc: Seq<TokenV>)
    requires
        0 <= i < j <= s.len(),
        forall|k: int| i <= k < j ==> is_blank(#[trigger] s[k]),
    ensures
        lex_from(s, i, acc) == lex_from(s, j, acc),
{
    assert(is_blank(s[i]));
    lemma_scans_advance(s, i + 1);
    lemma_whitespace_over_blanks(s, i + 1, j, false);
    assert(lex_from(s, i, acc) == lex_from(
        s,
        whitespace_end(s, i + 1, false).0,
        with_newline(acc, whitespace_end(s, i + 1, false).1),
    ));
    if j < s.len() {
        let c = s[j];
        lemma_scans_advance(s, j + 1);
        if is_blank(c) || is_line_break(c) {
            assert(whitespace_end(s, j, false) == whitespace_end(s, j + 1, is_line_break(c)));
        } else if c == '#' {
            let e = comment_end(s, j + 1);
            lemma_comment_end_at_line_break(s, j + 1);
            assert(whitespace_end(s, j, false) == whitespace_end(s, e, false));
            assert(lex_from(s, j, acc) == lex_from(s, e, acc));
            if e < s.len() {
                lemma_scans_advance(s, e + 1);
                assert(whitespace_end(s, e, false) == whitespace_end(s, e + 1, true));
            }
        } else {
            assert(whitespace_end(s, j, false) == (j, false));
        }
    }
}

pub open spec fn newline_pair(a: TokenV, b: TokenV) -> bool {
    a is Newline && b is Newline
}

/// No newline token directly follows another.
pub open spec fn no_adjacent_newlines(ts: Seq<TokenV>) -> bool {
    forall|k: int| 0 <= k && k + 1 < ts.len() ==> !#[trigger] newline_pair(ts[k], ts[k + 1])
}

proof fn lemma_push_keeps_newlines_apart(acc: Seq<TokenV>, t: TokenV)
    requires
        no_adjacent_newlines(acc),
        !(t is Newline) || !ends_with_newline(acc),
    ensures
        no_adjacent_newlines(acc.push(t)),
{
    let r = acc.push(t);
    assert forall|k: int| 0 <= k && k + 1 < r.len() implies !#[trigger] newline_pair(
        r[k],
        r[k + 1],
    ) by {
        if k + 1 < acc.len() {
            assert(r[k] == acc[k] && r[k + 1] == acc[k + 1]);
            assert(!newline_pair(acc[k], acc[k + 1]));
        } else {
            assert(r[k] == acc.last());
        }
    }
}

proof fn lemma_lex_from_keeps_newlines_apart(s: Seq<char>, i: int, acc: Seq<TokenV>)
    requires
        no_adjacent_newlines(acc),
    ensures
        lex_from(s, i, acc) is Ok ==> no_adjacent_newlines(lex_from(s, i, acc)->Ok_0),
    decreases s.len() - i,
{
    if i < 0 || i >= s.len() {
        lemma_push_keeps_newlines_apart(acc, TokenV::EndOfModule);
    } else {
        let c = s[i];
        let next = at(s, i + 1);
        lemma_scans_advance(s, i + 1);
        match symbol(c, next) {
            Some((t, two)) => {
                lemma_push_keeps_newlines_apart(acc, t);
                lemma_lex_from_keeps_newlines_apart(
                    s,
                    if two {
                        i + 2
                    } else {
                        i + 1
                    },
                    acc.push(t),
                );
            },
            None => {
                if c == '/' {
                    lemma_lex_from_keeps_newlines_apart(s, block_comment_end(s, i + 2), acc);
                } else if c == '\\' {
                    if next == Some('\n') || next == Some('\r') {
                        lemma_lex_from_keeps_newlines_apart(s, whitespace_end(s, i + 1, false).0, acc);
                    }
                } else if c == '\'' {
                    if let Ok((l, j)) = char_literal(s, i + 1) {
                        lemma_push_keeps_newlines_apart(acc, TokenV::Literal(l));
                        lemma_lex_from_keeps_newlines_apart(s, j, acc.push(TokenV::Literal(l)));
                    }
                } else if c == '"' {
                    if let Ok((t, j)) = string_literal(s, i + 1, seq![]) {
                        let tok = TokenV::Literal(LiteralV::Str(t));
                        lemma_push_keeps_newlines_apart(acc, tok);
                        lemma_lex_from_keeps_newlines_apart(s, j, acc.push(tok));
                    }
                } else if is_digit(c) || c == '.' {
                    if let Ok((l, j)) = number_literal(s, c, i + 1) {
                        lemma_push_keeps_newlines_apart(acc, TokenV::Literal(l));
                        lemma_lex_from_keeps_newlines_apart(s, j, acc.push(TokenV::Literal(l)));
                    }
                } else if is_word_start(c) {
                    let j = word_end(s, i + 1);
                    let tok = word_token(s.subrange(i, j));
                    lemma_push_keeps_newlines_apart(acc, tok);
                    lemma_lex_from_keeps_newlines_apart(s, j, acc.push(tok));
                } else if is_blank(c) || is_line_break(c) {
                    let (j, newline) = whitespace_end(s, i + 1, is_line_break(c));
                    if newline && !ends_with_newline(acc) {
                        lemma_push_keeps_newlines_apart(acc, TokenV::Newline);
                    }
                    lemma_lex_from_keeps_newlines_apart(s, j, with_newline(acc, newline));
                } else if c == '#' {
                    lemma_lex_from_keeps_newlines_apart(s, comment_end(s, i + 1), acc);
                }
            },
        }
    }
}

/// The tokens of a source text never hold two newline tokens in a row.
pub proof fn lemma_lex_newlines_apart(s: Seq<char>)
    ensures
        lex(s) is Ok ==> no_adjacent_newlines(lex(s)->Ok_0),
{
    lemma_lex_from_keeps_newlines_apart(s, 0, seq![]);
}

/// `t` with its underscores dropped.
pub open spec fn without_underscores(t: Seq<char>) -> Seq<char>
    decreases t.len(),
{
    if t.len() == 0 {
        t
    } else if t[0] == '_' {
        without_underscores(t.drop_first())
    } else {
        seq![t[0]] + without_underscores(t.drop_first())
    }
}

/// Digits with `_` group separators.
pub open spec fn digit_groups(t: Seq<char>) -> bool {
    forall|k: int| 0 <= k < t.len() ==> is_digit(#[trigger] t[k]) || t[k] == '_'
}

/// An exponent: `e` or `E`, an optional sign, then at least one digit.
pub open spec fn exponent_part(x: Seq<char>) -> bool {
    &&& x.len() >= 2
    &&& x[0] == 'e' || x[0] == 'E'
    &&& ({
        let d: int = if x[1] == '+' || x[1] == '-' {
            2
        } else {
            1
        };
        d < x.len() && forall|k: int| d <= k < x.len() ==> is_digit(#[trigger] x[k])
    })
}

/// The text of a numeric literal: whole digits, an optional fraction after a
/// point, and an optional exponent.
pub open spec fn numeric_text(whole: Seq<char>, fraction: Option<Seq<char>>, exponent: Seq<char>) -> Seq<char> {
    whole + match fraction {
        Some(f) => seq!['.'] + f,
        None => Seq::empty(),
    } + exponent
}

proof fn lemma_without_underscores_concat(a: Seq<char>, b: Seq<char>)
    ensures
        without_underscores(a + b) == without_underscores(a) + without_underscores(b),
    decreases a.len(),
{
    if a.len() == 0 {
        assert(a + b == b);
    } else {
        assert((a + b).drop_first() == a.drop_first() + b);
        lemma_without_underscores_concat(a.drop_first(), b);
        assert((a + b)[0] == a[0]);
    }
}

proof fn lemma_without_underscores_digits(t: Seq<char>)
    requires
        forall|k: int| 0 <= k < t.len() ==> #[trigger] t[k] != '_',
    ensures
        without_underscores(t) == t,
    decreases t.len(),
{
    if t.len() > 0 {
        lemma_without_underscores_digits(t.drop_first());
        assert(seq![t[0]] + t.drop_first() == t);
    }
}

proof fn lemma_scan_digit_groups(s: Seq<char>, i: int, end: int, text: Seq<char>, is_float: bool)
    requires
        0 <= i <= end <= s.len(),
        digit_groups(s.subrange(i, end)),
    ensures
        number_scan(s, i, text, is_float) == number_scan(
            s,
            end,
            text + without_underscores(s.subrange(i, end)),
            is_float,
        ),
    decreases end - i,
{
    let sub = s.subrange(i, end);
    if i == end {
        assert(text + without_underscores(sub) == text);
    } else {
        assert(sub[0] == s[i]);
        assert(sub.drop_first() == s.subrange(i + 1, end));
        assert(digit_groups(s.subrange(i + 1, end))) by {
            assert forall|k: int| 0 <= k < s.subrange(i + 1, end).len() implies is_digit(
                #[trigger] s.subrange(i + 1, end)[k],
            ) || s.subrange(i + 1, end)[k] == '_' by {
                assert(s.subrange(i + 1, end)[k] == sub[k + 1]);
            }
        }
        assert(is_digit(sub[0]) || sub[0] == '_');
        if s[i] == '_' {
            lemma_scan_digit_groups(s, i + 1, end, text, is_float);
        } else {
            lemma_scan_digit_groups(s, i + 1, end, text.push(s[i]), is_float);
            assert(text.push(s[i]) + without_underscores(s.subrange(i + 1, end)) == text
                + without_underscores(sub));
        }
    }
}

proof fn lemma_exponent_digits_to_end(s: Seq<char>, i: int, text: Seq<char>, any: bool)
    requires
        0 <= i <= s.len(),
        forall|k: int| i <= k < s.len() ==> is_digit(#[trigger] s[k]),
    ensures
        exponent_digits(s, i, text, any) == (text + s.subrange(i, s.len() as int), any || i
            < s.len(), s.len() as int),
    decreases s.len() - i,
{
    if i < s.len() {
        assert(is_digit(s[i]));
        lemma_exponent_digits_to_end(s, i + 1, text.push(s[i]), true);
        assert(text.push(s[i]) + s.subrange(i + 1, s.len() as int) == text + s.subrange(
            i,
            s.len() as int,
        ));
    } else {
        assert(text + s.subrange(i, s.len() as int) == text);
    }
}

/// A numeric literal written alone lexes to one literal token that holds its
/// value with the underscores dropped: an integer where it has neither point
/// nor exponent (an error where that does not fit in 64 bits), else a float
/// keeping its exact decimal text.
#[verifier::rlimit(100)]
pub proof fn lemma_numeric_literal(whole: Seq<char>, fraction: Option<Seq<char>>, exponent_text: Seq<char>)
    requires
        whole.len() > 0,
        is_digit(whole[0]),
        digit_groups(whole),
        fraction is Some ==> digit_groups(fraction->0),
        exponent_text.len() == 0 || exponent_part(exponent_text),
    ensures
        ({
            let s = numeric_text(whole, fraction, exponent_text);
            let text = without_underscores(s);
            if fraction is None && exponent_text.len() == 0 {
                if digits_value(text) <= i64::MAX {
                    lex(s) == Ok::<Seq<TokenV>, LexError>(
                        seq![
                            TokenV::Literal(LiteralV::Integer(digits_value(text) as i64)),
                            TokenV::EndOfModule,
                        ],
                    )
                } else {
                    lex(s) == Err::<Seq<TokenV>, LexError>(LexError::IntegerOutOfRange)
                }
            } else {
                lex(s) == Ok::<Seq<TokenV>, LexError>(
                    seq![TokenV::Literal(LiteralV::Float(text)), TokenV::EndOfModule],
                )
            }
        }),
{
    let s = numeric_text(whole, fraction, exponent_text);
    let middle = match fraction {
        Some(f) => seq!['.'] + f,
        None => Seq::<char>::empty(),
    };
    let w = whole.len() as int;
    let e1 = w + middle.len();
    assert(s == whole + middle + exponent_text);
    assert(s.subrange(0, w) == whole);
    assert(s.subrange(w, e1) == middle);
    assert(s.subrange(e1, s.len() as int) == exponent_text);
    let c = s[0];
    assert(c == whole[0]);
    assert(symbol(c, at(s, 1)) is None);
    lemma_scans_advance(s, 1);
    // the whole digits
    assert(s.subrange(1, w) == whole.drop_first());
    assert(digit_groups(s.subrange(1, w))) by {
        assert forall|k: int| 0 <= k < s.subrange(1, w).len() implies is_digit(
            #[trigger] s.subrange(1, w)[k],
        ) || s.subrange(1, w)[k] == '_' by {
            assert(s.subrange(1, w)[k] == whole[k + 1]);
        }
    }
    lemma_scan_digit_groups(s, 1, w, seq![c], false);
    assert(seq![c] + without_underscores(s.subrange(1, w)) == without_underscores(whole));
    let tw = without_underscores(whole);
    // the fraction
    let (tm, is_float) = match fraction {
        Some(f) => {
            assert(s[w] == '.');
            assert(s.subrange(w + 1, e1) == f);
            lemma_scan_digit_groups(s, w + 1, e1, tw.push('.'), true);
            (tw.push('.') + without_underscores(f), true)
        },
        None => (tw, false),
    };
    assert(number_scan(s, 1, seq![c], false) == number_scan(s, e1, tm, is_float));
    assert(without_underscores(middle) == match fraction {
        Some(f) => seq!['.'] + without_underscores(f),
        None => Seq::<char>::empty(),
    }) by {
        if let Some(f) = fraction {
            assert((seq!['.'] + f).drop_first() == f);
        }
    }
    lemma_without_underscores_concat(whole, middle);
    lemma_without_underscores_concat(whole + middle, exponent_text);
    assert(tm == without_underscores(whole + middle));
    assert forall|k: int| 0 <= k < exponent_text.len() implies #[trigger] exponent_text[k] != '_' by {
        if k >= 2 || !(exponent_text[1] == '+' || exponent_text[1] == '-') {
            if k >= 1 {
                assert(is_digit(exponent_text[k]));
            }
        }
    }
    lemma_without_underscores_digits(exponent_text);
    assert(without_underscores(s) == tm + exponent_text);
    if exponent_text.len() == 0 {
        assert(e1 == s.len());
        assert(tm + exponent_text == tm);
        if !is_float {
            assert(tm == tw);
        }
    } else {
        assert(s[e1] == exponent_text[0]);
        let t1 = tm.push(exponent_text[0]);
        assert(number_scan(s, e1, tm, is_float) == Ok::<(Seq<char>, bool, bool, int), LexError>(
            (t1, true, true, e1 + 1),
        ));
        let signed = exponent_text[1] == '+' || exponent_text[1] == '-';
        assert(s[e1 + 1] == exponent_text[1]);
        let d: int = if signed {
            2
        } else {
            1
        };
        let t2 = if signed {
            t1.push(exponent_text[1])
        } else {
            t1
        };
        assert forall|k: int| e1 + d <= k < s.len() implies is_digit(#[trigger] s[k]) by {
            assert(s[k] == exponent_text[k - e1]);
        }
        lemma_exponent_digits_to_end(s, e1 + d, t2, false);
        assert(t2 + s.subrange(e1 + d, s.len() as int) == tm + exponent_text);
        assert(exponent(s, e1 + 1, t1) == Ok::<(Seq<char>, int), LexError>(
            (tm + exponent_text, s.len() as int),
        ));
    }
    let r = number_literal(s, c, 1);
    assert(lex(s) == match r {
        Ok((l, j)) => lex_from(s, j, seq![TokenV::Literal(l)]),
        Err(e) => Err(e),
    }) by {
        assert(Seq::<TokenV>::empty().push(TokenV::Literal(LiteralV::Char('a'))) == seq![
            TokenV::Literal(LiteralV::Char('a')),
        ]);
        if let Ok((l, j)) = r {
            assert(Seq::<TokenV>::empty().push(TokenV::Literal(l)) == seq![TokenV::Literal(l)]);
        }
    }
    if let Ok((l, j)) = r {
        assert(j == s.len());
        assert(seq![TokenV::Literal(l)].push(TokenV::EndOfModule) == seq![
            TokenV::Literal(l),
            TokenV::EndOfModule,
        ]);
    }
}

proof fn lemma_comment_end_shift(s: Seq<char>, k: int, i: int)
    requires
        0 <= k <= i,
        k <= s.len(),
    ensures
        comment_end(s, i) == comment_end(s.subrange(k, s.len() as int), i - k) + k,
    decreases s.len() - i,
{
    let t = s.subrange(k, s.len() as int);
    if 0 <= i < s.len() {
        assert(t[i - k] == s[i]);
        if !is_line_break(s[i]) {
            lemma_comment_end_shift(s, k, i + 1);
        }
    }
}

proof fn lemma_block_comment_end_shift(s: Seq<char>, k: int, i: int)
    requires
        0 <= k <= i,
        k <= s.len(),
    ensures
        block_comment_end(s, i) == block_comment_end(s.subrange(k, s.len() as int), i - k) + k,
    decreases s.len() - i,
{
    let t = s.subrange(k, s.len() as int);
    if i + 1 < s.len() {
        assert(t[i - k] == s[i] && t[i - k + 1] == s[i + 1]);
        if !(s[i] == '*' && s[i + 1] == '/') {
            lemma_block_comment_end_shift(s, k, i + 1);
        }
    }
}

proof fn lemma_whitespace_end_shift(s: Seq<char>, k: int, i: int, newline: bool)
    requires
        0 <= k <= i,
        k <= s.len(),
    ensures
        ({
            let w = whitespace_end(s.subrange(k, s.len() as int), i - k, newline);
            whitespace_end(s, i, newline) == (w.0 + k, w.1)
        }),
    decreases s.len() - i,
{
    let t = s.subrange(k, s.len() as int);
    if i < s.len() {
        assert(t[i - k] == s[i]);
        if is_blank(s[i]) {
            lemma_whitespace_end_shift(s, k, i + 1, newline);
        } else if is_line_break(s[i]) {
            lemma_whitespace_end_shift(s, k, i + 1, true);
        } else if s[i] == '#' {
            lemma_comment_end_shift(s, k, i + 1);
            lemma_comment_end_bounds(s, i + 1);
            lemma_whitespace_end_shift(s, k, comment_end(s, i + 1), newline);
        }
    }
}

proof fn lemma_string_literal_shift(s: Seq<char>, k: int, i: int, text: Seq<char>)
    requires
        0 <= k <= i,
        k <= s.len(),
    ensures
        ({
            let r = string_literal(s.subrange(k, s.len() as int), i - k, text);
            string_literal(s, i, text) == match r {
                Ok((x, j)) => Ok((x, j + k)),
                Err(e) => Err::<(Seq<char>, int), LexError>(e),
            }
        }),
    decreases s.len() - i,
{
    let t = s.subrange(k, s.len() as int);
    if i < s.len() {
        assert(t[i - k] == s[i]);
        assert(at(t, i - k + 1) == at(s, i + 1));
        if s[i] != '"' {
            if s[i] == '\\' {
                if let Ok(c) = escaped(at(s, i + 1)) {
                    lemma_string_literal_shift(s, k, i + 2, text.push(c));
                }
            } else {
                lemma_string_literal_shift(s, k, i + 1, text.push(s[i]));
            }
        }
    }
}

proof fn lemma_number_scan_shift(s: Seq<char>, k: int, i: int, text: Seq<char>, is_float: bool)
    requires
        0 <= k <= i,
        k <= s.len(),
    ensures
        ({
            let r = number_scan(s.subrange(k, s.len() as int), i - k, text, is_float);
            number_scan(s, i, text, is_float) == match r {
                Ok((x, f, e, j)) => Ok((x, f, e, j + k)),
                Err(e) => Err::<(Seq<char>, bool, bool, int), LexError>(e),
            }
        }),
    decreases s.len() - i,
{
    let t = s.subrange(k, s.len() as int);
    if i < s.len() {
        assert(t[i - k] == s[i]);
        if is_digit(s[i]) {
            lemma_number_scan_shift(s, k, i + 1, text.push(s[i]), is_float);
        } else if s[i] == '_' {
            lemma_number_scan_shift(s, k, i + 1, text, is_float);
        } else if s[i] == '.' && !is_float {
            lemma_number_scan_shift(s, k, i + 1, text.push('.'), true);
        }
    }
}

proof fn lemma_exponent_digits_shift(s: Seq<char>, k: int, i: int, text: Seq<char>, any: bool)
    requires
        0 <= k <= i,
        k <= s.len(),
    ensures
        ({
            let r = exponent_digits(s.subrange(k, s.len() as int), i - k, text, any);
            exponent_digits(s, i, text, any) == (r.0, r.1, r.2 + k)
        }),
    decreases s.len() - i,
{
    let t = s.subrange(k, s.len() as int);
    if i < s.len() {
        assert(t[i - k] == s[i]);
        if is_digit(s[i]) {
            lemma_exponent_digits_shift(s, k, i + 1, text.push(s[i]), true);
        } else if s[i] == '_' {
            lemma_exponent_digits_shift(s, k, i + 1, text, any);
        }
    }
}

proof fn lemma_number_literal_shift(s: Seq<char>, k: int, c: char, i: int)
    requires
        0 <= k <= i,
        k <= s.len(),
    ensures
        ({
            let r = number_literal(s.subrange(k, s.len() as int), c, i - k);
            number_literal(s, c, i) == match r {
                Ok((l, j)) => Ok((l, j + k)),
                Err(e) => Err::<(LiteralV, int), LexError>(e),
            }
        }),
{
    let t = s.subrange(k, s.len() as int);
    lemma_number_scan_shift(s, k, i, seq![c], c == '.');
    lemma_number_scan_bounds(s, i, seq![c], c == '.');
    if let Ok((text, f, e, j)) = number_scan(s, i, seq![c], c == '.') {
        if e {
            if 0 <= j < s.len() {
                assert(t[j - k] == s[j]);
            }
            let signed = 0 <= j < s.len() && (s[j] == '+' || s[j] == '-');
            let (j2, t2) = if signed {
                (j + 1, text.push(s[j]))
            } else {
                (j, text)
            };
            lemma_exponent_digits_shift(s, k, j2, t2, false);
        }
    }
}

proof fn lemma_word_end_shift(s: Seq<char>, k: int, i: int)
    requires
        0 <= k <= i,
        k <= s.len(),
    ensures
        word_end(s, i) == word_end(s.subrange(k, s.len() as int), i - k) + k,
    decreases s.len() - i,
{
    let t = s.subrange(k, s.len() as int);
    if i < s.len() {
        assert(t[i - k] == s[i]);
        if is_word_char(s[i]) {
            lemma_word_end_shift(s, k, i + 1);
        }
    }
}

proof fn lemma_char_literal_shift(s: Seq<char>, k: int, i: int)
    requires
        0 <= k <= i,
        k <= s.len(),
    ensures
        char_literal(s, i) == match char_literal(s.subrange(k, s.len() as int), i - k) {
            Ok((l, j)) => Ok((l, j + k)),
            Err(e) => Err::<(LiteralV, int), LexError>(e),
        },
{
    let t = s.subrange(k, s.len() as int);
    if i < s.len() {
        assert(t[i - k] == s[i]);
        assert(at(t, i - k + 1) == at(s, i + 1));
    }
    if i + 1 < s.len() {
        assert(t[i - k + 1] == s[i + 1]);
    }
    if i + 2 < s.len() {
        assert(t[i - k + 2] == s[i + 2]);
    }
}

/// Lexing from `i` reads nothing before `i`: it gives the same tokens on any
/// suffix of the text that still holds `i`.
#[verifier::rlimit(100)]
pub proof fn lemma_lex_from_suffix(s: Seq<char>, k: int, i: int, acc: Seq<TokenV>)
    requires
        0 <= k <= i,
        k <= s.len(),
    ensures
        lex_from(s, i, acc) == lex_from(s.subrange(k, s.len() as int), i - k, acc),
    decreases s.len() - i,
{
    let t = s.subrange(k, s.len() as int);
    if i < s.len() {
        let c = s[i];
        let next = at(s, i + 1);
        assert(t[i - k] == c);
        assert(at(t, i - k + 1) == next);
        lemma_scans_advance(s, i + 1);
        match symbol(c, next) {
            Some((tok, two)) => {
                lemma_lex_from_suffix(
                    s,
                    k,
                    if two {
                        i + 2
                    } else {
                        i + 1
                    },
                    acc.push(tok),
                );
            },
            None => {
                if c == '/' {
                    lemma_block_comment_end_shift(s, k, i + 2);
                    lemma_lex_from_suffix(s, k, block_comment_end(s, i + 2), acc);
                } else if c == '\\' {
                    if next == Some('\n') || next == Some('\r') {
                        lemma_whitespace_end_shift(s, k, i + 1, false);
                        lemma_lex_from_suffix(s, k, whitespace_end(s, i + 1, false).0, acc);
                    }
                } else if c == '\'' {
                    lemma_char_literal_shift(s, k, i + 1);
                    if let Ok((l, j)) = char_literal(s, i + 1) {
                        lemma_lex_from_suffix(s, k, j, acc.push(TokenV::Literal(l)));
                    }
                } else if c == '"' {
                    lemma_string_literal_shift(s, k, i + 1, seq![]);
                    if let Ok((x, j)) = string_literal(s, i + 1, seq![]) {
                        lemma_lex_from_suffix(s, k, j, acc.push(TokenV::Literal(LiteralV::Str(x))));
                    }
                } else if is_digit(c) || c == '.' {
                    lemma_number_literal_shift(s, k, c, i + 1);
                    if let Ok((l, j)) = number_literal(s, c, i + 1) {
                        lemma_lex_from_suffix(s, k, j, acc.push(TokenV::Literal(l)));
                    }
                } else if is_word_start(c) {
                    lemma_word_end_shift(s, k, i + 1);
                    let j = word_end(s, i + 1);
                    assert(s.subrange(i, j) == t.subrange(i - k, j - k));
                    lemma_lex_from_suffix(s, k, j, acc.push(word_token(s.subrange(i, j))));
                } else if is_blank(c) || is_line_break(c) {
                    lemma_whitespace_end_shift(s, k, i + 1, is_line_break(c));
                    let (j, newline) = whitespace_end(s, i + 1, is_line_break(c));
                    lemma_lex_from_suffix(s, k, j, with_newline(acc, newline));
                } else if c == '#' {
                    lemma_comment_end_shift(s, k, i + 1);
                    lemma_lex_from_suffix(s, k, comment_end(s, i + 1), acc);
                }
            },
        }
    }
}

pub open spec fn blank_run(w: Seq<char>) -> bool {
    w.len() > 0 && forall|k: int| 0 <= k < w.len() ==> is_blank(#[trigger] w[k])
}

/// Whatever non-empty run of spaces and tabs stands where a token may start,
/// the text after it lexes to the same tokens: `w1 + r` and `w2 + r` lex
/// alike, and both lex as `r` does.
pub proof fn lemma_blank_runs_lex_alike(w1: Seq<char>, w2: Seq<char>, r: Seq<char>, acc: Seq<TokenV>)
    requires
        blank_run(w1),
        blank_run(w2),
    ensures
        lex_from(w1 + r, 0, acc) == lex_from(w2 + r, 0, acc),
        lex_from(w1 + r, 0, acc) == lex_from(r, 0, acc),
{
    let s1 = w1 + r;
    let s2 = w2 + r;
    assert forall|k: int| 0 <= k < w1.len() implies is_blank(#[trigger] s1[k]) by {
        assert(s1[k] == w1[k]);
    }
    assert forall|k: int| 0 <= k < w2.len() implies is_blank(#[trigger] s2[k]) by {
        assert(s2[k] == w2[k]);
    }
    lemma_blank_run_irrelevant(s1, 0, w1.len() as int, acc);
    lemma_blank_run_irrelevant(s2, 0, w2.len() as int, acc);
    lemma_lex_from_suffix(s1, w1.len() as int, w1.len() as int, acc);
    lemma_lex_from_suffix(s2, w2.len() as int, w2.len() as int, acc);
    assert(s1.subrange(w1.len() as int, s1.len() as int) == r);
    assert(s2.subrange(w2.len() as int, s2.len() as int) == r);
}

pub proof fn lemma_comment_end_bounds(s: Seq<char>, i: int)
    ensures
        comment_end(s, i) >= i,
        0 <= i <= s.len() ==> comment_end(s, i) <= s.len(),
    decreases s.len() - i,
{
    if 0 <= i < s.len() && !is_line_break(s[i]) {
        lemma_comment_end_bounds(s, i + 1);
    }
}

pub proof fn lemma_block_comment_end_bounds(s: Seq<char>, i: int)
    ensures
        block_comment_end(s, i) >= i,
        0 <= i <= s.len() ==> block_comment_end(s, i) <= s.len(),
    decreases s.len() - i,
{
    if i + 1 < s.len() && !(s[i] == '*' && s[i + 1] == '/') {
        lemma_block_comment_end_bounds(s, i + 1);
    }
}

pub proof fn lemma_whitespace_end_bounds(s: Seq<char>, i: int, newline: bool)
    ensures
        whitespace_end(s, i, newline).0 >= i,
        0 <= i <= s.len() ==> whitespace_end(s, i, newline).0 <= s.len(),
    decreases s.len() - i,
{
    if 0 <= i < s.len() {
        if is_blank(s[i]) {
            lemma_whitespace_end_bounds(s, i + 1, newline);
        } else if is_line_break(s[i]) {
            lemma_whitespace_end_bounds(s, i + 1, true);
        } else if s[i] == '#' {
            lemma_comment_end_bounds(s, i + 1);
            lemma_whitespace_end_bounds(s, comment_end(s, i + 1), newline);
        }
    }
}

pub proof fn lemma_string_literal_bounds(s: Seq<char>, i: int, text: Seq<char>)
    ensures
        string_literal(s, i, text) is Ok ==> (string_literal(s, i, text)->Ok_0).1 > i,
        string_literal(s, i, text) is Ok && i >= 0 ==> (string_literal(s, i, text)->Ok_0).1 <= s.len(),
    decreases s.len() - i,
{
    if 0 <= i < s.len() && s[i] != '"' {
        if s[i] == '\\' {
            if let Ok(c) = escaped(at(s, i + 1)) {
                lemma_string_literal_bounds(s, i + 2, text.push(c));
            }
        } else {
            lemma_string_literal_bounds(s, i + 1, text.push(s[i]));
        }
    }
}

pub proof fn lemma_number_scan_bounds(s: Seq<char>, i: int, text: Seq<char>, is_float: bool)
    ensures
        number_scan(s, i, text, is_float) is Ok ==> (number_scan(s, i, text, is_float)->Ok_0).3 >= i,
        number_scan(s, i, text, is_float) is Ok && 0 <= i <= s.len() ==> (number_scan(
            s,
            i,
            text,
            is_float,
        )->Ok_0).3 <= s.len(),
    decreases s.len() - i,
{
    if 0 <= i < s.len() {
        if is_digit(s[i]) {
            lemma_number_scan_bounds(s, i + 1, text.push(s[i]), is_float);
        } else if s[i] == '_' {
            lemma_number_scan_bounds(s, i + 1, text, is_float);
        } else if s[i] == '.' && !is_float {
            lemma_number_scan_bounds(s, i + 1, text.push('.'), true);
        }
    }
}

pub proof fn lemma_exponent_digits_bounds(s: Seq<char>, i: int, text: Seq<char>, any: bool)
    ensures
        exponent_digits(s, i, text, any).2 >= i,
        0 <= i <= s.len() ==> exponent_digits(s, i, text, any).2 <= s.len(),
    decreases s.len() - i,
{
    if 0 <= i < s.len() && is_digit(s[i]) {
        lemma_exponent_digits_bounds(s, i + 1, text.push(s[i]), true);
    } else if 0 <= i < s.len() && s[i] == '_' {
        lemma_exponent_digits_bounds(s, i + 1, text, any);
    }
}

pub proof fn lemma_word_end_bounds(s: Seq<char>, i: int)
    ensures
        word_end(s, i) >= i,
        0 <= i <= s.len() ==> word_end(s, i) <= s.len(),
    decreases s.len() - i,
{
    if 0 <= i < s.len() && is_word_char(s[i]) {
        lemma_word_end_bounds(s, i + 1);
    }
}

pub proof fn lemma_number_literal_bounds(s: Seq<char>, c: char, i: int)
    requires
        0 <= i <= s.len(),
    ensures
        number_literal(s, c, i) is Ok ==> i <= (number_literal(s, c, i)->Ok_0).1 <= s.len(),
{
    lemma_number_scan_bounds(s, i, seq![c], c == '.');
    let r = number_scan(s, i, seq![c], c == '.');
    if r is Ok && (r->Ok_0).2 {
        let j = (r->Ok_0).3;
        let text = (r->Ok_0).0;
        let signed = 0 <= j < s.len() && (s[j] == '+' || s[j] == '-');
        let (j2, t) = if signed {
            (j + 1, text.push(s[j]))
        } else {
            (j, text)
        };
        lemma_exponent_digits_bounds(s, j2, t, false);
        assert(exponent(s, j, text) is Ok ==> (exponent(s, j, text)->Ok_0).1 == exponent_digits(
            s,
            j2,
            t,
            false,
        ).2);
    }
}

/// Every scan that starts at `i` ends at or after `i`, and within the text.
pub proof fn lemma_scans_advance(s: Seq<char>, i: int)
    requires
        0 <= i <= s.len(),
    ensures
        i <= block_comment_end(s, i + 1) <= s.len() || i == s.len(),
        i <= whitespace_end(s, i, false).0 <= s.len(),
        i <= whitespace_end(s, i, true).0 <= s.len(),
        char_literal(s, i) is Ok ==> i < (char_literal(s, i)->Ok_0).1 <= s.len(),
        string_literal(s, i, seq![]) is Ok ==> i < (string_literal(s, i, seq![])->Ok_0).1
            <= s.len(),
        forall|c: char| #[trigger]
            number_literal(s, c, i) is Ok ==> i <= (number_literal(s, c, i)->Ok_0).1 <= s.len(),
        i <= word_end(s, i) <= s.len(),
        i <= comment_end(s, i) <= s.len(),
{
    lemma_block_comment_end_bounds(s, i + 1);
    lemma_whitespace_end_bounds(s, i, false);
    lemma_whitespace_end_bounds(s, i, true);
    lemma_string_literal_bounds(s, i, seq![]);
    assert forall|c: char| #[trigger]
        number_literal(s, c, i) is Ok implies i <= (number_literal(s, c, i)->Ok_0).1
        <= s.len() by {
        lemma_number_literal_bounds(s, c, i);
    }
    lemma_word_end_bounds(s, i);
    lemma_comment_end_bounds(s, i);
}

} // verus!
