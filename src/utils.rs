//! Parse errors and the helpers that build them.
use vstd::prelude::*;

use crate::tokens::{Token, TokenV};

verus! {

/// What a parse expected and did not find.
#[derive(Debug, PartialEq, Eq, Structural, Clone, Copy)]
pub enum ParseErrorKind {
    ExpectedIdentifierAfterDot,
    ExpectedAtomicExpression,
    OperatorNotAllowedInUnary,
    ExpectedClosingParenthesis,
    ExpectedTernaryColon,
    ExpectedParameterList,
    ExpectedParameter,
    ExpectedParameterOrClosingParenthesis,
    ExpectedParameterColon,
    ExpectedParameterType,
    ExpectedFunctionName,
    ExpectedReturnType,
    ExpectedOpenBrace,
    ExpectedCloseBrace,
    ExpectedDeclarationName,
    ExpectedDeclarationType,
    ExpectedInitialiser,
    DeclarationWithoutType,
    ExpectedReference,
    UnrecognisedTokenInStatement,
    MisplacedImportBlock,
    FunctionAfterStatements,
    UnsupportedImportBlock,
}

/// A fatal parse error: what was expected, and the token found instead
/// (`None` where the tokens ran out).
#[derive(Debug, PartialEq)]
pub struct ParseError {
    pub kind: ParseErrorKind,
    pub found: Option<Token>,
}

pub struct ParseErrorV {
    pub kind: ParseErrorKind,
    pub found: Option<TokenV>,
}

impl View for ParseError {
    type V = ParseErrorV;

    open spec fn view(&self) -> ParseErrorV {
        ParseErrorV {
            kind: self.kind,
            found: match self.found {
                Some(t) => Some(t@),
                None => None,
            },
        }
    }
}

/// The error of kind `kind` at index `i` of `ts`: the token there, or the end.
pub open spec fn error_at(kind: ParseErrorKind, ts: Seq<TokenV>, i: int) -> ParseErrorV {
    ParseErrorV {
        kind,
        found: if 0 <= i < ts.len() {
            Some(ts[i])
        } else {
            None
        },
    }
}

impl ParseErrorKind {
    /// A human-readable description of what was expected.
    pub fn message(&self) -> String {
        match self {
            ParseErrorKind::ExpectedIdentifierAfterDot => String::from_str(
                "Expected identifier after dot",
            ),
            ParseErrorKind::ExpectedAtomicExpression => String::from_str(
                "Expected an atomic expression",
            ),
            ParseErrorKind::OperatorNotAllowedInUnary => String::from_str(
                "Operator not allowed in unary expression",
            ),
            ParseErrorKind::ExpectedClosingParenthesis => String::from_str(
                "Expected closing parenthesis",
            ),
            ParseErrorKind::ExpectedTernaryColon => String::from_str(
                "Expected colon after ternary condition",
            ),
            ParseErrorKind::ExpectedParameterList => String::from_str(
                "Expected a parameter list starting with an open parenthesis",
            ),
            ParseErrorKind::ExpectedParameter => String::from_str("Expected a parameter"),
            ParseErrorKind::ExpectedParameterOrClosingParenthesis => String::from_str(
                "Expected a parameter or a closing parenthesis",
            ),
            ParseErrorKind::ExpectedParameterColon => String::from_str(
                "Expected colon after parameter name",
            ),
            ParseErrorKind::ExpectedParameterType => String::from_str(
                "Expected a type identifier after colon",
            ),
            ParseErrorKind::ExpectedFunctionName => String::from_str(
                "Expected identifier after function keyword",
            ),
            ParseErrorKind::ExpectedReturnType => String::from_str(
                "Expected type identifier after function parameters",
            ),
            ParseErrorKind::ExpectedOpenBrace => String::from_str("Expected open brace"),
            ParseErrorKind::ExpectedCloseBrace => String::from_str("Expected closing brace"),
            ParseErrorKind::ExpectedDeclarationName => String::from_str(
                "Expected an identifier in a declaration statement",
            ),
            ParseErrorKind::ExpectedDeclarationType => String::from_str(
                "Expected a type after colon",
            ),
            ParseErrorKind::ExpectedInitialiser => String::from_str(
                "Expected variable to be initialised",
            ),
            ParseErrorKind::DeclarationWithoutType => String::from_str(
                "A variable declaration must be followed by a type",
            ),
            ParseErrorKind::ExpectedReference => String::from_str(
                "Expected a reference before an assignment",
            ),
            ParseErrorKind::UnrecognisedTokenInStatement => String::from_str(
                "Unrecognised token in statement",
            ),
            ParseErrorKind::MisplacedImportBlock => String::from_str(
                "Only one using block is allowed and must be at the top of the module",
            ),
            ParseErrorKind::FunctionAfterStatements => String::from_str(
                "Function blocks must come before any statements",
            ),
            ParseErrorKind::UnsupportedImportBlock => String::from_str(
                "The grammar of using blocks is not supported",
            ),
        }
    }
}

/// The token at `i`, read through a call so that its value is fully typed.
pub fn token_at(tokens: &[Token], i: usize) -> (r: &Token)
    requires
        i < tokens.len(),
    ensures
        *r == tokens@[i as int],
{
    &tokens[i]
}

/// The error of kind `kind` at `token`.
pub fn handle_parse_error(kind: ParseErrorKind, token: &Token) -> (e: ParseError)
    ensures
        e@ == (ParseErrorV { kind, found: Some(token@) }),
{
    ParseError { kind, found: Some(token.clone()) }
}

/// The error of kind `kind` at `token`, or at the end of the tokens where it is `None`.
pub fn handle_parse_error_for_option(kind: ParseErrorKind, token: Option<&Token>) -> (e: ParseError)
    ensures
        e@ == (ParseErrorV {
            kind,
            found: match token {
                Some(t) => Some(t@),
                None => None,
            },
        }),
{
    match token {
        Some(t) => ParseError { kind, found: Some(t.clone()) },
        None => ParseError { kind, found: None },
    }
}

/// The error of kind `kind` at index `i` of `tokens`.
pub fn error_at_index(kind: ParseErrorKind, tokens: &[Token], i: usize) -> (e: ParseError)
    ensures
        e@ == error_at(kind, crate::tokens::tokens_view(tokens@), i as int),
{
    if i < tokens.len() {
        handle_parse_error_for_option(kind, Some(token_at(tokens, i)))
    } else {
        handle_parse_error_for_option(kind, None)
    }
}

} // verus!
