//! Tokens, the output of the tokenizer and the input of the parser.
use vstd::prelude::*;

use crate::elements::{Identifier, IdentifierV, Keyword, Literal, LiteralV, Operator};

verus! {

/// One lexical unit of the source.
#[derive(Debug, PartialEq)]
pub enum Token {
    // Symbols
    OpenParen,
    CloseParen,
    OpenBrace,
    CloseBrace,
    OpenSquareBracket,
    CloseSquareBracket,
    ListSeparator,
    Dot,
    Colon,
    Newline,
    EndOfModule,
    // Operators
    Operator(Operator),
    TernaryCondition,
    Assign,
    BinaryAssign(Operator),
    Keyword(Keyword),
    Literal(Literal),
    Identifier(Identifier),
}

/// The mathematical value of a [`Token`].
pub enum TokenV {
    OpenParen,
    CloseParen,
    OpenBrace,
    CloseBrace,
    OpenSquareBracket,
    CloseSquareBracket,
    ListSeparator,
    Dot,
    Colon,
    Newline,
    EndOfModule,
    Operator(Operator),
    TernaryCondition,
    Assign,
    BinaryAssign(Operator),
    Keyword(Keyword),
    Literal(LiteralV),
    Identifier(IdentifierV),
}

impl View for Token {
    type V = TokenV;

    open spec fn view(&self) -> TokenV {
        match self {
            Token::OpenParen => TokenV::OpenParen,
            Token::CloseParen => TokenV::CloseParen,
            Token::OpenBrace => TokenV::OpenBrace,
            Token::CloseBrace => TokenV::CloseBrace,
            Token::OpenSquareBracket => TokenV::OpenSquareBracket,
            Token::CloseSquareBracket => TokenV::CloseSquareBracket,
            Token::ListSeparator => TokenV::ListSeparator,
            Token::Dot => TokenV::Dot,
            Token::Colon => TokenV::Colon,
            Token::Newline => TokenV::Newline,
            Token::EndOfModule => TokenV::EndOfModule,
            Token::Operator(o) => TokenV::Operator(*o),
            Token::TernaryCondition => TokenV::TernaryCondition,
            Token::Assign => TokenV::Assign,
            Token::BinaryAssign(o) => TokenV::BinaryAssign(*o),
            Token::Keyword(k) => TokenV::Keyword(*k),
            Token::Literal(l) => TokenV::Literal(l@),
            Token::Identifier(i) => TokenV::Identifier(i@),
        }
    }
}

impl Clone for Token {
    fn clone(&self) -> (r: Self)
        ensures
            r@ == self@,
    {
        match self {
            Token::OpenParen => Token::OpenParen,
            Token::CloseParen => Token::CloseParen,
            Token::OpenBrace => Token::OpenBrace,
            Token::CloseBrace => Token::CloseBrace,
            Token::OpenSquareBracket => Token::OpenSquareBracket,
            Token::CloseSquareBracket => Token::CloseSquareBracket,
            Token::ListSeparator => Token::ListSeparator,
            Token::Dot => Token::Dot,
            Token::Colon => Token::Colon,
            Token::Newline => Token::Newline,
            Token::EndOfModule => Token::EndOfModule,
            Token::Operator(o) => Token::Operator(*o),
            Token::TernaryCondition => Token::TernaryCondition,
            Token::Assign => Token::Assign,
            Token::BinaryAssign(o) => Token::BinaryAssign(*o),
            Token::Keyword(k) => Token::Keyword(*k),
            Token::Literal(l) => Token::Literal(l.clone()),
            Token::Identifier(i) => Token::Identifier(i.clone()),
        }
    }
}

/// The views of a sequence of tokens.
pub open spec fn tokens_view(ts: Seq<Token>) -> Seq<TokenV> {
    ts.map_values(|t: Token| t@)
}

pub proof fn lemma_tokens_view_push(ts: Seq<Token>, t: Token)
    ensures
        tokens_view(ts.push(t)) == tokens_view(ts).push(t@),
{
    assert(tokens_view(ts.push(t)) =~= tokens_view(ts).push(t@));
}

} // verus!
