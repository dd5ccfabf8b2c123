use sheeppig::elements::{Identifier, Keyword};
use sheeppig::lexer::tokenize;
use sheeppig::preprocessor::{combine_compound_identifier, preprocess};
use sheeppig::tokens::Token;
use sheeppig::utils::ParseErrorKind;

#[test]
fn test_remove_redundant_newlines() {
    let input = vec![Token::Newline, Token::Newline, Token::Newline];
    let expected = vec![Token::Newline];

    assert_eq!(preprocess(&input).unwrap(), expected);
}

#[test]
fn test_remove_newline_after_open_brace() {
    let input = vec![Token::OpenBrace, Token::Newline];
    let expected = vec![Token::OpenBrace];

    assert_eq!(preprocess(&input).unwrap(), expected);
}

#[test]
fn test_remove_newline_after_list_separator() {
    let input = vec![Token::ListSeparator, Token::Newline];
    let expected = vec![Token::ListSeparator];

    assert_eq!(preprocess(&input).unwrap(), expected);
}

#[test]
fn test_combine_leaves_simple_identifier() {
    let input = vec![Token::Identifier(Identifier::Simple("foo".to_string())), Token::Assign];
    let expected = vec![Token::Identifier(Identifier::Simple("foo".to_string())), Token::Assign];

    assert_eq!(preprocess(&input).unwrap(), expected);
}

#[test]
fn test_combine_compound_identifier() {
    let input = vec![
        Token::Identifier(Identifier::Simple("foo".to_string())),
        Token::Dot,
        Token::Identifier(Identifier::Simple("bar".to_string())),
        Token::Assign,
    ];
    let expected = vec![
        Token::Identifier(Identifier::Compound(vec!["foo".to_string(), "bar".to_string()])),
        Token::Assign,
    ];

    assert_eq!(preprocess(&input).unwrap(), expected);
}

fn ident(s: &str) -> Token {
    Token::Identifier(Identifier::Simple(s.to_string()))
}

#[test]
fn dot_without_identifier_is_an_error() {
    let input = vec![ident("a"), Token::Dot, Token::Newline];
    let err = preprocess(&input).unwrap_err();
    assert_eq!(err.kind, ParseErrorKind::ExpectedIdentifierAfterDot);
    assert_eq!(err.found, Some(Token::Newline));
    let err = preprocess(&[ident("a"), Token::Dot]).unwrap_err();
    assert_eq!(err.found, None);
}

#[test]
fn three_segment_chain_is_fused() {
    let input = vec![ident("a"), Token::Dot, ident("b"), Token::Dot, ident("c"), Token::EndOfModule];
    let mut pos = 1;
    let t = combine_compound_identifier(&Identifier::Simple("a".to_string()), &input, &mut pos).unwrap();
    assert_eq!(
        t,
        Token::Identifier(Identifier::Compound(vec!["a".to_string(), "b".to_string(), "c".to_string()]))
    );
    assert_eq!(pos, 5);
}

#[test]
fn newline_after_opening_brackets_is_dropped_but_not_elsewhere() {
    let input = vec![Token::OpenParen, Token::Newline, Token::OpenSquareBracket, Token::Newline, ident("x"), Token::Newline, Token::EndOfModule];
    let expected = vec![Token::OpenParen, Token::OpenSquareBracket, ident("x"), Token::Newline, Token::EndOfModule];
    assert_eq!(preprocess(&input).unwrap(), expected);
}

#[test]
fn import_source_becomes_a_compound_identifier() {
    let tokens = preprocess(&tokenize("using {\n    sin, cos from math.trig\n}\n").unwrap()).unwrap();
    assert_eq!(
        tokens,
        vec![
            Token::Keyword(Keyword::Using),
            Token::OpenBrace,
            ident("sin"),
            Token::ListSeparator,
            ident("cos"),
            Token::Keyword(Keyword::From),
            Token::Identifier(Identifier::Compound(vec!["math".to_string(), "trig".to_string()])),
            Token::Newline,
            Token::CloseBrace,
            Token::Newline,
            Token::EndOfModule,
        ]
    );
}

#[test]
fn preprocessing_twice_changes_nothing() {
    let sources = [
        "fun f(a: int,\n  b: int) {\n\n  x = a.b.c\n}\n",
        "x = (\n1 + 2)\n\n\ny = [\n1]\n",
        "",
    ];
    for source in sources.iter() {
        let once = preprocess(&tokenize(source).unwrap()).unwrap();
        let twice = preprocess(&once).unwrap();
        assert_eq!(once, twice);
    }
}
