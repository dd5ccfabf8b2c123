use sheeppig::elements::{Identifier, Literal};
use sheeppig::function_parser::{
    parse_function_block, parse_function_name, parse_function_return_type, parse_parameter,
    parse_parameter_list,
};
use sheeppig::tokens::Token;
use sheeppig::tree::{Function, Parameter, StatementBlock};
use sheeppig::utils::ParseErrorKind;

#[test]
fn test_parse_function_name() {
    let tokens = vec![Token::Identifier(Identifier::Simple("foo".to_string()))];

    let expected = Identifier::Simple("foo".to_string());

    assert_eq!(parse_function_name(&tokens, &mut 0).unwrap(), expected);
}

#[test]
fn test_parse_parameter_list_single_parameter() {
    let tokens = vec![
        Token::OpenParen,
        Token::Identifier(Identifier::Simple("x".to_string())),
        Token::Colon,
        Token::Identifier(Identifier::Simple("int".to_string())),
        Token::CloseParen,
    ];

    let expected = vec![Parameter {
        name: Identifier::Simple("x".to_string()),
        param_type: Identifier::Simple("int".to_string()),
    }];

    assert_eq!(parse_parameter_list(&tokens, &mut 0).unwrap(), expected);
}

#[test]
fn test_parse_parameter_list_two_parameters() {
    let tokens = vec![
        Token::OpenParen,
        Token::Identifier(Identifier::Simple("x".to_string())),
        Token::Colon,
        Token::Identifier(Identifier::Simple("int".to_string())),
        Token::ListSeparator,
        Token::Identifier(Identifier::Simple("y".to_string())),
        Token::Colon,
        Token::Identifier(Identifier::Simple("int".to_string())),
        Token::CloseParen,
    ];

    let expected = vec![
        Parameter {
            name: Identifier::Simple("x".to_string()),
            param_type: Identifier::Simple("int".to_string()),
        },
        Parameter {
            name: Identifier::Simple("y".to_string()),
            param_type: Identifier::Simple("int".to_string()),
        },
    ];

    assert_eq!(parse_parameter_list(&tokens, &mut 0).unwrap(), expected);
}

#[test]
fn test_parse_parameter() {
    let tokens = vec![
        Token::Identifier(Identifier::Simple("x".to_string())),
        Token::Colon,
        Token::Identifier(Identifier::Simple("int".to_string())),
    ];

    let expected = Parameter {
        name: Identifier::Simple("x".to_string()),
        param_type: Identifier::Simple("int".to_string()),
    };

    assert_eq!(parse_parameter(&tokens, &mut 0).unwrap(), expected);
}

#[test]
fn test_parse_function_return_type() {
    let tokens = vec![Token::Colon, Token::Identifier(Identifier::Simple("int".to_string()))];

    let expected = Some(Identifier::Simple("int".to_string()));

    assert_eq!(parse_function_return_type(&tokens, &mut 0).unwrap(), expected);
}

#[test]
fn test_parse_function_no_return_type() {
    let tokens = vec![Token::OpenBrace, Token::Newline];
    let mut pos = 0;

    assert_eq!(parse_function_return_type(&tokens, &mut pos).unwrap(), None);
    assert_eq!(Token::OpenBrace, tokens[pos]);
}

#[test]
fn test_parse_function_block() {
    let tokens = vec![
        Token::Identifier(Identifier::Simple("foo".to_string())),
        Token::OpenParen,
        Token::Identifier(Identifier::Simple("x".to_string())),
        Token::Colon,
        Token::Identifier(Identifier::Simple("int".to_string())),
        Token::CloseParen,
        Token::Colon,
        Token::Identifier(Identifier::Simple("float".to_string())),
        Token::OpenBrace,
        Token::CloseBrace,
    ];

    let expected = Function {
        name: Identifier::Simple("foo".to_string()),
        parameters: vec![Parameter {
            name: Identifier::Simple("x".to_string()),
            param_type: Identifier::Simple("int".to_string()),
        }],
        return_type: Some(Identifier::Simple("float".to_string())),
        body: Box::new(StatementBlock { statements: vec![] }),
    };

    assert_eq!(parse_function_block(&tokens, &mut 0).unwrap(), expected);
}

#[test]
fn parameter_without_colon_is_an_error() {
    let tokens = vec![
        Token::OpenParen,
        Token::Identifier(Identifier::Simple("x".to_string())),
        Token::Identifier(Identifier::Simple("int".to_string())),
        Token::CloseParen,
    ];
    let err = parse_parameter_list(&tokens, &mut 0).unwrap_err();
    assert_eq!(err.kind, ParseErrorKind::ExpectedParameterColon);
    assert_eq!(err.found, Some(Token::Identifier(Identifier::Simple("int".to_string()))));
}

#[test]
fn function_without_name_or_parameters_is_an_error() {
    let tokens = vec![Token::OpenParen, Token::CloseParen];
    let err = parse_function_block(&tokens, &mut 0).unwrap_err();
    assert_eq!(err.kind, ParseErrorKind::ExpectedFunctionName);
    let tokens = vec![Token::Identifier(Identifier::Simple("f".to_string())), Token::OpenBrace];
    let err = parse_function_block(&tokens, &mut 0).unwrap_err();
    assert_eq!(err.kind, ParseErrorKind::ExpectedParameterList);
    assert_eq!(err.found, Some(Token::OpenBrace));
    let tokens = vec![Token::Colon, Token::Literal(Literal::Integer(1))];
    let err = parse_function_return_type(&tokens, &mut 0).unwrap_err();
    assert_eq!(err.kind, ParseErrorKind::ExpectedReturnType);
}
