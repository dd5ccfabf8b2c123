use sheeppig::elements::{Identifier, Literal};
use sheeppig::lexer::tokenize;
use sheeppig::module_parser::{parse, parse_using_block};
use sheeppig::preprocessor::preprocess;
use sheeppig::tokens::Token;
use sheeppig::tree::{
    AtomicExpression, ConditionalStatement, Expression, LoopStatement, Module, Statement,
    StatementBlock,
};
use sheeppig::utils::{ParseError, ParseErrorKind};

fn parse_source(source: &str) -> Result<Module, ParseError> {
    let tokens = preprocess(&tokenize(source).unwrap())?;
    parse(&tokens)
}

fn lit(n: i64) -> Expression {
    Expression::Atomic(AtomicExpression::Literal(Literal::Integer(n)))
}

fn main_name() -> Identifier {
    Identifier::Simple("main".to_string())
}

#[test]
fn empty_function_body() {
    let module = parse_source("fun f() { }").unwrap();
    assert_eq!(module.functions.len(), 1);
    assert_eq!(*module.functions[0].body, StatementBlock { statements: vec![] });
}

#[test]
fn while_loop_scenario() {
    let module = parse_source("while true { 1 }").unwrap();
    let expected = Statement::Loop(LoopStatement {
        condition: Expression::Atomic(AtomicExpression::Literal(Literal::Boolean(true))),
        body: Box::new(StatementBlock { statements: vec![Statement::Expression(lit(1))] }),
    });
    assert_eq!(module.statements.statements, vec![expected]);
}

#[test]
fn if_else_scenario() {
    let module = parse_source("if true { 1 } else { 2 }").unwrap();
    let expected = Statement::Conditional(ConditionalStatement {
        condition: Expression::Atomic(AtomicExpression::Literal(Literal::Boolean(true))),
        body: Box::new(StatementBlock { statements: vec![Statement::Expression(lit(1))] }),
        else_body: Some(Box::new(StatementBlock { statements: vec![Statement::Expression(lit(2))] })),
    });
    assert_eq!(module.statements.statements, vec![expected]);
}

#[test]
fn functions_then_statements() {
    let module = parse_source("fun f(a: int): int {\n  a\n}\n\nx = f(1)\ny = 2\n").unwrap();
    assert_eq!(module.name, main_name());
    assert_eq!(module.functions.len(), 1);
    assert_eq!(module.statements.statements.len(), 2);
}

#[test]
fn function_after_statements_is_an_error() {
    let err = parse_source("x = 1\nfun f() { }\n").unwrap_err();
    assert_eq!(err.kind, ParseErrorKind::FunctionAfterStatements);
}

#[test]
fn using_block_placement() {
    let err = parse_source("fun f() { }\nusing { a from b }\n").unwrap_err();
    assert_eq!(err.kind, ParseErrorKind::MisplacedImportBlock);
    let err = parse_source("using { a from b }\n").unwrap_err();
    assert_eq!(err.kind, ParseErrorKind::UnsupportedImportBlock);
    assert_eq!(err.found, Some(Token::OpenBrace));
    let tokens = vec![Token::OpenBrace];
    assert_eq!(parse_using_block(&tokens, &mut 0).unwrap_err().kind, ParseErrorKind::UnsupportedImportBlock);
}

#[test]
fn empty_module() {
    let module = parse_source("").unwrap();
    assert_eq!(module, Module { name: main_name(), imports: vec![], functions: vec![], statements: StatementBlock::empty() });
}

#[test]
fn stray_closing_brace_is_an_error() {
    let err = parse_source("x = 1\n}\n").unwrap_err();
    assert_eq!(err.kind, ParseErrorKind::UnrecognisedTokenInStatement);
    assert_eq!(err.found, Some(Token::CloseBrace));
}

#[test]
fn error_messages_are_readable() {
    assert_eq!(
        ParseErrorKind::FunctionAfterStatements.message(),
        "Function blocks must come before any statements".to_string()
    );
}
