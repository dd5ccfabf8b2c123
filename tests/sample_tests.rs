use sheeppig::elements::{Identifier, Keyword, Literal, Operator};
use sheeppig::lexer::tokenize;
use sheeppig::module_parser::parse;
use sheeppig::preprocessor::preprocess;
use sheeppig::tokens::Token;
use sheeppig::tree::{
    AtomicExpression, DeclarationStatement, Expression, Function, FunctionCallExpression, Module,
    Statement, StatementBlock,
};

fn front_end_tokens(source: &str) -> Vec<Token> {
    preprocess(&tokenize(source).unwrap()).unwrap()
}

/// An expected token; floats are compared by value.
enum Want {
    T(Token),
    F(f64),
}

fn check(tokens: &[Token], expected: Vec<Want>) {
    assert_eq!(tokens.len(), expected.len(), "{:?}", tokens);
    for (t, w) in tokens.iter().zip(expected.iter()) {
        match w {
            Want::T(e) => assert_eq!(t, e),
            Want::F(v) => match t {
                Token::Literal(Literal::Float(text)) => assert_eq!(text.parse::<f64>().unwrap(), *v),
                other => panic!("expected the float {}, found {:?}", v, other),
            },
        }
    }
}

fn id(s: &str) -> Want {
    Want::T(Token::Identifier(Identifier::Simple(s.to_string())))
}

fn integer(n: i64) -> Want {
    Want::T(Token::Literal(Literal::Integer(n)))
}

fn op(o: Operator) -> Want {
    Want::T(Token::Operator(o))
}

fn kw(k: Keyword) -> Want {
    Want::T(Token::Keyword(k))
}

fn t(token: Token) -> Want {
    Want::T(token)
}

#[test]
fn test_tokenise_hello_world() {
    let tokens = front_end_tokens("fun hello_world() {\n    print(\"Hello, world!\")\n}");
    check(
        &tokens,
        vec![
            kw(Keyword::Function),
            id("hello_world"),
            t(Token::OpenParen),
            t(Token::CloseParen),
            t(Token::OpenBrace),
            id("print"),
            t(Token::OpenParen),
            t(Token::Literal(Literal::String("Hello, world!".to_string()))),
            t(Token::CloseParen),
            t(Token::Newline),
            t(Token::CloseBrace),
            t(Token::EndOfModule),
        ],
    );
}

#[test]
fn test_tokenise_adding() {
    let tokens = front_end_tokens("fun add(a: int, b: int): int {\n    return a + b\n}");
    check(
        &tokens,
        vec![
            kw(Keyword::Function),
            id("add"),
            t(Token::OpenParen),
            id("a"),
            t(Token::Colon),
            id("int"),
            t(Token::ListSeparator),
            id("b"),
            t(Token::Colon),
            id("int"),
            t(Token::CloseParen),
            t(Token::Colon),
            id("int"),
            t(Token::OpenBrace),
            kw(Keyword::Return),
            id("a"),
            op(Operator::Plus),
            id("b"),
            t(Token::Newline),
            t(Token::CloseBrace),
            t(Token::EndOfModule),
        ],
    );
}

#[test]
fn test_tokenise_conditional() {
    let source = "fun main() {\n    var a = 6\n    b = 'b'\n    if 1.2 <= 3 {\n        a = a * 2\n    } else {\n        a = 5 < 4 ? 6 : 7\n    }\n}";
    let tokens = front_end_tokens(source);
    check(
        &tokens,
        vec![
            kw(Keyword::Function),
            id("main"),
            t(Token::OpenParen),
            t(Token::CloseParen),
            t(Token::OpenBrace),
            kw(Keyword::Variable),
            id("a"),
            t(Token::Assign),
            integer(6),
            t(Token::Newline),
            id("b"),
            t(Token::Assign),
            t(Token::Literal(Literal::Char('b'))),
            t(Token::Newline),
            kw(Keyword::If),
            Want::F(1.2),
            op(Operator::LessThanOrEqual),
            integer(3),
            t(Token::OpenBrace),
            id("a"),
            t(Token::Assign),
            id("a"),
            op(Operator::Times),
            integer(2),
            t(Token::Newline),
            t(Token::CloseBrace),
            kw(Keyword::Else),
            t(Token::OpenBrace),
            id("a"),
            t(Token::Assign),
            integer(5),
            op(Operator::LessThan),
            integer(4),
            t(Token::TernaryCondition),
            integer(6),
            t(Token::Colon),
            integer(7),
            t(Token::Newline),
            t(Token::CloseBrace),
            t(Token::Newline),
            t(Token::CloseBrace),
            t(Token::EndOfModule),
        ],
    );
}

#[test]
fn test_tokenise_import() {
    let source = "using {\n    sqrt as square_root from math.utils\n    sin, cos from math.trig\n}\nfun main() {\n}";
    let tokens = front_end_tokens(source);
    let compound = |a: &str, b: &str| {
        t(Token::Identifier(Identifier::Compound(vec![a.to_string(), b.to_string()])))
    };
    check(
        &tokens,
        vec![
            kw(Keyword::Using),
            t(Token::OpenBrace),
            id("sqrt"),
            kw(Keyword::As),
            id("square_root"),
            kw(Keyword::From),
            compound("math", "utils"),
            t(Token::Newline),
            id("sin"),
            t(Token::ListSeparator),
            id("cos"),
            kw(Keyword::From),
            compound("math", "trig"),
            t(Token::Newline),
            t(Token::CloseBrace),
            t(Token::Newline),
            kw(Keyword::Function),
            id("main"),
            t(Token::OpenParen),
            t(Token::CloseParen),
            t(Token::OpenBrace),
            t(Token::CloseBrace),
            t(Token::EndOfModule),
        ],
    );
}

#[test]
fn test_tokenise_arrays_and_numbers() {
    let source = "fun array_stuff() {\n    array = [1, 23, 4.5, 0.0123, 6_789_012, 1234.56789, 1_000_000., 1e-6, 1.34e6]\n}";
    let tokens = front_end_tokens(source);
    check(
        &tokens,
        vec![
            kw(Keyword::Function),
            id("array_stuff"),
            t(Token::OpenParen),
            t(Token::CloseParen),
            t(Token::OpenBrace),
            id("array"),
            t(Token::Assign),
            t(Token::OpenSquareBracket),
            integer(1),
            t(Token::ListSeparator),
            integer(23),
            t(Token::ListSeparator),
            Want::F(4.5),
            t(Token::ListSeparator),
            Want::F(0.0123),
            t(Token::ListSeparator),
            integer(6789012),
            t(Token::ListSeparator),
            Want::F(1234.56789),
            t(Token::ListSeparator),
            Want::F(1000000.0),
            t(Token::ListSeparator),
            Want::F(0.000001),
            t(Token::ListSeparator),
            Want::F(1340000.0),
            t(Token::CloseSquareBracket),
            t(Token::Newline),
            t(Token::CloseBrace),
            t(Token::EndOfModule),
        ],
    );
}

#[test]
fn test_tokenise_arithmetic() {
    let source = "fun math_fun() {\n    a = (1 + 2 - 3) / 4 * 5 % 6 ** 7\n    b += 7\n    long_expression = 123 - 456 + 789 * 123 / 456 % 789\n    logic = 1 & 2 | 3 ^ 4 << 5 >> 6\n    bitwise_not = ~5\n    negative = -5\n    compare = (1 < 2) && (3 > 4) || !(5 <= 6) || 7 == 8 || 9 >= 10 && 5 != 6\n}";
    let tokens = front_end_tokens(source);
    check(
        &tokens,
        vec![
            kw(Keyword::Function),
            id("math_fun"),
            t(Token::OpenParen),
            t(Token::CloseParen),
            t(Token::OpenBrace),
            id("a"),
            t(Token::Assign),
            t(Token::OpenParen),
            integer(1),
            op(Operator::Plus),
            integer(2),
            op(Operator::Minus),
            integer(3),
            t(Token::CloseParen),
            op(Operator::Divide),
            integer(4),
            op(Operator::Times),
            integer(5),
            op(Operator::Modulo),
            integer(6),
            op(Operator::Power),
            integer(7),
            t(Token::Newline),
            id("b"),
            op(Operator::Plus),
            t(Token::Assign),
            integer(7),
            t(Token::Newline),
            id("long_expression"),
            t(Token::Assign),
            integer(123),
            op(Operator::Minus),
            integer(456),
            op(Operator::Plus),
            integer(789),
            op(Operator::Times),
            integer(123),
            op(Operator::Divide),
            integer(456),
            op(Operator::Modulo),
            integer(789),
            t(Token::Newline),
            id("logic"),
            t(Token::Assign),
            integer(1),
            op(Operator::BitwiseAnd),
            integer(2),
            op(Operator::BitwiseOr),
            integer(3),
            op(Operator::BitwiseXor),
            integer(4),
            op(Operator::BitwiseLeftShift),
            integer(5),
            op(Operator::BitwiseRightShift),
            integer(6),
            t(Token::Newline),
            id("bitwise_not"),
            t(Token::Assign),
            op(Operator::BitwiseNot),
            integer(5),
            t(Token::Newline),
            id("negative"),
            t(Token::Assign),
            op(Operator::Minus),
            integer(5),
            t(Token::Newline),
            id("compare"),
            t(Token::Assign),
            t(Token::OpenParen),
            integer(1),
            op(Operator::LessThan),
            integer(2),
            t(Token::CloseParen),
            op(Operator::And),
            t(Token::OpenParen),
            integer(3),
            op(Operator::GreaterThan),
            integer(4),
            t(Token::CloseParen),
            op(Operator::Or),
            op(Operator::Not),
            t(Token::OpenParen),
            integer(5),
            op(Operator::LessThanOrEqual),
            integer(6),
            t(Token::CloseParen),
            op(Operator::Or),
            integer(7),
            op(Operator::Equal),
            integer(8),
            op(Operator::Or),
            integer(9),
            op(Operator::GreaterThanOrEqual),
            integer(10),
            op(Operator::And),
            integer(5),
            op(Operator::NotEqual),
            integer(6),
            t(Token::Newline),
            t(Token::CloseBrace),
            t(Token::EndOfModule),
        ],
    );
}

#[test]
fn test_tokenise_comments() {
    let source = "fun main() { # the entry point\n    a = 1 # one\n    /* two */ b = 1 + 2\n    c = 3 /* spans\n    lines */\n}";
    let tokens = front_end_tokens(source);
    check(
        &tokens,
        vec![
            kw(Keyword::Function),
            id("main"),
            t(Token::OpenParen),
            t(Token::CloseParen),
            t(Token::OpenBrace),
            id("a"),
            t(Token::Assign),
            integer(1),
            t(Token::Newline),
            id("b"),
            t(Token::Assign),
            integer(1),
            op(Operator::Plus),
            integer(2),
            t(Token::Newline),
            id("c"),
            t(Token::Assign),
            integer(3),
            t(Token::Newline),
            t(Token::CloseBrace),
            t(Token::EndOfModule),
        ],
    );
}

fn literal(n: i64) -> Expression {
    Expression::Atomic(AtomicExpression::Literal(Literal::Integer(n)))
}

#[test]
fn test_parse_hello_world() {
    let tokens = front_end_tokens("fun main() {\n    print(\"Hello, world!\")\n}\n");
    let tree = parse(&tokens).unwrap();

    let func_call = FunctionCallExpression {
        name: Identifier::Simple("print".to_string()),
        parameters: vec![Expression::Atomic(AtomicExpression::Literal(Literal::String(
            "Hello, world!".to_string(),
        )))],
    };

    let func_body = Box::new(StatementBlock {
        statements: vec![Statement::Expression(Expression::Atomic(AtomicExpression::FunctionCall(
            func_call,
        )))],
    });

    let expected = Module {
        name: Identifier::Simple("main".to_string()),
        imports: vec![],
        functions: vec![Function {
            name: Identifier::Simple("main".to_string()),
            parameters: vec![],
            return_type: None,
            body: func_body,
        }],
        statements: StatementBlock::empty(),
    };

    assert_eq!(tree, expected);
}

#[test]
fn test_parse_comments() {
    let source = "fun main() {\n    var a: int = 1 # one\n    b: int = 1 + /* two */ 2\n    c: int = 3 /* three */\n}\n";
    let tree = parse(&front_end_tokens(source)).unwrap();

    let func_body = Box::new(StatementBlock {
        statements: vec![
            Statement::Declaration(DeclarationStatement {
                name: Identifier::Simple("a".to_string()),
                var_type: Identifier::Simple("int".to_string()),
                value: literal(1),
                is_mutable: true,
            }),
            Statement::Declaration(DeclarationStatement {
                name: Identifier::Simple("b".to_string()),
                var_type: Identifier::Simple("int".to_string()),
                value: Expression::BinaryOperation {
                    left: Box::new(literal(1)),
                    operator: Operator::Plus,
                    right: Box::new(literal(2)),
                },
                is_mutable: false,
            }),
            Statement::Declaration(DeclarationStatement {
                name: Identifier::Simple("c".to_string()),
                var_type: Identifier::Simple("int".to_string()),
                value: literal(3),
                is_mutable: false,
            }),
        ],
    });

    let expected = Module {
        name: Identifier::Simple("main".to_string()),
        imports: vec![],
        functions: vec![Function {
            name: Identifier::Simple("main".to_string()),
            parameters: vec![],
            return_type: None,
            body: func_body,
        }],
        statements: StatementBlock::empty(),
    };

    assert_eq!(tree, expected);
}
