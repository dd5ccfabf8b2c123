use sheeppig::elements::{Identifier, Literal, Operator};
use sheeppig::expression_parser::{parse_atomic, parse_binary_expression_with_precedence, parse_expression};
use sheeppig::tokens::Token;
use sheeppig::tree::{AtomicExpression, Expression, FunctionCallExpression, ParenthesizedExpression};
use sheeppig::utils::ParseErrorKind;

fn lit(n: i64) -> Expression {
    Expression::Atomic(AtomicExpression::Literal(Literal::Integer(n)))
}

fn bin(left: Expression, operator: Operator, right: Expression) -> Expression {
    Expression::BinaryOperation { left: Box::new(left), operator, right: Box::new(right) }
}

fn ternary(condition: Expression, true_value: Expression, false_value: Expression) -> Expression {
    Expression::TernaryCondition {
        condition: Box::new(condition),
        true_value: Box::new(true_value),
        false_value: Box::new(false_value),
    }
}

#[test]
fn test_parse_power() {
    let tokens = vec![
        Token::Literal(Literal::Integer(1)),
        Token::Operator(Operator::Power),
        Token::Literal(Literal::Integer(2)),
        Token::Operator(Operator::Plus),
    ];
    let mut pos = 0;
    let result = parse_binary_expression_with_precedence(&tokens, &mut pos, 0).unwrap();

    let expected = bin(lit(1), Operator::Power, lit(2));

    assert_eq!(result, expected);
    assert_eq!(tokens[pos], Token::Operator(Operator::Plus));
}

#[test]
fn test_parse_unary() {
    let tokens = vec![
        Token::Operator(Operator::Minus),
        Token::Literal(Literal::Integer(1)),
        Token::Operator(Operator::Plus),
        Token::Literal(Literal::Integer(2)),
    ];
    let mut pos = 0;
    let result = parse_binary_expression_with_precedence(&tokens, &mut pos, 1).unwrap();

    let expected = Expression::UnaryOperation { operator: Operator::Minus, operand: Box::new(lit(1)) };

    assert_eq!(result, expected);
    assert_eq!(tokens[pos], Token::Operator(Operator::Plus));
}

#[test]
fn test_parse_unary_pass_through() {
    let tokens = vec![
        Token::Literal(Literal::Integer(1)),
        Token::Operator(Operator::Plus),
        Token::Literal(Literal::Integer(2)),
    ];
    let mut pos = 0;
    let result = parse_binary_expression_with_precedence(&tokens, &mut pos, 1).unwrap();

    let expected = lit(1);

    assert_eq!(result, expected);
    assert_eq!(tokens[pos], Token::Operator(Operator::Plus));
}

#[test]
fn test_unary_power_precedence() {
    let tokens = vec![
        Token::Operator(Operator::Minus),
        Token::Literal(Literal::Integer(1)),
        Token::Operator(Operator::Power),
        Token::Literal(Literal::Integer(2)),
    ];
    let mut pos = 0;
    let result = parse_binary_expression_with_precedence(&tokens, &mut pos, 1).unwrap();

    let expected = Expression::UnaryOperation { operator: Operator::Minus, operand: Box::new(bin(lit(1), Operator::Power, lit(2))) };

    assert_eq!(result, expected);
}

#[test]
fn test_factors() {
    let tokens = vec![
        Token::Literal(Literal::Integer(3)),
        Token::Operator(Operator::Times),
        Token::Literal(Literal::Integer(4)),
    ];
    let mut pos = 0;
    let result = parse_binary_expression_with_precedence(&tokens, &mut pos, 2).unwrap();

    let expected = bin(lit(3), Operator::Times, lit(4));

    assert_eq!(result, expected);
}

#[test]
fn test_factor_power_right_precedence() {
    let tokens = vec![
        Token::Literal(Literal::Integer(3)),
        Token::Operator(Operator::Times),
        Token::Literal(Literal::Integer(4)),
        Token::Operator(Operator::Power),
        Token::Literal(Literal::Integer(5)),
    ];
    let mut pos = 0;
    let result = parse_binary_expression_with_precedence(&tokens, &mut pos, 2).unwrap();

    let expected = bin(lit(3), Operator::Times, bin(lit(4), Operator::Power, lit(5)));

    assert_eq!(result, expected);
}

#[test]
fn test_factor_power_left_precedence() {
    let tokens = vec![
        Token::Literal(Literal::Integer(3)),
        Token::Operator(Operator::Power),
        Token::Literal(Literal::Integer(4)),
        Token::Operator(Operator::Times),
        Token::Literal(Literal::Integer(5)),
    ];
    let mut pos = 0;
    let result = parse_binary_expression_with_precedence(&tokens, &mut pos, 2).unwrap();

    let expected = bin(bin(lit(3), Operator::Power, lit(4)), Operator::Times, lit(5));

    assert_eq!(result, expected);
}

#[test]
fn test_sums() {
    let tokens = vec![
        Token::Literal(Literal::Integer(3)),
        Token::Operator(Operator::Plus),
        Token::Literal(Literal::Integer(4)),
    ];
    let mut pos = 0;
    let result = parse_binary_expression_with_precedence(&tokens, &mut pos, 3).unwrap();

    let expected = bin(lit(3), Operator::Plus, lit(4));

    assert_eq!(result, expected);
}

#[test]
fn test_sum_factors_right_precedence() {
    let tokens = vec![
        Token::Literal(Literal::Integer(3)),
        Token::Operator(Operator::Plus),
        Token::Literal(Literal::Integer(4)),
        Token::Operator(Operator::Times),
        Token::Literal(Literal::Integer(5)),
    ];
    let mut pos = 0;
    let result = parse_binary_expression_with_precedence(&tokens, &mut pos, 3).unwrap();

    let expected = bin(lit(3), Operator::Plus, bin(lit(4), Operator::Times, lit(5)));

    assert_eq!(result, expected);
}

#[test]
fn test_sum_factors_left_precedence() {
    let tokens = vec![
        Token::Literal(Literal::Integer(3)),
        Token::Operator(Operator::Times),
        Token::Literal(Literal::Integer(4)),
        Token::Operator(Operator::Plus),
        Token::Literal(Literal::Integer(5)),
    ];
    let mut pos = 0;
    let result = parse_binary_expression_with_precedence(&tokens, &mut pos, 3).unwrap();

    let expected = bin(bin(lit(3), Operator::Times, lit(4)), Operator::Plus, lit(5));

    assert_eq!(result, expected);
}

#[test]
fn test_parse_shift() {
    let tokens = vec![
        Token::Literal(Literal::Integer(3)),
        Token::Operator(Operator::BitwiseLeftShift),
        Token::Literal(Literal::Integer(4)),
    ];
    let mut pos = 0;
    let result = parse_binary_expression_with_precedence(&tokens, &mut pos, 4).unwrap();

    let expected = bin(lit(3), Operator::BitwiseLeftShift, lit(4));

    assert_eq!(result, expected);
}

#[test]
fn test_shift_sum_right_precedence() {
    let tokens = vec![
        Token::Literal(Literal::Integer(3)),
        Token::Operator(Operator::BitwiseLeftShift),
        Token::Literal(Literal::Integer(4)),
        Token::Operator(Operator::Plus),
        Token::Literal(Literal::Integer(5)),
    ];
    let mut pos = 0;
    let result = parse_binary_expression_with_precedence(&tokens, &mut pos, 4).unwrap();

    let expected = bin(lit(3), Operator::BitwiseLeftShift, bin(lit(4), Operator::Plus, lit(5)));

    assert_eq!(result, expected);
}

#[test]
fn test_shift_sum_left_precedence() {
    let tokens = vec![
        Token::Literal(Literal::Integer(3)),
        Token::Operator(Operator::Plus),
        Token::Literal(Literal::Integer(4)),
        Token::Operator(Operator::BitwiseLeftShift),
        Token::Literal(Literal::Integer(5)),
    ];
    let mut pos = 0;
    let result = parse_binary_expression_with_precedence(&tokens, &mut pos, 4).unwrap();

    let expected = bin(bin(lit(3), Operator::Plus, lit(4)), Operator::BitwiseLeftShift, lit(5));

    assert_eq!(result, expected);
}

#[test]
fn test_parse_relation() {
    let tokens = vec![
        Token::Literal(Literal::Integer(3)),
        Token::Operator(Operator::LessThan),
        Token::Literal(Literal::Integer(4)),
    ];
    let mut pos = 0;
    let result = parse_binary_expression_with_precedence(&tokens, &mut pos, 5).unwrap();

    let expected = bin(lit(3), Operator::LessThan, lit(4));

    assert_eq!(result, expected);
}

#[test]
fn test_relation_shift_right_precedence() {
    let tokens = vec![
        Token::Literal(Literal::Integer(3)),
        Token::Operator(Operator::LessThan),
        Token::Literal(Literal::Integer(4)),
        Token::Operator(Operator::BitwiseLeftShift),
        Token::Literal(Literal::Integer(5)),
    ];
    let mut pos = 0;
    let result = parse_binary_expression_with_precedence(&tokens, &mut pos, 5).unwrap();

    let expected = bin(lit(3), Operator::LessThan, bin(lit(4), Operator::BitwiseLeftShift, lit(5)));

    assert_eq!(result, expected);
}

#[test]
fn test_relation_shift_left_precedence() {
    let tokens = vec![
        Token::Literal(Literal::Integer(3)),
        Token::Operator(Operator::BitwiseLeftShift),
        Token::Literal(Literal::Integer(4)),
        Token::Operator(Operator::LessThan),
        Token::Literal(Literal::Integer(5)),
    ];
    let mut pos = 0;
    let result = parse_binary_expression_with_precedence(&tokens, &mut pos, 5).unwrap();

    let expected = bin(bin(lit(3), Operator::BitwiseLeftShift, lit(4)), Operator::LessThan, lit(5));

    assert_eq!(result, expected);
}

#[test]
fn test_parse_equality() {
    let tokens = vec![
        Token::Literal(Literal::Integer(3)),
        Token::Operator(Operator::Equal),
        Token::Literal(Literal::Integer(4)),
    ];
    let mut pos = 0;
    let result = parse_binary_expression_with_precedence(&tokens, &mut pos, 6).unwrap();

    let expected = bin(lit(3), Operator::Equal, lit(4));

    assert_eq!(result, expected);
}

#[test]
fn test_equality_relation_right_precedence() {
    let tokens = vec![
        Token::Literal(Literal::Integer(3)),
        Token::Operator(Operator::Equal),
        Token::Literal(Literal::Integer(4)),
        Token::Operator(Operator::LessThan),
        Token::Literal(Literal::Integer(5)),
    ];
    let mut pos = 0;
    let result = parse_binary_expression_with_precedence(&tokens, &mut pos, 6).unwrap();

    let expected = bin(lit(3), Operator::Equal, bin(lit(4), Operator::LessThan, lit(5)));

    assert_eq!(result, expected);
}

#[test]
fn test_equality_relation_left_precedence() {
    let tokens = vec![
        Token::Literal(Literal::Integer(3)),
        Token::Operator(Operator::LessThan),
        Token::Literal(Literal::Integer(4)),
        Token::Operator(Operator::Equal),
        Token::Literal(Literal::Integer(5)),
    ];
    let mut pos = 0;
    let result = parse_binary_expression_with_precedence(&tokens, &mut pos, 6).unwrap();

    let expected = bin(bin(lit(3), Operator::LessThan, lit(4)), Operator::Equal, lit(5));

    assert_eq!(result, expected);
}

#[test]
fn test_parse_bitwise_and() {
    let tokens = vec![
        Token::Literal(Literal::Integer(3)),
        Token::Operator(Operator::BitwiseAnd),
        Token::Literal(Literal::Integer(4)),
    ];
    let mut pos = 0;
    let result = parse_binary_expression_with_precedence(&tokens, &mut pos, 7).unwrap();

    let expected = bin(lit(3), Operator::BitwiseAnd, lit(4));

    assert_eq!(result, expected);
}

#[test]
fn test_bitwise_and_equality_right_precedence() {
    let tokens = vec![
        Token::Literal(Literal::Integer(3)),
        Token::Operator(Operator::BitwiseAnd),
        Token::Literal(Literal::Integer(4)),
        Token::Operator(Operator::Equal),
        Token::Literal(Literal::Integer(5)),
    ];
    let mut pos = 0;
    let result = parse_binary_expression_with_precedence(&tokens, &mut pos, 7).unwrap();

    let expected = bin(lit(3), Operator::BitwiseAnd, bin(lit(4), Operator::Equal, lit(5)));

    assert_eq!(result, expected);
}

#[test]
fn test_bitwise_and_equality_left_precedence() {
    let tokens = vec![
        Token::Literal(Literal::Integer(3)),
        Token::Operator(Operator::Equal),
        Token::Literal(Literal::Integer(4)),
        Token::Operator(Operator::BitwiseAnd),
        Token::Literal(Literal::Integer(5)),
    ];
    let mut pos = 0;
    let result = parse_binary_expression_with_precedence(&tokens, &mut pos, 7).unwrap();

    let expected = bin(bin(lit(3), Operator::Equal, lit(4)), Operator::BitwiseAnd, lit(5));

    assert_eq!(result, expected);
}

#[test]
fn test_parse_bitwise_xor() {
    let tokens = vec![
        Token::Literal(Literal::Integer(3)),
        Token::Operator(Operator::BitwiseXor),
        Token::Literal(Literal::Integer(4)),
    ];
    let mut pos = 0;
    let result = parse_binary_expression_with_precedence(&tokens, &mut pos, 8).unwrap();

    let expected = bin(lit(3), Operator::BitwiseXor, lit(4));

    assert_eq!(result, expected);
}

#[test]
fn test_bitwise_xor_bitwise_and_right_precedence() {
    let tokens = vec![
        Token::Literal(Literal::Integer(3)),
        Token::Operator(Operator::BitwiseXor),
        Token::Literal(Literal::Integer(4)),
        Token::Operator(Operator::BitwiseAnd),
        Token::Literal(Literal::Integer(5)),
    ];
    let mut pos = 0;
    let result = parse_binary_expression_with_precedence(&tokens, &mut pos, 8).unwrap();

    let expected = bin(lit(3), Operator::BitwiseXor, bin(lit(4), Operator::BitwiseAnd, lit(5)));

    assert_eq!(result, expected);
}

#[test]
fn test_bitwise_xor_bitwise_and_left_precedence() {
    let tokens = vec![
        Token::Literal(Literal::Integer(3)),
        Token::Operator(Operator::BitwiseAnd),
        Token::Literal(Literal::Integer(4)),
        Token::Operator(Operator::BitwiseXor),
        Token::Literal(Literal::Integer(5)),
    ];
    let mut pos = 0;
    let result = parse_binary_expression_with_precedence(&tokens, &mut pos, 8).unwrap();

    let expected = bin(bin(lit(3), Operator::BitwiseAnd, lit(4)), Operator::BitwiseXor, lit(5));

    assert_eq!(result, expected);
}

#[test]
fn test_parse_bitwise_or() {
    let tokens = vec![
        Token::Literal(Literal::Integer(3)),
        Token::Operator(Operator::BitwiseOr),
        Token::Literal(Literal::Integer(4)),
    ];
    let mut pos = 0;
    let result = parse_binary_expression_with_precedence(&tokens, &mut pos, 9).unwrap();

    let expected = bin(lit(3), Operator::BitwiseOr, lit(4));

    assert_eq!(result, expected);
}

#[test]
fn test_bitwise_or_bitwise_xor_right_precedence() {
    let tokens = vec![
        Token::Literal(Literal::Integer(3)),
        Token::Operator(Operator::BitwiseOr),
        Token::Literal(Literal::Integer(4)),
        Token::Operator(Operator::BitwiseXor),
        Token::Literal(Literal::Integer(5)),
    ];
    let mut pos = 0;
    let result = parse_binary_expression_with_precedence(&tokens, &mut pos, 9).unwrap();

    let expected = bin(lit(3), Operator::BitwiseOr, bin(lit(4), Operator::BitwiseXor, lit(5)));

    assert_eq!(result, expected);
}

#[test]
fn test_bitwise_or_bitwise_xor_left_precedence() {
    let tokens = vec![
        Token::Literal(Literal::Integer(3)),
        Token::Operator(Operator::BitwiseXor),
        Token::Literal(Literal::Integer(4)),
        Token::Operator(Operator::BitwiseOr),
        Token::Literal(Literal::Integer(5)),
    ];
    let mut pos = 0;
    let result = parse_binary_expression_with_precedence(&tokens, &mut pos, 9).unwrap();

    let expected = bin(bin(lit(3), Operator::BitwiseXor, lit(4)), Operator::BitwiseOr, lit(5));

    assert_eq!(result, expected);
}

#[test]
fn test_parse_logical_and() {
    let tokens = vec![
        Token::Literal(Literal::Integer(3)),
        Token::Operator(Operator::And),
        Token::Literal(Literal::Integer(4)),
    ];
    let mut pos = 0;
    let result = parse_binary_expression_with_precedence(&tokens, &mut pos, 10).unwrap();

    let expected = bin(lit(3), Operator::And, lit(4));

    assert_eq!(result, expected);
}

#[test]
fn test_logical_and_bitwise_or_right_precedence() {
    let tokens = vec![
        Token::Literal(Literal::Integer(3)),
        Token::Operator(Operator::And),
        Token::Literal(Literal::Integer(4)),
        Token::Operator(Operator::BitwiseOr),
        Token::Literal(Literal::Integer(5)),
    ];
    let mut pos = 0;
    let result = parse_binary_expression_with_precedence(&tokens, &mut pos, 10).unwrap();

    let expected = bin(lit(3), Operator::And, bin(lit(4), Operator::BitwiseOr, lit(5)));

    assert_eq!(result, expected);
}

#[test]
fn test_logical_and_bitwise_or_left_precedence() {
    let tokens = vec![
        Token::Literal(Literal::Integer(3)),
        Token::Operator(Operator::BitwiseOr),
        Token::Literal(Literal::Integer(4)),
        Token::Operator(Operator::And),
        Token::Literal(Literal::Integer(5)),
    ];
    let mut pos = 0;
    let result = parse_binary_expression_with_precedence(&tokens, &mut pos, 10).unwrap();

    let expected = bin(bin(lit(3), Operator::BitwiseOr, lit(4)), Operator::And, lit(5));

    assert_eq!(result, expected);
}

#[test]
fn test_parse_logical_or() {
    let tokens = vec![
        Token::Literal(Literal::Integer(3)),
        Token::Operator(Operator::Or),
        Token::Literal(Literal::Integer(4)),
    ];
    let mut pos = 0;
    let result = parse_binary_expression_with_precedence(&tokens, &mut pos, 11).unwrap();

    let expected = bin(lit(3), Operator::Or, lit(4));

    assert_eq!(result, expected);
}

#[test]
fn test_logical_or_logical_and_right_precedence() {
    let tokens = vec![
        Token::Literal(Literal::Integer(3)),
        Token::Operator(Operator::Or),
        Token::Literal(Literal::Integer(4)),
        Token::Operator(Operator::And),
        Token::Literal(Literal::Integer(5)),
    ];
    let mut pos = 0;
    let result = parse_binary_expression_with_precedence(&tokens, &mut pos, 11).unwrap();

    let expected = bin(lit(3), Operator::Or, bin(lit(4), Operator::And, lit(5)));

    assert_eq!(result, expected);
}

#[test]
fn test_logical_or_logical_and_left_precedence() {
    let tokens = vec![
        Token::Literal(Literal::Integer(3)),
        Token::Operator(Operator::And),
        Token::Literal(Literal::Integer(4)),
        Token::Operator(Operator::Or),
        Token::Literal(Literal::Integer(5)),
    ];
    let mut pos = 0;
    let result = parse_binary_expression_with_precedence(&tokens, &mut pos, 11).unwrap();

    let expected = bin(bin(lit(3), Operator::And, lit(4)), Operator::Or, lit(5));

    assert_eq!(result, expected);
}

#[test]
fn test_parse_atomic_literal() {
    let tokens = vec![
        Token::Literal(Literal::Integer(1)),
        Token::Newline,
        Token::Literal(Literal::String("This is the next expression".to_string())),
    ];
    let mut pos = 0;

    let expected = Expression::Atomic(AtomicExpression::Literal(Literal::Integer(1)));

    assert_eq!(parse_atomic(&tokens, &mut pos).unwrap(), expected);
    assert_eq!(Token::Newline, tokens[pos]);
}

#[test]
fn test_parse_atomic_identifier() {
    let tokens = vec![
        Token::Identifier(Identifier::Simple("identifier".to_string())),
        Token::Operator(Operator::Plus),
        Token::Literal(Literal::String("This is the next expression".to_string())),
    ];
    let mut pos = 0;

    let expected = Expression::Atomic(AtomicExpression::Identifier(Identifier::Simple(
        "identifier".to_string(),
    )));

    assert_eq!(parse_atomic(&tokens, &mut pos).unwrap(), expected);
    assert_eq!(Token::Operator(Operator::Plus), tokens[pos]);
}

#[test]
fn test_parse_expression_with_ternary() {
    let tokens = vec![
        Token::Literal(Literal::Integer(3)),
        Token::TernaryCondition,
        Token::Literal(Literal::Integer(4)),
        Token::Colon,
        Token::Literal(Literal::Integer(5)),
    ];
    let expected = ternary(lit(3), lit(4), lit(5));
    assert_eq!(parse_expression(&tokens, &mut 0).unwrap(), expected);
}

#[test]
fn test_ternary_logical_or_left_precedence() {
    let tokens = vec![
        Token::Literal(Literal::Integer(3)),
        Token::Operator(Operator::Or),
        Token::Literal(Literal::Integer(4)),
        Token::TernaryCondition,
        Token::Literal(Literal::Integer(5)),
        Token::Colon,
        Token::Literal(Literal::Integer(6)),
    ];
    let expected = ternary(bin(lit(3), Operator::Or, lit(4)), lit(5), lit(6));
    assert_eq!(parse_expression(&tokens, &mut 0).unwrap(), expected);
}

#[test]
fn test_ternary_logical_or_middle_precedence() {
    let tokens = vec![
        Token::Literal(Literal::Integer(3)),
        Token::TernaryCondition,
        Token::Literal(Literal::Integer(4)),
        Token::Operator(Operator::Or),
        Token::Literal(Literal::Integer(5)),
        Token::Colon,
        Token::Literal(Literal::Integer(6)),
    ];
    let expected = ternary(lit(3), bin(lit(4), Operator::Or, lit(5)), lit(6));
    assert_eq!(parse_expression(&tokens, &mut 0).unwrap(), expected);
}

#[test]
fn test_ternary_logical_or_right_precedence() {
    let tokens = vec![
        Token::Literal(Literal::Integer(3)),
        Token::TernaryCondition,
        Token::Literal(Literal::Integer(4)),
        Token::Colon,
        Token::Literal(Literal::Integer(5)),
        Token::Operator(Operator::Or),
        Token::Literal(Literal::Integer(6)),
    ];
    let expected = ternary(lit(3), lit(4), bin(lit(5), Operator::Or, lit(6)));
    assert_eq!(parse_expression(&tokens, &mut 0).unwrap(), expected);
}

fn ident(s: &str) -> Token {
    Token::Identifier(Identifier::Simple(s.to_string()))
}

fn ident_expr(s: &str) -> Expression {
    Expression::Atomic(AtomicExpression::Identifier(Identifier::Simple(s.to_string())))
}

#[test]
fn power_is_right_associative() {
    let tokens = vec![
        Token::Literal(Literal::Integer(1)),
        Token::Operator(Operator::Power),
        Token::Literal(Literal::Integer(2)),
        Token::Operator(Operator::Power),
        Token::Literal(Literal::Integer(3)),
    ];
    let expected = bin(lit(1), Operator::Power, bin(lit(2), Operator::Power, lit(3)));
    assert_eq!(parse_expression(&tokens, &mut 0).unwrap(), expected);
}

#[test]
fn nested_ternary_goes_into_the_false_branch() {
    let tokens = vec![
        ident("a"),
        Token::TernaryCondition,
        ident("b"),
        Token::Colon,
        ident("c"),
        Token::TernaryCondition,
        ident("d"),
        Token::Colon,
        ident("e"),
    ];
    let expected = ternary(
        ident_expr("a"),
        ident_expr("b"),
        ternary(ident_expr("c"), ident_expr("d"), ident_expr("e")),
    );
    assert_eq!(parse_expression(&tokens, &mut 0).unwrap(), expected);
}

#[test]
fn tighter_operator_is_the_deeper_node() {
    // a * b + c and a + b * c: the multiplication is deeper either way
    let t1 = vec![ident("a"), Token::Operator(Operator::Times), ident("b"), Token::Operator(Operator::Plus), ident("c")];
    let e1 = bin(bin(ident_expr("a"), Operator::Times, ident_expr("b")), Operator::Plus, ident_expr("c"));
    assert_eq!(parse_expression(&t1, &mut 0).unwrap(), e1);
    let t2 = vec![ident("a"), Token::Operator(Operator::Plus), ident("b"), Token::Operator(Operator::Times), ident("c")];
    let e2 = bin(ident_expr("a"), Operator::Plus, bin(ident_expr("b"), Operator::Times, ident_expr("c")));
    assert_eq!(parse_expression(&t2, &mut 0).unwrap(), e2);
}

#[test]
fn same_level_operators_nest_to_the_right() {
    let t = vec![ident("a"), Token::Operator(Operator::Minus), ident("b"), Token::Operator(Operator::Minus), ident("c")];
    let e = bin(ident_expr("a"), Operator::Minus, bin(ident_expr("b"), Operator::Minus, ident_expr("c")));
    assert_eq!(parse_expression(&t, &mut 0).unwrap(), e);
}

#[test]
fn double_prefix_operators_nest() {
    let t = vec![Token::Operator(Operator::Minus), Token::Operator(Operator::Minus), ident("x")];
    let e = Expression::UnaryOperation {
        operator: Operator::Minus,
        operand: Box::new(Expression::UnaryOperation {
            operator: Operator::Minus,
            operand: Box::new(ident_expr("x")),
        }),
    };
    assert_eq!(parse_expression(&t, &mut 0).unwrap(), e);
}

#[test]
fn function_call_with_arguments_and_newlines() {
    let t = vec![
        ident("f"),
        Token::OpenParen,
        Token::Literal(Literal::Integer(1)),
        Token::ListSeparator,
        Token::Newline,
        ident("x"),
        Token::Newline,
        Token::CloseParen,
        Token::Newline,
    ];
    let mut pos = 0;
    let e = Expression::Atomic(AtomicExpression::FunctionCall(FunctionCallExpression {
        name: Identifier::Simple("f".to_string()),
        parameters: vec![lit(1), ident_expr("x")],
    }));
    assert_eq!(parse_expression(&t, &mut pos).unwrap(), e);
    assert_eq!(pos, 8);
}

#[test]
fn parenthesized_expression() {
    let t = vec![
        Token::OpenParen,
        Token::Literal(Literal::Integer(1)),
        Token::Operator(Operator::Plus),
        Token::Literal(Literal::Integer(2)),
        Token::CloseParen,
        Token::Operator(Operator::Times),
        Token::Literal(Literal::Integer(3)),
    ];
    let e = bin(
        Expression::Atomic(AtomicExpression::Parenthesized(ParenthesizedExpression {
            value: Box::new(bin(lit(1), Operator::Plus, lit(2))),
        })),
        Operator::Times,
        lit(3),
    );
    assert_eq!(parse_expression(&t, &mut 0).unwrap(), e);
}

#[test]
fn missing_closing_parenthesis_is_an_error() {
    let t = vec![Token::OpenParen, Token::Literal(Literal::Integer(1)), Token::Newline];
    let err = parse_expression(&t, &mut 0).unwrap_err();
    assert_eq!(err.kind, ParseErrorKind::ExpectedClosingParenthesis);
    assert_eq!(err.found, Some(Token::Newline));
}

#[test]
fn missing_ternary_colon_is_an_error() {
    let t = vec![ident("a"), Token::TernaryCondition, ident("b")];
    let err = parse_expression(&t, &mut 0).unwrap_err();
    assert_eq!(err.kind, ParseErrorKind::ExpectedTernaryColon);
    assert_eq!(err.found, None);
}

#[test]
fn operator_where_an_operand_is_expected_is_an_error() {
    let t = vec![Token::Operator(Operator::Times), ident("a")];
    let err = parse_expression(&t, &mut 0).unwrap_err();
    assert_eq!(err.kind, ParseErrorKind::OperatorNotAllowedInUnary);
    assert_eq!(err.found, Some(Token::Operator(Operator::Times)));
    let err = parse_expression(&[], &mut 0).unwrap_err();
    assert_eq!(err.kind, ParseErrorKind::ExpectedAtomicExpression);
    assert_eq!(err.found, None);
}

#[test]
fn empty_argument_slots_are_errors() {
    let t = vec![ident("f"), Token::OpenParen, ident("a"), Token::ListSeparator, Token::ListSeparator, ident("b"), Token::CloseParen];
    let err = parse_expression(&t, &mut 0).unwrap_err();
    assert_eq!(err.kind, ParseErrorKind::ExpectedParameter);
    assert_eq!(err.found, Some(Token::ListSeparator));
    let t = vec![ident("f"), Token::OpenParen, ident("a"), Token::ListSeparator, Token::CloseParen];
    let err = parse_expression(&t, &mut 0).unwrap_err();
    assert_eq!(err.kind, ParseErrorKind::ExpectedParameter);
    assert_eq!(err.found, Some(Token::CloseParen));
}
