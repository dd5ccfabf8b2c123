//! Expressions: precedence climbing over twelve levels, a trailing ternary,
//! and atoms (literals, identifiers, calls, parenthesized expressions).
use vstd::prelude::*;

use crate::elements::{Identifier, IdentifierV, Literal, Operator};
use crate::tokens::{tokens_view, Token, TokenV};
use crate::tree::{
    AtomicExpression, AtomicV, Expression, ExpressionV, FunctionCallExpression,
    ParenthesizedExpression, atomic_view, expression_view, expressions_view,
};
use crate::utils::{error_at, error_at_index, token_at, ParseError, ParseErrorKind, ParseErrorV};

verus! {

/// The number of precedence levels; level 0 binds tightest.
pub const NUM_PRECEDENCE_LEVELS: usize = 12;

/// Whether `op` is a binary operator of precedence level `level`: 0 power,
/// 1 the prefix operators, 2 multiplicative, 3 additive, 4 shifts,
/// 5 relational, 6 equality, 7 bitwise and, 8 bitwise xor, 9 bitwise or,
/// 10 logical and, 11 logical or.
pub open spec fn binds_at(op: Operator, level: int) -> bool {
    match op {
        Operator::Power => level == 0,
        Operator::Times | Operator::Divide | Operator::Modulo => level == 2,
        Operator::Plus | Operator::Minus => level == 3,
        Operator::BitwiseLeftShift | Operator::BitwiseRightShift => level == 4,
        Operator::LessThan | Operator::LessThanOrEqual | Operator::GreaterThan
        | Operator::GreaterThanOrEqual => level == 5,
        Operator::Equal | Operator::NotEqual => level == 6,
        Operator::BitwiseAnd => level == 7,
        Operator::BitwiseXor => level == 8,
        Operator::BitwiseOr => level == 9,
        Operator::And => level == 10,
        Operator::Or => level == 11,
        Operator::Not | Operator::BitwiseNot => false,
    }
}

/// The operators that may stand before an operand.
pub open spec fn is_prefix(op: Operator) -> bool {
    op == Operator::Plus || op == Operator::Minus || op == Operator::Not || op
        == Operator::BitwiseNot
}

/// The number of tokens from `p` on.
pub open spec fn remaining(ts: Seq<TokenV>, p: int) -> int {
    if p <= ts.len() {
        ts.len() - p
    } else {
        0
    }
}

/// Where an argument list stands: at its start, just after a comma, or just
/// after an argument.
pub enum ListState {
    Start,
    AfterComma,
    AfterItem,
}

/// The expression at `p`: an operator expression, optionally followed by
/// `? true_value : false_value`; with the number of tokens it takes.
pub open spec fn parse_expr(ts: Seq<TokenV>, p: int) -> Result<(ExpressionV, nat), ParseErrorV>
    decreases remaining(ts, p), 13int,
{
    match parse_level(ts, p, 11) {
        Err(e) => Err(e),
        Ok((left, k)) => {
            let q = p + k;
            if 0 <= q < ts.len() && ts[q] is TernaryCondition {
                match parse_expr(ts, q + 1) {
                    Err(e) => Err(e),
                    Ok((true_value, k2)) => {
                        let r = q + 1 + k2;
                        if 0 <= r < ts.len() && ts[r] is Colon {
                            match parse_expr(ts, r + 1) {
                                Err(e) => Err(e),
                                Ok((false_value, k3)) => Ok(
                                    (
                                        ExpressionV::Ternary {
                                            condition: Box::new(left),
                                            true_value: Box::new(true_value),
                                            false_value: Box::new(false_value),
                                        },
                                        k + 1 + k2 + 1 + k3,
                                    ),
                                ),
                            }
                        } else {
                            Err(error_at(ParseErrorKind::ExpectedTernaryColon, ts, r))
                        }
                    },
                }
            } else {
                Ok((left, k))
            }
        },
    }
}

/// The expression at `p` of precedence level `level` or tighter. Every binary
/// level parses the next tighter level, then, after an operator of its own
/// level, itself again: its operators associate to the right.
pub open spec fn parse_level(ts: Seq<TokenV>, p: int, level: nat) -> Result<
    (ExpressionV, nat),
    ParseErrorV,
>
    decreases remaining(ts, p), level + 1,
{
    if level == 1 {
        if 0 <= p < ts.len() && ts[p] is Operator {
            let op = ts[p]->Operator_0;
            if is_prefix(op) {
                match parse_level(ts, p + 1, 1) {
                    Err(e) => Err(e),
                    Ok((operand, k)) => Ok(
                        (ExpressionV::Unary { operator: op, operand: Box::new(operand) }, k + 1),
                    ),
                }
            } else {
                Err(error_at(ParseErrorKind::OperatorNotAllowedInUnary, ts, p))
            }
        } else {
            parse_level(ts, p, 0)
        }
    } else {
        let left = if level == 0 {
            parse_atom(ts, p)
        } else {
            parse_level(ts, p, (level - 1) as nat)
        };
        match left {
            Err(e) => Err(e),
            Ok((l, k)) => {
                let q = p + k;
                if 0 <= q < ts.len() && ts[q] is Operator && binds_at(ts[q]->Operator_0, level as int) {
                    match parse_level(ts, q + 1, level) {
                        Err(e) => Err(e),
                        Ok((r, k2)) => Ok(
                            (
                                ExpressionV::Binary {
                                    left: Box::new(l),
                                    operator: ts[q]->Operator_0,
                                    right: Box::new(r),
                                },
                                k + 1 + k2,
                            ),
                        ),
                    }
                } else {
                    Ok((l, k))
                }
            },
        }
    }
}

/// The atomic expression at `p`: a literal, a parenthesized expression, a
/// function call or an identifier.
pub open spec fn parse_atom(ts: Seq<TokenV>, p: int) -> Result<(ExpressionV, nat), ParseErrorV>
    decreases remaining(ts, p), 0int,
{
    if 0 <= p < ts.len() {
        match ts[p] {
            TokenV::Literal(l) => Ok((ExpressionV::Atomic(AtomicV::Literal(l)), 1)),
            TokenV::OpenParen => match parse_expr(ts, p + 1) {
                Err(e) => Err(e),
                Ok((e, k)) => if p + 1 + k < ts.len() && ts[p + 1 + k] is CloseParen {
                    Ok((ExpressionV::Atomic(AtomicV::Parenthesized(Box::new(e))), k + 2))
                } else {
                    Err(error_at(ParseErrorKind::ExpectedClosingParenthesis, ts, p + 1 + k))
                },
            },
            TokenV::Identifier(id) => if p + 1 < ts.len() && ts[p + 1] is OpenParen {
                match parse_args(ts, p + 2, seq![], ListState::Start) {
                    Err(e) => Err(e),
                    Ok((args, k)) => Ok(
                        (
                            ExpressionV::Atomic(AtomicV::FunctionCall { name: id, parameters: args }),
                            k + 2,
                        ),
                    ),
                }
            } else {
                Ok((ExpressionV::Atomic(AtomicV::Identifier(id)), 1))
            },
            _ => Err(error_at(ParseErrorKind::ExpectedAtomicExpression, ts, p)),
        }
    } else {
        Err(error_at(ParseErrorKind::ExpectedAtomicExpression, ts, p))
    }
}

/// The rest of a call's argument list from `p` on, `args` holding the
/// arguments before `p`: the arguments and the number of tokens up to and
/// including the closing parenthesis. Newlines are skipped; an empty slot is
/// an error.
pub open spec fn parse_args(ts: Seq<TokenV>, p: int, args: Seq<ExpressionV>, state: ListState) -> Result<
    (Seq<ExpressionV>, nat),
    ParseErrorV,
>
    decreases remaining(ts, p), if state is AfterItem {
        14int
    } else {
        15int
    },
{
    if 0 <= p < ts.len() {
        let t = ts[p];
        if t is Newline {
            match parse_args(ts, p + 1, args, state) {
                Err(e) => Err(e),
                Ok((a, k)) => Ok((a, k + 1)),
            }
        } else if t is CloseParen {
            if state is AfterComma {
                Err(error_at(ParseErrorKind::ExpectedParameter, ts, p))
            } else {
                Ok((args, 1))
            }
        } else if t is ListSeparator {
            if state is AfterItem {
                match parse_args(ts, p + 1, args, ListState::AfterComma) {
                    Err(e) => Err(e),
                    Ok((a, k)) => Ok((a, k + 1)),
                }
            } else {
                Err(error_at(ParseErrorKind::ExpectedParameter, ts, p))
            }
        } else if state is AfterItem {
            Err(error_at(ParseErrorKind::ExpectedClosingParenthesis, ts, p))
        } else {
            match parse_expr(ts, p) {
                Err(e) => Err(e),
                Ok((e, k)) => match parse_args(ts, p + k, args.push(e), ListState::AfterItem) {
                    Err(e) => Err(e),
                    Ok((a, k2)) => Ok((a, k + k2)),
                },
            }
        }
    } else {
        Err(error_at(ParseErrorKind::ExpectedClosingParenthesis, ts, p))
    }
}

/// The precedence level of a binary operator (see [`binds_at`]); -1 for the
/// operators that are prefix only.
pub open spec fn level_of(op: Operator) -> int {
    match op {
        Operator::Power => 0,
        Operator::Times | Operator::Divide | Operator::Modulo => 2,
        Operator::Plus | Operator::Minus => 3,
        Operator::BitwiseLeftShift | Operator::BitwiseRightShift => 4,
        Operator::LessThan | Operator::LessThanOrEqual | Operator::GreaterThan
        | Operator::GreaterThanOrEqual => 5,
        Operator::Equal | Operator::NotEqual => 6,
        Operator::BitwiseAnd => 7,
        Operator::BitwiseXor => 8,
        Operator::BitwiseOr => 9,
        Operator::And => 10,
        Operator::Or => 11,
        Operator::Not | Operator::BitwiseNot => -1,
    }
}

/// A token that is an operand by itself: a literal or an identifier.
pub open spec fn is_operand(t: TokenV) -> bool {
    t is Literal || t is Identifier
}

pub open spec fn operand_expression(t: TokenV) -> ExpressionV {
    match t {
        TokenV::Literal(l) => ExpressionV::Atomic(AtomicV::Literal(l)),
        TokenV::Identifier(id) => ExpressionV::Atomic(AtomicV::Identifier(id)),
        _ => ExpressionV::Atomic(AtomicV::ArrayLiteral(Seq::empty())),
    }
}

pub open spec fn binary(left: ExpressionV, op: Operator, right: ExpressionV) -> ExpressionV {
    ExpressionV::Binary { left: Box::new(left), operator: op, right: Box::new(right) }
}

/// The tokens `a op1 b op2 c`.
pub open spec fn two_operator_tokens(a: TokenV, op1: Operator, b: TokenV, op2: Operator, c: TokenV) -> Seq<TokenV> {
    seq![a, TokenV::Operator(op1), b, TokenV::Operator(op2), c]
}

proof fn lemma_binds_at_level(op: Operator, level: int)
    requires
        level_of(op) >= 0,
    ensures
        binds_at(op, level) == (level == level_of(op)),
{
}

proof fn lemma_last_operand(ts: Seq<TokenV>, level: nat)
    requires
        ts.len() == 5,
        is_operand(ts[4]),
        level <= 11,
    ensures
        parse_level(ts, 4, level) == Ok::<(ExpressionV, nat), ParseErrorV>(
            (operand_expression(ts[4]), 1),
        ),
    decreases level,
{
    lemma_operand_atom(ts, 4);
    if level == 1 {
        lemma_last_operand(ts, 0);
    } else if level > 1 {
        lemma_last_operand(ts, (level - 1) as nat);
    }
}

proof fn lemma_operand_atom(ts: Seq<TokenV>, p: int)
    requires
        0 <= p < ts.len(),
        is_operand(ts[p]),
        p + 1 < ts.len() ==> ts[p + 1] is Operator,
    ensures
        parse_atom(ts, p) == Ok::<(ExpressionV, nat), ParseErrorV>((operand_expression(ts[p]), 1)),
{
    match ts[p] {
        TokenV::Literal(l) => {},
        TokenV::Identifier(id) => {},
        _ => {},
    }
}

proof fn lemma_middle_operand(ts: Seq<TokenV>, level: nat)
    requires
        ts.len() == 5,
        is_operand(ts[2]),
        is_operand(ts[4]),
        ts[3] is Operator,
        level_of(ts[3]->Operator_0) >= 0,
        level <= 11,
    ensures
        parse_level(ts, 2, level) == Ok::<(ExpressionV, nat), ParseErrorV>(
            if level < level_of(ts[3]->Operator_0) {
                (operand_expression(ts[2]), 1)
            } else {
                (
                    binary(operand_expression(ts[2]), ts[3]->Operator_0, operand_expression(ts[4])),
                    3,
                )
            },
        ),
    decreases level,
{
    let op = ts[3]->Operator_0;
    lemma_binds_at_level(op, level as int);
    lemma_last_operand(ts, level);
    lemma_operand_atom(ts, 2);
    if level == 1 {
        lemma_middle_operand(ts, 0);
    } else if level > 1 {
        lemma_middle_operand(ts, (level - 1) as nat);
    }
}

proof fn lemma_first_operand(ts: Seq<TokenV>, level: nat)
    requires
        ts.len() == 5,
        is_operand(ts[0]),
        is_operand(ts[2]),
        is_operand(ts[4]),
        ts[1] is Operator,
        ts[3] is Operator,
        level_of(ts[1]->Operator_0) >= 0,
        level_of(ts[3]->Operator_0) >= 0,
        level <= 11,
    ensures
        ({
            let a = operand_expression(ts[0]);
            let b = operand_expression(ts[2]);
            let c = operand_expression(ts[4]);
            let op1 = ts[1]->Operator_0;
            let op2 = ts[3]->Operator_0;
            let m1 = level_of(op1);
            let m2 = level_of(op2);
            parse_level(ts, 0, level) == Ok::<(ExpressionV, nat), ParseErrorV>(
                if level < m1 {
                    (a, 1)
                } else if m1 < m2 {
                    if level < m2 {
                        (binary(a, op1, b), 3)
                    } else {
                        (binary(binary(a, op1, b), op2, c), 5)
                    }
                } else {
                    (binary(a, op1, binary(b, op2, c)), 5)
                },
            )
        }),
    decreases level,
{
    let op1 = ts[1]->Operator_0;
    let op2 = ts[3]->Operator_0;
    lemma_binds_at_level(op1, level as int);
    lemma_binds_at_level(op2, level as int);
    lemma_middle_operand(ts, level);
    lemma_last_operand(ts, level);
    lemma_operand_atom(ts, 0);
    if level == 1 {
        lemma_first_operand(ts, 0);
    } else if level > 1 {
        lemma_first_operand(ts, (level - 1) as nat);
    }
}

/// In `a op1 b op2 c`, with operands `a`, `b`, `c` and binary operators
/// `op1`, `op2`, the operator of the tighter-binding level is the deeper node;
/// operators of one level nest to the right.
pub proof fn lemma_two_operator_shape(a: TokenV, op1: Operator, b: TokenV, op2: Operator, c: TokenV)
    requires
        is_operand(a),
        is_operand(b),
        is_operand(c),
        level_of(op1) >= 0,
        level_of(op2) >= 0,
    ensures
        ({
            let (ea, eb, ec) = (operand_expression(a), operand_expression(b), operand_expression(c));
            parse_expr(two_operator_tokens(a, op1, b, op2, c), 0) == Ok::<
                (ExpressionV, nat),
                ParseErrorV,
            >(
                if level_of(op1) < level_of(op2) {
                    (binary(binary(ea, op1, eb), op2, ec), 5)
                } else {
                    (binary(ea, op1, binary(eb, op2, ec)), 5)
                },
            )
        }),
{
    let ts = two_operator_tokens(a, op1, b, op2, c);
    assert(ts[0] == a && ts[1] == TokenV::Operator(op1) && ts[2] == b);
    assert(ts[3] == TokenV::Operator(op2) && ts[4] == c);
    lemma_first_operand(ts, 11);
}

/// Whether `r`, a parse that started at `start` and left the cursor at `end`,
/// is the outcome `s` of the spec.
pub open spec fn expression_outcome(
    r: Result<Expression, ParseError>,
    start: int,
    end: int,
    s: Result<(ExpressionV, nat), ParseErrorV>,
) -> bool {
    match s {
        Ok((e, k)) => r is Ok && r->Ok_0@ == e && end == start + k,
        Err(e) => r is Err && r->Err_0@ == e,
    }
}

/// Parses one expression at the cursor, with a trailing ternary
/// `? true_value : false_value` if there is one, and leaves the cursor at the
/// first token after it.
pub fn parse_expression(tokens: &[Token], pos: &mut usize) -> (r: Result<Expression, ParseError>)
    requires
        *old(pos) <= tokens.len(),
    ensures
        *final(pos) <= tokens.len(),
        expression_outcome(
            r,
            *old(pos) as int,
            *final(pos) as int,
            parse_expr(tokens_view(tokens@), *old(pos) as int),
        ),
    decreases remaining(tokens_view(tokens@), *old(pos) as int), 25int,
{
    let left = match parse_binary_expression_with_precedence(
        tokens,
        pos,
        NUM_PRECEDENCE_LEVELS - 1,
    ) {
        Ok(e) => e,
        Err(e) => {
            return Err(e);
        },
    };
    if *pos < tokens.len() && matches!(token_at(tokens, *pos), Token::TernaryCondition) {
        *pos += 1;
        let true_value = match parse_expression(tokens, pos) {
            Ok(e) => e,
            Err(e) => {
                return Err(e);
            },
        };
        if *pos < tokens.len() && matches!(token_at(tokens, *pos), Token::Colon) {
            *pos += 1;
        } else {
            return Err(error_at_index(ParseErrorKind::ExpectedTernaryColon, tokens, *pos));
        }
        let false_value = match parse_expression(tokens, pos) {
            Ok(e) => e,
            Err(e) => {
                return Err(e);
            },
        };
        Ok(
            Expression::TernaryCondition {
                condition: Box::new(left),
                true_value: Box::new(true_value),
                false_value: Box::new(false_value),
            },
        )
    } else {
        Ok(left)
    }
}

/// Parses an expression of precedence level `precedence` or tighter
/// (level 0 binds tightest, see [`binds_at`]).
pub fn parse_binary_expression_with_precedence(
    tokens: &[Token],
    pos: &mut usize,
    precedence: usize,
) -> (r: Result<Expression, ParseError>)
    requires
        *old(pos) <= tokens.len(),
        precedence < NUM_PRECEDENCE_LEVELS,
    ensures
        *final(pos) <= tokens.len(),
        expression_outcome(
            r,
            *old(pos) as int,
            *final(pos) as int,
            parse_level(tokens_view(tokens@), *old(pos) as int, precedence as nat),
        ),
    decreases remaining(tokens_view(tokens@), *old(pos) as int), 2 * precedence + 2,
{
    if precedence == 1 {
        parse_unary(tokens, pos)
    } else {
        parse_binary_operation(tokens, pos, precedence)
    }
}

/// A binary level: the next tighter level (or an atom at level 0), then, after
/// an operator of this level, this level again.
fn parse_binary_operation(tokens: &[Token], pos: &mut usize, precedence: usize) -> (r: Result<
    Expression,
    ParseError,
>)
    requires
        *old(pos) <= tokens.len(),
        precedence < NUM_PRECEDENCE_LEVELS,
        precedence != 1,
    ensures
        *final(pos) <= tokens.len(),
        expression_outcome(
            r,
            *old(pos) as int,
            *final(pos) as int,
            parse_level(tokens_view(tokens@), *old(pos) as int, precedence as nat),
        ),
    decreases remaining(tokens_view(tokens@), *old(pos) as int), 2 * precedence + 1,
{
    let left = if precedence == 0 {
        parse_atomic(tokens, pos)
    } else {
        parse_binary_expression_with_precedence(tokens, pos, precedence - 1)
    };
    let left = match left {
        Ok(e) => e,
        Err(e) => {
            return Err(e);
        },
    };
    if *pos < tokens.len() {
        match token_at(tokens, *pos) {
            Token::Operator(op) => {
                if operator_binds_at(*op, precedence) {
                    let operator = *op;
                    *pos += 1;
                    match parse_binary_expression_with_precedence(tokens, pos, precedence) {
                        Ok(right) => {
                            return Ok(
                                Expression::BinaryOperation {
                                    left: Box::new(left),
                                    operator,
                                    right: Box::new(right),
                                },
                            );
                        },
                        Err(e) => {
                            return Err(e);
                        },
                    }
                }
            },
            _ => {},
        }
    }
    Ok(left)
}

/// Whether `op` is a binary operator of level `level`.
pub fn operator_binds_at(op: Operator, level: usize) -> (r: bool)
    ensures
        r == binds_at(op, level as int),
{
    match op {
        Operator::Power => level == 0,
        Operator::Times | Operator::Divide | Operator::Modulo => level == 2,
        Operator::Plus | Operator::Minus => level == 3,
        Operator::BitwiseLeftShift | Operator::BitwiseRightShift => level == 4,
        Operator::LessThan | Operator::LessThanOrEqual | Operator::GreaterThan
        | Operator::GreaterThanOrEqual => level == 5,
        Operator::Equal | Operator::NotEqual => level == 6,
        Operator::BitwiseAnd => level == 7,
        Operator::BitwiseXor => level == 8,
        Operator::BitwiseOr => level == 9,
        Operator::And => level == 10,
        Operator::Or => level == 11,
        Operator::Not | Operator::BitwiseNot => false,
    }
}

/// The prefix level: prefix operators nest to the right (`--x` is two unary
/// nodes); any other operator there is an error.
fn parse_unary(tokens: &[Token], pos: &mut usize) -> (r: Result<Expression, ParseError>)
    requires
        *old(pos) <= tokens.len(),
    ensures
        *final(pos) <= tokens.len(),
        expression_outcome(
            r,
            *old(pos) as int,
            *final(pos) as int,
            parse_level(tokens_view(tokens@), *old(pos) as int, 1),
        ),
    decreases remaining(tokens_view(tokens@), *old(pos) as int), 3int,
{
    if *pos < tokens.len() {
        match token_at(tokens, *pos) {
            Token::Operator(op) => {
                let operator = *op;
                match operator {
                    Operator::Plus | Operator::Minus | Operator::Not | Operator::BitwiseNot => {
                        *pos += 1;
                        match parse_unary(tokens, pos) {
                            Ok(operand) => {
                                return Ok(
                                    Expression::UnaryOperation {
                                        operator,
                                        operand: Box::new(operand),
                                    },
                                );
                            },
                            Err(e) => {
                                return Err(e);
                            },
                        }
                    },
                    _ => {
                        return Err(
                            error_at_index(ParseErrorKind::OperatorNotAllowedInUnary, tokens, *pos),
                        );
                    },
                }
            },
            _ => {},
        }
    }
    parse_binary_operation(tokens, pos, 0)
}

fn literal_atom(l: &Literal) -> (e: Expression)
    ensures
        e@ == ExpressionV::Atomic(AtomicV::Literal(l@)),
{
    let a = AtomicExpression::Literal(l.clone());
    assert(atomic_view(a) == AtomicV::Literal(l@));
    Expression::Atomic(a)
}

fn identifier_atom(id: &Identifier) -> (e: Expression)
    ensures
        e@ == ExpressionV::Atomic(AtomicV::Identifier(id@)),
{
    let a = AtomicExpression::Identifier(id.clone());
    assert(atomic_view(a) == AtomicV::Identifier(id@));
    Expression::Atomic(a)
}

fn parenthesized_atom(p: ParenthesizedExpression) -> (e: Expression)
    ensures
        e@ == ExpressionV::Atomic(AtomicV::Parenthesized(Box::new(expression_view(*p.value)))),
{
    let ghost inner = expression_view(*p.value);
    let a = AtomicExpression::Parenthesized(p);
    assert(atomic_view(a) == AtomicV::Parenthesized(Box::new(inner)));
    Expression::Atomic(a)
}

fn call_atom(f: FunctionCallExpression) -> (e: Expression)
    ensures
        e@ == ExpressionV::Atomic(
            AtomicV::FunctionCall { name: f.name@, parameters: expressions_view(f.parameters@) },
        ),
{
    let ghost name = f.name@;
    let ghost parameters = expressions_view(f.parameters@);
    let a = AtomicExpression::FunctionCall(f);
    assert(atomic_view(a) == AtomicV::FunctionCall { name, parameters });
    Expression::Atomic(a)
}

/// Parses an atomic expression: a literal, a parenthesized expression, a
/// function call or an identifier.
pub fn parse_atomic(tokens: &[Token], pos: &mut usize) -> (r: Result<Expression, ParseError>)
    requires
        *old(pos) <= tokens.len(),
    ensures
        *final(pos) <= tokens.len(),
        expression_outcome(
            r,
            *old(pos) as int,
            *final(pos) as int,
            parse_atom(tokens_view(tokens@), *old(pos) as int),
        ),
    decreases remaining(tokens_view(tokens@), *old(pos) as int), 0int,
{
    if *pos >= tokens.len() {
        return Err(error_at_index(ParseErrorKind::ExpectedAtomicExpression, tokens, *pos));
    }
    proof {
        assert(tokens_view(tokens@)[*pos as int] == tokens@[*pos as int]@);
    }
    match token_at(tokens, *pos) {
        Token::Literal(l) => {
            *pos += 1;
            Ok(literal_atom(l))
        },
        Token::OpenParen => {
            *pos += 1;
            match parse_parenthesized(tokens, pos) {
                Ok(p) => Ok(parenthesized_atom(p)),
                Err(e) => Err(e),
            }
        },
        Token::Identifier(id) => {
            if *pos + 1 < tokens.len() && matches!(token_at(tokens, *pos + 1), Token::OpenParen) {
                *pos += 1;
                match parse_function_call(id, tokens, pos) {
                    Ok(f) => Ok(call_atom(f)),
                    Err(e) => Err(e),
                }
            } else {
                *pos += 1;
                Ok(identifier_atom(id))
            }
        },
        _ => Err(error_at_index(ParseErrorKind::ExpectedAtomicExpression, tokens, *pos)),
    }
}

/// The inside of a parenthesized expression and its closing parenthesis;
/// the cursor is just after the opening one.
fn parse_parenthesized(tokens: &[Token], pos: &mut usize) -> (r: Result<
    ParenthesizedExpression,
    ParseError,
>)
    requires
        0 < *old(pos) <= tokens.len(),
    ensures
        *final(pos) <= tokens.len(),
        match parse_expr(tokens_view(tokens@), *old(pos) as int) {
            Err(e) => r is Err && r->Err_0@ == e,
            Ok((e, k)) => {
                let c = *old(pos) + k;
                if c < tokens.len() && tokens_view(tokens@)[c] is CloseParen {
                    r is Ok && expression_view(*r->Ok_0.value) == e && *final(pos) == c + 1
                } else {
                    r is Err && r->Err_0@ == error_at(
                        ParseErrorKind::ExpectedClosingParenthesis,
                        tokens_view(tokens@),
                        c,
                    )
                }
            },
        },
    decreases remaining(tokens_view(tokens@), *old(pos) as int), 26int,
{
    let expression = match parse_expression(tokens, pos) {
        Ok(e) => e,
        Err(e) => {
            return Err(e);
        },
    };
    if *pos < tokens.len() && matches!(token_at(tokens, *pos), Token::CloseParen) {
        *pos += 1;
        Ok(ParenthesizedExpression { value: Box::new(expression) })
    } else {
        Err(error_at_index(ParseErrorKind::ExpectedClosingParenthesis, tokens, *pos))
    }
}

/// A call of `identifier`; the cursor is at the opening parenthesis.
fn parse_function_call(identifier: &Identifier, tokens: &[Token], pos: &mut usize) -> (r: Result<
    FunctionCallExpression,
    ParseError,
>)
    requires
        0 < *old(pos) < tokens.len(),
    ensures
        *final(pos) <= tokens.len(),
        match parse_args(tokens_view(tokens@), *old(pos) + 1, seq![], ListState::Start) {
            Err(e) => r is Err && r->Err_0@ == e,
            Ok((args, k)) => r is Ok && r->Ok_0.name@ == identifier@ && expressions_view(
                r->Ok_0.parameters@,
            ) == args && *final(pos) == *old(pos) + 1 + k,
        },
    decreases remaining(tokens_view(tokens@), *old(pos) as int), 28int,
{
    *pos += 1;
    let parameters = match parse_parameter_list(tokens, pos) {
        Ok(p) => p,
        Err(e) => {
            return Err(e);
        },
    };
    Ok(FunctionCallExpression { name: identifier.clone(), parameters })
}

/// A call's argument list after its opening parenthesis, up to and including
/// the closing one: comma-separated, newlines skipped, no empty slot.
pub fn parse_parameter_list(tokens: &[Token], pos: &mut usize) -> (r: Result<
    Vec<Expression>,
    ParseError,
>)
    requires
        *old(pos) <= tokens.len(),
    ensures
        *final(pos) <= tokens.len(),
        match parse_args(tokens_view(tokens@), *old(pos) as int, seq![], ListState::Start) {
            Err(e) => r is Err && r->Err_0@ == e,
            Ok((args, k)) => r is Ok && expressions_view(r->Ok_0@) == args && *final(pos)
                == *old(pos) + k,
        },
    decreases remaining(tokens_view(tokens@), *old(pos) as int), 27int,
{
    let ghost ts = tokens_view(tokens@);
    let ghost start = *pos as int;
    let mut parameters: Vec<Expression> = Vec::new();
    let mut state = ListState::Start;
    proof {
        assert(expressions_view(parameters@) =~= Seq::<ExpressionV>::empty());
    }
    loop
        invariant
            ts == tokens_view(tokens@),
            start == *old(pos),
            start <= *pos <= tokens.len(),
            ({
                let rest = parse_args(ts, *pos as int, expressions_view(parameters@), state);
                let whole = parse_args(ts, start, seq![], ListState::Start);
                match whole {
                    Err(e) => rest == Err::<(Seq<ExpressionV>, nat), ParseErrorV>(e),
                    Ok((a, k)) => rest is Ok && (rest->Ok_0).0 == a && *pos + (rest->Ok_0).1 == start + k,
                }
            }),
        decreases remaining(ts, *pos as int), if state is AfterItem {
            14int
        } else {
            15int
        },
    {
        if *pos >= tokens.len() {
            return Err(error_at_index(ParseErrorKind::ExpectedClosingParenthesis, tokens, *pos));
        }
        match token_at(tokens, *pos) {
            Token::Newline => {
                *pos += 1;
            },
            Token::CloseParen => {
                if matches!(state, ListState::AfterComma) {
                    return Err(error_at_index(ParseErrorKind::ExpectedParameter, tokens, *pos));
                }
                *pos += 1;
                return Ok(parameters);
            },
            Token::ListSeparator => {
                if matches!(state, ListState::AfterItem) {
                    *pos += 1;
                    state = ListState::AfterComma;
                } else {
                    return Err(error_at_index(ParseErrorKind::ExpectedParameter, tokens, *pos));
                }
            },
            _ => {
                if matches!(state, ListState::AfterItem) {
                    return Err(
                        error_at_index(ParseErrorKind::ExpectedClosingParenthesis, tokens, *pos),
                    );
                }
                let ghost before = parameters@;
                match parse_expression(tokens, pos) {
                    Ok(e) => {
                        parameters.push(e);
                        proof {
                            assert(parameters@.subrange(0, parameters@.len() - 1) =~= before);
                        }
                        state = ListState::AfterItem;
                    },
                    Err(e) => {
                        return Err(e);
                    },
                }
            },
        }
    }
}

} // verus!
