//! Statements: slicing one statement's tokens, declarations, assignments,
//! expression statements, blocks, `if` and `while`.
use vstd::prelude::*;

use crate::elements::{Identifier, IdentifierV, Keyword, Operator};
use crate::expression_parser::{parse_expr, parse_expression, remaining};
use crate::tokens::{tokens_view, Token, TokenV};
use crate::tree::{
    AssignmentStatement, AtomicExpression, AtomicV, ConditionalStatement, DeclarationStatement,
    Expression, ExpressionV, LoopStatement, Reference, ReferenceV, Statement, StatementBlock,
    StatementV, atomic_view, expression_view, reference_view, statement_view, statements_view,
};
use crate::utils::{error_at, error_at_index, token_at, ParseError, ParseErrorKind, ParseErrorV};

verus! {

pub open spec fn ends_statement(t: TokenV) -> bool {
    t is Newline || t is CloseBrace || t is EndOfModule
}

/// Where the statement that starts at `p` ends: at the first newline, closing
/// brace or end-of-module token, or at the end of the tokens.
pub open spec fn statement_end(ts: Seq<TokenV>, p: int) -> int
    decreases remaining(ts, p),
{
    if 0 <= p < ts.len() && !ends_statement(ts[p]) {
        statement_end(ts, p + 1)
    } else {
        p
    }
}

/// The number of tokens that the statement at `p` takes: its own, and the
/// newline that ends it (a closing brace or the end of the module is left).
pub open spec fn statement_length(ts: Seq<TokenV>, p: int) -> nat {
    let e = statement_end(ts, p);
    if 0 <= e < ts.len() && ts[e] is Newline {
        (e + 1 - p) as nat
    } else {
        (e - p) as nat
    }
}

pub open spec fn as_identifier(e: ExpressionV) -> Option<IdentifierV> {
    match e {
        ExpressionV::Atomic(AtomicV::Identifier(id)) => Some(id),
        _ => None,
    }
}

/// A declaration whose name is `left`; `q` is just after its colon.
pub open spec fn declaration_of(left: ExpressionV, sl: Seq<TokenV>, q: int, is_mutable: bool) -> Result<
    StatementV,
    ParseErrorV,
> {
    match as_identifier(left) {
        None => Err(error_at(ParseErrorKind::ExpectedDeclarationName, sl, q - 1)),
        Some(name) => if 0 <= q < sl.len() && sl[q] is Identifier {
            if q + 1 < sl.len() && sl[q + 1] is Assign {
                match parse_expr(sl, q + 2) {
                    Err(e) => Err(e),
                    Ok((value, k)) => if q + 2 + k < sl.len() {
                        Err(error_at(ParseErrorKind::UnrecognisedTokenInStatement, sl, q + 2 + k))
                    } else {
                        Ok(
                            StatementV::Declaration {
                                name,
                                var_type: sl[q]->Identifier_0,
                                value,
                                is_mutable,
                            },
                        )
                    },
                }
            } else {
                Err(error_at(ParseErrorKind::ExpectedInitialiser, sl, q + 1))
            }
        } else {
            Err(error_at(ParseErrorKind::ExpectedDeclarationType, sl, q))
        },
    }
}

/// An assignment to `left` with the assignment token at `q`; `op` is the
/// operator of a compound assignment (`x op= v` stands for `x = x op v`).
pub open spec fn assignment_of(left: ExpressionV, op: Option<Operator>, sl: Seq<TokenV>, q: int) -> Result<
    StatementV,
    ParseErrorV,
> {
    match parse_expr(sl, q + 1) {
        Err(e) => Err(e),
        Ok((right, k)) => if q + 1 + k < sl.len() {
            Err(error_at(ParseErrorKind::UnrecognisedTokenInStatement, sl, q + 1 + k))
        } else {
            match as_identifier(left) {
                None => Err(error_at(ParseErrorKind::ExpectedReference, sl, q)),
                Some(id) => Ok(
                    StatementV::Assignment {
                        reference: ReferenceV::Identifier(id),
                        value: match op {
                            None => right,
                            Some(o) => ExpressionV::Binary {
                                left: Box::new(left),
                                operator: o,
                                right: Box::new(right),
                            },
                        },
                    },
                ),
            }
        },
    }
}

/// The statement made of exactly the tokens `sl`: an optional `var`, an
/// expression, then nothing (an expression statement), `: type = value` (a
/// declaration), `= value` or `op= value` (an assignment).
pub open spec fn statement_of(sl: Seq<TokenV>) -> Result<StatementV, ParseErrorV> {
    let is_var = sl.len() > 0 && sl[0] == TokenV::Keyword(Keyword::Variable);
    let p0: int = if is_var {
        1
    } else {
        0
    };
    match parse_expr(sl, p0) {
        Err(e) => Err(e),
        Ok((left, k)) => {
            let q = p0 + k;
            if q >= sl.len() {
                Ok(StatementV::Expression(left))
            } else if sl[q] is Colon {
                declaration_of(left, sl, q + 1, is_var)
            } else if sl[q] is Assign {
                if is_var {
                    Err(error_at(ParseErrorKind::DeclarationWithoutType, sl, q))
                } else {
                    assignment_of(left, None, sl, q)
                }
            } else if sl[q] is BinaryAssign {
                assignment_of(left, Some(sl[q]->BinaryAssign_0), sl, q)
            } else {
                Err(error_at(ParseErrorKind::UnrecognisedTokenInStatement, sl, q))
            }
        },
    }
}

/// The statement at `p`, with the number of tokens it takes.
pub open spec fn parse_stmt(ts: Seq<TokenV>, p: int) -> Result<(StatementV, nat), ParseErrorV> {
    match statement_of(ts.subrange(p, statement_end(ts, p))) {
        Err(e) => Err(e),
        Ok(s) => Ok((s, statement_length(ts, p))),
    }
}

/// The block `{ ... }` at `p`: its statements and the number of tokens it takes.
pub open spec fn parse_block(ts: Seq<TokenV>, p: int) -> Result<(Seq<StatementV>, nat), ParseErrorV>
    decreases remaining(ts, p), 1int,
{
    if 0 <= p < ts.len() && ts[p] is OpenBrace {
        block_items(ts, p + 1, seq![], 1)
    } else {
        Err(error_at(ParseErrorKind::ExpectedOpenBrace, ts, p))
    }
}

/// The statements of a block from `p` on, up to and including its closing
/// brace, after the statements `acc` and the `n` tokens taken before `p`.
pub open spec fn block_items(ts: Seq<TokenV>, p: int, acc: Seq<StatementV>, n: nat) -> Result<
    (Seq<StatementV>, nat),
    ParseErrorV,
>
    decreases remaining(ts, p), 0int,
{
    if 0 <= p < ts.len() {
        let t = ts[p];
        if t is Newline {
            block_items(ts, p + 1, acc, n + 1)
        } else if t is CloseBrace {
            Ok((acc, n + 1))
        } else if t is EndOfModule {
            Err(error_at(ParseErrorKind::ExpectedCloseBrace, ts, p))
        } else if t == TokenV::Keyword(Keyword::If) || t == TokenV::Keyword(Keyword::While) {
            let r = if t == TokenV::Keyword(Keyword::If) {
                parse_if(ts, p + 1)
            } else {
                parse_while(ts, p + 1)
            };
            match r {
                Err(e) => Err(e),
                Ok((s, k)) => block_items(ts, p + 1 + k, acc.push(s), n + 1 + k),
            }
        } else {
            match parse_stmt(ts, p) {
                Err(e) => Err(e),
                Ok((s, k)) => {
                    proof {
                        lemma_statement_end_bounds(ts, p + 1);
                    }
                    block_items(ts, p + k, acc.push(s), n + k)
                },
            }
        }
    } else {
        Err(error_at(ParseErrorKind::ExpectedCloseBrace, ts, p))
    }
}

/// An `if` statement after its keyword: a condition, a block and an optional
/// `else` block.
pub open spec fn parse_if(ts: Seq<TokenV>, p: int) -> Result<(StatementV, nat), ParseErrorV>
    decreases remaining(ts, p), 2int,
{
    match parse_expr(ts, p) {
        Err(e) => Err(e),
        Ok((condition, k)) => match parse_block(ts, p + k) {
            Err(e) => Err(e),
            Ok((body, k2)) => {
                let q = p + k + k2;
                if 0 <= q < ts.len() && ts[q] == TokenV::Keyword(Keyword::Else) {
                    match parse_block(ts, q + 1) {
                        Err(e) => Err(e),
                        Ok((else_body, k3)) => Ok(
                            (
                                StatementV::Conditional {
                                    condition,
                                    body,
                                    else_body: Some(else_body),
                                },
                                k + k2 + 1 + k3,
                            ),
                        ),
                    }
                } else {
                    Ok((StatementV::Conditional { condition, body, else_body: None }, k + k2))
                }
            },
        },
    }
}

/// A `while` statement after its keyword: a condition and a block.
pub open spec fn parse_while(ts: Seq<TokenV>, p: int) -> Result<(StatementV, nat), ParseErrorV>
    decreases remaining(ts, p), 2int,
{
    match parse_expr(ts, p) {
        Err(e) => Err(e),
        Ok((condition, k)) => match parse_block(ts, p + k) {
            Err(e) => Err(e),
            Ok((body, k2)) => Ok((StatementV::Loop { condition, body }, k + k2)),
        },
    }
}

/// Takes the tokens of one statement: up to the first newline (which is
/// consumed), closing brace or end-of-module token (which are left).
pub fn consume_statement_tokens(tokens: &[Token], pos: &mut usize) -> (r: Vec<Token>)
    requires
        *old(pos) <= tokens.len(),
    ensures
        tokens_view(r@) == tokens_view(tokens@).subrange(
            *old(pos) as int,
            statement_end(tokens_view(tokens@), *old(pos) as int),
        ),
        *final(pos) == *old(pos) + statement_length(tokens_view(tokens@), *old(pos) as int),
        *final(pos) <= tokens.len(),
{
    let ghost ts = tokens_view(tokens@);
    let mut statement_tokens: Vec<Token> = Vec::new();
    let mut i: usize = *pos;
    proof {
        assert(tokens_view(statement_tokens@) =~= ts.subrange(i as int, i as int));
    }
    while i < tokens.len() && !matches!(
        token_at(tokens, i),
        Token::Newline | Token::CloseBrace | Token::EndOfModule
    )
        invariant
            ts == tokens_view(tokens@),
            *old(pos) <= i <= tokens.len(),
            statement_end(ts, i as int) == statement_end(ts, *old(pos) as int),
            tokens_view(statement_tokens@) == ts.subrange(*old(pos) as int, i as int),
        decreases tokens.len() - i,
    {
        let ghost before = statement_tokens@;
        statement_tokens.push(token_at(tokens, i).clone());
        proof {
            assert(tokens_view(statement_tokens@) =~= tokens_view(before).push(tokens@[i as int]@));
            assert(ts.subrange(*old(pos) as int, i + 1) =~= ts.subrange(*old(pos) as int, i as int).push(
                ts[i as int],
            ));
        }
        i += 1;
    }
    if i < tokens.len() && matches!(token_at(tokens, i), Token::Newline) {
        *pos = i + 1;
    } else {
        *pos = i;
    }
    statement_tokens
}

/// The binary expression `left operator right`.
pub fn get_binary_expansion(left: Expression, operator: &Operator, right: Expression) -> (r:
    Expression)
    ensures
        r@ == (ExpressionV::Binary {
            left: Box::new(left@),
            operator: *operator,
            right: Box::new(right@),
        }),
{
    Expression::BinaryOperation { left: Box::new(left), operator: *operator, right: Box::new(right) }
}

/// The identifier that `e` is, if it is a plain identifier.
fn identifier_of(e: &Expression) -> (r: Option<&Identifier>)
    ensures
        match as_identifier(e@) {
            Some(id) => r is Some && r->0@ == id,
            None => r is None,
        },
{
    match e {
        Expression::Atomic(a) => {
            assert(e@ == ExpressionV::Atomic(atomic_view(*a)));
            match a {
                AtomicExpression::Identifier(identifier) => Some(identifier),
                _ => None,
            }
        },
        _ => None,
    }
}

/// The place that `expression` names, if it names one: a plain identifier.
pub fn convert_expression_to_reference(expression: &Expression) -> (r: Option<Reference>)
    ensures
        match as_identifier(expression@) {
            Some(id) => r is Some && r->0@ == ReferenceV::Identifier(id),
            None => r is None,
        },
{
    match identifier_of(expression) {
        Some(identifier) => {
            let r = Reference::Identifier(identifier.clone());
            assert(reference_view(r) == ReferenceV::Identifier(identifier@));
            Some(r)
        },
        None => None,
    }
}

/// The assignment of `right` to the place `left`, if `left` names one.
pub fn convert_assignment_statement(left: Expression, right: Expression) -> (r: Option<Statement>)
    ensures
        match as_identifier(left@) {
            Some(id) => r is Some && r->0@ == (StatementV::Assignment {
                reference: ReferenceV::Identifier(id),
                value: right@,
            }),
            None => r is None,
        },
{
    match convert_expression_to_reference(&left) {
        Some(reference) => {
            let ghost value = right@;
            let s = Statement::Assignment(AssignmentStatement { reference, value: right });
            assert(statement_view(s) == StatementV::Assignment { reference: reference@, value });
            Some(s)
        },
        None => None,
    }
}

/// A declaration whose name is `left`, from the type after its colon (`pos`) on.
pub fn parse_declaration_statement(
    left: Expression,
    tokens: &[Token],
    pos: &mut usize,
    is_variable: bool,
) -> (r: Result<Statement, ParseError>)
    requires
        *old(pos) <= tokens.len(),
    ensures
        *final(pos) <= tokens.len(),
        match declaration_of(left@, tokens_view(tokens@), *old(pos) as int, is_variable) {
            Ok(s) => r is Ok && r->Ok_0@ == s,
            Err(e) => r is Err && r->Err_0@ == e,
        },
{
    let name = match identifier_of(&left) {
        Some(identifier) => identifier.clone(),
        None => {
            if *pos == 0 {
                return Err(crate::utils::handle_parse_error_for_option(
                    ParseErrorKind::ExpectedDeclarationName,
                    None,
                ));
            }
            return Err(error_at_index(ParseErrorKind::ExpectedDeclarationName, tokens, *pos - 1));
        },
    };
    let q = *pos;
    let var_type = if q < tokens.len() {
        match token_at(tokens, q) {
            Token::Identifier(t) => t.clone(),
            _ => {
                return Err(error_at_index(ParseErrorKind::ExpectedDeclarationType, tokens, q));
            },
        }
    } else {
        return Err(error_at_index(ParseErrorKind::ExpectedDeclarationType, tokens, q));
    };
    if !(q + 1 < tokens.len() && matches!(token_at(tokens, q + 1), Token::Assign)) {
        return Err(error_at_index(ParseErrorKind::ExpectedInitialiser, tokens, q + 1));
    }
    *pos = q + 2;
    let value = match parse_expression(tokens, pos) {
        Ok(v) => v,
        Err(e) => {
            return Err(e);
        },
    };
    if *pos < tokens.len() {
        return Err(error_at_index(ParseErrorKind::UnrecognisedTokenInStatement, tokens, *pos));
    }
    let ghost v = value@;
    let s = Statement::Declaration(
        DeclarationStatement { name, var_type, value, is_mutable: is_variable },
    );
    assert(statement_view(s) == StatementV::Declaration {
        name: name@,
        var_type: var_type@,
        value: v,
        is_mutable: is_variable,
    });
    Ok(s)
}

/// An assignment to `left`; `pos` is at its assignment token, `operator` the
/// operator of a compound assignment.
fn parse_assignment(
    left: Expression,
    operator: Option<Operator>,
    tokens: &[Token],
    pos: &mut usize,
) -> (r: Result<Statement, ParseError>)
    requires
        *old(pos) < tokens.len(),
    ensures
        match assignment_of(left@, operator, tokens_view(tokens@), *old(pos) as int) {
            Ok(s) => r is Ok && r->Ok_0@ == s,
            Err(e) => r is Err && r->Err_0@ == e,
        },
{
    let q = *pos;
    *pos = q + 1;
    let right = match parse_expression(tokens, pos) {
        Ok(v) => v,
        Err(e) => {
            return Err(e);
        },
    };
    if *pos < tokens.len() {
        return Err(error_at_index(ParseErrorKind::UnrecognisedTokenInStatement, tokens, *pos));
    }
    let reference = match convert_expression_to_reference(&left) {
        Some(reference) => reference,
        None => {
            return Err(error_at_index(ParseErrorKind::ExpectedReference, tokens, q));
        },
    };
    let value = match operator {
        None => right,
        Some(op) => get_binary_expansion(left, &op, right),
    };
    let ghost v = value@;
    let s = Statement::Assignment(AssignmentStatement { reference, value });
    assert(statement_view(s) == StatementV::Assignment { reference: reference@, value: v });
    Ok(s)
}

/// Parses a statement made of exactly the tokens `tokens`.
pub fn parse_statement_tokens(tokens: &[Token]) -> (r: Result<Statement, ParseError>)
    ensures
        match statement_of(tokens_view(tokens@)) {
            Ok(s) => r is Ok && r->Ok_0@ == s,
            Err(e) => r is Err && r->Err_0@ == e,
        },
{
    let ghost sl = tokens_view(tokens@);
    let is_variable = tokens.len() > 0 && matches!(
        token_at(tokens, 0),
        Token::Keyword(Keyword::Variable)
    );
    proof {
        if tokens.len() > 0 {
            assert(sl[0] == tokens@[0]@);
        }
    }
    let mut p: usize = if is_variable {
        1
    } else {
        0
    };
    let left = match parse_expression(tokens, &mut p) {
        Ok(e) => e,
        Err(e) => {
            return Err(e);
        },
    };
    if p >= tokens.len() {
        let s = Statement::Expression(left);
        return Ok(s);
    }
    proof {
        assert(sl[p as int] == tokens@[p as int]@);
    }
    match token_at(tokens, p) {
        Token::Colon => {
            p += 1;
            parse_declaration_statement(left, tokens, &mut p, is_variable)
        },
        Token::Assign => {
            if is_variable {
                Err(error_at_index(ParseErrorKind::DeclarationWithoutType, tokens, p))
            } else {
                parse_assignment(left, None, tokens, &mut p)
            }
        },
        Token::BinaryAssign(op) => {
            let operator = *op;
            parse_assignment(left, Some(operator), tokens, &mut p)
        },
        _ => Err(error_at_index(ParseErrorKind::UnrecognisedTokenInStatement, tokens, p)),
    }
}

/// Parses the statement at the cursor: takes its tokens, then parses them alone.
pub fn parse_statement(all_tokens: &[Token], pos: &mut usize) -> (r: Result<Statement, ParseError>)
    requires
        *old(pos) <= all_tokens.len(),
    ensures
        *final(pos) <= all_tokens.len(),
        match parse_stmt(tokens_view(all_tokens@), *old(pos) as int) {
            Ok((s, k)) => r is Ok && r->Ok_0@ == s && *final(pos) == *old(pos) + k,
            Err(e) => r is Err && r->Err_0@ == e,
        },
{
    let statement_tokens = consume_statement_tokens(all_tokens, pos);
    parse_statement_tokens(statement_tokens.as_slice())
}

/// The statements at the top of a module from `p` on, after the statements
/// `acc` and the `n` tokens taken before `p`: they end, unconsumed, at the
/// end-of-module token, at `fun` or at `using`.
pub open spec fn module_items(ts: Seq<TokenV>, p: int, acc: Seq<StatementV>, n: nat) -> Result<
    (Seq<StatementV>, nat),
    ParseErrorV,
>
    decreases remaining(ts, p),
{
    if 0 <= p < ts.len() {
        let t = ts[p];
        if t is Newline {
            module_items(ts, p + 1, acc, n + 1)
        } else if t is EndOfModule || t == TokenV::Keyword(Keyword::Function) || t
            == TokenV::Keyword(Keyword::Using) {
            Ok((acc, n))
        } else if t is CloseBrace {
            Err(error_at(ParseErrorKind::UnrecognisedTokenInStatement, ts, p))
        } else if t == TokenV::Keyword(Keyword::If) || t == TokenV::Keyword(Keyword::While) {
            let r = if t == TokenV::Keyword(Keyword::If) {
                parse_if(ts, p + 1)
            } else {
                parse_while(ts, p + 1)
            };
            match r {
                Err(e) => Err(e),
                Ok((s, k)) => module_items(ts, p + 1 + k, acc.push(s), n + 1 + k),
            }
        } else {
            match parse_stmt(ts, p) {
                Err(e) => Err(e),
                Ok((s, k)) => {
                    proof {
                        lemma_statement_end_bounds(ts, p + 1);
                    }
                    module_items(ts, p + k, acc.push(s), n + k)
                },
            }
        }
    } else {
        Ok((acc, n))
    }
}

/// Appends a statement to a block's statements.
fn push_statement(statements: &mut Vec<Statement>, s: Statement)
    ensures
        statements_view(final(statements)@) == statements_view(old(statements)@).push(s@),
{
    let ghost before = statements@;
    statements.push(s);
    proof {
        assert(statements@.subrange(0, statements@.len() - 1) =~= before);
    }
}

/// Parses a block `{ ... }` at the cursor, up to and including its closing brace.
#[verifier::rlimit(60)]
pub fn parse_statement_block(tokens: &[Token], pos: &mut usize) -> (r: Result<
    StatementBlock,
    ParseError,
>)
    requires
        *old(pos) <= tokens.len(),
    ensures
        *final(pos) <= tokens.len(),
        match parse_block(tokens_view(tokens@), *old(pos) as int) {
            Ok((ss, k)) => r is Ok && r->Ok_0@ == ss && *final(pos) == *old(pos) + k,
            Err(e) => r is Err && r->Err_0@ == e,
        },
    decreases remaining(tokens_view(tokens@), *old(pos) as int), 1int,
{
    let ghost ts = tokens_view(tokens@);
    if !(*pos < tokens.len() && matches!(token_at(tokens, *pos), Token::OpenBrace)) {
        return Err(error_at_index(ParseErrorKind::ExpectedOpenBrace, tokens, *pos));
    }
    *pos += 1;
    let ghost start = *pos as int;
    let mut statements: Vec<Statement> = Vec::new();
    proof {
        assert(statements_view(statements@) =~= Seq::<StatementV>::empty());
    }
    loop
        invariant
            ts == tokens_view(tokens@),
            start == *old(pos) + 1,
            start <= *pos <= tokens.len(),
            block_items(ts, *pos as int, statements_view(statements@), (*pos - *old(pos)) as nat)
                == parse_block(ts, *old(pos) as int),
        decreases remaining(ts, *pos as int),
    {
        if *pos >= tokens.len() {
            return Err(error_at_index(ParseErrorKind::ExpectedCloseBrace, tokens, *pos));
        }
        proof {
            assert(ts[*pos as int] == tokens@[*pos as int]@);
        }
        match token_at(tokens, *pos) {
            Token::Newline => {
                *pos += 1;
            },
            Token::CloseBrace => {
                *pos += 1;
                return Ok(StatementBlock { statements });
            },
            Token::EndOfModule => {
                return Err(error_at_index(ParseErrorKind::ExpectedCloseBrace, tokens, *pos));
            },
            Token::Keyword(Keyword::If) => {
                match parse_if_statement(tokens, pos) {
                    Ok(s) => push_statement(&mut statements, s),
                    Err(e) => {
                        return Err(e);
                    },
                }
            },
            Token::Keyword(Keyword::While) => {
                match parse_while_statement(tokens, pos) {
                    Ok(s) => push_statement(&mut statements, s),
                    Err(e) => {
                        return Err(e);
                    },
                }
            },
            _ => {
                proof {
                    lemma_statement_end_bounds(ts, *pos as int + 1);
                }
                match parse_statement(tokens, pos) {
                    Ok(s) => push_statement(&mut statements, s),
                    Err(e) => {
                        return Err(e);
                    },
                }
            },
        }
    }
}

/// Parses `if condition { ... }`, with an optional `else { ... }`; the cursor
/// is at the `if` keyword.
pub fn parse_if_statement(tokens: &[Token], pos: &mut usize) -> (r: Result<Statement, ParseError>)
    requires
        *old(pos) < tokens.len(),
        tokens@[*old(pos) as int]@ == TokenV::Keyword(Keyword::If),
    ensures
        *final(pos) <= tokens.len(),
        match parse_if(tokens_view(tokens@), *old(pos) + 1) {
            Ok((s, k)) => r is Ok && r->Ok_0@ == s && *final(pos) == *old(pos) + 1 + k,
            Err(e) => r is Err && r->Err_0@ == e,
        },
    decreases remaining(tokens_view(tokens@), *old(pos) as int), 2int,
{
    let ghost ts = tokens_view(tokens@);
    *pos += 1;
    let condition = match parse_expression(tokens, pos) {
        Ok(e) => e,
        Err(e) => {
            return Err(e);
        },
    };
    let body = match parse_statement_block(tokens, pos) {
        Ok(b) => b,
        Err(e) => {
            return Err(e);
        },
    };
    let ghost c = condition@;
    let ghost b = body@;
    if *pos < tokens.len() && matches!(token_at(tokens, *pos), Token::Keyword(Keyword::Else)) {
        proof {
            assert(ts[*pos as int] == tokens@[*pos as int]@);
        }
        *pos += 1;
        let else_body = match parse_statement_block(tokens, pos) {
            Ok(b) => b,
            Err(e) => {
                return Err(e);
            },
        };
        let ghost eb = else_body@;
        let s = Statement::Conditional(
            ConditionalStatement {
                condition,
                body: Box::new(body),
                else_body: Some(Box::new(else_body)),
            },
        );
        assert(statement_view(s) == StatementV::Conditional {
            condition: c,
            body: b,
            else_body: Some(eb),
        });
        Ok(s)
    } else {
        proof {
            if *pos < tokens.len() {
                assert(ts[*pos as int] == tokens@[*pos as int]@);
            }
        }
        let s = Statement::Conditional(
            ConditionalStatement { condition, body: Box::new(body), else_body: None },
        );
        assert(statement_view(s) == StatementV::Conditional {
            condition: c,
            body: b,
            else_body: None,
        });
        Ok(s)
    }
}

/// Parses `while condition { ... }`; the cursor is at the `while` keyword.
pub fn parse_while_statement(tokens: &[Token], pos: &mut usize) -> (r: Result<Statement, ParseError>)
    requires
        *old(pos) < tokens.len(),
        tokens@[*old(pos) as int]@ == TokenV::Keyword(Keyword::While),
    ensures
        *final(pos) <= tokens.len(),
        match parse_while(tokens_view(tokens@), *old(pos) + 1) {
            Ok((s, k)) => r is Ok && r->Ok_0@ == s && *final(pos) == *old(pos) + 1 + k,
            Err(e) => r is Err && r->Err_0@ == e,
        },
    decreases remaining(tokens_view(tokens@), *old(pos) as int), 2int,
{
    *pos += 1;
    let condition = match parse_expression(tokens, pos) {
        Ok(e) => e,
        Err(e) => {
            return Err(e);
        },
    };
    let body = match parse_statement_block(tokens, pos) {
        Ok(b) => b,
        Err(e) => {
            return Err(e);
        },
    };
    let ghost c = condition@;
    let ghost b = body@;
    let s = Statement::Loop(LoopStatement { condition, body: Box::new(body) });
    assert(statement_view(s) == StatementV::Loop { condition: c, body: b });
    Ok(s)
}

/// Parses the statements at the top of a module, up to the end-of-module
/// token, a `fun` or a `using` (which are left to the caller).
#[verifier::rlimit(60)]
pub fn parse_statements_until_end_of_module(tokens: &[Token], pos: &mut usize) -> (r: Result<
    StatementBlock,
    ParseError,
>)
    requires
        *old(pos) <= tokens.len(),
    ensures
        *final(pos) <= tokens.len(),
        match module_items(tokens_view(tokens@), *old(pos) as int, seq![], 0) {
            Ok((ss, k)) => r is Ok && r->Ok_0@ == ss && *final(pos) == *old(pos) + k,
            Err(e) => r is Err && r->Err_0@ == e,
        },
{
    let ghost ts = tokens_view(tokens@);
    let ghost start = *pos as int;
    let mut statements: Vec<Statement> = Vec::new();
    proof {
        assert(statements_view(statements@) =~= Seq::<StatementV>::empty());
    }
    loop
        invariant
            ts == tokens_view(tokens@),
            start == *old(pos),
            start <= *pos <= tokens.len(),
            module_items(ts, *pos as int, statements_view(statements@), (*pos - start) as nat)
                == module_items(ts, start, seq![], 0),
        decreases remaining(ts, *pos as int),
    {
        if *pos >= tokens.len() {
            return Ok(StatementBlock { statements });
        }
        proof {
            assert(ts[*pos as int] == tokens@[*pos as int]@);
        }
        match token_at(tokens, *pos) {
            Token::Newline => {
                *pos += 1;
            },
            Token::EndOfModule | Token::Keyword(Keyword::Function) | Token::Keyword(
                Keyword::Using,
            ) => {
                return Ok(StatementBlock { statements });
            },
            Token::CloseBrace => {
                return Err(
                    error_at_index(ParseErrorKind::UnrecognisedTokenInStatement, tokens, *pos),
                );
            },
            Token::Keyword(Keyword::If) => {
                match parse_if_statement(tokens, pos) {
                    Ok(s) => push_statement(&mut statements, s),
                    Err(e) => {
                        return Err(e);
                    },
                }
            },
            Token::Keyword(Keyword::While) => {
                match parse_while_statement(tokens, pos) {
                    Ok(s) => push_statement(&mut statements, s),
                    Err(e) => {
                        return Err(e);
                    },
                }
            },
            _ => {
                proof {
                    lemma_statement_end_bounds(ts, *pos as int + 1);
                }
                match parse_statement(tokens, pos) {
                    Ok(s) => push_statement(&mut statements, s),
                    Err(e) => {
                        return Err(e);
                    },
                }
            },
        }
    }
}

pub proof fn lemma_statement_end_bounds(ts: Seq<TokenV>, p: int)
    ensures
        statement_end(ts, p) >= p,
        0 <= p <= ts.len() ==> statement_end(ts, p) <= ts.len(),
    decreases remaining(ts, p),
{
    if 0 <= p < ts.len() && !ends_statement(ts[p]) {
        lemma_statement_end_bounds(ts, p + 1);
    }
}

} // verus!
