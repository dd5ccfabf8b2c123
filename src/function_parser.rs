//! Function definitions: name, parameter list, return type and body.
use vstd::prelude::*;

use crate::elements::{Identifier, IdentifierV};
use crate::expression_parser::{remaining, ListState};
use crate::statement_parser::{parse_block, parse_statement_block};
use crate::tokens::{tokens_view, Token, TokenV};
use crate::tree::{
    parameters_view, optional_identifier_view, Function, FunctionV, Parameter, ParameterV,
    StatementV,
};
use crate::utils::{error_at, error_at_index, token_at, ParseError, ParseErrorKind, ParseErrorV};

verus! {

/// The rest of a function's parameter list from `p` on, after the parameters
/// `acc` and the `n` tokens taken before `p`, up to and including the closing
/// parenthesis: `name : type` pairs, comma-separated, newlines skipped.
pub open spec fn parameter_items(
    ts: Seq<TokenV>,
    p: int,
    acc: Seq<ParameterV>,
    state: ListState,
    n: nat,
) -> Result<(Seq<ParameterV>, nat), ParseErrorV>
    decreases remaining(ts, p),
{
    if 0 <= p < ts.len() {
        let t = ts[p];
        if t is Newline {
            parameter_items(ts, p + 1, acc, state, n + 1)
        } else if t is CloseParen {
            if state is AfterComma {
                Err(error_at(ParseErrorKind::ExpectedParameter, ts, p))
            } else {
                Ok((acc, n + 1))
            }
        } else if t is ListSeparator {
            if state is AfterItem {
                parameter_items(ts, p + 1, acc, ListState::AfterComma, n + 1)
            } else {
                Err(error_at(ParseErrorKind::ExpectedParameter, ts, p))
            }
        } else if t is Identifier && !(state is AfterItem) {
            match parameter_at(ts, p) {
                Err(e) => Err(e),
                Ok(param) => parameter_items(ts, p + 3, acc.push(param), ListState::AfterItem, n + 3),
            }
        } else {
            Err(error_at(ParseErrorKind::ExpectedParameterOrClosingParenthesis, ts, p))
        }
    } else {
        Err(error_at(ParseErrorKind::ExpectedParameterOrClosingParenthesis, ts, p))
    }
}

/// The parameter `name : type` at `p`.
pub open spec fn parameter_at(ts: Seq<TokenV>, p: int) -> Result<ParameterV, ParseErrorV> {
    if !(0 <= p < ts.len() && ts[p] is Identifier) {
        Err(error_at(ParseErrorKind::ExpectedParameterOrClosingParenthesis, ts, p))
    } else if !(p + 1 < ts.len() && ts[p + 1] is Colon) {
        Err(error_at(ParseErrorKind::ExpectedParameterColon, ts, p + 1))
    } else if !(p + 2 < ts.len() && ts[p + 2] is Identifier) {
        Err(error_at(ParseErrorKind::ExpectedParameterType, ts, p + 2))
    } else {
        Ok(ParameterV { name: ts[p]->Identifier_0, param_type: ts[p + 2]->Identifier_0 })
    }
}

/// The parameter list `( ... )` at `p`.
pub open spec fn parameter_list(ts: Seq<TokenV>, p: int) -> Result<(Seq<ParameterV>, nat), ParseErrorV> {
    if 0 <= p < ts.len() && ts[p] is OpenParen {
        parameter_items(ts, p + 1, seq![], ListState::Start, 1)
    } else {
        Err(error_at(ParseErrorKind::ExpectedParameterList, ts, p))
    }
}

/// The optional `: type` at `p`: the type and the number of tokens it takes.
pub open spec fn return_type_at(ts: Seq<TokenV>, p: int) -> Result<(Option<IdentifierV>, nat), ParseErrorV> {
    if 0 <= p < ts.len() && ts[p] is Colon {
        if p + 1 < ts.len() && ts[p + 1] is Identifier {
            Ok((Some(ts[p + 1]->Identifier_0), 2))
        } else {
            Err(error_at(ParseErrorKind::ExpectedReturnType, ts, p + 1))
        }
    } else {
        Ok((None, 0))
    }
}

/// A function definition after its `fun` keyword: a name, a parameter list,
/// an optional return type and a body.
pub open spec fn parse_function(ts: Seq<TokenV>, p: int) -> Result<(FunctionV, nat), ParseErrorV> {
    if !(0 <= p < ts.len() && ts[p] is Identifier) {
        Err(error_at(ParseErrorKind::ExpectedFunctionName, ts, p))
    } else {
        match parameter_list(ts, p + 1) {
            Err(e) => Err(e),
            Ok((parameters, k)) => match return_type_at(ts, p + 1 + k) {
                Err(e) => Err(e),
                Ok((return_type, k2)) => match parse_block(ts, p + 1 + k + k2) {
                    Err(e) => Err(e),
                    Ok((body, k3)) => Ok(
                        (
                            FunctionV {
                                name: ts[p]->Identifier_0,
                                parameters,
                                return_type,
                                body,
                            },
                            1 + k + k2 + k3,
                        ),
                    ),
                },
            },
        }
    }
}

/// The name of a function.
pub fn parse_function_name(tokens: &[Token], pos: &mut usize) -> (r: Result<Identifier, ParseError>)
    requires
        *old(pos) <= tokens.len(),
    ensures
        *final(pos) <= tokens.len(),
        ({
            let ts = tokens_view(tokens@);
            let p = *old(pos) as int;
            if 0 <= p < ts.len() && ts[p] is Identifier {
                r is Ok && r->Ok_0@ == ts[p]->Identifier_0 && *final(pos) == p + 1
            } else {
                r is Err && r->Err_0@ == error_at(ParseErrorKind::ExpectedFunctionName, ts, p)
            }
        }),
{
    if *pos < tokens.len() {
        proof {
            assert(tokens_view(tokens@)[*pos as int] == tokens@[*pos as int]@);
        }
        match token_at(tokens, *pos) {
            Token::Identifier(identifier) => {
                *pos += 1;
                return Ok(identifier.clone());
            },
            _ => {},
        }
    }
    Err(error_at_index(ParseErrorKind::ExpectedFunctionName, tokens, *pos))
}

/// One parameter `name : type`; the cursor is at its name.
pub fn parse_parameter(tokens: &[Token], pos: &mut usize) -> (r: Result<Parameter, ParseError>)
    requires
        *old(pos) <= tokens.len(),
    ensures
        *final(pos) <= tokens.len(),
        match parameter_at(tokens_view(tokens@), *old(pos) as int) {
            Ok(p) => r is Ok && r->Ok_0@ == p && *final(pos) == *old(pos) + 3,
            Err(e) => r is Err && r->Err_0@ == e,
        },
{
    let ghost ts = tokens_view(tokens@);
    let p = *pos;
    if !(p < tokens.len() && matches!(token_at(tokens, p), Token::Identifier(_))) {
        return Err(
            error_at_index(ParseErrorKind::ExpectedParameterOrClosingParenthesis, tokens, p),
        );
    }
    if !(p + 1 < tokens.len() && matches!(token_at(tokens, p + 1), Token::Colon)) {
        return Err(error_at_index(ParseErrorKind::ExpectedParameterColon, tokens, p + 1));
    }
    if !(p + 2 < tokens.len() && matches!(token_at(tokens, p + 2), Token::Identifier(_))) {
        return Err(error_at_index(ParseErrorKind::ExpectedParameterType, tokens, p + 2));
    }
    proof {
        assert(ts[p as int] == tokens@[p as int]@);
        assert(ts[p + 2] == tokens@[p + 2]@);
    }
    let name = match token_at(tokens, p) {
        Token::Identifier(i) => i.clone(),
        _ => {
            return Err(
                error_at_index(ParseErrorKind::ExpectedParameterOrClosingParenthesis, tokens, p),
            );
        },
    };
    let param_type = match token_at(tokens, p + 2) {
        Token::Identifier(i) => i.clone(),
        _ => {
            return Err(error_at_index(ParseErrorKind::ExpectedParameterType, tokens, p + 2));
        },
    };
    *pos = p + 3;
    Ok(Parameter { name, param_type })
}

/// A function's parameter list `( ... )`, from its opening parenthesis at the cursor.
#[verifier::rlimit(40)]
pub fn parse_parameter_list(tokens: &[Token], pos: &mut usize) -> (r: Result<
    Vec<Parameter>,
    ParseError,
>)
    requires
        *old(pos) <= tokens.len(),
    ensures
        *final(pos) <= tokens.len(),
        match parameter_list(tokens_view(tokens@), *old(pos) as int) {
            Ok((ps, k)) => r is Ok && parameters_view(r->Ok_0@) == ps && *final(pos) == *old(pos)
                + k,
            Err(e) => r is Err && r->Err_0@ == e,
        },
{
    let ghost ts = tokens_view(tokens@);
    if !(*pos < tokens.len() && matches!(token_at(tokens, *pos), Token::OpenParen)) {
        return Err(error_at_index(ParseErrorKind::ExpectedParameterList, tokens, *pos));
    }
    *pos += 1;
    let mut parameters: Vec<Parameter> = Vec::new();
    let mut state = ListState::Start;
    proof {
        assert(parameters_view(parameters@) =~= Seq::<ParameterV>::empty());
    }
    loop
        invariant
            ts == tokens_view(tokens@),
            *old(pos) < *pos <= tokens.len(),
            parameter_items(
                ts,
                *pos as int,
                parameters_view(parameters@),
                state,
                (*pos - *old(pos)) as nat,
            ) == parameter_list(ts, *old(pos) as int),
        decreases tokens.len() - *pos,
    {
        if *pos >= tokens.len() {
            return Err(
                error_at_index(ParseErrorKind::ExpectedParameterOrClosingParenthesis, tokens, *pos),
            );
        }
        proof {
            assert(ts[*pos as int] == tokens@[*pos as int]@);
        }
        match token_at(tokens, *pos) {
            Token::Newline => {
                *pos += 1;
            },
            Token::CloseParen => {
                if matches!(state, ListState::AfterComma) {
                    return Err(error_at_index(ParseErrorKind::ExpectedParameter, tokens, *pos));
                }
                *pos += 1;
                return Ok(parameters);
            },
            Token::ListSeparator => {
                if matches!(state, ListState::AfterItem) {
                    *pos += 1;
                    state = ListState::AfterComma;
                } else {
                    return Err(error_at_index(ParseErrorKind::ExpectedParameter, tokens, *pos));
                }
            },
            Token::Identifier(_) => {
                if matches!(state, ListState::AfterItem) {
                    return Err(
                        error_at_index(
                            ParseErrorKind::ExpectedParameterOrClosingParenthesis,
                            tokens,
                            *pos,
                        ),
                    );
                }
                match parse_parameter(tokens, pos) {
                    Ok(p) => {
                        let ghost before = parameters@;
                        parameters.push(p);
                        proof {
                            assert(parameters_view(parameters@) =~= parameters_view(before).push(
                                p@,
                            ));
                        }
                        state = ListState::AfterItem;
                    },
                    Err(e) => {
                        return Err(e);
                    },
                }
            },
            _ => {
                return Err(
                    error_at_index(
                        ParseErrorKind::ExpectedParameterOrClosingParenthesis,
                        tokens,
                        *pos,
                    ),
                );
            },
        }
    }
}

/// The optional return type `: type` at the cursor.
pub fn parse_function_return_type(tokens: &[Token], pos: &mut usize) -> (r: Result<
    Option<Identifier>,
    ParseError,
>)
    requires
        *old(pos) <= tokens.len(),
    ensures
        *final(pos) <= tokens.len(),
        match return_type_at(tokens_view(tokens@), *old(pos) as int) {
            Ok((t, k)) => r is Ok && optional_identifier_view(r->Ok_0) == t && *final(pos)
                == *old(pos) + k,
            Err(e) => r is Err && r->Err_0@ == e,
        },
{
    let ghost ts = tokens_view(tokens@);
    let p = *pos;
    if p < tokens.len() && matches!(token_at(tokens, p), Token::Colon) {
        if p + 1 < tokens.len() {
            proof {
                assert(ts[p + 1] == tokens@[p + 1]@);
            }
            match token_at(tokens, p + 1) {
                Token::Identifier(identifier) => {
                    *pos = p + 2;
                    return Ok(Some(identifier.clone()));
                },
                _ => {},
            }
        }
        Err(error_at_index(ParseErrorKind::ExpectedReturnType, tokens, p + 1))
    } else {
        Ok(None)
    }
}

/// A function definition; the cursor is just after its `fun` keyword.
pub fn parse_function_block(tokens: &[Token], pos: &mut usize) -> (r: Result<Function, ParseError>)
    requires
        *old(pos) <= tokens.len(),
    ensures
        *final(pos) <= tokens.len(),
        match parse_function(tokens_view(tokens@), *old(pos) as int) {
            Ok((f, k)) => r is Ok && r->Ok_0@ == f && *final(pos) == *old(pos) + k,
            Err(e) => r is Err && r->Err_0@ == e,
        },
{
    let ghost ts = tokens_view(tokens@);
    let ghost p = *pos as int;
    let name = match parse_function_name(tokens, pos) {
        Ok(n) => n,
        Err(e) => {
            return Err(e);
        },
    };
    let ghost p1 = *pos as int;
    let parameters = match parse_parameter_list(tokens, pos) {
        Ok(p) => p,
        Err(e) => {
            return Err(e);
        },
    };
    let ghost p2 = *pos as int;
    let return_type = match parse_function_return_type(tokens, pos) {
        Ok(t) => t,
        Err(e) => {
            return Err(e);
        },
    };
    let ghost p3 = *pos as int;
    let body = match parse_statement_block(tokens, pos) {
        Ok(b) => b,
        Err(e) => {
            return Err(e);
        },
    };
    assert(parse_function(ts, p) == Ok::<(FunctionV, nat), ParseErrorV>(
        (
            FunctionV {
                name: name@,
                parameters: parameters_view(parameters@),
                return_type: optional_identifier_view(return_type),
                body: body@,
            },
            (*pos - p) as nat,
        ),
    ));
    Ok(Function { name, parameters, return_type, body: Box::new(body) })
}

} // verus!
