//! The module root: functions first, then top-level statements.
use vstd::prelude::*;

use crate::elements::{string_of_chars, Identifier, IdentifierV, Keyword};
use crate::expression_parser::remaining;
use crate::function_parser::{parse_function, parse_function_block};
use crate::statement_parser::{module_items, parse_statements_until_end_of_module};
use crate::tokens::{tokens_view, Token, TokenV};
use crate::tree::{
    functions_view, imports_view, Function, FunctionV, Import, Module, ModuleV, StatementBlock,
    StatementV,
};
use crate::utils::{error_at, error_at_index, token_at, ParseError, ParseErrorKind, ParseErrorV};

verus! {

/// The name that every parsed module gets.
pub open spec fn main_name() -> IdentifierV {
    IdentifierV::Simple(seq!['m', 'a', 'i', 'n'])
}

pub open spec fn module_of(functions: Seq<FunctionV>, statements: Seq<StatementV>) -> ModuleV {
    ModuleV { name: main_name(), imports: seq![], functions, statements }
}

/// The module from `p` on, after the functions `functions`: function
/// definitions, then top-level statements, then the end of the module. A
/// `using` block may only come first (its grammar is not supported), and no
/// function may follow a statement.
pub open spec fn module_from(ts: Seq<TokenV>, p: int, functions: Seq<FunctionV>) -> Result<
    ModuleV,
    ParseErrorV,
>
    decreases remaining(ts, p),
{
    if 0 <= p < ts.len() {
        let t = ts[p];
        if t is Newline {
            module_from(ts, p + 1, functions)
        } else if t is EndOfModule {
            Ok(module_of(functions, seq![]))
        } else if t == TokenV::Keyword(Keyword::Using) {
            if functions.len() == 0 {
                Err(error_at(ParseErrorKind::UnsupportedImportBlock, ts, p + 1))
            } else {
                Err(error_at(ParseErrorKind::MisplacedImportBlock, ts, p))
            }
        } else if t == TokenV::Keyword(Keyword::Function) {
            match parse_function(ts, p + 1) {
                Err(e) => Err(e),
                Ok((f, k)) => module_from(ts, p + 1 + k, functions.push(f)),
            }
        } else {
            match module_items(ts, p, seq![], 0) {
                Err(e) => Err(e),
                Ok((statements, k)) => {
                    let q = p + k;
                    if 0 <= q < ts.len() && ts[q] == TokenV::Keyword(Keyword::Function) {
                        Err(error_at(ParseErrorKind::FunctionAfterStatements, ts, q))
                    } else if 0 <= q < ts.len() && ts[q] == TokenV::Keyword(Keyword::Using) {
                        Err(error_at(ParseErrorKind::MisplacedImportBlock, ts, q))
                    } else {
                        Ok(module_of(functions, statements))
                    }
                },
            }
        }
    } else {
        Ok(module_of(functions, seq![]))
    }
}

/// The module that a token sequence holds.
pub open spec fn parse_program(ts: Seq<TokenV>) -> Result<ModuleV, ParseErrorV> {
    module_from(ts, 0, seq![])
}

/// A `using { ... }` import block; the cursor is just after `using`. The
/// grammar of its entries is left to the module-resolution layer, so this
/// parser rejects the block.
pub fn parse_using_block(tokens: &[Token], pos: &mut usize) -> (r: Result<Vec<Import>, ParseError>)
    requires
        *old(pos) <= tokens.len(),
    ensures
        r is Err && r->Err_0@ == error_at(
            ParseErrorKind::UnsupportedImportBlock,
            tokens_view(tokens@),
            *old(pos) as int,
        ),
{
    Err(error_at_index(ParseErrorKind::UnsupportedImportBlock, tokens, *pos))
}

fn module_named_main(functions: Vec<Function>, statements: StatementBlock) -> (m: Module)
    ensures
        m@ == module_of(functions_view(functions@), statements@),
{
    let name = Identifier::Simple(string_of_chars(&['m', 'a', 'i', 'n']));
    let imports: Vec<Import> = Vec::new();
    proof {
        assert(imports_view(imports@) =~= Seq::<crate::tree::ImportV>::empty());
    }
    Module { name, imports, functions, statements }
}

/// Parses a whole module from the cursor on.
#[verifier::rlimit(40)]
pub fn parse_module(tokens: &[Token], pos: &mut usize) -> (r: Result<Module, ParseError>)
    requires
        *old(pos) <= tokens.len(),
    ensures
        match module_from(tokens_view(tokens@), *old(pos) as int, seq![]) {
            Ok(m) => r is Ok && r->Ok_0@ == m,
            Err(e) => r is Err && r->Err_0@ == e,
        },
{
    let ghost ts = tokens_view(tokens@);
    let mut functions: Vec<Function> = Vec::new();
    proof {
        assert(functions_view(functions@) =~= Seq::<FunctionV>::empty());
    }
    loop
        invariant
            ts == tokens_view(tokens@),
            *pos <= tokens.len(),
            module_from(ts, *pos as int, functions_view(functions@)) == module_from(
                ts,
                *old(pos) as int,
                seq![],
            ),
        decreases tokens.len() - *pos,
    {
        if *pos >= tokens.len() {
            return Ok(module_named_main(functions, StatementBlock::empty()));
        }
        proof {
            assert(ts[*pos as int] == tokens@[*pos as int]@);
        }
        match token_at(tokens, *pos) {
            Token::Newline => {
                *pos += 1;
            },
            Token::EndOfModule => {
                return Ok(module_named_main(functions, StatementBlock::empty()));
            },
            Token::Keyword(Keyword::Using) => {
                if functions.len() == 0 {
                    *pos += 1;
                    return match parse_using_block(tokens, pos) {
                        Ok(_) => Err(error_at_index(ParseErrorKind::UnsupportedImportBlock, tokens, *pos)),
                        Err(e) => Err(e),
                    };
                }
                return Err(error_at_index(ParseErrorKind::MisplacedImportBlock, tokens, *pos));
            },
            Token::Keyword(Keyword::Function) => {
                *pos += 1;
                match parse_function_block(tokens, pos) {
                    Ok(f) => {
                        let ghost before = functions@;
                        functions.push(f);
                        proof {
                            assert(functions_view(functions@) =~= functions_view(before).push(
                                f@,
                            ));
                        }
                    },
                    Err(e) => {
                        return Err(e);
                    },
                }
            },
            _ => {
                let statements = match parse_statements_until_end_of_module(tokens, pos) {
                    Ok(s) => s,
                    Err(e) => {
                        return Err(e);
                    },
                };
                if *pos < tokens.len() {
                    proof {
                        assert(ts[*pos as int] == tokens@[*pos as int]@);
                    }
                    match token_at(tokens, *pos) {
                        Token::Keyword(Keyword::Function) => {
                            return Err(
                                error_at_index(
                                    ParseErrorKind::FunctionAfterStatements,
                                    tokens,
                                    *pos,
                                ),
                            );
                        },
                        Token::Keyword(Keyword::Using) => {
                            return Err(
                                error_at_index(ParseErrorKind::MisplacedImportBlock, tokens, *pos),
                            );
                        },
                        _ => {},
                    }
                }
                return Ok(module_named_main(functions, statements));
            },
        }
    }
}

/// Parses a whole token sequence into a module.
pub fn parse(tokens: &[Token]) -> (r: Result<Module, ParseError>)
    ensures
        match parse_program(tokens_view(tokens@)) {
            Ok(m) => r is Ok && r->Ok_0@ == m,
            Err(e) => r is Err && r->Err_0@ == e,
        },
{
    let mut pos: usize = 0;
    parse_module(tokens, &mut pos)
}

} // verus!
