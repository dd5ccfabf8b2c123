//! Front end of a small statically typed scripting language: a tokenizer,
//! a token preprocessor and a recursive-descent parser, each specified by
//! spec functions over the views of its inputs and outputs.
use vstd::prelude::*;

pub mod elements;
pub mod expression_parser;
pub mod function_parser;
pub mod tokens;
pub mod lexer;
pub mod module_parser;
pub mod preprocessor;
pub mod statement_parser;
pub mod tree;
pub mod utils;
