use vstd::prelude::*;

pub mod text;
pub mod tokens;
pub mod ast;
pub mod semantic;
pub mod errors;
pub mod lexer;
pub mod parser;
pub mod derivation;
pub mod ast_printer;
pub mod layout;
pub mod static_types;

verus! {
} // verus!
