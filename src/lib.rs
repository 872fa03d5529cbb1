//! Front end of a small statically typed language: a lexer with maximal munch,
//! a resolver for type syntax, and a recursive-descent parser of `struct`,
//! `enum` and `proc` declarations, each proved against a specification over
//! sequences of characters and tokens.
pub mod lexer;
pub mod module_manager;
pub mod parser;
pub mod preprocessor;
pub mod span;
pub mod token;
pub mod typer;

pub use lexer::{OperatorComplexity, Scanner, ScannerError};
pub use module_manager::{Module, ModuleManager};
pub use parser::{
    Ast, Declaration, DeclarationDef, DeclarationSignature, Field, FunctionDef, Program, Variant,
};
pub use preprocessor::{InvalidChar, Preprocessor};
pub use span::Span;
pub use token::{
    consume_next_token, next_token_is, ModuleTokenStream, OperatorKind, ParseError,
    PunctuationKind, ReservedKind, ScannerPrimKind, Token, TokenKind, Unsupported,
};
pub use typer::{eval_ty_from_token, Primitive, Type};
