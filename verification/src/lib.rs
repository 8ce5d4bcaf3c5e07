//! Front end for a minimal lambda-calculus term language with explicit
//! duplication and superposition constructs.
//!
//! Source text is turned into a validated definition book: a collection of
//! uniquely named top-level definitions, each binding a name to a rule whose
//! body is a structured term.

pub mod ast;
pub mod diagnostic;
pub mod display;
pub mod lexer;
pub mod parser;

pub use ast::{Definition, DefinitionBook, Name, NumOper, Number, Pattern, Rule, Term};
pub use diagnostic::{DiagKind, Diagnostic};
pub use parser::{parse_definition_book, parse_term};
