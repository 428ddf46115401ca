//! A scanner and an expression parser for a small scripting language.
//!
//! Source text goes through [`lexer::Lexer`] to a sequence of [`token::Token`]s, through
//! [`parser::Parser`] to an [`parser::expr::Expr`] tree, and through
//! [`parser::printer::AstPrinter`] to a parenthesized string.
pub mod text;
pub mod number;
pub mod token;
pub mod lexer;
pub mod parser;
