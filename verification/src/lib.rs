//! A small rewriting workbench for propositional formulas.
//!
//! Text is split into tokens by [`lexer::Lexer`], tokens are read as
//! formulas and commands by the parser, and named rewrite rules are matched
//! against formulas and applied to them.

pub mod expr;
pub mod lexer;
pub mod matcher;
pub mod parser;
pub mod render;
pub mod rewrite;
pub mod rules;
pub mod text;
