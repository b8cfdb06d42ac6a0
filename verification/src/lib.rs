//! Front end of a small bracket-structured, line-oriented language:
//! a tokenizer that builds a token tree with exact source provenance,
//! a source registry, a diagnostic renderer that turns a scope back
//! into a caret-underlined source excerpt, and a declaration parser.

pub mod bash_tools;
pub mod coverage;
pub mod errors;
pub mod input;
pub mod lexer;
pub mod parser;
pub mod sources;
pub mod tokens;
