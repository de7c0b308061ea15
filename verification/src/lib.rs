//! Front end of a small statement/expression language: an immutable source
//! text with a line index, a character-by-character lexical scanner that
//! emits positioned tokens and accumulates diagnostics, and a closed
//! syntax-tree node model with uniform child enumeration.

pub mod lexer;
pub mod plumbing;
pub mod statements;
pub mod syntax;
pub mod text;
