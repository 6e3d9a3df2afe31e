//! An arithmetic-expression front end: a lexer that turns a line of text into
//! spanned tokens, and a recursive-descent parser that turns those tokens into
//! a spanned abstract syntax tree, or reports the first error it meets.

pub mod ast;
pub mod lexer;
pub mod parser;
pub mod token;
