//! The parser: a recursive-descent pass from the token stream to the
//! abstract syntax tree.

pub mod ast;
pub mod parser;
pub mod stream;
