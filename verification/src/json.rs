//! A small JSON document parser: a lexer producing a token sequence, a
//! single-token-lookahead cursor, a recursive-descent parser building a typed
//! document tree, and narrowing accessors on that tree.

pub mod cursor;
pub mod errors;
pub mod parser;
pub mod lexer;
pub mod value;
pub mod token;
