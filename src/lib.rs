//! Front end for a small nominal type-declaration language: a lexer and a
//! parser into a spanned syntax tree with interned identifiers, and a
//! pretty-printer back to canonical text.
pub mod error;
pub mod lexer;
pub mod parser;
pub mod pprint;
pub mod syntax;
