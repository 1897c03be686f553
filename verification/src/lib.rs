//! A lexer for a small C-like scripting language.
//!
//! [`lex::Lexer`] turns a source buffer into a stream of classified
//! [`lex::Token`]s, pulled one at a time; each token borrows the exact
//! substring of the buffer it was read from.  The scanning procedure is
//! specified by the recursive functions in [`model`], and the executable
//! lexer is proved to follow that description step by step.

pub mod lex;
pub mod model;
pub mod parse;

pub use lex::Lexer;
pub use lex::Token;
pub use lex::TokenKind;
