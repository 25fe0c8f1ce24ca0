//! Front end for a small expression language: a character-level scanner that
//! turns source text into a token sequence ending in an end-of-file sentinel,
//! and a recursive-descent parser that turns that sequence into an expression
//! tree, with a traversal interface and a bracketed printer over it.
//!
//! Every stage is specified against a mathematical model: the scanner against
//! a recursive specification over the source's characters, the parser against
//! a recursive specification of the precedence grammar over token views, and
//! the printer against a recursive rendering of expression views.

pub mod error;
pub mod expr;
pub mod literal;
pub mod parser;
pub mod scanner;
pub mod token;
