//! An interpreter for a small, pure LISP in the manner of McCarthy's
//! recursive functions of symbolic expressions.
//!
//! Source text becomes a value in three steps:
//!
//! * [`lexer`] cuts the text into tokens,
//! * [`parser`] reads one [`syntax::Term`] off the tokens,
//! * [`interpreter`] evaluates the term in an [`environment::Environment`]
//!   to a [`syntax::Value`], which [`printer`] shows as text.
//!
//! Every step returns nothing rather than a value where it fails. Each
//! function states what it returns over the mathematical values of its
//! arguments; [`grammar`] proves that the parser reads exactly the grammar
//! of the language. Only the regular expressions in [`pattern`] are taken
//! on trust.

pub mod environment;
pub mod grammar;
pub mod interpreter;
pub mod lexer;
pub mod parser;
pub mod pattern;
pub mod printer;
pub mod syntax;
pub mod token;
