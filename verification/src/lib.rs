//! A small arithmetic expression language.
//!
//! A line of text is split into tokens ([`lexer`]), the tokens are parsed
//! into an expression tree ([`parser`], [`ast`]), and the tree is evaluated
//! against a context of variables ([`evaluator`], [`context`]).  The first
//! two stages are one call in [`pipeline`].
//!
//! Numbers are IEEE 754 binary64 values, held as their bits ([`number`]).
//! The library compares them and tells whole numbers from others, but it
//! does no arithmetic on them: an evaluation asks its host for each sum,
//! product or sine, and is run again with the answer ([`host`]).
//!
//! Every function carries a contract, and Verus checks each against its
//! body.  The contracts speak of texts as sequences of characters, of
//! token vectors as sequences of tokens and of trees as [`ast::Term`]s.

pub mod text;
pub mod error;
pub mod lexer;
pub mod ast;
pub mod parser;
pub mod number;
pub mod host;
pub mod context;
pub mod functions;
pub mod evaluator;
pub mod pipeline;
pub mod repl;
