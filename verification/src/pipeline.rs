//! From a line of text to its tree, and the failures of the three stages
//! under one type.

use vstd::prelude::*;
use crate::ast::{Expr, Term};
use crate::error::{EvalError, LexError, ParseError};
use crate::lexer::{scan, Lexer};
use crate::parser::{parse_line, Parser};
use crate::text::push_char;

verus! {

/// A failure of one of the stages.
#[derive(Debug, Clone, PartialEq)]
pub enum Failure<S = String> {
    Lexing(LexError<S>),
    Parsing(ParseError<S>),
    Evaluation(EvalError<S>),
}

impl View for Failure<String> {
    type V = Failure<Seq<char>>;

    open spec fn view(&self) -> Failure<Seq<char>> {
        match self {
            Failure::Lexing(e) => Failure::Lexing(e@),
            Failure::Parsing(e) => Failure::Parsing(e@),
            Failure::Evaluation(e) => Failure::Evaluation(e@),
        }
    }
}

impl Failure<Seq<char>> {
    /// The line shown to the user: the message of the error behind the
    /// name of its stage.
    pub open spec fn message(self) -> Seq<char> {
        match self {
            Failure::Lexing(e) => "Lexing error: "@ + e.message(),
            Failure::Parsing(e) => "Parsing error: "@ + e.message(),
            Failure::Evaluation(e) => "Evaluation error: "@ + e.message(),
        }
    }

    /// The index in the input that the failure points at, if it points at
    /// one.
    pub open spec fn position_spec(self) -> Option<usize> {
        match self {
            Failure::Lexing(LexError::UnexpectedCharacter(_, position)) => Some(position),
            Failure::Lexing(LexError::InvalidNumber(_)) => None,
            Failure::Parsing(e) => Some(e.position()),
            Failure::Evaluation(_) => None,
        }
    }
}

impl Failure<String> {
    /// The line shown to the user.
    pub fn to_string(&self) -> (r: String)
        ensures
            r@ == self@.message(),
    {
        match self {
            Failure::Lexing(e) => {
                let mut s = String::from_str("Lexing error: ");
                s.append(e.to_string().as_str());
                s
            },
            Failure::Parsing(e) => {
                let mut s = String::from_str("Parsing error: ");
                s.append(e.to_string().as_str());
                s
            },
            Failure::Evaluation(e) => {
                let mut s = String::from_str("Evaluation error: ");
                s.append(e.to_string().as_str());
                s
            },
        }
    }

    /// The index in the input that the failure points at, if it points at
    /// one.
    pub fn position(&self) -> (r: Option<usize>)
        ensures
            r == self@.position_spec(),
    {
        match self {
            Failure::Lexing(e) => crate::error::get_lexer_error_position(e),
            Failure::Parsing(e) => Some(crate::error::get_parse_error_position(e)),
            Failure::Evaluation(_) => None,
        }
    }
}

/// The tree of a line of text, or the failure of the first stage that
/// fails.
pub open spec fn tree_of(input: Seq<char>) -> Result<Term, Failure<Seq<char>>> {
    match scan(input, 0) {
        Err(e) => Err(Failure::Lexing(e)),
        Ok(tokens) => match parse_line(tokens, 0) {
            Err(e) => Err(Failure::Parsing(e)),
            Ok(tree) => Ok(tree),
        },
    }
}

/// Splits a line of text into tokens and parses them.
pub fn parse_input(input: &str) -> (r: Result<Expr, Failure>)
    ensures
        match tree_of(input@) {
            Ok(tree) => r matches Ok(e) && e@ == tree,
            Err(x) => r matches Err(e) && e@ == x,
        },
{
    let mut lexer = Lexer::new(input);
    let tokens = match lexer.tokenize() {
        Ok(tokens) => tokens,
        Err(e) => {
            return Err(Failure::Lexing(e));
        },
    };
    let mut parser = Parser::new(tokens);
    match parser.parse() {
        Ok(tree) => Ok(tree),
        Err(e) => Err(Failure::Parsing(e)),
    }
}

/// The line that marks index `position` of the line above it: a caret
/// behind `position` spaces.
pub open spec fn marker(position: nat) -> Seq<char> {
    Seq::new(position, |i: int| ' ').push('^')
}

/// The line that marks index `position` of the line above it.
pub fn marker_line(position: usize) -> (r: String)
    ensures
        r@ == marker(position as nat),
{
    let mut line = String::new();
    let mut i: usize = 0;
    while i < position
        invariant
            i <= position,
            line@ == Seq::new(i as nat, |j: int| ' '),
        decreases position - i,
    {
        push_char(&mut line, ' ');
        i += 1;
        assert(line@ =~= Seq::new(i as nat, |j: int| ' '));
    }
    push_char(&mut line, '^');
    line
}

} // verus!
