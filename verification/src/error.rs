//! The errors of the three stages.  Each type is generic in the type of the
//! text it carries: `String` in running code, `Seq<char>` in contracts.

use vstd::prelude::*;
use crate::text::{decimal_text, push_char, push_decimal};

verus! {

/// What can go wrong while splitting the input into tokens.
#[derive(Debug, Clone, PartialEq)]
pub enum LexError<S = String> {
    /// A character that starts no token, and its index in the input.
    UnexpectedCharacter(char, usize),
    /// A run of digits and dots that is not a number.
    InvalidNumber(S),
}

impl View for LexError<String> {
    type V = LexError<Seq<char>>;

    open spec fn view(&self) -> LexError<Seq<char>> {
        match self {
            LexError::UnexpectedCharacter(c, position) => LexError::UnexpectedCharacter(
                *c,
                *position,
            ),
            LexError::InvalidNumber(text) => LexError::InvalidNumber(text@),
        }
    }
}

impl LexError<Seq<char>> {
    /// The line shown to the user for this error.
    pub open spec fn message(self) -> Seq<char> {
        match self {
            LexError::UnexpectedCharacter(c, position) => {
                "Unexpected character encountered: '"@.push(c) + "' at position "@ + decimal_text(
                    position as nat,
                )
            },
            LexError::InvalidNumber(text) => "Invalid number format: '"@ + text + "'"@,
        }
    }
}

impl LexError<String> {
    /// The line shown to the user for this error.
    pub fn to_string(&self) -> (r: String)
        ensures
            r@ == self@.message(),
    {
        match self {
            LexError::UnexpectedCharacter(c, position) => {
                let mut s = String::from_str("Unexpected character encountered: '");
                push_char(&mut s, *c);
                s.append("' at position ");
                push_decimal(&mut s, *position);
                s
            },
            LexError::InvalidNumber(text) => {
                let mut s = String::from_str("Invalid number format: '");
                s.append(text.as_str());
                s.append("'");
                s
            },
        }
    }
}

/// The index in the input at which a lexical error was met, where the error
/// records one.
pub fn get_lexer_error_position(error: &LexError) -> (r: Option<usize>)
    ensures
        r == match error@ {
            LexError::UnexpectedCharacter(_, position) => Some(position),
            LexError::InvalidNumber(_) => None,
        },
{
    match error {
        LexError::InvalidNumber(_) => None,
        LexError::UnexpectedCharacter(_, position) => Some(*position),
    }
}

/// What can go wrong while building the expression tree.
#[derive(Debug, Clone, PartialEq)]
pub enum ParseError<S = String> {
    /// A token that cannot stand where it was found.
    UnexpectedToken { expected: S, found: S, position: usize },
    /// The input ended where more was needed.
    UnexpectedEOF { position: usize },
    /// An expression that is well formed but names something unknown.
    InvalidExpression { message: S, position: usize },
}

impl View for ParseError<String> {
    type V = ParseError<Seq<char>>;

    open spec fn view(&self) -> ParseError<Seq<char>> {
        match self {
            ParseError::UnexpectedToken { expected, found, position } => {
                ParseError::UnexpectedToken {
                    expected: expected@,
                    found: found@,
                    position: *position,
                }
            },
            ParseError::UnexpectedEOF { position } => ParseError::UnexpectedEOF {
                position: *position,
            },
            ParseError::InvalidExpression { message, position } => ParseError::InvalidExpression {
                message: message@,
                position: *position,
            },
        }
    }
}

impl ParseError<Seq<char>> {
    /// The line shown to the user for this error.
    pub open spec fn message(self) -> Seq<char> {
        match self {
            ParseError::UnexpectedToken { expected, found, position } => {
                "Unexpected token at position "@ + decimal_text(position as nat) + ": expected "@
                    + expected + ", found "@ + found
            },
            ParseError::UnexpectedEOF { position } => {
                "Unexpected end of input at position "@ + decimal_text(position as nat)
            },
            ParseError::InvalidExpression { message, position } => {
                "Invalid expression at position "@ + decimal_text(position as nat) + ": "@
                    + message
            },
        }
    }

    /// The index in the input that the error points at.
    pub open spec fn position(self) -> usize {
        match self {
            ParseError::UnexpectedToken { position, .. } => position,
            ParseError::UnexpectedEOF { position } => position,
            ParseError::InvalidExpression { position, .. } => position,
        }
    }
}

impl ParseError<String> {
    /// The line shown to the user for this error.
    pub fn to_string(&self) -> (r: String)
        ensures
            r@ == self@.message(),
    {
        match self {
            ParseError::UnexpectedToken { expected, found, position } => {
                let mut s = String::from_str("Unexpected token at position ");
                push_decimal(&mut s, *position);
                s.append(": expected ");
                s.append(expected.as_str());
                s.append(", found ");
                s.append(found.as_str());
                s
            },
            ParseError::UnexpectedEOF { position } => {
                let mut s = String::from_str("Unexpected end of input at position ");
                push_decimal(&mut s, *position);
                s
            },
            ParseError::InvalidExpression { message, position } => {
                let mut s = String::from_str("Invalid expression at position ");
                push_decimal(&mut s, *position);
                s.append(": ");
                s.append(message.as_str());
                s
            },
        }
    }
}

/// The index in the input that a parse error points at.
pub fn get_parse_error_position(error: &ParseError) -> (r: usize)
    ensures
        r == error@.position(),
{
    match error {
        ParseError::UnexpectedToken { position, .. } => *position,
        ParseError::InvalidExpression { position, .. } => *position,
        ParseError::UnexpectedEOF { position } => *position,
    }
}

/// What can go wrong while evaluating an expression tree.
#[derive(Debug, Clone, PartialEq)]
pub enum EvalError<S = String> {
    /// A variable that has no binding.
    UndefinedVariable(S),
    /// A division whose divisor is zero.
    DivisionByZero,
    /// A function called with the wrong number of arguments.
    InvalidArguments(S),
    /// An argument outside the domain of the operation.
    MathError(S),
}

impl View for EvalError<String> {
    type V = EvalError<Seq<char>>;

    open spec fn view(&self) -> EvalError<Seq<char>> {
        match self {
            EvalError::UndefinedVariable(name) => EvalError::UndefinedVariable(name@),
            EvalError::DivisionByZero => EvalError::DivisionByZero,
            EvalError::InvalidArguments(message) => EvalError::InvalidArguments(message@),
            EvalError::MathError(message) => EvalError::MathError(message@),
        }
    }
}

impl EvalError<Seq<char>> {
    /// The line shown to the user for this error.
    pub open spec fn message(self) -> Seq<char> {
        match self {
            EvalError::UndefinedVariable(name) => {
                "Undefined variable encountered: '"@ + name + "'"@
            },
            EvalError::DivisionByZero => "Division by zero error"@,
            EvalError::InvalidArguments(message) => {
                "Invalid arguments provided to function: '"@ + message + "'"@
            },
            EvalError::MathError(message) => "Mathematical error: '"@ + message + "'"@,
        }
    }
}

impl EvalError<String> {
    /// The line shown to the user for this error.
    pub fn to_string(&self) -> (r: String)
        ensures
            r@ == self@.message(),
    {
        match self {
            EvalError::UndefinedVariable(name) => {
                let mut s = String::from_str("Undefined variable encountered: '");
                s.append(name.as_str());
                s.append("'");
                s
            },
            EvalError::DivisionByZero => String::from_str("Division by zero error"),
            EvalError::InvalidArguments(message) => {
                let mut s = String::from_str("Invalid arguments provided to function: '");
                s.append(message.as_str());
                s.append("'");
                s
            },
            EvalError::MathError(message) => {
                let mut s = String::from_str("Mathematical error: '");
                s.append(message.as_str());
                s.append("'");
                s
            },
        }
    }
}

} // verus!
