//! The conversation with the host.  The library does no floating-point
//! arithmetic.  Where an evaluation needs some, it asks: it stops with a
//! request, and is run again with the host's answer added to the answers
//! given so far.  An evaluation is thus a function of the expression, the
//! context and the answers, and every answer is used in the order given.

use vstd::prelude::*;
use crate::ast::BinOp;
use crate::error::EvalError;

verus! {

/// The functions of one number that the host computes.
#[derive(Debug, Clone, Copy, PartialEq, Eq, Structural)]
pub enum Kernel {
    /// From degrees to radians.
    ToRadians,
    /// From radians to degrees.
    ToDegrees,
    Sin,
    Cos,
    Tan,
    Asin,
    Acos,
    Atan,
    /// The natural logarithm.
    Ln,
    /// The logarithm to base ten.
    Log10,
    Exp,
    Sqrt,
    Floor,
    Ceil,
    /// To the nearest whole number, halves away from zero.
    Round,
}

/// What the host is asked to compute.
#[derive(Debug, Clone, PartialEq)]
pub enum Request<S = String> {
    /// The number nearest to a decimal literal.
    Literal(S),
    /// `left op right`.
    Binary(BinOp, u64, u64),
    /// A kernel applied to a number.
    Unary(Kernel, u64),
}

impl View for Request<String> {
    type V = Request<Seq<char>>;

    open spec fn view(&self) -> Request<Seq<char>> {
        match self {
            Request::Literal(text) => Request::Literal(text@),
            Request::Binary(op, left, right) => Request::Binary(*op, *left, *right),
            Request::Unary(kernel, operand) => Request::Unary(*kernel, *operand),
        }
    }
}

/// How far an evaluation came.
#[derive(Debug, Clone, PartialEq)]
pub enum Step<S = String> {
    /// It is complete, with this value.
    Done(u64),
    /// It needs the answer to this request.
    Ask(Request<S>),
    /// It failed.
    Failed(EvalError<S>),
}

impl View for Step<String> {
    type V = Step<Seq<char>>;

    open spec fn view(&self) -> Step<Seq<char>> {
        match self {
            Step::Done(value) => Step::Done(*value),
            Step::Ask(request) => Step::Ask(request@),
            Step::Failed(error) => Step::Failed(error@),
        }
    }
}

/// The step that a request comes to when `used` answers have been used:
/// the next answer, if there is one, and else the request itself.  With it
/// the number of answers used after the step.
pub open spec fn answer(request: Request<Seq<char>>, answers: Seq<u64>, used: nat) -> (
    Step<Seq<char>>,
    nat,
) {
    if used < answers.len() {
        (Step::Done(answers[used as int]), used + 1)
    } else {
        (Step::Ask(request), used)
    }
}

/// Takes the next answer for `request`, or asks for it.
pub fn ask(request: Request, answers: &Vec<u64>, used: &mut usize) -> (r: Step)
    ensures
        r@ == answer(request@, answers@, *old(used) as nat).0,
        *final(used) == answer(request@, answers@, *old(used) as nat).1,
{
    if *used < answers.len() {
        let value = answers[*used];
        *used = *used + 1;
        Step::Done(value)
    } else {
        Step::Ask(request)
    }
}

} // verus!
