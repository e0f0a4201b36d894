//! The evaluator: a walk over the expression tree, operands before
//! operators and left before right.
//!
//! The walk decides everything that can be decided on the numbers as they
//! are: which variable is read, whether a divisor is zero, whether a
//! function has the right number of arguments and whether they lie in its
//! domain.  Arithmetic is the host's: the walk uses the answers it was
//! given, in order, and stops with a request where they run out.  An
//! evaluation changes the context only when it is complete.
//!
//! What the host answers is taken as it is.  A power of a negative base to
//! a fractional exponent, which is no number, is a value like any other
//! and no error.

use vstd::prelude::*;
use crate::ast::{terms, BinOp, Expr, Function, Term, UnOp};
use crate::context::{AngleMode, Context};
use crate::error::EvalError;
use crate::functions::{
    factorial, factorial_spec, from_radians, from_radians_spec, to_radians, to_radians_spec,
};
use crate::host::{answer, ask, Kernel, Request, Step};
use crate::number::{
    at_most, at_most_bits, is_zero, is_zero_bits, less, less_than, magnitude, magnitude_of,
    max_of, maximum, min_of, minimum, negate, negated, INFINITY, MINUS_ONE, NEG_INFINITY, ONE,
    ZERO,
};
use crate::parser::lemma_call_view;
use crate::text::{decimal_text, push_decimal};

verus! {

/// The message for a call with `got` arguments of a function that takes
/// `expected`.
pub open spec fn arity_message(name: Seq<char>, expected: nat, got: nat) -> Seq<char> {
    name + " expects "@ + decimal_text(expected) + " argument(s), got "@ + decimal_text(got)
}

/// The error, if any, for calling `func` with `got` arguments: `max` and
/// `min` take one or more, `pow` takes two, every other function one.
pub open spec fn arity_error(func: Function, got: nat) -> Option<EvalError<Seq<char>>> {
    match func {
        Function::Max | Function::Min => if got == 0 {
            Some(EvalError::InvalidArguments(func.name_spec() + " expects at least 1 argument"@))
        } else {
            None
        },
        Function::Sqrt => if got != 1 {
            Some(EvalError::InvalidArguments("sqrt expects 1 argument"@))
        } else {
            None
        },
        Function::Pow => if got != 2 {
            Some(EvalError::InvalidArguments(arity_message(func.name_spec(), 2, got)))
        } else {
            None
        },
        _ => if got != 1 {
            Some(EvalError::InvalidArguments(arity_message(func.name_spec(), 1, got)))
        } else {
            None
        },
    }
}

/// The error, if any, for applying `func` to `x`: the inverse sine and
/// cosine take a number in [-1, 1], the logarithms a number above 0, the
/// square root a number that is not below 0.  What is no number passes.
pub open spec fn domain_error(func: Function, x: u64) -> Option<EvalError<Seq<char>>> {
    match func {
        Function::Asin => if less(x, MINUS_ONE) || less(ONE, x) {
            Some(EvalError::MathError("asin domain error: input must be in [-1, 1]"@))
        } else {
            None
        },
        Function::Acos => if less(x, MINUS_ONE) || less(ONE, x) {
            Some(EvalError::MathError("acos domain error: input must be in [-1, 1]"@))
        } else {
            None
        },
        Function::Ln => if at_most(x, ZERO) {
            Some(EvalError::MathError("ln of non-positive number"@))
        } else {
            None
        },
        Function::Log => if at_most(x, ZERO) {
            Some(EvalError::MathError("log of non-positive number"@))
        } else {
            None
        },
        Function::Sqrt => if less(x, ZERO) {
            Some(EvalError::MathError("sqrt of negative number"@))
        } else {
            None
        },
        _ => None,
    }
}

/// The greatest of `values`, starting from negative infinity.
pub open spec fn greatest(values: Seq<u64>) -> u64
    decreases values.len(),
{
    if values.len() == 0 {
        NEG_INFINITY
    } else {
        maximum(greatest(values.drop_last()), values.last())
    }
}

/// The least of `values`, starting from positive infinity.
pub open spec fn least(values: Seq<u64>) -> u64
    decreases values.len(),
{
    if values.len() == 0 {
        INFINITY
    } else {
        minimum(least(values.drop_last()), values.last())
    }
}

/// A trigonometric kernel applied to an angle given in the unit `mode`.
pub open spec fn direct(kernel: Kernel, x: u64, mode: AngleMode, answers: Seq<u64>, used: nat) -> (
    Step<Seq<char>>,
    nat,
) {
    match to_radians_spec(x, mode, answers, used) {
        (Step::Done(radians), u) => answer(Request::Unary(kernel, radians), answers, u),
        other => other,
    }
}

/// An inverse trigonometric kernel, its result given in the unit `mode`.
pub open spec fn inverse(kernel: Kernel, x: u64, mode: AngleMode, answers: Seq<u64>, used: nat) -> (
    Step<Seq<char>>,
    nat,
) {
    match answer(Request::Unary(kernel, x), answers, used) {
        (Step::Done(radians), u) => from_radians_spec(radians, mode, answers, u),
        other => other,
    }
}

/// The call of `func` on the values of its arguments.
pub open spec fn call_spec(
    func: Function,
    values: Seq<u64>,
    mode: AngleMode,
    answers: Seq<u64>,
    used: nat,
) -> (Step<Seq<char>>, nat) {
    if arity_error(func, values.len()) is Some {
        (Step::Failed(arity_error(func, values.len())->0), used)
    } else if domain_error(func, values[0]) is Some {
        (Step::Failed(domain_error(func, values[0])->0), used)
    } else {
        match func {
            Function::Sin => direct(Kernel::Sin, values[0], mode, answers, used),
            Function::Cos => direct(Kernel::Cos, values[0], mode, answers, used),
            Function::Tan => direct(Kernel::Tan, values[0], mode, answers, used),
            Function::Asin => inverse(Kernel::Asin, values[0], mode, answers, used),
            Function::Acos => inverse(Kernel::Acos, values[0], mode, answers, used),
            Function::Atan => inverse(Kernel::Atan, values[0], mode, answers, used),
            Function::Log => answer(Request::Unary(Kernel::Log10, values[0]), answers, used),
            Function::Ln => answer(Request::Unary(Kernel::Ln, values[0]), answers, used),
            Function::Exp => answer(Request::Unary(Kernel::Exp, values[0]), answers, used),
            Function::Sqrt => answer(Request::Unary(Kernel::Sqrt, values[0]), answers, used),
            Function::Abs => (Step::Done(magnitude(values[0])), used),
            Function::Floor => answer(Request::Unary(Kernel::Floor, values[0]), answers, used),
            Function::Ceil => answer(Request::Unary(Kernel::Ceil, values[0]), answers, used),
            Function::Round => answer(Request::Unary(Kernel::Round, values[0]), answers, used),
            Function::Pow => answer(
                Request::Binary(BinOp::Power, values[0], values[1]),
                answers,
                used,
            ),
            Function::Max => (Step::Done(greatest(values)), used),
            Function::Min => (Step::Done(least(values)), used),
        }
    }
}

/// A binary operator applied to two values: a division by zero fails, and
/// everything else is the host's.
pub open spec fn binary_spec(op: BinOp, left: u64, right: u64, answers: Seq<u64>, used: nat) -> (
    Step<Seq<char>>,
    nat,
) {
    if op == BinOp::Divide && is_zero(right) {
        (Step::Failed(EvalError::DivisionByZero), used)
    } else {
        answer(Request::Binary(op, left, right), answers, used)
    }
}

/// A prefix or postfix operator applied to a value.
pub open spec fn unary_spec(op: UnOp, value: u64) -> Step<Seq<char>> {
    match op {
        UnOp::Positive => Step::Done(value),
        UnOp::Negate => Step::Done(negated(value)),
        UnOp::Factorial => match factorial_spec(value) {
            Ok(bits) => Step::Done(bits),
            Err(e) => Step::Failed(e),
        },
    }
}

/// The evaluation of `t` with the variables `vars`, when `used` of the
/// `answers` have been used: how far it comes, and, where it is complete,
/// the variables and the number of answers used after it.
pub open spec fn eval_term(
    t: Term,
    mode: AngleMode,
    answers: Seq<u64>,
    vars: Map<Seq<char>, u64>,
    used: nat,
) -> (Step<Seq<char>>, Map<Seq<char>, u64>, nat)
    decreases t, 0nat,
{
    match t {
        Term::Number(text) => {
            let asked = answer(Request::Literal(text), answers, used);
            (asked.0, vars, asked.1)
        },
        Term::Variable(name) => {
            if vars.contains_key(name) {
                (Step::Done(vars[name]), vars, used)
            } else {
                (Step::Failed(EvalError::UndefinedVariable(name)), vars, used)
            }
        },
        Term::Binary(left, op, right) => match eval_term(*left, mode, answers, vars, used) {
            (Step::Done(a), vars1, used1) => match eval_term(
                *right,
                mode,
                answers,
                vars1,
                used1,
            ) {
                (Step::Done(b), vars2, used2) => {
                    let applied = binary_spec(op, a, b, answers, used2);
                    (applied.0, vars2, applied.1)
                },
                other => other,
            },
            other => other,
        },
        Term::Unary(op, operand) => match eval_term(*operand, mode, answers, vars, used) {
            (Step::Done(value), vars1, used1) => (unary_spec(op, value), vars1, used1),
            other => other,
        },
        Term::Postfix(operand, op) => match eval_term(*operand, mode, answers, vars, used) {
            (Step::Done(value), vars1, used1) => (unary_spec(op, value), vars1, used1),
            other => other,
        },
        Term::Call(func, args) => match eval_terms(args, 0, mode, answers, vars, used) {
            (Ok(values), vars1, used1) => {
                let called = call_spec(func, values, mode, answers, used1);
                (called.0, vars1, called.1)
            },
            (Err(step), vars1, used1) => (step, vars1, used1),
        },
        Term::Assign(name, value) => match eval_term(*value, mode, answers, vars, used) {
            (Step::Done(v), vars1, used1) => (Step::Done(v), vars1.insert(name, v), used1),
            other => other,
        },
    }
}

/// The evaluation of the terms `ts[from..]`, one after the other: their
/// values, or the step at which the first of them stopped.
pub open spec fn eval_terms(
    ts: Seq<Term>,
    from: nat,
    mode: AngleMode,
    answers: Seq<u64>,
    vars: Map<Seq<char>, u64>,
    used: nat,
) -> (Result<Seq<u64>, Step<Seq<char>>>, Map<Seq<char>, u64>, nat)
    decreases ts, ts.len() - from,
{
    if from >= ts.len() {
        (Ok(Seq::empty()), vars, used)
    } else {
        match eval_term(ts[from as int], mode, answers, vars, used) {
            (Step::Done(value), vars1, used1) => match eval_terms(
                ts,
                from + 1,
                mode,
                answers,
                vars1,
                used1,
            ) {
                (Ok(rest), vars2, used2) => (Ok(seq![value] + rest), vars2, used2),
                other => other,
            },
            (step, vars1, used1) => (Err(step), vars1, used1),
        }
    }
}

/// The evaluation of `t` in a context, given `answers`.
pub open spec fn evaluation(t: Term, context: Context, answers: Seq<u64>) -> (
    Step<Seq<char>>,
    Map<Seq<char>, u64>,
    nat,
) {
    eval_term(t, context.mode(), answers, context.bindings(), 0)
}

/// Whether an assignment stands anywhere in `t`.
pub open spec fn assigns(t: Term) -> bool
    decreases t,
{
    match t {
        Term::Number(_) => false,
        Term::Variable(_) => false,
        Term::Binary(left, _, right) => assigns(*left) || assigns(*right),
        Term::Unary(_, operand) => assigns(*operand),
        Term::Postfix(operand, _) => assigns(*operand),
        Term::Call(_, args) => exists|i: int| 0 <= i < args.len() && assigns(#[trigger] args[i]),
        Term::Assign(_, _) => true,
    }
}

/// Whether `func` takes or gives an angle.
pub open spec fn is_trigonometric(func: Function) -> bool {
    func == Function::Sin || func == Function::Cos || func == Function::Tan || func
        == Function::Asin || func == Function::Acos || func == Function::Atan
}

/// Whether a function that takes or gives an angle is called anywhere in
/// `t`.
pub open spec fn uses_angles(t: Term) -> bool
    decreases t,
{
    match t {
        Term::Number(_) => false,
        Term::Variable(_) => false,
        Term::Binary(left, _, right) => uses_angles(*left) || uses_angles(*right),
        Term::Unary(_, operand) => uses_angles(*operand),
        Term::Postfix(operand, _) => uses_angles(*operand),
        Term::Call(func, args) => is_trigonometric(func) || exists|i: int|
            0 <= i < args.len() && uses_angles(#[trigger] args[i]),
        Term::Assign(_, value) => uses_angles(*value),
    }
}

/// An expression without an assignment leaves the variables as they were:
/// evaluated again in the context it left, with the same answers, it comes
/// to the same step.
pub proof fn lemma_pure_evaluation_keeps_variables(
    t: Term,
    mode: AngleMode,
    answers: Seq<u64>,
    vars: Map<Seq<char>, u64>,
    used: nat,
)
    requires
        !assigns(t),
    ensures
        eval_term(t, mode, answers, vars, used).1 == vars,
        eval_term(t, mode, answers, eval_term(t, mode, answers, vars, used).1, used)
            == eval_term(t, mode, answers, vars, used),
    decreases t, 0nat,
{
    match t {
        Term::Number(_) => {},
        Term::Variable(_) => {},
        Term::Binary(left, _, right) => {
            lemma_pure_evaluation_keeps_variables(*left, mode, answers, vars, used);
            let first = eval_term(*left, mode, answers, vars, used);
            lemma_pure_evaluation_keeps_variables(*right, mode, answers, first.1, first.2);
        },
        Term::Unary(_, operand) => {
            lemma_pure_evaluation_keeps_variables(*operand, mode, answers, vars, used);
        },
        Term::Postfix(operand, _) => {
            lemma_pure_evaluation_keeps_variables(*operand, mode, answers, vars, used);
        },
        Term::Call(_, args) => {
            lemma_pure_arguments_keep_variables(args, 0, mode, answers, vars, used);
        },
        Term::Assign(_, _) => {},
    }
}

/// Arguments without an assignment leave the variables as they were.
pub proof fn lemma_pure_arguments_keep_variables(
    ts: Seq<Term>,
    from: nat,
    mode: AngleMode,
    answers: Seq<u64>,
    vars: Map<Seq<char>, u64>,
    used: nat,
)
    requires
        forall|i: int| from <= i < ts.len() ==> !assigns(#[trigger] ts[i]),
    ensures
        eval_terms(ts, from, mode, answers, vars, used).1 == vars,
    decreases ts, ts.len() - from,
{
    if from < ts.len() {
        lemma_pure_evaluation_keeps_variables(ts[from as int], mode, answers, vars, used);
        let first = eval_term(ts[from as int], mode, answers, vars, used);
        if first.0 is Done {
            lemma_pure_arguments_keep_variables(ts, from + 1, mode, answers, first.1, first.2);
        }
    }
}

/// Evaluating an expression without an assignment is idempotent: in the
/// context that an evaluation of it leaves, a second one, given the same
/// answers, comes to the same step and the same value.
pub proof fn lemma_pure_evaluation_repeats(
    t: Term,
    before: Context,
    after: Context,
    answers: Seq<u64>,
)
    requires
        !assigns(t),
        after.mode() == before.mode(),
        after.bindings() == if evaluation(t, before, answers).0 is Done {
            evaluation(t, before, answers).1
        } else {
            before.bindings()
        },
    ensures
        after.bindings() == before.bindings(),
        evaluation(t, after, answers) == evaluation(t, before, answers),
{
    lemma_pure_evaluation_keeps_variables(t, before.mode(), answers, before.bindings(), 0);
}

/// A complete assignment binds the name to the value of the expression,
/// whatever the name was bound to before: read next, the variable has that
/// value, and no answer is needed for it.
pub proof fn lemma_assignment_binds(
    name: Seq<char>,
    value: Term,
    mode: AngleMode,
    answers: Seq<u64>,
    vars: Map<Seq<char>, u64>,
    used: nat,
)
    ensures
        ({
            let out = eval_term(Term::Assign(name, Box::new(value)), mode, answers, vars, used);
            out.0 matches Step::Done(v) ==> {
                &&& eval_term(value, mode, answers, vars, used).0 == Step::<Seq<char>>::Done(v)
                &&& out.1 == eval_term(value, mode, answers, vars, used).1.insert(name, v)
                &&& eval_term(Term::Variable(name), mode, answers, out.1, out.2) == (
                    Step::<Seq<char>>::Done(v),
                    out.1,
                    out.2,
                )
            }
        }),
{
}

/// The unit of angles bears on the trigonometric functions and their
/// inverses alone: an expression that calls none of them comes to the same
/// step in every unit.
pub proof fn lemma_angle_mode_bears_on_angles_only(
    t: Term,
    first: AngleMode,
    second: AngleMode,
    answers: Seq<u64>,
    vars: Map<Seq<char>, u64>,
    used: nat,
)
    requires
        !uses_angles(t),
    ensures
        eval_term(t, first, answers, vars, used) == eval_term(t, second, answers, vars, used),
    decreases t, 0nat,
{
    match t {
        Term::Number(_) => {},
        Term::Variable(_) => {},
        Term::Binary(left, _, right) => {
            lemma_angle_mode_bears_on_angles_only(*left, first, second, answers, vars, used);
            let l = eval_term(*left, first, answers, vars, used);
            lemma_angle_mode_bears_on_angles_only(*right, first, second, answers, l.1, l.2);
        },
        Term::Unary(_, operand) => {
            lemma_angle_mode_bears_on_angles_only(*operand, first, second, answers, vars, used);
        },
        Term::Postfix(operand, _) => {
            lemma_angle_mode_bears_on_angles_only(*operand, first, second, answers, vars, used);
        },
        Term::Call(_, args) => {
            lemma_angle_mode_bears_on_arguments(args, 0, first, second, answers, vars, used);
        },
        Term::Assign(_, value) => {
            lemma_angle_mode_bears_on_angles_only(*value, first, second, answers, vars, used);
        },
    }
}

/// Arguments that call no trigonometric function come to the same values
/// in every unit of angles.
pub proof fn lemma_angle_mode_bears_on_arguments(
    ts: Seq<Term>,
    from: nat,
    first: AngleMode,
    second: AngleMode,
    answers: Seq<u64>,
    vars: Map<Seq<char>, u64>,
    used: nat,
)
    requires
        forall|i: int| from <= i < ts.len() ==> !uses_angles(#[trigger] ts[i]),
    ensures
        eval_terms(ts, from, first, answers, vars, used) == eval_terms(
            ts,
            from,
            second,
            answers,
            vars,
            used,
        ),
    decreases ts, ts.len() - from,
{
    if from < ts.len() {
        lemma_angle_mode_bears_on_angles_only(ts[from as int], first, second, answers, vars, used);
        let head = eval_term(ts[from as int], first, answers, vars, used);
        if head.0 is Done {
            lemma_angle_mode_bears_on_arguments(
                ts,
                from + 1,
                first,
                second,
                answers,
                head.1,
                head.2,
            );
        }
    }
}

/// Addition, subtraction, multiplication and power never fail, and division
/// fails for a zero divisor and for nothing else.  Where an operator does
/// not fail, its value is the host's answer to the operation on the two
/// values as they are.
pub proof fn lemma_operators_are_the_hosts(
    op: BinOp,
    left: u64,
    right: u64,
    answers: Seq<u64>,
    used: nat,
)
    ensures
        binary_spec(op, left, right, answers, used).0 is Failed <==> op == BinOp::Divide
            && is_zero(right),
        binary_spec(op, left, right, answers, used).0 is Failed ==> binary_spec(
            op,
            left,
            right,
            answers,
            used,
        ).0 == Step::<Seq<char>>::Failed(EvalError::DivisionByZero),
        !(op == BinOp::Divide && is_zero(right)) ==> binary_spec(op, left, right, answers, used)
            == answer(Request::Binary(op, left, right), answers, used),
{
}

/// A bound on the number of requests that the evaluation of `t` makes.
pub open spec fn requests(t: Term) -> nat
    decreases t, 0nat,
{
    match t {
        Term::Number(_) => 1,
        Term::Variable(_) => 0,
        Term::Binary(left, _, right) => requests(*left) + requests(*right) + 1,
        Term::Unary(_, operand) => requests(*operand),
        Term::Postfix(operand, _) => requests(*operand),
        Term::Call(_, args) => requests_of(args, 0) + 3,
        Term::Assign(_, value) => requests(*value),
    }
}

/// A bound on the number of requests that the evaluation of `ts[from..]`
/// makes.
pub open spec fn requests_of(ts: Seq<Term>, from: nat) -> nat
    decreases ts, ts.len() - from,
{
    if from >= ts.len() {
        0
    } else {
        requests(ts[from as int]) + requests_of(ts, from + 1)
    }
}

/// Whether a step that began with `used` answers used and ended with
/// `after` stayed within the answers given and within `bound` requests, and
/// stopped for an answer only when none was left.
pub open spec fn within(
    step_asks: bool,
    used: nat,
    after: nat,
    answers: Seq<u64>,
    bound: nat,
) -> bool {
    &&& used <= after <= answers.len()
    &&& after <= used + bound
    &&& step_asks ==> after == answers.len() && after < used + bound
}

/// A call makes at most three requests.
pub proof fn lemma_call_is_bounded(
    func: Function,
    values: Seq<u64>,
    mode: AngleMode,
    answers: Seq<u64>,
    used: nat,
)
    requires
        used <= answers.len(),
    ensures
        within(
            call_spec(func, values, mode, answers, used).0 is Ask,
            used,
            call_spec(func, values, mode, answers, used).1,
            answers,
            3,
        ),
{
}

/// The conversation with the host is bounded: an evaluation uses the
/// answers it is given in order, stops for an answer only when it has used
/// them all, and is settled when it is given as many answers as
/// [`requests`] counts.
pub proof fn lemma_conversation_is_bounded(
    t: Term,
    mode: AngleMode,
    answers: Seq<u64>,
    vars: Map<Seq<char>, u64>,
    used: nat,
)
    requires
        used <= answers.len(),
    ensures
        within(
            eval_term(t, mode, answers, vars, used).0 is Ask,
            used,
            eval_term(t, mode, answers, vars, used).2,
            answers,
            requests(t),
        ),
        answers.len() >= used + requests(t) ==> !(eval_term(t, mode, answers, vars, used).0
            is Ask),
    decreases t, 0nat,
{
    match t {
        Term::Number(_) => {},
        Term::Variable(_) => {},
        Term::Binary(left, _, right) => {
            lemma_conversation_is_bounded(*left, mode, answers, vars, used);
            let l = eval_term(*left, mode, answers, vars, used);
            if l.0 is Done {
                lemma_conversation_is_bounded(*right, mode, answers, l.1, l.2);
            }
        },
        Term::Unary(_, operand) => {
            lemma_conversation_is_bounded(*operand, mode, answers, vars, used);
        },
        Term::Postfix(operand, _) => {
            lemma_conversation_is_bounded(*operand, mode, answers, vars, used);
        },
        Term::Call(func, args) => {
            lemma_arguments_are_bounded(args, 0, mode, answers, vars, used);
            let a = eval_terms(args, 0, mode, answers, vars, used);
            if let Ok(values) = a.0 {
                lemma_call_is_bounded(func, values, mode, answers, a.2);
            }
        },
        Term::Assign(_, value) => {
            lemma_conversation_is_bounded(*value, mode, answers, vars, used);
        },
    }
}

/// The evaluation of arguments makes no more requests than
/// [`requests_of`] counts.
pub proof fn lemma_arguments_are_bounded(
    ts: Seq<Term>,
    from: nat,
    mode: AngleMode,
    answers: Seq<u64>,
    vars: Map<Seq<char>, u64>,
    used: nat,
)
    requires
        used <= answers.len(),
    ensures
        within(
            eval_terms(ts, from, mode, answers, vars, used).0 matches Err(step) && step is Ask,
            used,
            eval_terms(ts, from, mode, answers, vars, used).2,
            answers,
            requests_of(ts, from) + 1,
        ),
        eval_terms(ts, from, mode, answers, vars, used).2 <= used + requests_of(ts, from),
    decreases ts, ts.len() - from,
{
    if from < ts.len() {
        lemma_conversation_is_bounded(ts[from as int], mode, answers, vars, used);
        let head = eval_term(ts[from as int], mode, answers, vars, used);
        if head.0 is Done {
            lemma_arguments_are_bounded(ts, from + 1, mode, answers, head.1, head.2);
        }
    }
}

/// A request that found its answer finds it again among more answers.
pub proof fn lemma_answer_stands(
    request: Request<Seq<char>>,
    answers: Seq<u64>,
    more: Seq<u64>,
    used: nat,
)
    ensures
        !(answer(request, answers, used).0 is Ask) ==> answer(request, answers + more, used)
            == answer(request, answers, used),
        answer(request, answers, used).0 is Done ==> answer(request, answers, used).1
            <= answers.len(),
{
}

/// A call that did not stop for an answer comes to the same end among more
/// answers.
pub proof fn lemma_call_stands(
    func: Function,
    values: Seq<u64>,
    mode: AngleMode,
    answers: Seq<u64>,
    more: Seq<u64>,
    used: nat,
)
    ensures
        !(call_spec(func, values, mode, answers, used).0 is Ask) ==> call_spec(
            func,
            values,
            mode,
            answers + more,
            used,
        ) == call_spec(func, values, mode, answers, used),
{
    let x = values[0];
    lemma_answer_stands(Request::Unary(Kernel::ToRadians, x), answers, more, used);
    lemma_answer_stands(Request::Binary(BinOp::Multiply, x, crate::number::PI), answers, more, used);
    let product = answer(
        Request::Binary(BinOp::Multiply, x, crate::number::PI),
        answers,
        used,
    );
    if let Step::Done(p) = product.0 {
        lemma_answer_stands(
            Request::Binary(BinOp::Divide, p, crate::number::TWO_HUNDRED),
            answers,
            more,
            product.1,
        );
    }
    let radians = to_radians_spec(x, mode, answers, used);
    if let Step::Done(r) = radians.0 {
        lemma_answer_stands(Request::Unary(Kernel::Sin, r), answers, more, radians.1);
        lemma_answer_stands(Request::Unary(Kernel::Cos, r), answers, more, radians.1);
        lemma_answer_stands(Request::Unary(Kernel::Tan, r), answers, more, radians.1);
    }
    lemma_inverse_stands(Kernel::Asin, x, mode, answers, more, used);
    lemma_inverse_stands(Kernel::Acos, x, mode, answers, more, used);
    lemma_inverse_stands(Kernel::Atan, x, mode, answers, more, used);
    lemma_answer_stands(Request::Unary(Kernel::Log10, x), answers, more, used);
    lemma_answer_stands(Request::Unary(Kernel::Ln, x), answers, more, used);
    lemma_answer_stands(Request::Unary(Kernel::Exp, x), answers, more, used);
    lemma_answer_stands(Request::Unary(Kernel::Sqrt, x), answers, more, used);
    lemma_answer_stands(Request::Unary(Kernel::Floor, x), answers, more, used);
    lemma_answer_stands(Request::Unary(Kernel::Ceil, x), answers, more, used);
    lemma_answer_stands(Request::Unary(Kernel::Round, x), answers, more, used);
    lemma_answer_stands(Request::Binary(BinOp::Power, x, values[1]), answers, more, used);
}

/// An inverse trigonometric call that did not stop for an answer comes to
/// the same end among more answers.
proof fn lemma_inverse_stands(
    kernel: Kernel,
    x: u64,
    mode: AngleMode,
    answers: Seq<u64>,
    more: Seq<u64>,
    used: nat,
)
    ensures
        !(inverse(kernel, x, mode, answers, used).0 is Ask) ==> inverse(
            kernel,
            x,
            mode,
            answers + more,
            used,
        ) == inverse(kernel, x, mode, answers, used),
{
    lemma_answer_stands(Request::Unary(kernel, x), answers, more, used);
    let first = answer(Request::Unary(kernel, x), answers, used);
    if let Step::Done(r) = first.0 {
        lemma_answer_stands(Request::Unary(Kernel::ToDegrees, r), answers, more, first.1);
        lemma_answer_stands(
            Request::Binary(BinOp::Multiply, r, crate::number::TWO_HUNDRED),
            answers,
            more,
            first.1,
        );
        let product = answer(
            Request::Binary(BinOp::Multiply, r, crate::number::TWO_HUNDRED),
            answers,
            first.1,
        );
        if let Step::Done(p) = product.0 {
            lemma_answer_stands(
                Request::Binary(BinOp::Divide, p, crate::number::PI),
                answers,
                more,
                product.1,
            );
        }
    }
}

/// An evaluation that is complete, or has failed, is settled: it comes to
/// the same end whatever answers are added to those it was given.
pub proof fn lemma_settled_evaluation_stands(
    t: Term,
    mode: AngleMode,
    answers: Seq<u64>,
    more: Seq<u64>,
    vars: Map<Seq<char>, u64>,
    used: nat,
)
    ensures
        !(eval_term(t, mode, answers, vars, used).0 is Ask) ==> eval_term(
            t,
            mode,
            answers + more,
            vars,
            used,
        ) == eval_term(t, mode, answers, vars, used),
    decreases t, 0nat,
{
    match t {
        Term::Number(text) => {
            lemma_answer_stands(Request::Literal(text), answers, more, used);
        },
        Term::Variable(_) => {},
        Term::Binary(left, op, right) => {
            lemma_settled_evaluation_stands(*left, mode, answers, more, vars, used);
            let l = eval_term(*left, mode, answers, vars, used);
            if let Step::Done(a) = l.0 {
                lemma_settled_evaluation_stands(*right, mode, answers, more, l.1, l.2);
                let r = eval_term(*right, mode, answers, l.1, l.2);
                if let Step::Done(b) = r.0 {
                    lemma_answer_stands(Request::Binary(op, a, b), answers, more, r.2);
                }
            }
        },
        Term::Unary(_, operand) => {
            lemma_settled_evaluation_stands(*operand, mode, answers, more, vars, used);
        },
        Term::Postfix(operand, _) => {
            lemma_settled_evaluation_stands(*operand, mode, answers, more, vars, used);
        },
        Term::Call(func, args) => {
            lemma_settled_arguments_stand(args, 0, mode, answers, more, vars, used);
            let a = eval_terms(args, 0, mode, answers, vars, used);
            if let Ok(values) = a.0 {
                lemma_call_stands(func, values, mode, answers, more, a.2);
            }
        },
        Term::Assign(_, value) => {
            lemma_settled_evaluation_stands(*value, mode, answers, more, vars, used);
        },
    }
}

/// Arguments whose evaluation is settled come to the same end whatever
/// answers are added.
pub proof fn lemma_settled_arguments_stand(
    ts: Seq<Term>,
    from: nat,
    mode: AngleMode,
    answers: Seq<u64>,
    more: Seq<u64>,
    vars: Map<Seq<char>, u64>,
    used: nat,
)
    ensures
        !(eval_terms(ts, from, mode, answers, vars, used).0 matches Err(step) && step is Ask)
            ==> eval_terms(ts, from, mode, answers + more, vars, used) == eval_terms(
            ts,
            from,
            mode,
            answers,
            vars,
            used,
        ),
    decreases ts, ts.len() - from,
{
    if from < ts.len() {
        lemma_settled_evaluation_stands(ts[from as int], mode, answers, more, vars, used);
        let head = eval_term(ts[from as int], mode, answers, vars, used);
        if head.0 is Done {
            lemma_settled_arguments_stand(ts, from + 1, mode, answers, more, head.1, head.2);
        }
    }
}

/// An evaluator: a context, and the evaluation of expressions in it.
pub struct Evaluator {
    context: Context,
}

impl Evaluator {
    /// The context of the evaluator.
    pub closed spec fn context(&self) -> Context {
        self.context
    }

    /// An evaluator with a new context.
    pub fn new() -> (evaluator: Self)
        ensures
            evaluator.context().bindings() == crate::context::constants(),
            evaluator.context().mode() == AngleMode::Degrees,
            evaluator.context().wf(),
    {
        Evaluator { context: Context::new() }
    }

    /// The context, to read.
    pub fn get_context(&self) -> (r: &Context)
        ensures
            *r == self.context(),
    {
        &self.context
    }

    /// The context, to change.
    pub fn get_context_mut(&mut self) -> (r: &mut Context)
        ensures
            *r == old(self).context(),
            final(self).context() == *final(r),
    {
        &mut self.context
    }

    /// Evaluates `expr` with the answers given so far, and binds `ans` to
    /// the value when the evaluation is complete.
    pub fn evaluate(&mut self, expr: &Expr, answers: &Vec<u64>) -> (r: Step)
        ensures
            r@ == evaluation(expr@, old(self).context(), answers@).0,
            final(self).context().mode() == old(self).context().mode(),
            final(self).context().bindings() == match r {
                Step::Done(value) => evaluation(expr@, old(self).context(), answers@).1.insert(
                    "ans"@,
                    value,
                ),
                _ => old(self).context().bindings(),
            },
            old(self).context().wf() ==> final(self).context().wf(),
    {
        let r = self.eval(expr, answers);
        match r {
            Step::Done(value) => {
                self.context.set_ans(value);
                Step::Done(value)
            },
            other => other,
        }
    }

    /// Evaluates `expr` with the answers given so far.  The context changes
    /// only when the evaluation is complete.
    pub fn eval(&mut self, expr: &Expr, answers: &Vec<u64>) -> (r: Step)
        ensures
            r@ == evaluation(expr@, old(self).context(), answers@).0,
            final(self).context().mode() == old(self).context().mode(),
            final(self).context().bindings() == if r is Done {
                evaluation(expr@, old(self).context(), answers@).1
            } else {
                old(self).context().bindings()
            },
            old(self).context().wf() ==> final(self).context().wf(),
    {
        let mut working = self.context.snapshot();
        let mut used: usize = 0;
        let r = Self::eval_node(expr, &mut working, answers, &mut used);
        match r {
            Step::Done(value) => {
                self.context = working;
                Step::Done(value)
            },
            other => other,
        }
    }

    fn eval_node(expr: &Expr, context: &mut Context, answers: &Vec<u64>, used: &mut usize) -> (r:
        Step)
        ensures
            final(context).mode() == old(context).mode(),
            old(context).wf() ==> final(context).wf(),
            r@ == eval_term(
                expr@,
                old(context).mode(),
                answers@,
                old(context).bindings(),
                *old(used) as nat,
            ).0,
            r is Done ==> final(context).bindings() == eval_term(
                expr@,
                old(context).mode(),
                answers@,
                old(context).bindings(),
                *old(used) as nat,
            ).1 && *final(used) == eval_term(
                expr@,
                old(context).mode(),
                answers@,
                old(context).bindings(),
                *old(used) as nat,
            ).2,
        decreases expr,
    {
        match expr {
            Expr::Number(text) => ask(Request::Literal(text.clone()), answers, used),
            Expr::Variable(name) => {
                match context.get(name.as_str()) {
                    Some(value) => Step::Done(value),
                    None => Step::Failed(EvalError::UndefinedVariable(name.clone())),
                }
            },
            Expr::BinaryOp { left, op, right } => {
                let left_val = match Self::eval_node(left, context, answers, used) {
                    Step::Done(value) => value,
                    other => {
                        return other;
                    },
                };
                let right_val = match Self::eval_node(right, context, answers, used) {
                    Step::Done(value) => value,
                    other => {
                        return other;
                    },
                };
                Self::eval_binary_op(op, left_val, right_val, answers, used)
            },
            Expr::UnaryOp { op, expr } => {
                match Self::eval_node(expr, context, answers, used) {
                    Step::Done(value) => Self::eval_unary_op(op, value),
                    other => other,
                }
            },
            Expr::PostfixOp { expr, op } => {
                match Self::eval_node(expr, context, answers, used) {
                    Step::Done(value) => Self::eval_unary_op(op, value),
                    other => other,
                }
            },
            Expr::FunctionCall { func, args } => {
                let ghost ts = terms(args@);
                let ghost mode = context.mode();
                let ghost vars0 = context.bindings();
                let ghost used0 = *used as nat;
                proof {
                    lemma_call_view(*func, *args);
                }
                let mut arg_values: Vec<u64> = Vec::new();
                let mut i: usize = 0;
                proof {
                    match eval_terms(ts, 0, mode, answers@, vars0, used0) {
                        (Ok(rest), _, _) => {
                            assert(arg_values@ + rest =~= rest);
                        },
                        _ => {},
                    }
                }
                while i < args.len()
                    invariant
                        i <= args.len(),
                        ts == terms(args@),
                        expr == (Expr::FunctionCall { func: *func, args: *args }),
                        expr@ == Term::Call(*func, ts),
                        context.mode() == mode,
                        mode == old(context).mode(),
                        old(context).wf() ==> context.wf(),
                        vars0 == old(context).bindings(),
                        used0 == *old(used) as nat,
                        match eval_terms(
                            ts,
                            i as nat,
                            mode,
                            answers@,
                            context.bindings(),
                            *used as nat,
                        ) {
                            (Ok(rest), vars, u) => eval_terms(
                                ts,
                                0,
                                mode,
                                answers@,
                                vars0,
                                used0,
                            ) == (Ok::<_, Step<Seq<char>>>(arg_values@ + rest), vars, u),
                            (Err(step), _, _) => eval_terms(
                                ts,
                                0,
                                mode,
                                answers@,
                                vars0,
                                used0,
                            ).0 == Err::<Seq<u64>, _>(step),
                        },
                    decreases args.len() - i,
                {
                    let ghost before = arg_values@;
                    proof {
                        assert(decreases_to!(args => args[i as int]));
                        assert(ts[i as int] == args[i as int]@);
                    }
                    let value = match Self::eval_node(&args[i], context, answers, used) {
                        Step::Done(value) => value,
                        other => {
                            return other;
                        },
                    };
                    arg_values.push(value);
                    i += 1;
                    proof {
                        match eval_terms(
                            ts,
                            i as nat,
                            mode,
                            answers@,
                            context.bindings(),
                            *used as nat,
                        ) {
                            (Ok(rest), _, _) => {
                                assert(before + (seq![value] + rest) =~= arg_values@ + rest);
                            },
                            _ => {},
                        }
                    }
                }
                assert(arg_values@ + Seq::<u64>::empty() =~= arg_values@);
                Self::eval_function(func, &arg_values, context.get_angle_mode(), answers, used)
            },
            Expr::Assignment { name, value } => {
                match Self::eval_node(value, context, answers, used) {
                    Step::Done(result) => {
                        context.set(name.clone(), result);
                        Step::Done(result)
                    },
                    other => other,
                }
            },
        }
    }

    fn eval_binary_op(op: &BinOp, left: u64, right: u64, answers: &Vec<u64>, used: &mut usize) -> (r:
        Step)
        ensures
            r@ == binary_spec(*op, left, right, answers@, *old(used) as nat).0,
            *final(used) == binary_spec(*op, left, right, answers@, *old(used) as nat).1,
    {
        match op {
            BinOp::Divide => {
                if is_zero_bits(right) {
                    Step::Failed(EvalError::DivisionByZero)
                } else {
                    ask(Request::Binary(BinOp::Divide, left, right), answers, used)
                }
            },
            _ => ask(Request::Binary(*op, left, right), answers, used),
        }
    }

    fn eval_unary_op(op: &UnOp, val: u64) -> (r: Step)
        ensures
            r@ == unary_spec(*op, val),
    {
        match op {
            UnOp::Positive => Step::Done(val),
            UnOp::Negate => Step::Done(negate(val)),
            UnOp::Factorial => match factorial(val) {
                Ok(bits) => Step::Done(bits),
                Err(e) => Step::Failed(e),
            },
        }
    }

    fn direct_kernel(
        kernel: Kernel,
        x: u64,
        mode: AngleMode,
        answers: &Vec<u64>,
        used: &mut usize,
    ) -> (r: Step)
        ensures
            r@ == direct(kernel, x, mode, answers@, *old(used) as nat).0,
            *final(used) == direct(kernel, x, mode, answers@, *old(used) as nat).1,
    {
        match to_radians(x, mode, answers, used) {
            Step::Done(radians) => ask(Request::Unary(kernel, radians), answers, used),
            other => other,
        }
    }

    fn inverse_kernel(
        kernel: Kernel,
        x: u64,
        mode: AngleMode,
        answers: &Vec<u64>,
        used: &mut usize,
    ) -> (r: Step)
        ensures
            r@ == inverse(kernel, x, mode, answers@, *old(used) as nat).0,
            *final(used) == inverse(kernel, x, mode, answers@, *old(used) as nat).1,
    {
        match ask(Request::Unary(kernel, x), answers, used) {
            Step::Done(radians) => from_radians(radians, mode, answers, used),
            other => other,
        }
    }

    /// Checks the number of arguments of a call.
    fn check_arity(func: &Function, args: &Vec<u64>) -> (r: Result<(), EvalError>)
        ensures
            match arity_error(*func, args@.len()) {
                None => r is Ok,
                Some(e) => r matches Err(x) && x@ == e,
            },
    {
        match func {
            Function::Max | Function::Min => {
                if args.len() == 0 {
                    let mut message = String::from_str(func.name());
                    message.append(" expects at least 1 argument");
                    Err(EvalError::InvalidArguments(message))
                } else {
                    Ok(())
                }
            },
            Function::Sqrt => {
                if args.len() != 1 {
                    Err(EvalError::InvalidArguments(String::from_str("sqrt expects 1 argument")))
                } else {
                    Ok(())
                }
            },
            Function::Pow => Self::validate_args(args, 2, func.name()),
            _ => Self::validate_args(args, 1, func.name()),
        }
    }

    /// Checks that the argument of a call lies in the domain of the
    /// function.
    fn check_domain(func: &Function, x: u64) -> (r: Result<(), EvalError>)
        ensures
            match domain_error(*func, x) {
                None => r is Ok,
                Some(e) => r matches Err(x) && x@ == e,
            },
    {
        match func {
            Function::Asin => {
                if less_than(x, MINUS_ONE) || less_than(ONE, x) {
                    Err(
                        EvalError::MathError(
                            String::from_str("asin domain error: input must be in [-1, 1]"),
                        ),
                    )
                } else {
                    Ok(())
                }
            },
            Function::Acos => {
                if less_than(x, MINUS_ONE) || less_than(ONE, x) {
                    Err(
                        EvalError::MathError(
                            String::from_str("acos domain error: input must be in [-1, 1]"),
                        ),
                    )
                } else {
                    Ok(())
                }
            },
            Function::Ln => {
                if at_most_bits(x, ZERO) {
                    Err(EvalError::MathError(String::from_str("ln of non-positive number")))
                } else {
                    Ok(())
                }
            },
            Function::Log => {
                if at_most_bits(x, ZERO) {
                    Err(EvalError::MathError(String::from_str("log of non-positive number")))
                } else {
                    Ok(())
                }
            },
            Function::Sqrt => {
                if less_than(x, ZERO) {
                    Err(EvalError::MathError(String::from_str("sqrt of negative number")))
                } else {
                    Ok(())
                }
            },
            _ => Ok(()),
        }
    }

    fn greatest_of(args: &Vec<u64>) -> (r: u64)
        ensures
            r == greatest(args@),
    {
        let mut acc = NEG_INFINITY;
        let mut i: usize = 0;
        assert(args@.take(0) =~= Seq::<u64>::empty());
        while i < args.len()
            invariant
                i <= args.len(),
                acc == greatest(args@.take(i as int)),
            decreases args.len() - i,
        {
            assert(args@.take(i + 1).drop_last() =~= args@.take(i as int));
            acc = max_of(acc, args[i]);
            i += 1;
        }
        assert(args@.take(i as int) =~= args@);
        acc
    }

    fn least_of(args: &Vec<u64>) -> (r: u64)
        ensures
            r == least(args@),
    {
        let mut acc = INFINITY;
        let mut i: usize = 0;
        assert(args@.take(0) =~= Seq::<u64>::empty());
        while i < args.len()
            invariant
                i <= args.len(),
                acc == least(args@.take(i as int)),
            decreases args.len() - i,
        {
            assert(args@.take(i + 1).drop_last() =~= args@.take(i as int));
            acc = min_of(acc, args[i]);
            i += 1;
        }
        assert(args@.take(i as int) =~= args@);
        acc
    }

    fn eval_function(
        func: &Function,
        args: &Vec<u64>,
        mode: AngleMode,
        answers: &Vec<u64>,
        used: &mut usize,
    ) -> (r: Step)
        ensures
            r@ == call_spec(*func, args@, mode, answers@, *old(used) as nat).0,
            *final(used) == call_spec(*func, args@, mode, answers@, *old(used) as nat).1,
    {
        match Self::check_arity(func, args) {
            Err(e) => {
                return Step::Failed(e);
            },
            Ok(()) => {},
        }
        match Self::check_domain(func, args[0]) {
            Err(e) => {
                return Step::Failed(e);
            },
            Ok(()) => {},
        }
        let x = args[0];
        match func {
            Function::Sin => Self::direct_kernel(Kernel::Sin, x, mode, answers, used),
            Function::Cos => Self::direct_kernel(Kernel::Cos, x, mode, answers, used),
            Function::Tan => Self::direct_kernel(Kernel::Tan, x, mode, answers, used),
            Function::Asin => Self::inverse_kernel(Kernel::Asin, x, mode, answers, used),
            Function::Acos => Self::inverse_kernel(Kernel::Acos, x, mode, answers, used),
            Function::Atan => Self::inverse_kernel(Kernel::Atan, x, mode, answers, used),
            Function::Ln => ask(Request::Unary(Kernel::Ln, x), answers, used),
            Function::Log => ask(Request::Unary(Kernel::Log10, x), answers, used),
            Function::Sqrt => ask(Request::Unary(Kernel::Sqrt, x), answers, used),
            Function::Abs => Step::Done(magnitude_of(x)),
            Function::Exp => ask(Request::Unary(Kernel::Exp, x), answers, used),
            Function::Ceil => ask(Request::Unary(Kernel::Ceil, x), answers, used),
            Function::Floor => ask(Request::Unary(Kernel::Floor, x), answers, used),
            Function::Round => ask(Request::Unary(Kernel::Round, x), answers, used),
            Function::Pow => ask(Request::Binary(BinOp::Power, x, args[1]), answers, used),
            Function::Max => Step::Done(Self::greatest_of(args)),
            Function::Min => Step::Done(Self::least_of(args)),
        }
    }

    fn validate_args(args: &Vec<u64>, expected: usize, func_name: &str) -> (r: Result<
        (),
        EvalError,
    >)
        ensures
            args.len() == expected ==> r is Ok,
            args.len() != expected ==> (r matches Err(e) && e@ == EvalError::InvalidArguments(
                arity_message(func_name@, expected as nat, args.len() as nat),
            )),
    {
        if args.len() != expected {
            let mut message = String::from_str(func_name);
            message.append(" expects ");
            push_decimal(&mut message, expected);
            message.append(" argument(s), got ");
            push_decimal(&mut message, args.len());
            Err(EvalError::InvalidArguments(message))
        } else {
            Ok(())
        }
    }
}

} // verus!
