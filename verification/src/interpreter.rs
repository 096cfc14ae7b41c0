//! The evaluator: a walk over a syntax tree that decides what to compute and
//! in which order, and leaves each computation on numbers to its caller.
//!
//! An evaluation runs until it needs the result of an arithmetic operation
//! or of a builtin. It then hands out a [`Request`], and goes on when the
//! caller hands back the result. What it decides is fixed by [`eval`], a
//! function of the tree, the environment and the results handed back so far.

pub mod error;
pub mod evaluation;
pub mod runs;

pub use crate::interpreter::evaluation::{interpret, Evaluation};

use vstd::prelude::*;
use vstd::string::*;
use crate::ast::{BinOp, Expr};
use crate::functions::{lookup, registry, Builtin};
use crate::number::Binary64;
use crate::interpreter::error::{Fault, InterpreterError};

verus! {

/// A computation on numbers that an evaluation asks its caller to perform.
#[derive(Debug, PartialEq)]
pub enum Request {
    /// Apply `op` to `lhs` and `rhs` in binary64 arithmetic.
    Binary { op: BinOp, lhs: Binary64, rhs: Binary64 },
    /// Apply a builtin to its arguments, in their order.
    Call { function: Builtin, arguments: Vec<Binary64> },
}

/// The model of a request.
pub ghost enum Operation {
    Binary { op: BinOp, lhs: Binary64, rhs: Binary64 },
    Call { function: Builtin, arguments: Seq<Binary64> },
}

impl View for Request {
    type V = Operation;

    open spec fn view(&self) -> Operation {
        match self {
            Request::Binary { op, lhs, rhs } => Operation::Binary { op: *op, lhs: *lhs, rhs: *rhs },
            Request::Call { function, arguments } => Operation::Call {
                function: *function,
                arguments: arguments@,
            },
        }
    }
}

/// Where an evaluation stands after a step.
#[derive(Debug, PartialEq)]
pub enum Step {
    /// It needs the result of this computation to go on.
    Need(Request),
    /// It has ended, with a value or with a failure.
    Done(Result<Binary64, InterpreterError>),
}

/// The model of a step.
pub ghost enum Progress {
    Need(Operation),
    Done(Result<Binary64, Fault>),
}

impl View for Step {
    type V = Progress;

    open spec fn view(&self) -> Progress {
        match self {
            Step::Need(request) => Progress::Need(request@),
            Step::Done(Ok(value)) => Progress::Done(Ok(*value)),
            Step::Done(Err(error)) => Progress::Done(Err(error@)),
        }
    }
}

/// How far the evaluation of a part of a tree gets on a given supply of
/// results: to a value, leaving the results it did not use; to a failure; or
/// to a computation for which no result is left.
pub ghost enum Run<T> {
    Value { value: T, rest: Seq<Binary64> },
    Fault(Fault),
    Awaits(Operation),
}

/// What a binary operator does with its operands: it fails, or asks for a
/// computation. Division fails on a divisor that is zero of either sign; a
/// power fails on a base that is zero with an exponent that is at most zero.
pub open spec fn operate(op: BinOp, lhs: Binary64, rhs: Binary64) -> Result<Operation, Fault> {
    if op == BinOp::Divide && rhs.zero() {
        Err(Fault::DivideByZero { dividend: lhs, divisor: rhs })
    } else if op == BinOp::Exponent && lhs.zero() && rhs.at_most_zero() {
        Err(Fault::Undefined)
    } else {
        Ok(Operation::Binary { op, lhs, rhs })
    }
}

/// What a call does with the values of its arguments: it fails where the
/// registry lacks the name or the entry's arity refuses their number, and
/// asks for the builtin's computation otherwise.
pub open spec fn invoke(name: Seq<char>, values: Seq<Binary64>) -> Result<Operation, Fault> {
    match registry(name) {
        None => Err(Fault::UnknownFunction { function: name, args: values }),
        Some(entry) => if entry.arity.admits(values.len() as int) {
            Ok(Operation::Call { function: entry.function, arguments: values })
        } else {
            Err(Fault::FunctionArityMismatch { function: entry.name, arity: entry.arity })
        },
    }
}

/// The run of a decision: a failure ends it, and a computation takes the
/// first of the results, or waits where there is none.
pub open spec fn settle(decision: Result<Operation, Fault>, replies: Seq<Binary64>) -> Run<
    Binary64,
> {
    match decision {
        Err(fault) => Run::Fault(fault),
        Ok(operation) => if replies.len() == 0 {
            Run::Awaits(operation)
        } else {
            Run::Value { value: replies[0], rest: replies.drop_first() }
        },
    }
}

/// The evaluation of `expr` in `env`, where `replies` are the results of the
/// computations it asks for, in the order in which it asks. The left operand
/// is evaluated before the right one and the arguments of a call from first to
/// last; the first failure ends the evaluation.
pub open spec fn eval(expr: Expr, env: Map<Seq<char>, Binary64>, replies: Seq<Binary64>) -> Run<
    Binary64,
>
    decreases expr, 0nat,
{
    match expr {
        Expr::Number(value) => Run::Value { value, rest: replies },
        Expr::Variable { name } => if env.contains_key(name) {
            Run::Value { value: env[name], rest: replies }
        } else {
            Run::Fault(Fault::UnboundVariable { variable_name: name })
        },
        Expr::BinOp { op, lhs, rhs } => match eval(*lhs, env, replies) {
            Run::Value { value: left, rest } => match eval(*rhs, env, rest) {
                Run::Value { value: right, rest } => settle(operate(op, left, right), rest),
                Run::Fault(fault) => Run::Fault(fault),
                Run::Awaits(operation) => Run::Awaits(operation),
            },
            Run::Fault(fault) => Run::Fault(fault),
            Run::Awaits(operation) => Run::Awaits(operation),
        },
        Expr::Function { name, arguments } => match eval_arguments(
            arguments,
            Seq::empty(),
            env,
            replies,
        ) {
            Run::Value { value: values, rest } => settle(invoke(name, values), rest),
            Run::Fault(fault) => Run::Fault(fault),
            Run::Awaits(operation) => Run::Awaits(operation),
        },
    }
}

/// The evaluation of the arguments of a call from the one at index
/// `values.len()` on, where `values` are the values of those before it.
pub open spec fn eval_arguments(
    arguments: Seq<Expr>,
    values: Seq<Binary64>,
    env: Map<Seq<char>, Binary64>,
    replies: Seq<Binary64>,
) -> Run<Seq<Binary64>>
    decreases arguments, arguments.len() - values.len(),
{
    if values.len() >= arguments.len() {
        Run::Value { value: values, rest: replies }
    } else {
        match eval(arguments[values.len() as int], env, replies) {
            Run::Value { value, rest } => eval_arguments(arguments, values.push(value), env, rest),
            Run::Fault(fault) => Run::Fault(fault),
            Run::Awaits(operation) => Run::Awaits(operation),
        }
    }
}

/// Where an evaluation stands after the run `run` of its whole tree.
pub open spec fn progress(run: Run<Binary64>) -> Progress {
    match run {
        Run::Value { value, rest } => Progress::Done(Ok(value)),
        Run::Fault(fault) => Progress::Done(Err(fault)),
        Run::Awaits(operation) => Progress::Need(operation),
    }
}

/// The model of a decision.
pub open spec fn decided(decision: Result<Request, InterpreterError>) -> Result<Operation, Fault> {
    match decision {
        Ok(request) => Ok(request@),
        Err(error) => Err(error@),
    }
}

/// Decides what a binary operator does with its operands.
pub fn binary_request(op: BinOp, lhs: Binary64, rhs: Binary64) -> (decision: Result<
    Request,
    InterpreterError,
>)
    ensures
        decided(decision) == operate(op, lhs, rhs),
{
    match op {
        BinOp::Divide => {
            if rhs.is_zero() {
                return Err(InterpreterError::DivideByZero { dividend: lhs, divisor: rhs });
            }
        },
        BinOp::Exponent => {
            if lhs.is_zero() && rhs.is_at_most_zero() {
                return Err(InterpreterError::Undefined);
            }
        },
        _ => {},
    }
    Ok(Request::Binary { op, lhs, rhs })
}

/// Decides what a call of `name` does with the values of its arguments.
pub fn call_request(name: &str, arguments: Vec<Binary64>) -> (decision: Result<
    Request,
    InterpreterError,
>)
    ensures
        decided(decision) == invoke(name@, arguments@),
{
    match lookup(name) {
        None => Err(
            InterpreterError::UnknownFunction { function: String::from_str(name), args: arguments },
        ),
        Some(entry) => {
            if entry.arity.is_valid(arguments.len()) {
                Ok(Request::Call { function: entry.function, arguments })
            } else {
                Err(
                    InterpreterError::FunctionArityMismatch {
                        function: entry.name,
                        arity: entry.arity,
                    },
                )
            }
        },
    }
}

} // verus!
