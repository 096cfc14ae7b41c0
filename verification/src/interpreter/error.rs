//! The ways in which an evaluation fails.

use vstd::prelude::*;
use crate::functions::Arity;
use crate::number::Binary64;

verus! {

/// A failure of an evaluation. Each is final: nothing is evaluated after it.
#[derive(Debug, PartialEq)]
pub enum InterpreterError {
    /// A variable has no binding in the environment.
    UnboundVariable { variable_name: String },
    /// A call names a function that the registry lacks; `args` holds the
    /// values of the arguments, which were evaluated first.
    UnknownFunction { function: String, args: Vec<Binary64> },
    /// A call passes a number of arguments outside the function's arity.
    FunctionArityMismatch { function: String, arity: Arity },
    /// A division by a divisor that is exactly zero.
    DivideByZero { dividend: Binary64, divisor: Binary64 },
    /// A power of zero with an exponent that is not positive.
    Undefined,
}

/// The model of a failure.
pub ghost enum Fault {
    UnboundVariable { variable_name: Seq<char> },
    UnknownFunction { function: Seq<char>, args: Seq<Binary64> },
    FunctionArityMismatch { function: Seq<char>, arity: Arity },
    DivideByZero { dividend: Binary64, divisor: Binary64 },
    Undefined,
}

impl View for InterpreterError {
    type V = Fault;

    open spec fn view(&self) -> Fault {
        match self {
            InterpreterError::UnboundVariable { variable_name } => Fault::UnboundVariable {
                variable_name: variable_name@,
            },
            InterpreterError::UnknownFunction { function, args } => Fault::UnknownFunction {
                function: function@,
                args: args@,
            },
            InterpreterError::FunctionArityMismatch { function, arity } => {
                Fault::FunctionArityMismatch { function: function@, arity: *arity }
            },
            InterpreterError::DivideByZero { dividend, divisor } => Fault::DivideByZero {
                dividend: *dividend,
                divisor: *divisor,
            },
            InterpreterError::Undefined => Fault::Undefined,
        }
    }
}

} // verus!
