//! What holds of every run of an evaluation.

use vstd::prelude::*;
use crate::ast::{BinOp, Expr};
use crate::functions::{registry, Builtin};
use crate::grammar::builtins::{calls_builtins, lemma_text_calls_builtins};
use crate::grammar::expression;
use crate::interpreter::error::Fault;
use crate::interpreter::{eval, eval_arguments, invoke, progress, Operation, Run};
use crate::number::Binary64;

verus! {

/// Whether each of `replies` is what `oracle` answers to the request that the
/// evaluation makes at that time.
pub open spec fn answered_by(
    expr: Expr,
    env: Map<Seq<char>, Binary64>,
    oracle: spec_fn(Operation) -> Binary64,
    replies: Seq<Binary64>,
) -> bool {
    forall|k: int|
        0 <= k < replies.len() ==> (#[trigger] eval(expr, env, replies.take(k))
            matches Run::Awaits(operation) && replies[k] == oracle(operation))
}

/// Evaluation is deterministic as far as the computations are: where each
/// computation has one result, given by `oracle`, any two evaluations of one
/// tree in one environment that run to their end receive the same results and
/// end alike. A draw of a random number is no such computation.
pub proof fn lemma_evaluation_is_deterministic(
    expr: Expr,
    env: Map<Seq<char>, Binary64>,
    oracle: spec_fn(Operation) -> Binary64,
    first: Seq<Binary64>,
    second: Seq<Binary64>,
)
    requires
        answered_by(expr, env, oracle, first),
        answered_by(expr, env, oracle, second),
        progress(eval(expr, env, first)) is Done,
        progress(eval(expr, env, second)) is Done,
    ensures
        first == second,
        progress(eval(expr, env, first)) == progress(eval(expr, env, second)),
{
    lemma_same_replies(expr, env, oracle, first, second, first.len());
    lemma_same_replies(expr, env, oracle, first, second, second.len());
    assert(first.take(first.len() as int) =~= first);
    assert(second.take(second.len() as int) =~= second);
    if first.len() < second.len() {
        assert(eval(expr, env, second.take(first.len() as int)) is Awaits);
    } else if second.len() < first.len() {
        assert(eval(expr, env, first.take(second.len() as int)) is Awaits);
    }
}

/// Whether the tree calls the builtin that draws a random number.
pub open spec fn draws(expr: Expr) -> bool
    decreases expr,
{
    match expr {
        Expr::BinOp { lhs, rhs, .. } => draws(*lhs) || draws(*rhs),
        Expr::Function { name, arguments } => {
            ||| registry(name) matches Some(entry) && entry.function == Builtin::Rand
            ||| exists|i: int| 0 <= i < arguments.len() && draws(#[trigger] arguments[i])
        },
        _ => false,
    }
}

/// Whether a run waits for a random number.
pub open spec fn awaits_draw<T>(run: Run<T>) -> bool {
    run matches Run::Awaits(Operation::Call { function, .. }) && function == Builtin::Rand
}

/// A tree that does not call for a random number never asks for one: all
/// that it asks for is arithmetic and the other builtins, which compute
/// their results from their operands.
pub proof fn lemma_no_draw_is_requested(
    expr: Expr,
    env: Map<Seq<char>, Binary64>,
    replies: Seq<Binary64>,
)
    requires
        !draws(expr),
    ensures
        !awaits_draw(eval(expr, env, replies)),
    decreases expr, 0nat,
{
    match expr {
        Expr::BinOp { op, lhs, rhs } => {
            lemma_no_draw_is_requested(*lhs, env, replies);
            if let Run::Value { value, rest } = eval(*lhs, env, replies) {
                lemma_no_draw_is_requested(*rhs, env, rest);
            }
        },
        Expr::Function { name, arguments } => {
            lemma_no_draw_in_arguments(arguments, Seq::empty(), env, replies);
        },
        _ => {},
    }
}

/// The same for the arguments of a call.
proof fn lemma_no_draw_in_arguments(
    arguments: Seq<Expr>,
    values: Seq<Binary64>,
    env: Map<Seq<char>, Binary64>,
    replies: Seq<Binary64>,
)
    requires
        forall|i: int| 0 <= i < arguments.len() ==> !draws(#[trigger] arguments[i]),
    ensures
        !awaits_draw(eval_arguments(arguments, values, env, replies)),
    decreases arguments, arguments.len() - values.len(),
{
    if values.len() < arguments.len() {
        let argument = arguments[values.len() as int];
        lemma_no_draw_is_requested(argument, env, replies);
        if let Run::Value { value, rest } = eval(argument, env, replies) {
            lemma_no_draw_in_arguments(arguments, values.push(value), env, rest);
        }
    }
}

/// One text in one environment has one outcome, where each computation has
/// one result: the text spells one tree, and the tree is evaluated in one way.
pub proof fn lemma_text_is_evaluated_alike(
    text: Seq<char>,
    env: Map<Seq<char>, Binary64>,
    oracle: spec_fn(Operation) -> Binary64,
    first: Seq<Binary64>,
    second: Seq<Binary64>,
)
    requires
        expression(text) matches Ok(tree) && ({
            &&& answered_by(tree, env, oracle, first)
            &&& answered_by(tree, env, oracle, second)
            &&& progress(eval(tree, env, first)) is Done
            &&& progress(eval(tree, env, second)) is Done
        }),
    ensures
        expression(text) matches Ok(tree) && progress(eval(tree, env, first)) == progress(
            eval(tree, env, second),
        ),
{
    lemma_evaluation_is_deterministic(expression(text)->Ok_0, env, oracle, first, second);
}

/// Two evaluations whose computations have the same results agree on the
/// results that both have received.
proof fn lemma_same_replies(
    expr: Expr,
    env: Map<Seq<char>, Binary64>,
    oracle: spec_fn(Operation) -> Binary64,
    first: Seq<Binary64>,
    second: Seq<Binary64>,
    count: nat,
)
    requires
        answered_by(expr, env, oracle, first),
        answered_by(expr, env, oracle, second),
    ensures
        count <= first.len() && count <= second.len() ==> first.take(count as int)
            == second.take(count as int),
    decreases count,
{
    if count <= first.len() && count <= second.len() {
        if count == 0 {
            assert(first.take(0) =~= second.take(0));
        } else {
            let before = count - 1;
            lemma_same_replies(expr, env, oracle, first, second, before as nat);
            assert(eval(expr, env, first.take(before)) is Awaits);
            assert(eval(expr, env, second.take(before)) is Awaits);
            assert(first[before] == second[before]);
            assert(first.take(count as int) =~= first.take(before).push(first[before]));
            assert(second.take(count as int) =~= second.take(before).push(second[before]));
        }
    }
}

/// No request asks for what is not defined: not for a division by zero, not
/// for a power of zero with an exponent that is at most zero, and not for a
/// builtin with a number of arguments that its arity refuses.
pub proof fn lemma_requests_are_defined(
    expr: Expr,
    env: Map<Seq<char>, Binary64>,
    replies: Seq<Binary64>,
)
    ensures
        (match eval(expr, env, replies) {
            Run::Awaits(Operation::Binary { op, lhs, rhs }) => {
                &&& op == BinOp::Divide ==> !rhs.zero()
                &&& op == BinOp::Exponent ==> !(lhs.zero() && rhs.at_most_zero())
            },
            Run::Awaits(Operation::Call { function, arguments }) => exists|name: Seq<char>|
                (#[trigger] registry(name)) matches Some(entry) && entry.function == function
                    && entry.arity.admits(arguments.len() as int),
            _ => true,
        }),
    decreases expr, 0nat,
{
    match expr {
        Expr::BinOp { op, lhs, rhs } => {
            lemma_requests_are_defined(*lhs, env, replies);
            if let Run::Value { value, rest } = eval(*lhs, env, replies) {
                lemma_requests_are_defined(*rhs, env, rest);
            }
        },
        Expr::Function { name, arguments } => {
            lemma_argument_requests_are_defined(arguments, Seq::empty(), env, replies);
            if let Run::Value { value, rest } = eval_arguments(
                arguments,
                Seq::empty(),
                env,
                replies,
            ) {
                if invoke(name, value) is Ok {
                    assert(registry(name) is Some);
                }
            }
        },
        _ => {},
    }
}

/// The same for the requests that the arguments of a call make.
proof fn lemma_argument_requests_are_defined(
    arguments: Seq<Expr>,
    values: Seq<Binary64>,
    env: Map<Seq<char>, Binary64>,
    replies: Seq<Binary64>,
)
    ensures
        (match eval_arguments(arguments, values, env, replies) {
            Run::Awaits(Operation::Binary { op, lhs, rhs }) => {
                &&& op == BinOp::Divide ==> !rhs.zero()
                &&& op == BinOp::Exponent ==> !(lhs.zero() && rhs.at_most_zero())
            },
            Run::Awaits(Operation::Call { function, arguments }) => exists|name: Seq<char>|
                (#[trigger] registry(name)) matches Some(entry) && entry.function == function
                    && entry.arity.admits(arguments.len() as int),
            _ => true,
        }),
    decreases arguments, arguments.len() - values.len(),
{
    if values.len() < arguments.len() {
        let argument = arguments[values.len() as int];
        lemma_requests_are_defined(argument, env, replies);
        if let Run::Value { value, rest } = eval(argument, env, replies) {
            lemma_argument_requests_are_defined(arguments, values.push(value), env, rest);
        }
    }
}

/// Whether a run ends at a call of a function that the registry lacks.
pub open spec fn fails_unknown<T>(run: Run<T>) -> bool {
    run matches Run::Fault(Fault::UnknownFunction { .. })
}

/// A tree that calls builtins alone never fails for an unknown function.
pub proof fn lemma_builtins_are_known(
    expr: Expr,
    env: Map<Seq<char>, Binary64>,
    replies: Seq<Binary64>,
)
    requires
        calls_builtins(expr),
    ensures
        !fails_unknown(eval(expr, env, replies)),
    decreases expr, 0nat,
{
    match expr {
        Expr::BinOp { op, lhs, rhs } => {
            lemma_builtins_are_known(*lhs, env, replies);
            if let Run::Value { value, rest } = eval(*lhs, env, replies) {
                lemma_builtins_are_known(*rhs, env, rest);
            }
        },
        Expr::Function { name, arguments } => {
            lemma_argument_builtins_are_known(arguments, Seq::empty(), env, replies);
        },
        _ => {},
    }
}

/// The same for the arguments of a call.
proof fn lemma_argument_builtins_are_known(
    arguments: Seq<Expr>,
    values: Seq<Binary64>,
    env: Map<Seq<char>, Binary64>,
    replies: Seq<Binary64>,
)
    requires
        forall|i: int| 0 <= i < arguments.len() ==> calls_builtins(#[trigger] arguments[i]),
    ensures
        !fails_unknown(eval_arguments(arguments, values, env, replies)),
    decreases arguments, arguments.len() - values.len(),
{
    if values.len() < arguments.len() {
        let argument = arguments[values.len() as int];
        lemma_builtins_are_known(argument, env, replies);
        if let Run::Value { value, rest } = eval(argument, env, replies) {
            lemma_argument_builtins_are_known(arguments, values.push(value), env, rest);
        }
    }
}

/// No text evaluates to a failure for an unknown function: such a failure
/// arises only for a tree that was built by other means than by parsing.
pub proof fn lemma_text_knows_its_functions(
    text: Seq<char>,
    env: Map<Seq<char>, Binary64>,
    replies: Seq<Binary64>,
)
    ensures
        expression(text) matches Ok(tree) ==> !fails_unknown(eval(tree, env, replies)),
{
    lemma_text_calls_builtins(text);
    if let Ok(tree) = expression(text) {
        lemma_builtins_are_known(tree, env, replies);
    }
}

} // verus!
