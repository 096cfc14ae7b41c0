//! The functions that a parsed tree calls: those of the registry, and no others.

use vstd::prelude::*;
use crate::ast::Expr;
use crate::functions::registry;
use crate::grammar::{
    arguments, atom, begins_with_char, builtin_name, call, chain, chain_tail, expression,
    lemma_whitespace_len, more_arguments, operand, operator_at, parenthesized, rank,
    whitespace, Level, Parsed,
};
use crate::text::begins_with;

verus! {

/// A name that the registry holds is read as the name of a call.
pub proof fn lemma_registered_names_are_read(name: Seq<char>)
    requires
        registry(name) is Some,
    ensures
        builtin_name(name) == Some(name),
{
    assert(name.take(name.len() as int) =~= name);
}

/// A name that is read as the name of a call is one that the registry holds.
pub proof fn lemma_read_names_are_registered(text: Seq<char>)
    ensures
        builtin_name(text) matches Some(name) ==> registry(name) is Some,
{
}

/// Whether every call in the tree names a function that the registry holds.
pub open spec fn calls_builtins(expr: Expr) -> bool
    decreases expr,
{
    match expr {
        Expr::BinOp { lhs, rhs, .. } => calls_builtins(*lhs) && calls_builtins(*rhs),
        Expr::Function { name, arguments } => {
            &&& registry(name) is Some
            &&& forall|i: int| 0 <= i < arguments.len() ==> calls_builtins(#[trigger] arguments[i])
        },
        _ => true,
    }
}

/// Whether the tree that a rule read calls builtins alone.
pub open spec fn reads_builtins(parsed: Parsed<Expr>) -> bool {
    parsed matches Parsed::Match { value, .. } ==> calls_builtins(value)
}

/// Whether the trees of a list call builtins alone.
pub open spec fn all_call_builtins(list: Seq<Expr>) -> bool {
    forall|i: int| 0 <= i < list.len() ==> calls_builtins(#[trigger] list[i])
}

/// An operand calls builtins alone.
pub proof fn lemma_operand_calls_builtins(level: Level, text: Seq<char>)
    ensures
        reads_builtins(operand(level, text)),
    decreases text.len(), 2 * rank(level) + 3,
{
    match level {
        Level::Terms => lemma_chain_calls_builtins(Level::Factors, text),
        Level::Factors => lemma_chain_calls_builtins(Level::Exponents, text),
        Level::Exponents => lemma_atom_calls_builtins(text),
    }
}

/// A chain calls builtins alone.
pub proof fn lemma_chain_calls_builtins(level: Level, text: Seq<char>)
    ensures
        reads_builtins(chain(level, text)),
    decreases text.len(), 2 * rank(level) + 4,
{
    lemma_operand_calls_builtins(level, text);
    if let Parsed::Match { value, rest } = operand(level, text) {
        if rest.len() <= text.len() {
            lemma_chain_tail_calls_builtins(level, value, rest);
        }
    }
}

/// The rest of a chain calls builtins alone where what was read of it does.
proof fn lemma_chain_tail_calls_builtins(level: Level, left: Expr, text: Seq<char>)
    requires
        calls_builtins(left),
    ensures
        reads_builtins(chain_tail(level, left, text)),
    decreases text.len(), 2 * rank(level) + 2,
{
    if let Some(op) = operator_at(level, text) {
        let behind = whitespace(text.drop_first());
        lemma_whitespace_len(text.drop_first());
        lemma_operand_calls_builtins(level, behind);
        if let Parsed::Match { value, rest } = operand(level, behind) {
            if rest.len() < text.len() {
                lemma_chain_tail_calls_builtins(
                    level,
                    Expr::BinOp { op, lhs: Box::new(left), rhs: Box::new(value) },
                    rest,
                );
            }
        }
    }
}

/// An atom calls builtins alone.
pub proof fn lemma_atom_calls_builtins(text: Seq<char>)
    ensures
        reads_builtins(atom(text)),
    decreases text.len(), 2nat,
{
    lemma_call_calls_builtins(text);
    lemma_parenthesized_calls_builtins(text);
}

/// An expression in parentheses calls builtins alone.
proof fn lemma_parenthesized_calls_builtins(text: Seq<char>)
    ensures
        reads_builtins(parenthesized(text)),
    decreases text.len(), 1nat,
{
    if begins_with_char(text, '(') {
        lemma_whitespace_len(text.drop_first());
        lemma_chain_calls_builtins(Level::Terms, whitespace(text.drop_first()));
    }
}

/// A call names a builtin, and its arguments call builtins alone.
proof fn lemma_call_calls_builtins(text: Seq<char>)
    ensures
        reads_builtins(call(text)),
    decreases text.len(), 1nat,
{
    if let Some(name) = builtin_name(text) {
        let opening = whitespace(text.skip(name.len() as int));
        lemma_whitespace_len(text.skip(name.len() as int));
        lemma_read_names_are_registered(text);
        if begins_with_char(opening, '(') {
            lemma_whitespace_len(opening.drop_first());
            lemma_arguments_call_builtins(whitespace(opening.drop_first()));
        }
    }
}

/// The arguments of a call call builtins alone.
proof fn lemma_arguments_call_builtins(text: Seq<char>)
    ensures
        (arguments(text) matches Parsed::Match { value, .. } ==> all_call_builtins(value)),
    decreases text.len(), 9nat,
{
    lemma_chain_calls_builtins(Level::Terms, text);
    if let Parsed::Match { value, rest } = chain(Level::Terms, text) {
        if rest.len() <= text.len() {
            lemma_more_arguments_call_builtins(seq![value], rest);
        }
    }
}

/// Further arguments call builtins alone where those before them do.
proof fn lemma_more_arguments_call_builtins(list: Seq<Expr>, text: Seq<char>)
    requires
        all_call_builtins(list),
    ensures
        (more_arguments(list, text) matches Parsed::Match { value, .. } ==> all_call_builtins(
            value,
        )),
    decreases text.len(), 8nat,
{
    if begins_with_char(text, ',') {
        let behind = whitespace(text.drop_first());
        lemma_whitespace_len(text.drop_first());
        lemma_chain_calls_builtins(Level::Terms, behind);
        if let Parsed::Match { value, rest } = chain(Level::Terms, behind) {
            if rest.len() < text.len() {
                lemma_more_arguments_call_builtins(list.push(value), rest);
            }
        }
    }
}

/// The tree of a text calls builtins alone: a name that the registry lacks is
/// read as a variable, and no parenthesis may follow a variable.
pub proof fn lemma_text_calls_builtins(text: Seq<char>)
    ensures
        expression(text) matches Ok(tree) ==> calls_builtins(tree),
{
    lemma_chain_calls_builtins(Level::Terms, whitespace(text));
}

} // verus!
