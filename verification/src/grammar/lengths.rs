//! How much of a text the rules of the grammar read.

use vstd::prelude::*;
use crate::ast::Expr;
use crate::grammar::{
    arguments, atom, begins_with_char, builtin_name, call, chain, chain_tail,
    lemma_name_len, lemma_whitespace_len, more_arguments, name_len, number, operand,
    operator_at, parenthesized, rank, variable, whitespace, Level, Parsed,
};
use crate::literal::{double, integer, lemma_digits_len, Integral, Scanned};

verus! {

/// Whether a rule that matched left a text that is shorter than `text`.
pub open spec fn shrinks<T>(parsed: Parsed<T>, text: Seq<char>) -> bool {
    parsed matches Parsed::Match { rest, .. } ==> rest.len() < text.len()
}

/// Whether a rule that matched left a text that is no longer than `text`.
pub open spec fn fits<T>(parsed: Parsed<T>, text: Seq<char>) -> bool {
    parsed matches Parsed::Match { rest, .. } ==> rest.len() <= text.len()
}

/// An operand that matches reads at least one character.
pub proof fn lemma_operand_shrinks(level: Level, text: Seq<char>)
    ensures
        shrinks(operand(level, text), text),
    decreases text.len(), 2 * rank(level) + 3,
{
    match level {
        Level::Terms => lemma_chain_shrinks(Level::Factors, text),
        Level::Factors => lemma_chain_shrinks(Level::Exponents, text),
        Level::Exponents => lemma_atom_shrinks(text),
    }
}

/// A chain that matches reads at least one character.
pub proof fn lemma_chain_shrinks(level: Level, text: Seq<char>)
    ensures
        shrinks(chain(level, text), text),
    decreases text.len(), 2 * rank(level) + 4,
{
    lemma_operand_shrinks(level, text);
    if let Parsed::Match { value, rest } = operand(level, text) {
        lemma_chain_tail_fits(level, value, rest);
    }
}

/// The rest of a chain leaves no more than it was given.
pub proof fn lemma_chain_tail_fits(level: Level, left: Expr, text: Seq<char>)
    ensures
        fits(chain_tail(level, left, text), text),
    decreases text.len(), 2 * rank(level) + 2,
{
    if let Some(op) = operator_at(level, text) {
        let behind = whitespace(text.drop_first());
        lemma_whitespace_len(text.drop_first());
        lemma_operand_shrinks(level, behind);
        if let Parsed::Match { value, rest } = operand(level, behind) {
            lemma_chain_tail_fits(
                level,
                Expr::BinOp { op, lhs: Box::new(left), rhs: Box::new(value) },
                rest,
            );
        }
    }
}

/// An atom that matches reads at least one character.
pub proof fn lemma_atom_shrinks(text: Seq<char>)
    ensures
        shrinks(atom(text), text),
        shrinks(number(text), text),
        shrinks(call(text), text),
        shrinks(variable(text), text),
        shrinks(parenthesized(text), text),
    decreases text.len(), 2nat,
{
    if let Scanned::Literal { len, bits } = double(text) {
        if 0 < len <= text.len() {
            lemma_whitespace_len(text.skip(len));
        }
    }
    if let Integral::Literal { len, value } = integer(text) {
        if text.len() > 0 && (text[0] == '+' || text[0] == '-') {
            lemma_digits_len(text.skip(1));
        } else {
            lemma_digits_len(text.skip(0));
        }
        lemma_whitespace_len(text.skip(len));
    }
    lemma_name_len(text);
    lemma_whitespace_len(text.skip(name_len(text) as int));
    lemma_call_shrinks(text);
    lemma_parenthesized_shrinks(text);
}

/// An expression in parentheses reads its parentheses at least.
proof fn lemma_parenthesized_shrinks(text: Seq<char>)
    ensures
        shrinks(parenthesized(text), text),
    decreases text.len(), 1nat,
{
    if begins_with_char(text, '(') {
        let inner = whitespace(text.drop_first());
        lemma_whitespace_len(text.drop_first());
        lemma_chain_shrinks(Level::Terms, inner);
        if let Parsed::Match { value, rest } = chain(Level::Terms, inner) {
            if begins_with_char(rest, ')') {
                lemma_whitespace_len(rest.drop_first());
            }
        }
    }
}

/// A call reads its name at least.
proof fn lemma_call_shrinks(text: Seq<char>)
    ensures
        shrinks(call(text), text),
    decreases text.len(), 1nat,
{
    if let Some(name) = builtin_name(text) {
        let opening = whitespace(text.skip(name.len() as int));
        lemma_whitespace_len(text.skip(name.len() as int));
        if begins_with_char(opening, '(') {
            let inner = whitespace(opening.drop_first());
            lemma_whitespace_len(opening.drop_first());
            lemma_arguments_fit(inner);
            if let Parsed::Match { value, rest } = arguments(inner) {
                if begins_with_char(rest, ')') {
                    lemma_whitespace_len(rest.drop_first());
                }
            }
        }
    }
}

/// A list of arguments leaves no more than it was given.
pub proof fn lemma_arguments_fit(text: Seq<char>)
    ensures
        fits(arguments(text), text),
    decreases text.len(), 9nat,
{
    lemma_chain_shrinks(Level::Terms, text);
    if let Parsed::Match { value, rest } = chain(Level::Terms, text) {
        lemma_more_arguments_fit(seq![value], rest);
    }
}

/// Further arguments leave no more than they were given.
proof fn lemma_more_arguments_fit(list: Seq<Expr>, text: Seq<char>)
    ensures
        fits(more_arguments(list, text), text),
    decreases text.len(), 8nat,
{
    if begins_with_char(text, ',') {
        let behind = whitespace(text.drop_first());
        lemma_whitespace_len(text.drop_first());
        lemma_chain_shrinks(Level::Terms, behind);
        if let Parsed::Match { value, rest } = chain(Level::Terms, behind) {
            lemma_more_arguments_fit(list.push(value), rest);
        }
    }
}

/// The bounds on lengths in the definitions of the rules serve their
/// termination alone: a chain is the rest of the chain behind its first operand.
pub proof fn lemma_chain_unfolds(level: Level, text: Seq<char>)
    ensures
        chain(level, text) == (match operand(level, text) {
            Parsed::Match { value, rest } => chain_tail(level, value, rest),
            Parsed::Error { at } => Parsed::Error { at },
            Parsed::Failure { at } => Parsed::Failure { at },
        }),
{
    lemma_operand_shrinks(level, text);
}

/// The rest of a chain goes on behind each operand that it reads.
pub proof fn lemma_chain_tail_unfolds(level: Level, left: Expr, text: Seq<char>)
    ensures
        chain_tail(level, left, text) == (match operator_at(level, text) {
            None => Parsed::Match { value: left, rest: text },
            Some(op) => match operand(level, whitespace(text.drop_first())) {
                Parsed::Match { value, rest } => chain_tail(
                    level,
                    Expr::BinOp { op, lhs: Box::new(left), rhs: Box::new(value) },
                    rest,
                ),
                Parsed::Error { at } => Parsed::Match { value: left, rest: text },
                Parsed::Failure { at } => Parsed::Failure { at },
            },
        }),
{
    if operator_at(level, text) is Some {
        lemma_whitespace_len(text.drop_first());
        lemma_operand_shrinks(level, whitespace(text.drop_first()));
    }
}

/// A list of arguments goes on behind its first argument, and behind each
/// further one that it reads.
pub proof fn lemma_arguments_unfold(list: Seq<Expr>, text: Seq<char>)
    ensures
        arguments(text) == (match chain(Level::Terms, text) {
            Parsed::Match { value, rest } => more_arguments(seq![value], rest),
            Parsed::Error { at } => Parsed::Match { value: Seq::empty(), rest: text },
            Parsed::Failure { at } => Parsed::Failure { at },
        }),
        more_arguments(list, text) == if begins_with_char(text, ',') {
            match chain(Level::Terms, whitespace(text.drop_first())) {
                Parsed::Match { value, rest } => more_arguments(list.push(value), rest),
                Parsed::Error { at } => Parsed::Match { value: list, rest: text },
                Parsed::Failure { at } => Parsed::Failure { at },
            }
        } else {
            Parsed::Match { value: list, rest: text }
        },
{
    lemma_chain_shrinks(Level::Terms, text);
    if begins_with_char(text, ',') {
        lemma_whitespace_len(text.drop_first());
        lemma_chain_shrinks(Level::Terms, whitespace(text.drop_first()));
    }
}

} // verus!
