//! What the rules of the grammar leave and report: ends of the text that
//! they were given.

use vstd::prelude::*;
use crate::ast::Expr;
use crate::grammar::{
    arguments, atom, begins_with_char, builtin_name, call, chain, chain_tail, expression,
    is_whitespace, lemma_name_len, lemma_whitespace_len, more_arguments, name_len, operand,
    operator_at, parenthesized, rank, whitespace, Level, Mismatch, Parsed,
};
use crate::literal::{double, integer, lemma_digits_len, Integral, Scanned};

verus! {

/// Whether `part` is an end of `text`: what is left of `text` when some
/// characters are taken from its head.
pub open spec fn is_tail(part: Seq<char>, text: Seq<char>) -> bool {
    part.len() <= text.len() && part == text.skip(text.len() - part.len())
}

/// Whether the text that a rule left, or the text at which it failed, is an
/// end of `text`.
pub open spec fn within<T>(parsed: Parsed<T>, text: Seq<char>) -> bool {
    match parsed {
        Parsed::Match { rest, .. } => is_tail(rest, text),
        Parsed::Error { at } => is_tail(at, text),
        Parsed::Failure { at } => is_tail(at, text),
    }
}

/// An end of an end of a text is an end of the text.
pub proof fn lemma_tail_of_tail(part: Seq<char>, middle: Seq<char>, text: Seq<char>)
    requires
        is_tail(part, middle),
        is_tail(middle, text),
    ensures
        is_tail(part, text),
{
    assert(part =~= text.skip(text.len() - part.len()));
}

/// What is left behind the first characters of a text is an end of the text.
pub proof fn lemma_skip_is_tail(text: Seq<char>, count: int)
    requires
        0 <= count <= text.len(),
    ensures
        is_tail(text.skip(count), text),
{
}

/// A text without the whitespace at its head is an end of the text.
pub proof fn lemma_whitespace_is_tail(text: Seq<char>)
    ensures
        is_tail(whitespace(text), text),
    decreases text.len(),
{
    if text.len() > 0 && is_whitespace(text[0]) {
        lemma_whitespace_is_tail(text.drop_first());
        lemma_skip_is_tail(text, 1);
        lemma_tail_of_tail(whitespace(text), text.drop_first(), text);
    } else {
        assert(text.skip(0) =~= text);
    }
}

/// The whitespace behind the first `count` characters of a text is
/// dropped, and what is left is an end of the text.
proof fn lemma_token_is_tail(text: Seq<char>, count: int)
    requires
        0 <= count <= text.len(),
    ensures
        is_tail(whitespace(text.skip(count)), text),
{
    lemma_skip_is_tail(text, count);
    lemma_whitespace_is_tail(text.skip(count));
    lemma_tail_of_tail(whitespace(text.skip(count)), text.skip(count), text);
}

/// What a rule yields through a tail of the text holds for the text.
proof fn lemma_within_tail<T>(parsed: Parsed<T>, middle: Seq<char>, text: Seq<char>)
    requires
        within(parsed, middle),
        is_tail(middle, text),
    ensures
        within(parsed, text),
{
    match parsed {
        Parsed::Match { rest, .. } => lemma_tail_of_tail(rest, middle, text),
        Parsed::Error { at } => lemma_tail_of_tail(at, middle, text),
        Parsed::Failure { at } => lemma_tail_of_tail(at, middle, text),
    }
}

/// An operand leaves or reports an end of its text.
pub proof fn lemma_operand_within(level: Level, text: Seq<char>)
    ensures
        within(operand(level, text), text),
    decreases text.len(), 2 * rank(level) + 3,
{
    match level {
        Level::Terms => lemma_chain_within(Level::Factors, text),
        Level::Factors => lemma_chain_within(Level::Exponents, text),
        Level::Exponents => lemma_atom_within(text),
    }
}

/// A chain leaves or reports an end of its text.
pub proof fn lemma_chain_within(level: Level, text: Seq<char>)
    ensures
        within(chain(level, text), text),
    decreases text.len(), 2 * rank(level) + 4,
{
    lemma_operand_within(level, text);
    if let Parsed::Match { value, rest } = operand(level, text) {
        lemma_chain_tail_within(level, value, rest);
        lemma_within_tail(chain_tail(level, value, rest), rest, text);
    }
}

/// The rest of a chain leaves or reports an end of its text.
proof fn lemma_chain_tail_within(level: Level, left: Expr, text: Seq<char>)
    ensures
        within(chain_tail(level, left, text), text),
    decreases text.len(), 2 * rank(level) + 2,
{
    assert(text.skip(0) =~= text);
    if let Some(op) = operator_at(level, text) {
        let behind = whitespace(text.drop_first());
        lemma_token_is_tail(text, 1);
        lemma_whitespace_len(text.drop_first());
        lemma_operand_within(level, behind);
        lemma_within_tail(operand(level, behind), behind, text);
        if let Parsed::Match { value, rest } = operand(level, behind) {
            if rest.len() < text.len() {
                let tree = Expr::BinOp { op, lhs: Box::new(left), rhs: Box::new(value) };
                lemma_chain_tail_within(level, tree, rest);
                lemma_within_tail(chain_tail(level, tree, rest), rest, text);
            }
        }
    }
}

/// An atom leaves or reports an end of its text.
pub proof fn lemma_atom_within(text: Seq<char>)
    ensures
        within(atom(text), text),
    decreases text.len(), 2nat,
{
    if let Scanned::Literal { len, bits } = double(text) {
        if 0 < len <= text.len() {
            lemma_token_is_tail(text, len);
        }
    }
    if let Integral::Literal { len, value } = integer(text) {
        if text.len() > 0 && (text[0] == '+' || text[0] == '-') {
            lemma_digits_len(text.skip(1));
        } else {
            lemma_digits_len(text.skip(0));
        }
        lemma_token_is_tail(text, len);
    }
    lemma_name_len(text);
    lemma_token_is_tail(text, name_len(text) as int);
    lemma_call_within(text);
    lemma_parenthesized_within(text);
}

/// An expression in parentheses leaves or reports an end of its text.
proof fn lemma_parenthesized_within(text: Seq<char>)
    ensures
        within(parenthesized(text), text),
    decreases text.len(), 1nat,
{
    assert(text.skip(0) =~= text);
    if begins_with_char(text, '(') {
        let inner = whitespace(text.drop_first());
        lemma_token_is_tail(text, 1);
        lemma_whitespace_len(text.drop_first());
        lemma_chain_within(Level::Terms, inner);
        lemma_within_tail(chain(Level::Terms, inner), inner, text);
        if let Parsed::Match { value, rest } = chain(Level::Terms, inner) {
            if begins_with_char(rest, ')') {
                lemma_token_is_tail(rest, 1);
                lemma_tail_of_tail(whitespace(rest.drop_first()), rest, text);
            }
        }
    }
}

/// A call leaves or reports an end of its text.
proof fn lemma_call_within(text: Seq<char>)
    ensures
        within(call(text), text),
    decreases text.len(), 1nat,
{
    assert(text.skip(0) =~= text);
    if let Some(name) = builtin_name(text) {
        let opening = whitespace(text.skip(name.len() as int));
        lemma_token_is_tail(text, name.len() as int);
        lemma_whitespace_len(text.skip(name.len() as int));
        if begins_with_char(opening, '(') {
            let inner = whitespace(opening.drop_first());
            lemma_token_is_tail(opening, 1);
            lemma_tail_of_tail(inner, opening, text);
            lemma_whitespace_len(opening.drop_first());
            lemma_arguments_within(inner);
            lemma_within_tail(arguments(inner), inner, text);
            if let Parsed::Match { value, rest } = arguments(inner) {
                if begins_with_char(rest, ')') {
                    lemma_token_is_tail(rest, 1);
                    lemma_tail_of_tail(whitespace(rest.drop_first()), rest, text);
                }
            }
        }
    }
}

/// The arguments of a call leave or report an end of their text.
proof fn lemma_arguments_within(text: Seq<char>)
    ensures
        within(arguments(text), text),
    decreases text.len(), 9nat,
{
    assert(text.skip(0) =~= text);
    lemma_chain_within(Level::Terms, text);
    if let Parsed::Match { value, rest } = chain(Level::Terms, text) {
        lemma_more_arguments_within(seq![value], rest);
        lemma_within_tail(more_arguments(seq![value], rest), rest, text);
    }
}

/// Further arguments leave or report an end of their text.
proof fn lemma_more_arguments_within(list: Seq<Expr>, text: Seq<char>)
    ensures
        within(more_arguments(list, text), text),
    decreases text.len(), 8nat,
{
    assert(text.skip(0) =~= text);
    if begins_with_char(text, ',') {
        let behind = whitespace(text.drop_first());
        lemma_token_is_tail(text, 1);
        lemma_whitespace_len(text.drop_first());
        lemma_chain_within(Level::Terms, behind);
        lemma_within_tail(chain(Level::Terms, behind), behind, text);
        if let Parsed::Match { value, rest } = chain(Level::Terms, behind) {
            if rest.len() < text.len() {
                lemma_more_arguments_within(list.push(value), rest);
                lemma_within_tail(more_arguments(list.push(value), rest), rest, text);
            }
        }
    }
}

/// The text that a failed parse reports is an end of the text that was parsed.
pub proof fn lemma_mismatch_is_tail(text: Seq<char>)
    ensures
        (match expression(text) {
            Ok(_) => true,
            Err(Mismatch::Error { at }) => is_tail(at, text),
            Err(Mismatch::Failure { at }) => is_tail(at, text),
        }),
{
    lemma_whitespace_is_tail(text);
    lemma_chain_within(Level::Terms, whitespace(text));
    lemma_within_tail(chain(Level::Terms, whitespace(text)), whitespace(text), text);
}

/// Whitespace before an expression changes nothing: a text is parsed as it is
/// parsed without the whitespace at its head.
pub proof fn lemma_leading_whitespace(text: Seq<char>)
    ensures
        expression(text) == expression(whitespace(text)),
{
    lemma_whitespace_twice(text);
}

/// A text without the whitespace at its head has no whitespace at its head.
pub proof fn lemma_whitespace_twice(text: Seq<char>)
    ensures
        whitespace(whitespace(text)) == whitespace(text),
    decreases text.len(),
{
    if text.len() > 0 && is_whitespace(text[0]) {
        lemma_whitespace_twice(text.drop_first());
    }
}

/// Whether the text that a rule left begins with no whitespace.
pub open spec fn trimmed<T>(parsed: Parsed<T>) -> bool {
    parsed matches Parsed::Match { rest, .. } ==> whitespace(rest) == rest
}

/// Whitespace is dropped behind every token: what an operand leaves begins
/// with none.
pub proof fn lemma_operand_is_trimmed(level: Level, text: Seq<char>)
    ensures
        trimmed(operand(level, text)),
    decreases text.len(), 2 * rank(level) + 3,
{
    match level {
        Level::Terms => lemma_chain_is_trimmed(Level::Factors, text),
        Level::Factors => lemma_chain_is_trimmed(Level::Exponents, text),
        Level::Exponents => lemma_atom_is_trimmed(text),
    }
}

/// What a chain leaves begins with no whitespace.
pub proof fn lemma_chain_is_trimmed(level: Level, text: Seq<char>)
    ensures
        trimmed(chain(level, text)),
    decreases text.len(), 2 * rank(level) + 4,
{
    lemma_operand_is_trimmed(level, text);
    if let Parsed::Match { value, rest } = operand(level, text) {
        if rest.len() <= text.len() {
            lemma_chain_tail_is_trimmed(level, value, rest);
        }
    }
}

/// What the rest of a chain leaves begins with no whitespace, where what it
/// was given begins with none.
proof fn lemma_chain_tail_is_trimmed(level: Level, left: Expr, text: Seq<char>)
    requires
        whitespace(text) == text,
    ensures
        trimmed(chain_tail(level, left, text)),
    decreases text.len(), 2 * rank(level) + 2,
{
    if let Some(op) = operator_at(level, text) {
        let behind = whitespace(text.drop_first());
        lemma_whitespace_len(text.drop_first());
        lemma_operand_is_trimmed(level, behind);
        if let Parsed::Match { value, rest } = operand(level, behind) {
            if rest.len() < text.len() {
                lemma_chain_tail_is_trimmed(
                    level,
                    Expr::BinOp { op, lhs: Box::new(left), rhs: Box::new(value) },
                    rest,
                );
            }
        }
    }
}

/// What an atom leaves begins with no whitespace.
pub proof fn lemma_atom_is_trimmed(text: Seq<char>)
    ensures
        trimmed(atom(text)),
    decreases text.len(), 2nat,
{
    if let Scanned::Literal { len, bits } = double(text) {
        lemma_whitespace_twice(text.skip(len));
    }
    if let Integral::Literal { len, value } = integer(text) {
        lemma_whitespace_twice(text.skip(len));
    }
    lemma_whitespace_twice(text.skip(name_len(text) as int));
    if let Some(name) = builtin_name(text) {
        let opening = whitespace(text.skip(name.len() as int));
        if begins_with_char(opening, '(') {
            if let Parsed::Match { value, rest } = arguments(whitespace(opening.drop_first())) {
                lemma_whitespace_twice(rest.drop_first());
            }
        }
    }
    if begins_with_char(text, '(') {
        if let Parsed::Match { value, rest } = chain(
            Level::Terms,
            whitespace(text.drop_first()),
        ) {
            lemma_whitespace_twice(rest.drop_first());
        }
    }
}

} // verus!
