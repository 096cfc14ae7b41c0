//! The grammar of expressions, as functions from text to what a parse of it
//! yields.
//!
//! ```text
//! expression := whitespace terms end
//! terms      := factors (("+" | "-") factors)*
//! factors    := exponents (("*" | "/" | "%") exponents)*
//! exponents  := atom ("^" atom)*
//! atom       := number | call | variable | "(" terms ")"
//! call       := name "(" (terms ("," terms)*)? ")"
//! ```
//!
//! Each rule reads the head of a text and either matches, leaving the rest of
//! the text, or fails. A failure is an error, after which a rule that offered
//! alternatives tries the next one, or it is final. Whitespace is dropped after
//! every token. The operators of one level associate to the left, those of
//! the powers too.
//!
//! Where a rule goes on behind what another rule left, its definition first
//! asks that the text has not grown. That always holds
//! ([`lengths::lemma_chain_unfolds`] and its neighbours state the rules
//! without it); it is there for the definitions to be well founded.

pub mod builtins;
pub mod lengths;
pub mod tails;

use vstd::prelude::*;
use crate::ast::{BinOp, Expr};
use crate::literal::{double, integer, Integral, Scanned};
use crate::number::{nearest, Binary64};
use crate::text::begins_with;

verus! {

/// What a rule yields on a text.
pub ghost enum Parsed<T> {
    /// The rule read a `value` from the head of the text; `rest` is what follows.
    Match { value: T, rest: Seq<char> },
    /// The rule does not apply to the text at `at`.
    Error { at: Seq<char> },
    /// The text at `at` is beyond repair, whatever else might have applied.
    Failure { at: Seq<char> },
}

/// Why a text is no expression: the kind of the failure and the text at which
/// it arose.
pub ghost enum Mismatch {
    Error { at: Seq<char> },
    Failure { at: Seq<char> },
}

/// The three levels of binary operators, from the loosest binding to the tightest.
#[derive(Debug, Clone, Copy, PartialEq, Eq, Structural)]
pub enum Level {
    Terms,
    Factors,
    Exponents,
}

/// The characters that may stand between tokens: the space, the tab, the
/// line feed and the carriage return.
pub open spec fn is_whitespace(c: char) -> bool {
    c == ' ' || c == '\t' || c == '\n' || c == '\r'
}

/// The ASCII letters and digits.
pub open spec fn is_alphanumeric(c: char) -> bool {
    ('a' <= c && c <= 'z') || ('A' <= c && c <= 'Z') || ('0' <= c && c <= '9')
}

/// The text without the whitespace at its head.
pub open spec fn whitespace(text: Seq<char>) -> Seq<char>
    decreases text.len(),
{
    if text.len() > 0 && is_whitespace(text[0]) {
        whitespace(text.drop_first())
    } else {
        text
    }
}

/// The number of letters and digits at the head of the text.
pub open spec fn name_len(text: Seq<char>) -> nat
    decreases text.len(),
{
    if text.len() > 0 && is_alphanumeric(text[0]) {
        1 + name_len(text.drop_first())
    } else {
        0
    }
}

/// The operator that a character denotes at a level, if any.
pub open spec fn operator(level: Level, c: char) -> Option<BinOp> {
    match level {
        Level::Terms => if c == '+' {
            Some(BinOp::Add)
        } else if c == '-' {
            Some(BinOp::Subtract)
        } else {
            None
        },
        Level::Factors => if c == '*' {
            Some(BinOp::Multiply)
        } else if c == '/' {
            Some(BinOp::Divide)
        } else if c == '%' {
            Some(BinOp::Modulus)
        } else {
            None
        },
        Level::Exponents => if c == '^' {
            Some(BinOp::Exponent)
        } else {
            None
        },
    }
}

/// The operator at the head of the text, if there is one of this level.
pub open spec fn operator_at(level: Level, text: Seq<char>) -> Option<BinOp> {
    if text.len() > 0 {
        operator(level, text[0])
    } else {
        None
    }
}

/// Whether the text begins with the character `c`.
pub open spec fn begins_with_char(text: Seq<char>, c: char) -> bool {
    text.len() > 0 && text[0] == c
}

/// The name of a builtin at the head of the text. The longer name of the
/// sine is tried before the shorter one.
pub open spec fn builtin_name(text: Seq<char>) -> Option<Seq<char>> {
    if begins_with(text, seq!['s', 'i', 'n', 'e']) {
        Some(seq!['s', 'i', 'n', 'e'])
    } else if begins_with(text, seq!['s', 'i', 'n']) {
        Some(seq!['s', 'i', 'n'])
    } else if begins_with(text, seq!['l', 'o', 'g']) {
        Some(seq!['l', 'o', 'g'])
    } else if begins_with(text, seq!['r', 'a', 'n', 'd']) {
        Some(seq!['r', 'a', 'n', 'd'])
    } else if begins_with(text, seq!['s', 'q', 'r', 't']) {
        Some(seq!['s', 'q', 'r', 't'])
    } else {
        None
    }
}

/// A floating point literal as the recogniser `scanned` it, then whitespace.
pub open spec fn literal(text: Seq<char>, scanned: Scanned) -> Parsed<Expr> {
    match scanned {
        Scanned::Literal { len, bits } => if 0 < len <= text.len() {
            Parsed::Match {
                value: Expr::Number(Binary64 { bits }),
                rest: whitespace(text.skip(len)),
            }
        } else {
            Parsed::Error { at: text }
        },
        Scanned::Error => Parsed::Error { at: text },
        Scanned::Failure => Parsed::Failure { at: text },
    }
}

/// A variable: a run of letters and digits, then whitespace.
pub open spec fn variable(text: Seq<char>) -> Parsed<Expr> {
    let len = name_len(text) as int;
    if len == 0 {
        Parsed::Error { at: text }
    } else {
        Parsed::Match {
            value: Expr::Variable { name: text.take(len) },
            rest: whitespace(text.skip(len)),
        }
    }
}

/// The place of a level among the levels, counted from the tightest.
pub open spec fn rank(level: Level) -> nat {
    match level {
        Level::Terms => 2,
        Level::Factors => 1,
        Level::Exponents => 0,
    }
}

/// A text does not grow where the whitespace at its head is dropped.
pub proof fn lemma_whitespace_len(text: Seq<char>)
    ensures
        whitespace(text).len() <= text.len(),
    decreases text.len(),
{
    if text.len() > 0 && is_whitespace(text[0]) {
        lemma_whitespace_len(text.drop_first());
    }
}

/// The letters and digits at the head of a text are no more than the text has.
pub proof fn lemma_name_len(text: Seq<char>)
    ensures
        name_len(text) <= text.len(),
    decreases text.len(),
{
    if text.len() > 0 && is_alphanumeric(text[0]) {
        lemma_name_len(text.drop_first());
    }
}

/// An integer, then whitespace. The number is the binary64 value nearest
/// to the integer.
pub open spec fn integral(text: Seq<char>) -> Parsed<Expr> {
    match integer(text) {
        Integral::Literal { len, value } => Parsed::Match {
            value: Expr::Number(Binary64 { bits: nearest(value as int) as u64 }),
            rest: whitespace(text.skip(len)),
        },
        Integral::Error => Parsed::Error { at: text },
    }
}

/// A number: a floating point literal, or else an integer.
pub open spec fn number(text: Seq<char>) -> Parsed<Expr> {
    match literal(text, double(text)) {
        Parsed::Error { at } => integral(text),
        other => other,
    }
}

/// The operand of a chain of a level: a chain of the next tighter level, or
/// an atom under the tightest.
pub open spec fn operand(level: Level, text: Seq<char>) -> Parsed<Expr>
    decreases text.len(), 2 * rank(level) + 3,
{
    match level {
        Level::Terms => chain(Level::Factors, text),
        Level::Factors => chain(Level::Exponents, text),
        Level::Exponents => atom(text),
    }
}

/// A chain of a level: an operand, then any number of operators of the level,
/// each with its operand. The operators associate to the left.
pub open spec fn chain(level: Level, text: Seq<char>) -> Parsed<Expr>
    decreases text.len(), 2 * rank(level) + 4,
{
    match operand(level, text) {
        Parsed::Match { value, rest } => if rest.len() <= text.len() {
            chain_tail(level, value, rest)
        } else {
            Parsed::Error { at: text }
        },
        Parsed::Error { at } => Parsed::Error { at },
        Parsed::Failure { at } => Parsed::Failure { at },
    }
}

/// The rest of a chain, where `left` is the tree of what was read of it. An
/// operator whose operand does not follow is left unread, with all behind it.
pub open spec fn chain_tail(level: Level, left: Expr, text: Seq<char>) -> Parsed<Expr>
    decreases text.len(), 2 * rank(level) + 2,
{
    match operator_at(level, text) {
        None => Parsed::Match { value: left, rest: text },
        Some(op) => {
            proof {
                lemma_whitespace_len(text.drop_first());
            }
            match operand(level, whitespace(text.drop_first())) {
                Parsed::Match { value, rest } => if rest.len() < text.len() {
                    chain_tail(
                        level,
                        Expr::BinOp { op, lhs: Box::new(left), rhs: Box::new(value) },
                        rest,
                    )
                } else {
                    Parsed::Match { value: left, rest: text }
                },
                Parsed::Error { at } => Parsed::Match { value: left, rest: text },
                Parsed::Failure { at } => Parsed::Failure { at },
            }
        },
    }
}

/// An atom: a number, a call, a variable or an expression in parentheses,
/// tried in this order.
pub open spec fn atom(text: Seq<char>) -> Parsed<Expr>
    decreases text.len(), 2nat,
{
    match number(text) {
        Parsed::Error { at } => match call(text) {
            Parsed::Error { at } => match variable(text) {
                Parsed::Error { at } => parenthesized(text),
                other => other,
            },
            other => other,
        },
        other => other,
    }
}

/// An expression between parentheses, which stands for that expression.
pub open spec fn parenthesized(text: Seq<char>) -> Parsed<Expr>
    decreases text.len(), 1nat,
{
    if begins_with_char(text, '(') {
        proof {
            lemma_whitespace_len(text.drop_first());
        }
        match chain(Level::Terms, whitespace(text.drop_first())) {
            Parsed::Match { value, rest } => if begins_with_char(rest, ')') {
                Parsed::Match { value, rest: whitespace(rest.drop_first()) }
            } else {
                Parsed::Error { at: rest }
            },
            other => other,
        }
    } else {
        Parsed::Error { at: text }
    }
}

/// A call: the name of a builtin, then its arguments between parentheses.
pub open spec fn call(text: Seq<char>) -> Parsed<Expr>
    decreases text.len(), 1nat,
{
    match builtin_name(text) {
        None => Parsed::Error { at: text },
        Some(name) => {
            let opening = whitespace(text.skip(name.len() as int));
            if begins_with_char(opening, '(') {
                proof {
                    lemma_whitespace_len(text.skip(name.len() as int));
                    lemma_whitespace_len(opening.drop_first());
                }
                match arguments(whitespace(opening.drop_first())) {
                    Parsed::Match { value, rest } => if begins_with_char(rest, ')') {
                        Parsed::Match {
                            value: Expr::Function { name, arguments: value },
                            rest: whitespace(rest.drop_first()),
                        }
                    } else {
                        Parsed::Error { at: rest }
                    },
                    Parsed::Error { at } => Parsed::Error { at },
                    Parsed::Failure { at } => Parsed::Failure { at },
                }
            } else {
                Parsed::Error { at: opening }
            }
        },
    }
}

/// The arguments of a call: none, or expressions with a comma between each
/// two. A comma that no expression follows is left unread.
pub open spec fn arguments(text: Seq<char>) -> Parsed<Seq<Expr>>
    decreases text.len(), 9nat,
{
    match chain(Level::Terms, text) {
        Parsed::Match { value, rest } => if rest.len() <= text.len() {
            more_arguments(seq![value], rest)
        } else {
            Parsed::Match { value: Seq::empty(), rest: text }
        },
        Parsed::Error { at } => Parsed::Match { value: Seq::empty(), rest: text },
        Parsed::Failure { at } => Parsed::Failure { at },
    }
}

/// The arguments behind those in `list`.
pub open spec fn more_arguments(list: Seq<Expr>, text: Seq<char>) -> Parsed<Seq<Expr>>
    decreases text.len(), 8nat,
{
    if begins_with_char(text, ',') {
        proof {
            lemma_whitespace_len(text.drop_first());
        }
        match chain(Level::Terms, whitespace(text.drop_first())) {
            Parsed::Match { value, rest } => if rest.len() < text.len() {
                more_arguments(list.push(value), rest)
            } else {
                Parsed::Match { value: list, rest: text }
            },
            Parsed::Error { at } => Parsed::Match { value: list, rest: text },
            Parsed::Failure { at } => Parsed::Failure { at },
        }
    } else {
        Parsed::Match { value: list, rest: text }
    }
}

/// A whole text as an expression: whitespace, a chain of terms, and nothing
/// behind it.
pub open spec fn expression(text: Seq<char>) -> Result<Expr, Mismatch> {
    match chain(Level::Terms, whitespace(text)) {
        Parsed::Match { value, rest } => if rest.len() == 0 {
            Ok(value)
        } else {
            Err(Mismatch::Error { at: rest })
        },
        Parsed::Error { at } => Err(Mismatch::Error { at }),
        Parsed::Failure { at } => Err(Mismatch::Failure { at }),
    }
}

} // verus!
