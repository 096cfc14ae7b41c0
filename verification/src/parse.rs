//! The parser: from a text to the syntax tree of the expression that it spells.
//!
//! Every rule of [`crate::grammar`] has a function here that computes it. The
//! functions call each other as the rules do, each on the input that is left.
//! They end because the input shrinks from a rule to the next rule that starts
//! afresh; among the rules that read one input, the second part of a measure
//! puts each above those that it calls.

use vstd::prelude::*;
use vstd::string::*;
use crate::ast::{models, BinOp, Expr, MathExpression};
use crate::grammar::{
    arguments, atom, begins_with_char, builtin_name, call, chain, chain_tail, expression,
    integral, is_alphanumeric, is_whitespace, lemma_whitespace_len, more_arguments, name_len,
    number, operand, operator, parenthesized, rank, variable, whitespace, Level, Mismatch,
    Parsed,
};
use crate::grammar::lengths::{lemma_chain_shrinks, lemma_operand_shrinks};
use crate::literal::{scan_double, scan_i64, Scan};
use crate::number::Binary64;
use crate::text::{first_char, is_ascii_char, split_first, strip_prefix};

verus! {

/// What a rule yields on an input: the value that it read and the input
/// behind it, or the input at which it failed.
#[derive(Debug, PartialEq)]
pub enum Outcome<'a, T> {
    Match { value: T, rest: &'a str },
    Error { at: &'a str },
    Failure { at: &'a str },
}

impl<'a> Outcome<'a, MathExpression> {
    /// The model of the outcome of a rule that reads an expression.
    pub open spec fn tree(self) -> Parsed<Expr> {
        match self {
            Outcome::Match { value, rest } => Parsed::Match { value: value@, rest: rest@ },
            Outcome::Error { at } => Parsed::Error { at: at@ },
            Outcome::Failure { at } => Parsed::Failure { at: at@ },
        }
    }
}

impl<'a> Outcome<'a, Vec<MathExpression>> {
    /// The model of the outcome of a rule that reads a list of expressions.
    pub open spec fn list(self) -> Parsed<Seq<Expr>> {
        match self {
            Outcome::Match { value, rest } => Parsed::Match { value: models(value@), rest: rest@ },
            Outcome::Error { at } => Parsed::Error { at: at@ },
            Outcome::Failure { at } => Parsed::Failure { at: at@ },
        }
    }
}

/// Why an input is no expression, with the part of the input at which the
/// parse gave up.
#[derive(Debug, Clone, Copy, PartialEq)]
pub enum ParseError<'a> {
    /// No rule applies at `fragment`.
    Error { fragment: &'a str },
    /// The input is beyond repair at `fragment`.
    Failure { fragment: &'a str },
}

impl<'a> View for ParseError<'a> {
    type V = Mismatch;

    open spec fn view(&self) -> Mismatch {
        match self {
            ParseError::Error { fragment } => Mismatch::Error { at: fragment@ },
            ParseError::Failure { fragment } => Mismatch::Failure { at: fragment@ },
        }
    }
}

impl<'a> ParseError<'a> {
    /// The part of the input at which the parse gave up.
    pub fn fragment(&self) -> (fragment: &'a str)
        ensures
            fragment@ == (match self@ {
                Mismatch::Error { at } => at,
                Mismatch::Failure { at } => at,
            }),
    {
        match self {
            ParseError::Error { fragment } => fragment,
            ParseError::Failure { fragment } => fragment,
        }
    }
}

/// Whether `c` may stand between tokens.
fn is_whitespace_char(c: char) -> (r: bool)
    ensures
        r == is_whitespace(c),
{
    c == ' ' || c == '\t' || c == '\n' || c == '\r'
}

/// Whether `c` is an ASCII letter or digit.
fn is_alphanumeric_char(c: char) -> (r: bool)
    ensures
        r == is_alphanumeric(c),
{
    ('a' <= c && c <= 'z') || ('A' <= c && c <= 'Z') || ('0' <= c && c <= '9')
}

/// Drops the whitespace at the head of the input.
pub fn whitespace_p<'a>(input: &'a str) -> (rest: &'a str)
    ensures
        rest@ == whitespace(input@),
{
    let mut rest = input;
    loop
        invariant
            whitespace(rest@) == whitespace(input@),
        decreases rest@.len(),
    {
        match first_char(rest) {
            Some(c) => {
                if is_whitespace_char(c) {
                    rest = split_first(rest).1;
                } else {
                    return rest;
                }
            },
            None => {
                return rest;
            },
        }
    }
}

/// Reads a variable: a run of letters and digits, and the whitespace behind it.
pub fn variable_p<'a>(input: &'a str) -> (outcome: Outcome<'a, MathExpression>)
    ensures
        outcome.tree() == variable(input@),
{
    let mut name = String::new();
    let mut rest = input;
    let ghost mut taken: int = 0;
    loop
        invariant
            0 <= taken <= input@.len(),
            name@ == input@.take(taken),
            rest@ == input@.skip(taken),
            name_len(input@) == taken + name_len(rest@),
        ensures
            name_len(rest@) == 0,
        decreases rest@.len(),
    {
        match first_char(rest) {
            Some(c) => {
                if is_alphanumeric_char(c) {
                    let parts = split_first(rest);
                    name.append(parts.0);
                    rest = parts.1;
                    proof {
                        taken = taken + 1;
                    }
                } else {
                    break ;
                }
            },
            None => {
                break ;
            },
        }
    }
    if name.as_str().is_empty() {
        Outcome::Error { at: input }
    } else {
        Outcome::Match { value: MathExpression::Variable { name }, rest: whitespace_p(rest) }
    }
}

/// What the rule for numbers makes of the recogniser's answer `scan` on `input`.
pub open spec fn scanned(input: Seq<char>, scan: Scan) -> Parsed<Expr> {
    match scan {
        Scan::Literal { rest, bits } => Parsed::Match {
            value: Expr::Number((Binary64 { bits }).canonical()),
            rest: whitespace(rest@),
        },
        Scan::Error => Parsed::Error { at: input },
        Scan::Failure { at } => Parsed::Failure { at: at@ },
    }
}

/// Makes the outcome of the rule for numbers from the recogniser's answer
/// `scan` on `input`: a literal becomes a number in canonical form, and the
/// whitespace behind it is dropped.
pub fn number_of<'a>(input: &'a str, scan: Scan<'a>) -> (outcome: Outcome<'a, MathExpression>)
    ensures
        outcome.tree() == scanned(input@, scan),
{
    match scan {
        Scan::Literal { rest, bits } => Outcome::Match {
            value: MathExpression::Number(Binary64::from_bits(bits).to_canonical()),
            rest: whitespace_p(rest),
        },
        Scan::Error => Outcome::Error { at: input },
        Scan::Failure { at } => Outcome::Failure { at },
    }
}

/// Reads an integer, and the whitespace behind it.
pub fn integer_p<'a>(input: &'a str) -> (outcome: Outcome<'a, MathExpression>)
    ensures
        outcome.tree() == integral(input@),
{
    match scan_i64(input) {
        Some((rest, value)) => Outcome::Match {
            value: MathExpression::Number(Binary64::from_i64(value)),
            rest: whitespace_p(rest),
        },
        None => Outcome::Error { at: input },
    }
}

/// Reads a number: a floating point literal or else an integer, and the
/// whitespace behind it.
pub fn number_p<'a>(input: &'a str) -> (outcome: Outcome<'a, MathExpression>)
    ensures
        outcome.tree() == number(input@),
{
    match number_of(input, scan_double(input)) {
        Outcome::Error { at } => integer_p(input),
        other => other,
    }
}

/// The operator that `c` denotes at `level`, if any.
pub fn get_op(level: Level, c: char) -> (op: Option<BinOp>)
    ensures
        op == operator(level, c),
{
    match level {
        Level::Terms => if c == '+' {
            Some(BinOp::Add)
        } else if c == '-' {
            Some(BinOp::Subtract)
        } else {
            None
        },
        Level::Factors => if c == '*' {
            Some(BinOp::Multiply)
        } else if c == '/' {
            Some(BinOp::Divide)
        } else if c == '%' {
            Some(BinOp::Modulus)
        } else {
            None
        },
        Level::Exponents => if c == '^' {
            Some(BinOp::Exponent)
        } else {
            None
        },
    }
}

/// Reads the name of a builtin from the head of the input.
fn function_name<'a>(input: &'a str) -> (found: Option<(String, &'a str)>)
    ensures
        (match found {
            Some((name, rest)) => builtin_name(input@) == Some(name@) && rest@ == input@.skip(
                name@.len() as int,
            ),
            None => builtin_name(input@) is None,
        }),
{
    proof {
        reveal_strlit("sin");
        reveal_strlit("sine");
        reveal_strlit("log");
        reveal_strlit("rand");
        reveal_strlit("sqrt");
        assert("sin"@ =~= seq!['s', 'i', 'n']);
        assert("sine"@ =~= seq!['s', 'i', 'n', 'e']);
        assert("log"@ =~= seq!['l', 'o', 'g']);
        assert("rand"@ =~= seq!['r', 'a', 'n', 'd']);
        assert("sqrt"@ =~= seq!['s', 'q', 'r', 't']);
    }
    if let Some(rest) = strip_prefix(input, "sine") {
        Some((String::from_str("sine"), rest))
    } else if let Some(rest) = strip_prefix(input, "sin") {
        Some((String::from_str("sin"), rest))
    } else if let Some(rest) = strip_prefix(input, "log") {
        Some((String::from_str("log"), rest))
    } else if let Some(rest) = strip_prefix(input, "rand") {
        Some((String::from_str("rand"), rest))
    } else if let Some(rest) = strip_prefix(input, "sqrt") {
        Some((String::from_str("sqrt"), rest))
    } else {
        None
    }
}

/// Reads the character `c`, which must be ASCII, and the whitespace behind it.
fn symbol<'a>(input: &'a str, c: char) -> (rest: Option<&'a str>)
    requires
        is_ascii_char(c),
    ensures
        (match rest {
            Some(rest) => begins_with_char(input@, c) && rest@ == whitespace(
                input@.drop_first(),
            ),
            None => !begins_with_char(input@, c),
        }),
{
    match first_char(input) {
        Some(first) => {
            if first == c {
                Some(whitespace_p(split_first(input).1))
            } else {
                None
            }
        },
        None => None,
    }
}

/// The models of a list with one more tree are those of the list with one
/// more model.
proof fn lemma_models_push(list: Seq<MathExpression>, tree: MathExpression)
    ensures
        models(list.push(tree)) == models(list).push(tree@),
{
}

/// Reads a chain of terms: the loosest level of the grammar.
pub fn terms_p<'a>(input: &'a str) -> (outcome: Outcome<'a, MathExpression>)
    ensures
        outcome.tree() == chain(Level::Terms, input@),
    decreases input@.len(), 15nat,
{
    operation_chain_p(Level::Terms, input)
}

/// Reads a chain of factors.
pub fn factor_p<'a>(input: &'a str) -> (outcome: Outcome<'a, MathExpression>)
    ensures
        outcome.tree() == chain(Level::Factors, input@),
    decreases input@.len(), 11nat,
{
    operation_chain_p(Level::Factors, input)
}

/// Reads a chain of powers: the tightest level of the grammar.
pub fn exponents_p<'a>(input: &'a str) -> (outcome: Outcome<'a, MathExpression>)
    ensures
        outcome.tree() == chain(Level::Exponents, input@),
    decreases input@.len(), 7nat,
{
    operation_chain_p(Level::Exponents, input)
}

/// Reads an operand of a chain of `level`.
fn operand_p<'a>(level: Level, input: &'a str) -> (outcome: Outcome<'a, MathExpression>)
    ensures
        outcome.tree() == operand(level, input@),
    decreases input@.len(), 4 * rank(level) + 5,
{
    match level {
        Level::Terms => factor_p(input),
        Level::Factors => exponents_p(input),
        Level::Exponents => atom_p(input),
    }
}

/// Reads a chain of `level`: an operand, then operators of the level with
/// their operands, folded into a tree that leans to the left.
pub fn operation_chain_p<'a>(level: Level, input: &'a str) -> (outcome: Outcome<
    'a,
    MathExpression,
>)
    ensures
        outcome.tree() == chain(level, input@),
    decreases input@.len(), 4 * rank(level) + 6,
{
    proof {
        lemma_operand_shrinks(level, input@);
    }
    match operand_p(level, input) {
        Outcome::Match { value, rest } => {
            let mut left = value;
            let mut rest = rest;
            loop
                invariant
                    rest@.len() < input@.len(),
                    chain_tail(level, left@, rest@) == chain(level, input@),
                decreases rest@.len(),
            {
                let op = match first_char(rest) {
                    Some(c) => get_op(level, c),
                    None => None,
                };
                match op {
                    None => {
                        return Outcome::Match { value: left, rest };
                    },
                    Some(op) => {
                        let behind = whitespace_p(split_first(rest).1);
                        proof {
                            lemma_whitespace_len(rest@.drop_first());
                            lemma_operand_shrinks(level, behind@);
                        }
                        match operand_p(level, behind) {
                            Outcome::Match { value: right, rest: after } => {
                                left = MathExpression::BinOp {
                                    op,
                                    lhs: Box::new(left),
                                    rhs: Box::new(right),
                                };
                                rest = after;
                            },
                            Outcome::Error { at } => {
                                return Outcome::Match { value: left, rest };
                            },
                            Outcome::Failure { at } => {
                                return Outcome::Failure { at };
                            },
                        }
                    },
                }
            }
        },
        Outcome::Error { at } => Outcome::Error { at },
        Outcome::Failure { at } => Outcome::Failure { at },
    }
}

/// Reads the arguments of a call: none, or expressions with a comma between
/// each two.
fn arguments_p<'a>(input: &'a str) -> (outcome: Outcome<'a, Vec<MathExpression>>)
    ensures
        outcome.list() == arguments(input@),
    decreases input@.len(), 16nat,
{
    let mut list: Vec<MathExpression> = Vec::new();
    proof {
        lemma_chain_shrinks(Level::Terms, input@);
        assert(models(list@) =~= Seq::<Expr>::empty());
    }
    match terms_p(input) {
        Outcome::Match { value, rest } => {
            proof {
                lemma_models_push(list@, value);
            }
            list.push(value);
            let mut rest = rest;
            loop
                invariant
                    rest@.len() < input@.len(),
                    more_arguments(models(list@), rest@) == arguments(input@),
                decreases rest@.len(),
            {
                match symbol(rest, ',') {
                    None => {
                        return Outcome::Match { value: list, rest };
                    },
                    Some(behind) => {
                        proof {
                            lemma_whitespace_len(rest@.drop_first());
                            lemma_chain_shrinks(Level::Terms, behind@);
                        }
                        match terms_p(behind) {
                            Outcome::Match { value, rest: after } => {
                                proof {
                                    lemma_models_push(list@, value);
                                }
                                list.push(value);
                                rest = after;
                            },
                            Outcome::Error { at } => {
                                return Outcome::Match { value: list, rest };
                            },
                            Outcome::Failure { at } => {
                                return Outcome::Failure { at };
                            },
                        }
                    },
                }
            }
        },
        Outcome::Error { at } => Outcome::Match { value: list, rest: input },
        Outcome::Failure { at } => Outcome::Failure { at },
    }
}

/// Reads a call: the name of a builtin, then its arguments between parentheses.
pub fn function_p<'a>(input: &'a str) -> (outcome: Outcome<'a, MathExpression>)
    ensures
        outcome.tree() == call(input@),
    decreases input@.len(), 2nat,
{
    match function_name(input) {
        None => Outcome::Error { at: input },
        Some((name, rest)) => {
            let opening = whitespace_p(rest);
            proof {
                lemma_whitespace_len(rest@);
                lemma_whitespace_len(opening@.drop_first());
            }
            match symbol(opening, '(') {
                None => Outcome::Error { at: opening },
                Some(inner) => match arguments_p(inner) {
                    Outcome::Match { value, rest } => match symbol(rest, ')') {
                        Some(rest) => Outcome::Match {
                            value: MathExpression::Function { name, arguments: value },
                            rest,
                        },
                        None => Outcome::Error { at: rest },
                    },
                    Outcome::Error { at } => Outcome::Error { at },
                    Outcome::Failure { at } => Outcome::Failure { at },
                },
            }
        },
    }
}

/// Reads an expression between parentheses.
fn parenthesized_p<'a>(input: &'a str) -> (outcome: Outcome<'a, MathExpression>)
    ensures
        outcome.tree() == parenthesized(input@),
    decreases input@.len(), 2nat,
{
    match symbol(input, '(') {
        None => Outcome::Error { at: input },
        Some(inner) => {
            proof {
                lemma_whitespace_len(input@.drop_first());
            }
            match terms_p(inner) {
                Outcome::Match { value, rest } => match symbol(rest, ')') {
                    Some(rest) => Outcome::Match { value, rest },
                    None => Outcome::Error { at: rest },
                },
                Outcome::Error { at } => Outcome::Error { at },
                Outcome::Failure { at } => Outcome::Failure { at },
            }
        },
    }
}

/// Reads an atom: a number, a call, a variable or an expression in
/// parentheses, whichever applies first.
pub fn atom_p<'a>(input: &'a str) -> (outcome: Outcome<'a, MathExpression>)
    ensures
        outcome.tree() == atom(input@),
    decreases input@.len(), 3nat,
{
    match number_p(input) {
        Outcome::Error { at } => match function_p(input) {
            Outcome::Error { at } => match variable_p(input) {
                Outcome::Error { at } => parenthesized_p(input),
                other => other,
            },
            other => other,
        },
        other => other,
    }
}

/// The model of the result of a parse.
pub open spec fn parsed(result: Result<MathExpression, ParseError>) -> Result<Expr, Mismatch> {
    match result {
        Ok(tree) => Ok(tree@),
        Err(error) => Err(error@),
    }
}

/// Parses a whole input as one expression. Nothing but whitespace may stand
/// before it or between its tokens, and nothing may be left behind it.
pub fn expression_p<'a>(input: &'a str) -> (result: Result<MathExpression, ParseError<'a>>)
    ensures
        parsed(result) == expression(input@),
{
    match terms_p(whitespace_p(input)) {
        Outcome::Match { value, rest } => {
            if rest.is_empty() {
                Ok(value)
            } else {
                Err(ParseError::Error { fragment: rest })
            }
        },
        Outcome::Error { at } => Err(ParseError::Error { fragment: at }),
        Outcome::Failure { at } => Err(ParseError::Failure { fragment: at }),
    }
}

} // verus!
