//! The syntax tree of an arithmetic expression, and its mathematical model.

use vstd::prelude::*;
use crate::number::Binary64;

verus! {

/// The binary operators of the expression language.
#[derive(Debug, Clone, Copy, PartialEq, Eq, Structural)]
pub enum BinOp {
    Add,
    Subtract,
    Multiply,
    Divide,
    Exponent,
    Modulus,
}

/// A parsed expression. Each node owns its children; a tree is built once and
/// read thereafter.
#[derive(Debug, PartialEq)]
pub enum MathExpression {
    BinOp { op: BinOp, lhs: Box<MathExpression>, rhs: Box<MathExpression> },
    Variable { name: String },
    Function { name: String, arguments: Vec<MathExpression> },
    Number(Binary64),
}

/// The model of an expression: the same tree over sequences of characters
/// and sequences of subtrees.
pub ghost enum Expr {
    BinOp { op: BinOp, lhs: Box<Expr>, rhs: Box<Expr> },
    Variable { name: Seq<char> },
    Function { name: Seq<char>, arguments: Seq<Expr> },
    Number(Binary64),
}

/// The models of a sequence of trees, each in its place.
pub open spec fn models(trees: Seq<MathExpression>) -> Seq<Expr>
    decreases trees, 1nat,
{
    Seq::new(
        trees.len(),
        |i: int|
            if 0 <= i < trees.len() {
                trees[i].model()
            } else {
                Expr::Number(Binary64 { bits: 0 })
            },
    )
}

impl MathExpression {
    /// The model of this tree.
    pub open spec fn model(&self) -> Expr
        decreases self, 0nat,
    {
        match self {
            MathExpression::BinOp { op, lhs, rhs } => Expr::BinOp {
                op: *op,
                lhs: Box::new(lhs.model()),
                rhs: Box::new(rhs.model()),
            },
            MathExpression::Variable { name } => Expr::Variable { name: name@ },
            MathExpression::Function { name, arguments } => Expr::Function {
                name: name@,
                arguments: models(arguments@),
            },
            MathExpression::Number(value) => Expr::Number(*value),
        }
    }
}

impl View for MathExpression {
    type V = Expr;

    open spec fn view(&self) -> Expr {
        self.model()
    }
}

} // verus!
