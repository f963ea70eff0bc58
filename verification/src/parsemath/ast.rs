//! The expression tree that the parser builds.
use vstd::prelude::*;
use crate::parsemath::token::Literal;

verus! {

/// The five binary operators.
#[derive(Debug, Clone, Copy, PartialEq, Eq, Structural)]
pub enum Operator {
    Add,
    Subtract,
    Multiply,
    Divide,
    Caret,
}

/// What an [`Expr`] stands for in specifications: the same tree, with the
/// text of each number as a sequence of characters.
pub enum ExprView {
    Number(Seq<char>),
    BinaryOp(Operator, Box<ExprView>, Box<ExprView>),
    UnaryMinus(Box<ExprView>),
}

/// An arithmetic expression.  Each node owns its operands.
#[derive(Debug, PartialEq, Eq)]
pub enum Expr {
    Number(Literal),
    BinaryOp(Operator, Box<Expr>, Box<Expr>),
    UnaryMinus(Box<Expr>),
}

impl View for Expr {
    type V = ExprView;

    open spec fn view(&self) -> ExprView {
        self.model()
    }
}

impl Clone for Expr {
    fn clone(&self) -> (r: Self)
        ensures
            r@ == self@,
        decreases self,
    {
        match self {
            Expr::Number(lit) => Expr::Number(lit.clone()),
            Expr::BinaryOp(op, left, right) => {
                let l = (**left).clone();
                let r = (**right).clone();
                Expr::BinaryOp(*op, Box::new(l), Box::new(r))
            },
            Expr::UnaryMinus(operand) => {
                let inner = (**operand).clone();
                Expr::UnaryMinus(Box::new(inner))
            },
        }
    }
}

impl Expr {
    /// The tree as specifications see it; `self@` is short for it.
    pub open spec fn model(self) -> ExprView
        decreases self,
    {
        match self {
            Expr::Number(lit) => ExprView::Number(lit@),
            Expr::BinaryOp(op, left, right) => ExprView::BinaryOp(
                op,
                Box::new(left.model()),
                Box::new(right.model()),
            ),
            Expr::UnaryMinus(operand) => ExprView::UnaryMinus(Box::new(operand.model())),
        }
    }
}

} // verus!
