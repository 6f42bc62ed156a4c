use vstd::prelude::*;
use crate::token::{Literal, Token, TokenView};

verus! {

/// An expression tree node. Each node owns its children; a tree is immutable
/// once built.
///
/// An `Assign` node's target is always a bare identifier: the grammar never
/// builds `Assign` around any other left-hand side.
#[derive(Debug, PartialEq)]
pub enum Expr {
    Grouping(Box<Expr>),
    Binary(Box<Expr>, Token, Box<Expr>),
    Unary(Token, Box<Expr>),
    Literal(Literal),
    Variable(Token),
    Assign(Token, Box<Expr>),
}

/// The mathematical image of an expression tree.
pub ghost enum ExprView {
    Grouping(Box<ExprView>),
    Binary(Box<ExprView>, TokenView, Box<ExprView>),
    Unary(TokenView, Box<ExprView>),
    Literal(Literal),
    Variable(TokenView),
    Assign(TokenView, Box<ExprView>),
}

/// The image of an expression tree, node by node.
pub open spec fn view_expr(e: Expr) -> ExprView
    decreases e,
{
    match e {
        Expr::Grouping(e) => ExprView::Grouping(Box::new(view_expr(*e))),
        Expr::Binary(l, op, r) => ExprView::Binary(
            Box::new(view_expr(*l)),
            op@,
            Box::new(view_expr(*r)),
        ),
        Expr::Unary(op, e) => ExprView::Unary(op@, Box::new(view_expr(*e))),
        Expr::Literal(l) => ExprView::Literal(l),
        Expr::Variable(t) => ExprView::Variable(t@),
        Expr::Assign(t, e) => ExprView::Assign(t@, Box::new(view_expr(*e))),
    }
}

impl View for Expr {
    type V = ExprView;

    open spec fn view(&self) -> ExprView {
        view_expr(*self)
    }
}

impl Clone for Expr {
    fn clone(&self) -> (r: Self)
        ensures
            r@ == self@,
        decreases self,
    {
        match self {
            Expr::Grouping(e) => Expr::Grouping(Box::new((**e).clone())),
            Expr::Binary(l, op, r) => Expr::Binary(
                Box::new((**l).clone()),
                op.clone(),
                Box::new((**r).clone()),
            ),
            Expr::Unary(op, e) => Expr::Unary(op.clone(), Box::new((**e).clone())),
            Expr::Literal(l) => Expr::Literal(*l),
            Expr::Variable(t) => Expr::Variable(t.clone()),
            Expr::Assign(t, e) => Expr::Assign(t.clone(), Box::new((**e).clone())),
        }
    }
}

} // verus!
