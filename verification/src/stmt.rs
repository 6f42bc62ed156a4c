use vstd::prelude::*;
use crate::expr::{Expr, ExprView};

verus! {

/// One parsed statement: a variable assignment, or a bare expression.
#[derive(Debug, PartialEq)]
pub enum Stmt {
    Assign { name: String, value: Expr },
    Expression { value: Expr },
}

/// The mathematical image of a statement.
pub ghost enum StmtView {
    Assign { name: Seq<char>, value: ExprView },
    Expression { value: ExprView },
}

impl View for Stmt {
    type V = StmtView;

    open spec fn view(&self) -> StmtView {
        match self {
            Stmt::Assign { name, value } => StmtView::Assign { name: name@, value: value@ },
            Stmt::Expression { value } => StmtView::Expression { value: value@ },
        }
    }
}

impl Clone for Stmt {
    fn clone(&self) -> (r: Self)
        ensures
            r@ == self@,
    {
        match self {
            Stmt::Assign { name, value } => Stmt::Assign {
                name: name.clone(),
                value: value.clone(),
            },
            Stmt::Expression { value } => Stmt::Expression { value: value.clone() },
        }
    }
}

} // verus!
