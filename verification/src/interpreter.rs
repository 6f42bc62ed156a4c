use vstd::prelude::*;
use crate::environment::Environment;
use crate::expr::{Expr, ExprView};
use crate::token::Literal;
use crate::token_type::TokenType;

verus! {

/// The value, and the binding table, that evaluating an expression under the
/// given table yields. Both operands of a binary operator are always
/// evaluated; a nested assignment writes its value into the table and hands
/// it on; a binary or unary node with a foreign operator token yields false.
pub open spec fn sp_eval(e: ExprView, env: Map<Seq<char>, Literal>) -> (
    bool,
    Map<Seq<char>, Literal>,
)
    decreases e,
{
    match e {
        ExprView::Grouping(inner) => sp_eval(*inner, env),
        ExprView::Binary(l, op, r) => {
            let lp = sp_eval(*l, env);
            let rp = sp_eval(*r, lp.1);
            let v = if op.token_type == TokenType::And {
                lp.0 && rp.0
            } else if op.token_type == TokenType::Or {
                lp.0 || rp.0
            } else {
                false
            };
            (v, rp.1)
        },
        ExprView::Unary(op, operand) => {
            let p = sp_eval(*operand, env);
            let v = if op.token_type == TokenType::Not || op.token_type == TokenType::PreNot {
                !p.0
            } else {
                false
            };
            (v, p.1)
        },
        ExprView::Literal(l) => (l.spec_evaluate(), env),
        ExprView::Variable(t) => {
            let v = match env[t.lexeme] {
                Literal::Boolean(b) => b,
                Literal::Number(_) => false,
            };
            (v, env)
        },
        ExprView::Assign(t, val) => {
            let p = sp_eval(*val, env);
            (p.0, p.1.insert(t.lexeme, Literal::Boolean(p.0)))
        },
    }
}

/// The variable names an expression reads: every name a `Variable` node
/// carries. An assignment's target is written, not read.
pub open spec fn expr_reads(e: ExprView) -> Set<Seq<char>>
    decreases e,
{
    match e {
        ExprView::Grouping(inner) => expr_reads(*inner),
        ExprView::Binary(l, _, r) => expr_reads(*l).union(expr_reads(*r)),
        ExprView::Unary(_, operand) => expr_reads(*operand),
        ExprView::Literal(_) => Set::empty(),
        ExprView::Variable(t) => Set::empty().insert(t.lexeme),
        ExprView::Assign(_, val) => expr_reads(*val),
    }
}

/// Evaluation only ever adds bindings.
pub proof fn lemma_sp_eval_dom(e: ExprView, env: Map<Seq<char>, Literal>)
    ensures
        env.dom().subset_of(sp_eval(e, env).1.dom()),
    decreases e,
{
    match e {
        ExprView::Grouping(inner) => lemma_sp_eval_dom(*inner, env),
        ExprView::Binary(l, _, r) => {
            lemma_sp_eval_dom(*l, env);
            lemma_sp_eval_dom(*r, sp_eval(*l, env).1);
        },
        ExprView::Unary(_, operand) => lemma_sp_eval_dom(*operand, env),
        ExprView::Literal(_) => {},
        ExprView::Variable(_) => {},
        ExprView::Assign(_, val) => lemma_sp_eval_dom(*val, env),
    }
}

/// Walks an expression tree under a binding table and reduces it to one
/// boolean.
pub struct Interpreter {
    pub environment: Environment,
}

impl Interpreter {
    pub fn new() -> (r: Self)
        ensures
            r.environment@ == Map::<Seq<char>, Literal>::empty(),
    {
        Interpreter { environment: Environment::new() }
    }

    /// Install the binding table that evaluation will run against.
    pub fn update_environment(&mut self, environment: Environment)
        ensures
            final(self).environment@ == environment@,
    {
        self.environment = environment;
    }

    /// Evaluate under the current binding table. Every name the expression
    /// reads must already be bound: the analyzer is required to have
    /// pre-bound each of them, and an unbound name would be its fault, not
    /// the input's.
    pub fn evaluate(&mut self, expr: &Expr) -> (r: bool)
        requires
            expr_reads(expr@).subset_of(old(self).environment@.dom()),
        ensures
            r == sp_eval(expr@, old(self).environment@).0,
            final(self).environment@ == sp_eval(expr@, old(self).environment@).1,
        decreases expr,
    {
        match expr {
            Expr::Grouping(inner) => self.evaluate(&**inner),
            Expr::Binary(l, op, r) => {
                let lv = self.evaluate(&**l);
                proof {
                    lemma_sp_eval_dom((**l)@, old(self).environment@);
                }
                let rv = self.evaluate(&**r);
                if op.token_type == TokenType::And {
                    lv && rv
                } else if op.token_type == TokenType::Or {
                    lv || rv
                } else {
                    false
                }
            },
            Expr::Unary(op, operand) => {
                let v = self.evaluate(&**operand);
                if op.token_type == TokenType::Not || op.token_type == TokenType::PreNot {
                    !v
                } else {
                    false
                }
            },
            Expr::Literal(l) => l.evaluate(),
            Expr::Variable(t) => {
                proof {
                    assert(expr_reads(expr@).contains(t.lexeme@));
                }
                let var_expr = self.environment.get(t.lexeme.clone());
                match var_expr {
                    Literal::Boolean(b) => b,
                    Literal::Number(_) => false,
                }
            },
            Expr::Assign(t, e) => {
                let value = self.evaluate(&**e);
                self.environment.assign(t.lexeme.clone(), Literal::Boolean(value));
                value
            },
        }
    }
}

} // verus!
