use vstd::prelude::*;
use crate::environment::Environment;
use crate::expr::{Expr, ExprView};
use crate::interpreter::expr_reads;
use crate::stmt::{Stmt, StmtView};
use crate::token::Literal;

verus! {

pub open spec fn names_of(v: Seq<String>) -> Seq<Seq<char>> {
    v.map_values(|s: String| s@)
}

/// The independent-variable list and the binding table after the analyzer
/// has walked an expression: each newly read name is appended in discovery
/// order and bound to false; a nested assignment is walked only through its
/// value, so its target is not collected.
pub open spec fn sp_analyze(e: ExprView, vars: Seq<Seq<char>>, env: Map<Seq<char>, Literal>) -> (
    Seq<Seq<char>>,
    Map<Seq<char>, Literal>,
)
    decreases e,
{
    match e {
        ExprView::Grouping(inner) => sp_analyze(*inner, vars, env),
        ExprView::Binary(l, _, r) => {
            let p = sp_analyze(*l, vars, env);
            sp_analyze(*r, p.0, p.1)
        },
        ExprView::Unary(_, operand) => sp_analyze(*operand, vars, env),
        ExprView::Literal(_) => (vars, env),
        ExprView::Variable(t) => if vars.contains(t.lexeme) {
            (vars, env)
        } else {
            (vars.push(t.lexeme), env.insert(t.lexeme, Literal::Boolean(false)))
        },
        ExprView::Assign(_, val) => sp_analyze(*val, vars, env),
    }
}

/// After analysis every listed variable is bound, every name the expression
/// reads is bound, and no binding is lost.
pub proof fn lemma_sp_analyze_binds(e: ExprView, vars: Seq<Seq<char>>, env: Map<Seq<char>, Literal>)
    requires
        forall|v: Seq<char>| vars.contains(v) ==> env.contains_key(v),
    ensures
        forall|v: Seq<char>| #[trigger]
            sp_analyze(e, vars, env).0.contains(v) ==> sp_analyze(e, vars, env).1.contains_key(v),
        expr_reads(e).subset_of(sp_analyze(e, vars, env).1.dom()),
        env.dom().subset_of(sp_analyze(e, vars, env).1.dom()),
    decreases e,
{
    match e {
        ExprView::Grouping(inner) => lemma_sp_analyze_binds(*inner, vars, env),
        ExprView::Binary(l, _, r) => {
            lemma_sp_analyze_binds(*l, vars, env);
            let p = sp_analyze(*l, vars, env);
            lemma_sp_analyze_binds(*r, p.0, p.1);
        },
        ExprView::Unary(_, operand) => lemma_sp_analyze_binds(*operand, vars, env),
        ExprView::Literal(_) => {},
        ExprView::Variable(t) => {
            if !vars.contains(t.lexeme) {
                assert forall|v: Seq<char>| #[trigger]
                    vars.push(t.lexeme).contains(v) implies env.insert(
                    t.lexeme,
                    Literal::Boolean(false),
                ).contains_key(v) by {
                    if v != t.lexeme {
                        let i = choose|i: int|
                            0 <= i < vars.push(t.lexeme).len() && vars.push(t.lexeme)[i] == v;
                        assert(vars[i] == v);
                        assert(vars.contains(v));
                    }
                }
            }
        },
        ExprView::Assign(_, val) => lemma_sp_analyze_binds(*val, vars, env),
    }
}

fn contains_name(v: &Vec<String>, name: &String) -> (r: bool)
    ensures
        r == names_of(v@).contains(name@),
{
    let n = v.len();
    let mut i: usize = 0;
    while i < n
        invariant
            i <= n,
            n == v@.len(),
            forall|j: int| 0 <= j < i ==> #[trigger] names_of(v@)[j] != name@,
        decreases n - i,
    {
        if v[i] == *name {
            proof {
                assert(names_of(v@)[i as int] == name@);
            }
            return true;
        }
        i = i + 1;
    }
    proof {
        if names_of(v@).contains(name@) {
            let j = choose|j: int| 0 <= j < names_of(v@).len() && names_of(v@)[j] == name@;
            assert(names_of(v@)[j] != name@);
        }
    }
    false
}

pub(crate) fn clone_names(v: &Vec<String>) -> (r: Vec<String>)
    ensures
        r@ == v@,
{
    let n = v.len();
    let mut r: Vec<String> = Vec::new();
    let mut i: usize = 0;
    while i < n
        invariant
            i <= n,
            n == v@.len(),
            r@ == v@.take(i as int),
        decreases n - i,
    {
        r.push(v[i].clone());
        proof {
            assert(r@ =~= v@.take(i + 1));
        }
        i = i + 1;
    }
    proof {
        assert(v@.take(n as int) =~= v@);
    }
    r
}

/// Walks a parsed assignment to find the distinct variables its expression
/// reads, in first-occurrence order, and seeds a binding table in which each
/// of them defaults to false.
pub struct AssignParser {
    pub environment: Environment,
    pub dependent_var: String,
    pub independent_vars: Vec<String>,
}

/// What one analyzed assignment hands the enumerator: the assigned variable,
/// the variables its expression reads in discovery order, the seeded binding
/// table, and the expression itself.
pub struct AnalysisResult {
    pub dependent_var: String,
    pub independent_vars: Vec<String>,
    pub environment: Environment,
    pub expr: Expr,
}

impl AssignParser {
    /// Every variable the analyzer has listed is bound in its table.
    pub open spec fn wf(&self) -> bool {
        forall|v: Seq<char>|
            names_of(self.independent_vars@).contains(v) ==> self.environment@.contains_key(v)
    }

    pub fn new() -> (r: Self)
        ensures
            r.environment@ == Map::<Seq<char>, Literal>::empty(),
            r.dependent_var@ == Seq::<char>::empty(),
            names_of(r.independent_vars@) == Seq::<Seq<char>>::empty(),
    {
        let r = AssignParser {
            environment: Environment::new(),
            dependent_var: "".to_owned(),
            independent_vars: Vec::new(),
        };
        proof {
            reveal_strlit("");
            assert(""@ =~= Seq::<char>::empty());
            assert(names_of(r.independent_vars@) =~= Seq::<Seq<char>>::empty());
        }
        r
    }

    fn collect(&mut self, expr: &Expr)
        ensures
            names_of(final(self).independent_vars@) == sp_analyze(
                expr@,
                names_of(old(self).independent_vars@),
                old(self).environment@,
            ).0,
            final(self).environment@ == sp_analyze(
                expr@,
                names_of(old(self).independent_vars@),
                old(self).environment@,
            ).1,
            final(self).dependent_var == old(self).dependent_var,
        decreases expr,
    {
        match expr {
            Expr::Grouping(inner) => self.collect(&**inner),
            Expr::Binary(l, _, r) => {
                self.collect(&**l);
                self.collect(&**r);
            },
            Expr::Unary(_, operand) => self.collect(&**operand),
            Expr::Literal(_) => {},
            Expr::Variable(t) => {
                if !contains_name(&self.independent_vars, &t.lexeme) {
                    self.environment.define(t.lexeme.clone(), Literal::Boolean(false));
                    self.independent_vars.push(t.lexeme.clone());
                    proof {
                        assert(names_of(self.independent_vars@) =~= names_of(
                            old(self).independent_vars@,
                        ).push(t.lexeme@));
                    }
                }
            },
            Expr::Assign(_, e) => self.collect(&**e),
        }
    }

    /// Analyze an assignment statement. A bare expression statement names no
    /// dependent variable and cannot head a truth table, so it is refused.
    pub fn analyze(&mut self, stmt: Stmt) -> (r: Result<AnalysisResult, &'static str>)
        ensures
            match stmt@ {
                StmtView::Assign { name, value } => {
                    let p = sp_analyze(
                        value,
                        names_of(old(self).independent_vars@),
                        old(self).environment@,
                    );
                    &&& r matches Ok(res) && res.dependent_var@ == name && names_of(
                        res.independent_vars@,
                    ) == p.0 && res.environment@ == p.1 && res.expr@ == value
                    &&& names_of(final(self).independent_vars@) == p.0
                    &&& final(self).environment@ == p.1
                },
                StmtView::Expression { .. } => (r matches Err(m) && m@
                    == "Expected Assign statement"@) && *final(self) == *old(self),
            },
    {
        match stmt {
            Stmt::Assign { name, value } => {
                self.collect(&value);
                Ok(
                    AnalysisResult {
                        dependent_var: name,
                        independent_vars: clone_names(&self.independent_vars),
                        environment: self.environment.clone(),
                        expr: value,
                    },
                )
            },
            Stmt::Expression { value: _ } => Err("Expected Assign statement"),
        }
    }
}

} // verus!
