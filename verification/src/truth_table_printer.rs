use vstd::prelude::*;
use vstd::arithmetic::power2::{lemma2_to64, lemma_pow2_strictly_increases, lemma_pow2_unfold, pow2};
use crate::assign_parser::{
    clone_names, lemma_sp_analyze_binds, names_of, sp_analyze, AnalysisResult, AssignParser,
};
use crate::interpreter::{expr_reads, lemma_sp_eval_dom, sp_eval, Interpreter};
use crate::sorting::{lemma_sp_sort_sorted, sorted_name_vec, sorted_names, sp_sort};
use crate::stmt::{Stmt, StmtView};
use crate::token::Literal;
use crate::expr::ExprView;

verus! {

/// The truthiness the table holds for a name.
pub open spec fn cell(env: Map<Seq<char>, Literal>, name: Seq<char>) -> bool {
    env[name].spec_evaluate()
}

/// The binding table with the sorted variables bound for row `t`, walking
/// the sorted names from the last toward the first: bit `i` of `t` binds the
/// name `i` places from the end, so the lexicographically first name carries
/// the most significant bit.
pub open spec fn sp_bind(
    sorted: Seq<Seq<char>>,
    t: usize,
    env: Map<Seq<char>, Literal>,
    i: int,
) -> Map<Seq<char>, Literal>
    decreases sorted.len() - i,
{
    if i < 0 || i >= sorted.len() {
        env
    } else {
        sp_bind(
            sorted,
            t,
            env.insert(
                sorted[sorted.len() - 1 - i],
                Literal::Boolean((t >> (i as usize)) & 1 == 1),
            ),
            i + 1,
        )
    }
}

proof fn lemma_sp_bind_props(sorted: Seq<Seq<char>>, t: usize, env: Map<Seq<char>, Literal>, i: int)
    requires
        0 <= i,
    ensures
        env.dom().subset_of(sp_bind(sorted, t, env, i).dom()),
        forall|m: int|
            0 <= m < sorted.len() - i ==> sp_bind(sorted, t, env, i).dom().contains(
                #[trigger] sorted[m],
            ),
    decreases sorted.len() - i,
{
    if 0 <= i < sorted.len() {
        let key = sorted[sorted.len() - 1 - i];
        let env2 = env.insert(key, Literal::Boolean((t >> (i as usize)) & 1 == 1));
        lemma_sp_bind_props(sorted, t, env2, i + 1);
        assert(env.dom().subset_of(env2.dom()));
        assert(env2.dom().contains(key));
        assert(sp_bind(sorted, t, env, i).dom().contains(key));
        assert forall|m: int| 0 <= m < sorted.len() - i implies sp_bind(
            sorted,
            t,
            env,
            i,
        ).dom().contains(#[trigger] sorted[m]) by {
            if m < sorted.len() - i - 1 {
                assert(sp_bind(sorted, t, env2, i + 1).dom().contains(sorted[m]));
            }
        }
    }
}

/// One table row for counter value `t`: bind the variables, evaluate, write
/// the output back under the dependent name, then read the variable cells
/// back from the table — they reflect exactly what evaluation observed,
/// including any rebinding a nested assignment did — and close the row with
/// the output.
pub open spec fn sp_row(
    e: ExprView,
    dep: Seq<char>,
    sorted: Seq<Seq<char>>,
    t: usize,
    env: Map<Seq<char>, Literal>,
) -> (Seq<bool>, Map<Seq<char>, Literal>) {
    let bound = sp_bind(sorted, t, env, 0);
    let p = sp_eval(e, bound);
    let env2 = p.1.insert(dep, Literal::Boolean(p.0));
    (Seq::new(sorted.len(), |i: int| cell(env2, sorted[i])).push(p.0), env2)
}

/// The rows for counter values `t .. count`, the binding table threaded from
/// each row into the next.
pub open spec fn sp_rows(
    e: ExprView,
    dep: Seq<char>,
    sorted: Seq<Seq<char>>,
    count: usize,
    t: usize,
    env: Map<Seq<char>, Literal>,
) -> Seq<Seq<bool>>
    decreases count - t,
{
    if t >= count {
        Seq::empty()
    } else {
        let p = sp_row(e, dep, sorted, t, env);
        seq![p.0] + sp_rows(e, dep, sorted, count, (t + 1) as usize, p.1)
    }
}

/// The table a statement yields when analysis starts from the given
/// analyzer state: the header and the rows, or nothing where the statement
/// is no assignment or its variables would overflow the row counter.
pub open spec fn sp_table_from(
    stmt: StmtView,
    vars: Seq<Seq<char>>,
    env: Map<Seq<char>, Literal>,
) -> Option<(Seq<Seq<char>>, Seq<Seq<bool>>)> {
    match stmt {
        StmtView::Assign { name, value } => {
            let p = sp_analyze(value, vars, env);
            let sorted = sp_sort(p.0);
            if p.0.len() >= 32 {
                None
            } else {
                Some(
                    (
                        sorted.push(name),
                        sp_rows(value, name, sorted, pow2(p.0.len() as nat) as usize, 0, p.1),
                    ),
                )
            }
        },
        StmtView::Expression { .. } => None,
    }
}

/// The table of a statement analyzed from a fresh state.
pub open spec fn sp_table(stmt: StmtView) -> Option<(Seq<Seq<char>>, Seq<Seq<bool>>)> {
    sp_table_from(stmt, Seq::empty(), Map::empty())
}

pub open spec fn rows_of(rs: Seq<Vec<bool>>) -> Seq<Seq<bool>> {
    rs.map_values(|r: Vec<bool>| r@)
}

/// A complete truth table: the header names — the independent variables in
/// ascending lexicographic order, then the dependent variable — and one row
/// per combination, each row holding the variables' cells in header order
/// and the output last.
#[derive(Debug)]
pub struct TruthTable {
    pub header: Vec<String>,
    pub rows: Vec<Vec<bool>>,
}

/// Turns one parsed statement into a complete truth table; a renderer
/// decides how the table looks.
pub struct TruthTablePrinter {
    pub parser: AssignParser,
    pub interpreter: Interpreter,
}

impl TruthTablePrinter {
    pub open spec fn wf(&self) -> bool {
        self.parser.wf()
    }

    /// A printer whose analyzer has seen nothing yet.
    pub open spec fn fresh(&self) -> bool {
        &&& names_of(self.parser.independent_vars@) == Seq::<Seq<char>>::empty()
        &&& self.parser.environment@ == Map::<Seq<char>, Literal>::empty()
    }

    pub fn new() -> (r: Self)
        ensures
            r.fresh(),
            r.wf(),
    {
        let parser = AssignParser::new();
        let interpreter = Interpreter::new();
        TruthTablePrinter { parser, interpreter }
    }

    /// Build the truth table for one statement.
    ///
    /// The statement must assign; the distinct variables its expression
    /// reads become the columns, and every combination of their truth values
    /// becomes a row. A statement whose dependent variable is itself read
    /// (`c = a * c;`) is taken as it stands: each row's evaluation observes
    /// the value the previous row wrote back, the very first the seeded
    /// default. More than 31 variables would overflow the row counter, so
    /// such a statement is refused rather than enumerated.
    pub fn tabulate(&mut self, stmt: Stmt) -> (r: Result<TruthTable, &'static str>)
        requires
            old(self).wf(),
        ensures
            final(self).wf(),
            ({
                let vars0 = names_of(old(self).parser.independent_vars@);
                let env0 = old(self).parser.environment@;
                match sp_table_from(stmt@, vars0, env0) {
                    Some(tab) => r matches Ok(table) && names_of(table.header@) == tab.0 && rows_of(
                        table.rows@,
                    ) == tab.1,
                    None => r is Err,
                }
            }),
            (stmt@ matches StmtView::Assign { name, value } ==> {
                let p = sp_analyze(
                    value,
                    names_of(old(self).parser.independent_vars@),
                    old(self).parser.environment@,
                );
                &&& names_of(final(self).parser.independent_vars@) == p.0
                &&& final(self).parser.environment@ == p.1
            }),
            (stmt@ matches StmtView::Expression { value } ==> (r matches Err(m) && m@
                == "Expected Assign statement"@) && *final(self) == *old(self)),
            ({
                stmt@ matches StmtView::Assign { name, value } && sp_analyze(
                    value,
                    names_of(old(self).parser.independent_vars@),
                    old(self).parser.environment@,
                ).0.len() >= 32
            }) ==> (r matches Err(m) && m@ == "Too many variables."@),
    {
        let ghost vars0 = names_of(self.parser.independent_vars@);
        let ghost env0 = self.parser.environment@;
        let result = self.parser.analyze(stmt);
        let analysis = match result {
            Ok(a) => a,
            Err(m) => {
                return Err(m);
            },
        };
        let AnalysisResult { dependent_var, independent_vars, environment, expr } = analysis;
        let ghost ev = expr@;
        let ghost depv = dependent_var@;
        let ghost p = sp_analyze(ev, vars0, env0);
        proof {
            lemma_sp_analyze_binds(ev, vars0, env0);
            lemma_sp_sort_sorted(p.0);
        }
        let sorted = sorted_name_vec(&independent_vars);
        let ghost sortedv = sp_sort(p.0);
        let n = sorted.len();
        if n >= 32 {
            return Err("Too many variables.");
        }
        proof {
            // every sorted name is one of the collected names, hence bound
            broadcast use vstd::seq_lib::group_to_multiset_ensures;

            assert forall|m: int| 0 <= m < sortedv.len() implies p.1.contains_key(
                #[trigger] sortedv[m],
            ) by {
                assert(sortedv.contains(sortedv[m]));
                assert(sortedv.to_multiset().count(sortedv[m]) > 0);
                assert(p.0.contains(sortedv[m]));
            }
        }
        self.interpreter.update_environment(environment);
        let ghost parser_after = self.parser;

        let mut count: usize = 1;
        let mut k: usize = 0;
        proof {
            lemma2_to64();
        }
        while k < n
            invariant
                k <= n,
                n < 32,
                count == pow2(k as nat),
            decreases n - k,
        {
            proof {
                lemma2_to64();
                if (k as nat) < 30 {
                    lemma_pow2_strictly_increases(k as nat, 30);
                }
                lemma_pow2_unfold((k + 1) as nat);
            }
            count = count * 2;
            k = k + 1;
        }
        proof {
            lemma2_to64();
            if n < 31 {
                lemma_pow2_strictly_increases(n as nat, 31);
            }
        }

        let mut header = clone_names(&sorted);
        header.push(dependent_var.clone());
        proof {
            assert(names_of(header@) =~= sortedv.push(depv));
        }

        let mut rows: Vec<Vec<bool>> = Vec::new();
        let mut t: usize = 0;
        proof {
            assert(rows_of(rows@) =~= Seq::<Seq<bool>>::empty());
            assert(rows_of(rows@) + sp_rows(ev, depv, sortedv, count, 0, p.1) =~= sp_rows(
                ev,
                depv,
                sortedv,
                count,
                0,
                p.1,
            ));
        }
        while t < count
            invariant
                t <= count,
                n == sortedv.len(),
                n < 32,
                names_of(sorted@) == sortedv,
                n == sorted@.len(),
                self.parser == parser_after,
                expr_reads(ev).subset_of(self.interpreter.environment@.dom()),
                rows_of(rows@) + sp_rows(ev, depv, sortedv, count, t, self.interpreter.environment@)
                    == sp_rows(ev, depv, sortedv, count, 0, p.1),
                expr@ == ev,
                dependent_var@ == depv,
            decreases count - t,
        {
            let ghost env_row = self.interpreter.environment@;
            let mut i: usize = 0;
            while i < n
                invariant
                    i <= n,
                    n == sortedv.len(),
                    n < 32,
                    names_of(sorted@) == sortedv,
                    n == sorted@.len(),
                    self.parser == parser_after,
                    sp_bind(sortedv, t, env_row, 0) == sp_bind(
                        sortedv,
                        t,
                        self.interpreter.environment@,
                        i as int,
                    ),
                    env_row.dom().subset_of(self.interpreter.environment@.dom()),
                decreases n - i,
            {
                let var = sorted[n - 1 - i].clone();
                let bit = (t >> i) & 1;
                self.interpreter.environment.assign(var, Literal::Boolean(bit == 1));
                i = i + 1;
            }
            proof {
                lemma_sp_bind_props(sortedv, t, env_row, 0);
                assert(self.interpreter.environment@ == sp_bind(sortedv, t, env_row, 0));
            }
            let ghost bound = self.interpreter.environment@;
            let value = self.interpreter.evaluate(&expr);
            proof {
                lemma_sp_eval_dom(ev, bound);
            }
            self.interpreter.environment.assign(dependent_var.clone(), Literal::Boolean(value));
            let ghost env2 = self.interpreter.environment@;
            proof {
                assert forall|m: int| 0 <= m < n implies env2.dom().contains(
                    #[trigger] sortedv[m],
                ) by {
                    assert(bound.dom().contains(sortedv[m]));
                    assert(sp_eval(ev, bound).1.dom().contains(sortedv[m]));
                }
            }

            let mut new_row: Vec<bool> = Vec::new();
            let mut j: usize = 0;
            while j < n
                invariant
                    j <= n,
                    n == sortedv.len(),
                    names_of(sorted@) == sortedv,
                    n == sorted@.len(),
                    self.parser == parser_after,
                    self.interpreter.environment@ == env2,
                    forall|m: int| 0 <= m < n ==> env2.dom().contains(#[trigger] sortedv[m]),
                    new_row@.len() == j,
                    forall|m: int| 0 <= m < j ==> new_row@[m] == cell(env2, sortedv[m]),
                decreases n - j,
            {
                proof {
                    assert(names_of(sorted@)[j as int] == sorted@[j as int]@);
                    assert(env2.dom().contains(sortedv[j as int]));
                }
                let c = self.interpreter.environment.get(sorted[j].clone());
                new_row.push(c.evaluate());
                j = j + 1;
            }
            new_row.push(value);
            proof {
                assert(new_row@ =~= sp_row(ev, depv, sortedv, t, env_row).0);
            }
            let ghost prev_rows = rows@;
            rows.push(new_row);
            proof {
                assert(rows_of(rows@) =~= rows_of(prev_rows).push(
                    sp_row(ev, depv, sortedv, t, env_row).0,
                ));
                let row0 = sp_row(ev, depv, sortedv, t, env_row).0;
                let rest = sp_rows(ev, depv, sortedv, count, (t + 1) as usize, env2);
                assert(sp_rows(ev, depv, sortedv, count, t, env_row) == seq![row0] + rest);
                assert(rows_of(prev_rows) + (seq![row0] + rest) =~= (rows_of(prev_rows).push(row0))
                    + rest);
            }
            t = t + 1;
        }
        proof {
            assert(rows_of(rows@) + Seq::<Seq<bool>>::empty() =~= rows_of(rows@));
        }
        Ok(TruthTable { header, rows })
    }
}

// --- properties of the table ----------------------------------------------

proof fn lemma_sp_rows_len(
    e: ExprView,
    dep: Seq<char>,
    sorted: Seq<Seq<char>>,
    count: usize,
    t: usize,
    env: Map<Seq<char>, Literal>,
)
    requires
        t <= count,
    ensures
        sp_rows(e, dep, sorted, count, t, env).len() == count - t,
    decreases count - t,
{
    if t < count {
        lemma_sp_rows_len(e, dep, sorted, count, (t + 1) as usize, sp_row(e, dep, sorted, t, env).1);
    }
}

proof fn lemma_push_to_set(s: Seq<Seq<char>>, x: Seq<char>)
    ensures
        s.push(x).to_set() == s.to_set().insert(x),
        s.no_duplicates() && !s.contains(x) ==> s.push(x).no_duplicates(),
{
    assert forall|v: Seq<char>| #[trigger] s.push(x).contains(v) implies s.to_set().insert(
        x,
    ).contains(v) by {
        let i = choose|i: int| 0 <= i < s.push(x).len() && s.push(x)[i] == v;
        if i < s.len() {
            assert(s[i] == v);
        }
    }
    assert forall|v: Seq<char>| #[trigger] s.to_set().insert(x).contains(v) implies s.push(
        x,
    ).contains(v) by {
        if v == x {
            assert(s.push(x)[s.len() as int] == v);
        } else {
            let i = choose|i: int| 0 <= i < s.len() && s[i] == v;
            assert(s.push(x)[i] == v);
        }
    }
    assert(s.push(x).to_set() =~= s.to_set().insert(x));
    if s.no_duplicates() && !s.contains(x) {
        assert forall|i: int, j: int|
            0 <= i < s.push(x).len() && 0 <= j < s.push(x).len() && i != j implies s.push(x)[i]
            != s.push(x)[j] by {
            if j == s.len() && i < s.len() {
                if s.push(x)[i] == x {
                    assert(s[i] == x);
                    assert(s.contains(x));
                }
            }
            if i == s.len() && j < s.len() {
                if s.push(x)[j] == x {
                    assert(s[j] == x);
                    assert(s.contains(x));
                }
            }
        }
    }
}

/// The names analysis collects are exactly the names the expression reads,
/// each listed once.
pub proof fn lemma_sp_analyze_vars(e: ExprView, vars: Seq<Seq<char>>, env: Map<Seq<char>, Literal>)
    ensures
        sp_analyze(e, vars, env).0.to_set() == vars.to_set().union(expr_reads(e)),
        vars.no_duplicates() ==> sp_analyze(e, vars, env).0.no_duplicates(),
    decreases e,
{
    match e {
        ExprView::Grouping(inner) => {
            lemma_sp_analyze_vars(*inner, vars, env);
        },
        ExprView::Binary(l, _, r) => {
            lemma_sp_analyze_vars(*l, vars, env);
            let p = sp_analyze(*l, vars, env);
            lemma_sp_analyze_vars(*r, p.0, p.1);
            assert(vars.to_set().union(expr_reads(*l)).union(expr_reads(*r)) =~= vars.to_set()
                .union(expr_reads(*l).union(expr_reads(*r))));
        },
        ExprView::Unary(_, operand) => {
            lemma_sp_analyze_vars(*operand, vars, env);
        },
        ExprView::Literal(_) => {
            assert(vars.to_set().union(Set::empty()) =~= vars.to_set());
        },
        ExprView::Variable(t) => {
            if vars.contains(t.lexeme) {
                assert(vars.to_set().union(Set::empty().insert(t.lexeme)) =~= vars.to_set());
            } else {
                lemma_push_to_set(vars, t.lexeme);
                assert(vars.to_set().insert(t.lexeme) =~= vars.to_set().union(
                    Set::empty().insert(t.lexeme),
                ));
            }
        },
        ExprView::Assign(_, val) => {
            lemma_sp_analyze_vars(*val, vars, env);
        },
    }
}

/// Law: a statement whose dependent variable is not itself read yields
/// exactly two to the number of distinct variables read rows.
pub proof fn lemma_row_count(name: Seq<char>, value: ExprView)
    requires
        !expr_reads(value).contains(name),
        sp_table(StmtView::Assign { name, value }) is Some,
    ensures
        sp_table(StmtView::Assign { name, value }).unwrap().1.len() == pow2(
            expr_reads(value).len(),
        ),
{
    broadcast use vstd::seq_lib::seq_to_set_is_finite;

    let p = sp_analyze(value, Seq::empty(), Map::empty());
    lemma_sp_analyze_vars(value, Seq::empty(), Map::empty());
    assert(Seq::<Seq<char>>::empty().to_set() =~= Set::<Seq<char>>::empty());
    assert(p.0.to_set() =~= expr_reads(value));
    p.0.unique_seq_to_set();
    assert(expr_reads(value).len() == p.0.len());
    lemma2_to64();
    if p.0.len() < 31 {
        lemma_pow2_strictly_increases(p.0.len() as nat, 31);
    }
    lemma_sp_rows_len(
        value,
        name,
        sp_sort(p.0),
        pow2(p.0.len() as nat) as usize,
        0,
        p.1,
    );
}

/// Law: the header is exactly the lexicographically sorted independent
/// names — none added, none lost — followed by the dependent name.
pub proof fn lemma_header_ordering(name: Seq<char>, value: ExprView)
    requires
        sp_table(StmtView::Assign { name, value }) is Some,
    ensures
        ({
            let p = sp_analyze(value, Seq::empty(), Map::empty());
            let header = sp_table(StmtView::Assign { name, value }).unwrap().0;
            &&& header.last() == name
            &&& header.drop_last() == sp_sort(p.0)
            &&& sorted_names(header.drop_last())
            &&& header.drop_last().to_multiset() == p.0.to_multiset()
        }),
{
    let p = sp_analyze(value, Seq::empty(), Map::empty());
    lemma_sp_sort_sorted(p.0);
    assert(sp_sort(p.0).push(name).drop_last() =~= sp_sort(p.0));
}

/// Law: enumerating the same parsed statement twice, each time from a fresh
/// binding table, yields the same header and the same row sequence.
pub proof fn lemma_enumeration_repeatable(
    stmt: StmtView,
    first: (Seq<Seq<char>>, Seq<Seq<bool>>),
    second: (Seq<Seq<char>>, Seq<Seq<bool>>),
)
    requires
        sp_table(stmt) == Some(first),
        sp_table(stmt) == Some(second),
    ensures
        first == second,
{
}

} // verus!
