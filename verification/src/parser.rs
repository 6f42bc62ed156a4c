use vstd::prelude::*;
use crate::expr::{Expr, ExprView};
use crate::lexer::{is_digit_char, token_views};
use crate::stmt::{Stmt, StmtView};
use crate::token::{Literal, Token, TokenView};
use crate::token_type::TokenType;

verus! {

// --- number lexemes -------------------------------------------------------

/// The value of a run of decimal digits, most significant first.
pub open spec fn digits_value(s: Seq<char>) -> int
    decreases s.len(),
{
    if s.len() == 0 {
        0
    } else {
        10 * digits_value(s.drop_last()) + (s.last() as u32 - 48)
    }
}

pub open spec fn all_digits(s: Seq<char>) -> bool {
    forall|i: int| 0 <= i < s.len() ==> is_digit_char(#[trigger] s[i])
}

/// A number lexeme the parser can take: a nonempty run of digits whose value
/// fits an unsigned 64-bit integer. The machine width is the one bound the
/// grammar itself does not impose.
pub open spec fn num_lexeme_ok(s: Seq<char>) -> bool {
    &&& s.len() > 0
    &&& all_digits(s)
    &&& digits_value(s) <= u64::MAX
}

pub open spec fn nums_ok(toks: Seq<TokenView>) -> bool {
    forall|i: int|
        0 <= i < toks.len() && (#[trigger] toks[i]).token_type == TokenType::Num
            ==> num_lexeme_ok(toks[i].lexeme)
}

/// A usable token stream ends in the end-of-input token.
pub open spec fn wf_tokens(toks: Seq<TokenView>) -> bool {
    toks.len() >= 1 && toks[toks.len() - 1].token_type == TokenType::Eof
}

/// The token kind at position `i`; end-of-input outside the stream.
pub open spec fn tok_at(toks: Seq<TokenView>, i: int) -> TokenType {
    if 0 <= i < toks.len() {
        toks[i].token_type
    } else {
        TokenType::Eof
    }
}

proof fn lemma_digits_value_nonneg(s: Seq<char>)
    requires
        all_digits(s),
    ensures
        digits_value(s) >= 0,
    decreases s.len(),
{
    if s.len() > 0 {
        assert(is_digit_char(s[s.len() - 1]));
        assert forall|i: int| 0 <= i < s.drop_last().len() implies is_digit_char(
            #[trigger] s.drop_last()[i],
        ) by {
            assert(s.drop_last()[i] == s[i]);
        }
        lemma_digits_value_nonneg(s.drop_last());
    }
}

proof fn lemma_digits_value_take_le(s: Seq<char>, k: int)
    requires
        all_digits(s),
        0 <= k <= s.len(),
    ensures
        digits_value(s.take(k)) <= digits_value(s),
    decreases s.len() - k,
{
    if k == s.len() {
        assert(s.take(k) =~= s);
    } else {
        assert(s.take(k + 1).drop_last() =~= s.take(k));
        assert(s.take(k + 1).last() == s[k]);
        assert(is_digit_char(s[k]));
        assert forall|i: int| 0 <= i < s.take(k).len() implies is_digit_char(
            #[trigger] s.take(k)[i],
        ) by {
            assert(s.take(k)[i] == s[i]);
        }
        lemma_digits_value_nonneg(s.take(k));
        lemma_digits_value_take_le(s, k + 1);
    }
}

/// Read the value of a digit run.
fn parse_digits(s: &String) -> (r: u64)
    requires
        num_lexeme_ok(s@),
    ensures
        r as int == digits_value(s@),
{
    let n = s.as_str().unicode_len();
    let mut i: usize = 0;
    let mut v: u64 = 0;
    while i < n
        invariant
            i <= n,
            n == s@.len(),
            num_lexeme_ok(s@),
            v as int == digits_value(s@.take(i as int)),
        decreases n - i,
    {
        proof {
            lemma_digits_value_take_le(s@, i + 1);
            assert(s@.take(i + 1).drop_last() =~= s@.take(i as int));
            assert(s@.take(i + 1).last() == s@[i as int]);
        }
        let c = s.as_str().get_char(i);
        let d = (c as u32) - 48;
        v = v * 10 + (d as u64);
        i = i + 1;
    }
    proof {
        assert(s@.take(n as int) =~= s@);
    }
    v
}

// --- the grammar, as a mathematical function ------------------------------
//
// Each function takes the token stream and a position, and yields the parsed
// node together with the position right after it, or the exact diagnostic
// the parser reports where the grammar does not match. Precedence, low to
// high: Or, And, prefix not; postfix not binds to the preceding primary.
// `=` inside an expression is right-associative and demands a bare variable
// on its left.

pub open spec fn sp_primary(toks: Seq<TokenView>, i: int) -> Result<(ExprView, int), Seq<char>>
    decreases toks.len() - i, 1int,
{
    if !(0 <= i < toks.len()) {
        Err("Expect expression."@)
    } else {
        let t = toks[i];
        if t.token_type == TokenType::False {
            Ok((ExprView::Literal(Literal::Boolean(false)), i + 1))
        } else if t.token_type == TokenType::True {
            Ok((ExprView::Literal(Literal::Boolean(true)), i + 1))
        } else if t.token_type == TokenType::Num {
            Ok((ExprView::Literal(Literal::Number(digits_value(t.lexeme) as u64)), i + 1))
        } else if t.token_type == TokenType::Identifier {
            Ok((ExprView::Variable(t), i + 1))
        } else if t.token_type == TokenType::LeftParen {
            match sp_expression(toks, i + 1) {
                Err(m) => Err(m),
                Ok((e, j)) => if tok_at(toks, j) == TokenType::RightParen {
                    Ok((ExprView::Grouping(Box::new(e)), j + 1))
                } else {
                    Err("Expect ')' after expression."@)
                },
            }
        } else {
            Err("Expect expression."@)
        }
    }
}

/// The chain of postfix negations following an already-parsed operand; it
/// never fails.
pub open spec fn sp_postfix(toks: Seq<TokenView>, i: int, e: ExprView) -> (ExprView, int)
    decreases toks.len() - i,
{
    if 0 <= i < toks.len() && toks[i].token_type == TokenType::Not {
        sp_postfix(toks, i + 1, ExprView::Unary(toks[i], Box::new(e)))
    } else {
        (e, i)
    }
}

pub open spec fn sp_unary(toks: Seq<TokenView>, i: int) -> Result<(ExprView, int), Seq<char>>
    decreases toks.len() - i, 2int,
{
    if 0 <= i < toks.len() && toks[i].token_type == TokenType::PreNot {
        match sp_unary(toks, i + 1) {
            Err(m) => Err(m),
            Ok((e, j)) => Ok((ExprView::Unary(toks[i], Box::new(e)), j)),
        }
    } else {
        match sp_primary(toks, i) {
            Err(m) => Err(m),
            Ok((e, j)) => Ok(sp_postfix(toks, j, e)),
        }
    }
}

pub open spec fn sp_factor_rest(toks: Seq<TokenView>, i: int, e: ExprView) -> Result<
    (ExprView, int),
    Seq<char>,
>
    decreases toks.len() - i, 0int,
{
    if 0 <= i < toks.len() && toks[i].token_type == TokenType::And {
        match sp_unary(toks, i + 1) {
            Err(m) => Err(m),
            Ok((r, k)) => if i < k && k <= toks.len() {
                sp_factor_rest(toks, k, ExprView::Binary(Box::new(e), toks[i], Box::new(r)))
            } else {
                // never taken: a parsed node always advances
                Err("Expect expression."@)
            },
        }
    } else {
        Ok((e, i))
    }
}

pub open spec fn sp_factor(toks: Seq<TokenView>, i: int) -> Result<(ExprView, int), Seq<char>>
    decreases toks.len() - i, 3int,
{
    match sp_unary(toks, i) {
        Err(m) => Err(m),
        Ok((e, j)) => if i <= j && j <= toks.len() {
            sp_factor_rest(toks, j, e)
        } else {
            // never taken: a parsed node always advances
            Err("Expect expression."@)
        },
    }
}

pub open spec fn sp_term_rest(toks: Seq<TokenView>, i: int, e: ExprView) -> Result<
    (ExprView, int),
    Seq<char>,
>
    decreases toks.len() - i, 0int,
{
    if 0 <= i < toks.len() && toks[i].token_type == TokenType::Or {
        match sp_factor(toks, i + 1) {
            Err(m) => Err(m),
            Ok((r, k)) => if i < k && k <= toks.len() {
                sp_term_rest(toks, k, ExprView::Binary(Box::new(e), toks[i], Box::new(r)))
            } else {
                // never taken: a parsed node always advances
                Err("Expect expression."@)
            },
        }
    } else {
        Ok((e, i))
    }
}

pub open spec fn sp_term(toks: Seq<TokenView>, i: int) -> Result<(ExprView, int), Seq<char>>
    decreases toks.len() - i, 4int,
{
    match sp_factor(toks, i) {
        Err(m) => Err(m),
        Ok((e, j)) => if i <= j && j <= toks.len() {
            sp_term_rest(toks, j, e)
        } else {
            // never taken: a parsed node always advances
            Err("Expect expression."@)
        },
    }
}

pub open spec fn sp_assignment(toks: Seq<TokenView>, i: int) -> Result<(ExprView, int), Seq<char>>
    decreases toks.len() - i, 5int,
{
    match sp_term(toks, i) {
        Err(m) => Err(m),
        Ok((e, j)) => if 0 <= j < toks.len() && toks[j].token_type == TokenType::Equals {
            if i <= j {
                match sp_assignment(toks, j + 1) {
                    Err(m) => Err(m),
                    Ok((v, k)) => match e {
                        ExprView::Variable(name) => Ok((ExprView::Assign(name, Box::new(v)), k)),
                        _ => Err("Invalid assignment target."@),
                    },
                }
            } else {
                // never taken: a parsed term always advances
                Err("Invalid assignment target."@)
            }
        } else {
            Ok((e, j))
        },
    }
}

pub open spec fn sp_expression(toks: Seq<TokenView>, i: int) -> Result<(ExprView, int), Seq<char>>
    decreases toks.len() - i, 6int,
{
    sp_assignment(toks, i)
}

pub open spec fn sp_assign_statement(toks: Seq<TokenView>, i: int) -> Result<
    (StmtView, int),
    Seq<char>,
> {
    match sp_expression(toks, i + 2) {
        Err(_) => Err("Expect value."@),
        Ok((v, k)) => if tok_at(toks, k) == TokenType::Semicolon {
            Ok((StmtView::Assign { name: toks[i].lexeme, value: v }, k + 1))
        } else {
            Err("Expect ';' after value."@)
        },
    }
}

pub open spec fn sp_expression_statement(toks: Seq<TokenView>, i: int) -> Result<
    (StmtView, int),
    Seq<char>,
> {
    match sp_expression(toks, i) {
        Err(m) => Err(m),
        Ok((e, j)) => if tok_at(toks, j) == TokenType::Semicolon {
            Ok((StmtView::Expression { value: e }, j + 1))
        } else {
            Err("Expect ';' after expression."@)
        },
    }
}

/// One statement: `name = expression ;` exactly when the next two tokens are
/// an identifier and `=`, else a bare `expression ;`. An assignment
/// statement swallows its expression's own diagnostic.
pub open spec fn sp_statement(toks: Seq<TokenView>, i: int) -> Result<(StmtView, int), Seq<char>> {
    if tok_at(toks, i) == TokenType::Identifier && tok_at(toks, i + 1) == TokenType::Equals {
        sp_assign_statement(toks, i)
    } else {
        sp_expression_statement(toks, i)
    }
}

/// Every statement up to the end-of-input token.
pub open spec fn sp_parse(toks: Seq<TokenView>, i: int) -> Result<Seq<StmtView>, Seq<char>>
    decreases toks.len() - i,
{
    if tok_at(toks, i) == TokenType::Eof {
        Ok(Seq::empty())
    } else {
        match sp_statement(toks, i) {
            Err(m) => Err(m),
            Ok((s, j)) => if i < j && j <= toks.len() {
                match sp_parse(toks, j) {
                    Err(m) => Err(m),
                    Ok(rest) => Ok(seq![s] + rest),
                }
            } else {
                // never taken: a parsed statement always advances
                Err("Expect expression."@)
            },
        }
    }
}

pub open spec fn stmt_views(ss: Seq<Stmt>) -> Seq<StmtView> {
    ss.map_values(|s: Stmt| s@)
}

// --- the parser -----------------------------------------------------------

/// Recursive-descent parser over a scanned token stream.
pub struct Parser {
    pub tokens: Vec<Token>,
    pub current: usize,
}

impl Parser {
    pub open spec fn toks(&self) -> Seq<TokenView> {
        token_views(self.tokens@)
    }

    pub open spec fn wf(&self) -> bool {
        &&& wf_tokens(self.toks())
        &&& self.current < self.toks().len()
    }

    pub fn new(tokens: Vec<Token>) -> (r: Parser)
        ensures
            r.toks() == token_views(tokens@),
            r.current == 0,
    {
        Parser { tokens, current: 0 }
    }

    fn peek(&self) -> (r: Token)
        requires
            self.wf(),
        ensures
            r@ == self.toks()[self.current as int],
    {
        self.tokens[self.current].clone()
    }

    fn previous(&self) -> (r: Token)
        requires
            self.wf(),
            self.current >= 1,
        ensures
            r@ == self.toks()[self.current - 1],
    {
        self.tokens[self.current - 1].clone()
    }

    fn is_at_end(&self) -> (r: bool)
        requires
            self.wf(),
        ensures
            r == (tok_at(self.toks(), self.current as int) == TokenType::Eof),
    {
        self.peek().token_type == TokenType::Eof
    }

    fn check(&self, token_type: TokenType) -> (r: bool)
        requires
            self.wf(),
        ensures
            r == (tok_at(self.toks(), self.current as int) == token_type && token_type
                != TokenType::Eof),
    {
        if self.is_at_end() {
            return false;
        }
        self.peek().token_type == token_type
    }

    fn check_next(&self, token_type: TokenType) -> (r: bool)
        requires
            self.wf(),
        ensures
            r == (tok_at(self.toks(), self.current as int) != TokenType::Eof && tok_at(
                self.toks(),
                self.current + 1,
            ) == token_type),
    {
        if self.is_at_end() {
            return false;
        }
        self.peek_next().token_type == token_type
    }

    fn peek_next(&self) -> (r: Token)
        requires
            self.wf(),
            tok_at(self.toks(), self.current as int) != TokenType::Eof,
        ensures
            r@ == self.toks()[self.current + 1],
    {
        let n = self.tokens.len();
        proof {
            assert(self.toks()[n - 1].token_type == TokenType::Eof);
        }
        self.tokens[self.current + 1].clone()
    }

    fn advance(&mut self) -> (r: Token)
        requires
            old(self).wf(),
            tok_at(old(self).toks(), old(self).current as int) != TokenType::Eof,
        ensures
            final(self).wf(),
            final(self).toks() == old(self).toks(),
            final(self).current == old(self).current + 1,
            r@ == old(self).toks()[old(self).current as int],
    {
        let n = self.tokens.len();
        proof {
            assert(self.toks()[n - 1].token_type == TokenType::Eof);
        }
        if !self.is_at_end() {
            self.current = self.current + 1;
        }
        self.previous()
    }

    fn match_token(&mut self, token_type: Vec<TokenType>) -> (r: bool)
        requires
            old(self).wf(),
        ensures
            final(self).wf(),
            final(self).toks() == old(self).toks(),
            r == (tok_at(old(self).toks(), old(self).current as int) != TokenType::Eof
                && token_type@.contains(tok_at(old(self).toks(), old(self).current as int))),
            r ==> final(self).current == old(self).current + 1,
            !r ==> final(self).current == old(self).current,
    {
        let n = token_type.len();
        let mut k: usize = 0;
        while k < n
            invariant
                k <= n,
                n == token_type@.len(),
                self.wf(),
                self.toks() == old(self).toks(),
                self.current == old(self).current,
                forall|m: int|
                    0 <= m < k ==> !(tok_at(old(self).toks(), old(self).current as int)
                        != TokenType::Eof && #[trigger] token_type@[m] == tok_at(
                        old(self).toks(),
                        old(self).current as int,
                    )),
            decreases n - k,
        {
            if self.check(token_type[k]) {
                let _ = self.advance();
                return true;
            }
            k = k + 1;
        }
        false
    }

    fn consume(&mut self, token_type: TokenType, message: &'static str) -> (r: Result<
        Token,
        &'static str,
    >)
        requires
            old(self).wf(),
        ensures
            final(self).wf(),
            final(self).toks() == old(self).toks(),
            (tok_at(old(self).toks(), old(self).current as int) == token_type && token_type
                != TokenType::Eof) ==> (r is Ok && final(self).current == old(self).current + 1),
            !(tok_at(old(self).toks(), old(self).current as int) == token_type && token_type
                != TokenType::Eof) ==> ((r matches Err(m) && m@ == message@) && *final(self)
                == *old(self)),
    {
        if !self.check(token_type) {
            return Err(message);
        }
        Ok(self.advance())
    }

    fn primary(&mut self) -> (r: Result<Expr, &'static str>)
        requires
            old(self).wf(),
            nums_ok(old(self).toks()),
        ensures
            final(self).wf(),
            final(self).toks() == old(self).toks(),
            match sp_primary(old(self).toks(), old(self).current as int) {
                Ok(p) => r matches Ok(e) && e@ == p.0 && final(self).current == p.1,
                Err(msg) => r matches Err(m) && m@ == msg,
            },
            r is Ok ==> old(self).current < final(self).current,
            ({
                let tt = tok_at(old(self).toks(), old(self).current as int);
                tt != TokenType::False && tt != TokenType::True && tt != TokenType::Num && tt
                    != TokenType::Identifier && tt != TokenType::LeftParen
            }) ==> final(self).current == old(self).current,
        decreases self.toks().len() - self.current, 1int,
    {
        if self.match_token(vec![TokenType::False]) {
            return Ok(Expr::Literal(Literal::Boolean(false)));
        }
        if self.match_token(vec![TokenType::True]) {
            return Ok(Expr::Literal(Literal::Boolean(true)));
        }
        if self.match_token(vec![TokenType::Num]) {
            let t = self.previous();
            proof {
                lemma_digits_value_nonneg(t.lexeme@);
            }
            let value = parse_digits(&t.lexeme);
            return Ok(Expr::Literal(Literal::Number(value)));
        }
        if self.match_token(vec![TokenType::Identifier]) {
            return Ok(Expr::Variable(self.previous()));
        }
        if self.match_token(vec![TokenType::LeftParen]) {
            let expr = match self.expression() {
                Ok(e) => e,
                Err(m) => {
                    return Err(m);
                },
            };
            match self.consume(TokenType::RightParen, "Expect ')' after expression.") {
                Ok(_) => {},
                Err(m) => {
                    return Err(m);
                },
            }
            return Ok(Expr::Grouping(Box::new(expr)));
        }
        Err("Expect expression.")
    }

    fn unary(&mut self) -> (r: Result<Expr, &'static str>)
        requires
            old(self).wf(),
            nums_ok(old(self).toks()),
        ensures
            final(self).wf(),
            final(self).toks() == old(self).toks(),
            match sp_unary(old(self).toks(), old(self).current as int) {
                Ok(p) => r matches Ok(e) && e@ == p.0 && final(self).current == p.1,
                Err(msg) => r matches Err(m) && m@ == msg,
            },
            r is Ok ==> old(self).current < final(self).current,
        decreases self.toks().len() - self.current, 2int,
    {
        if self.check(TokenType::PreNot) {
            let operator = self.advance();
            let right = match self.unary() {
                Ok(e) => e,
                Err(m) => {
                    return Err(m);
                },
            };
            return Ok(Expr::Unary(operator, Box::new(right)));
        }
        let mut expr = match self.primary() {
            Ok(e) => e,
            Err(m) => {
                return Err(m);
            },
        };
        loop
            invariant
                self.wf(),
                self.toks() == old(self).toks(),
                old(self).current < self.current,
                sp_unary(old(self).toks(), old(self).current as int) == Ok::<_, Seq<char>>(
                    sp_postfix(old(self).toks(), self.current as int, expr@),
                ),
            ensures
                self.wf(),
                self.toks() == old(self).toks(),
                old(self).current < self.current,
                sp_unary(old(self).toks(), old(self).current as int) == Ok::<_, Seq<char>>(
                    (expr@, self.current as int),
                ),
            decreases self.toks().len() - self.current,
        {
            if self.match_token(vec![TokenType::Not]) {
                let operator = self.previous();
                expr = Expr::Unary(operator, Box::new(expr));
            } else {
                break;
            }
        }
        Ok(expr)
    }

    fn factor(&mut self) -> (r: Result<Expr, &'static str>)
        requires
            old(self).wf(),
            nums_ok(old(self).toks()),
        ensures
            final(self).wf(),
            final(self).toks() == old(self).toks(),
            match sp_factor(old(self).toks(), old(self).current as int) {
                Ok(p) => r matches Ok(e) && e@ == p.0 && final(self).current == p.1,
                Err(msg) => r matches Err(m) && m@ == msg,
            },
            r is Ok ==> old(self).current < final(self).current,
        decreases self.toks().len() - self.current, 3int,
    {
        let mut expr = match self.unary() {
            Ok(e) => e,
            Err(m) => {
                return Err(m);
            },
        };
        loop
            invariant
                self.wf(),
                nums_ok(self.toks()),
                self.toks() == old(self).toks(),
                old(self).current < self.current,
                sp_factor(old(self).toks(), old(self).current as int) == sp_factor_rest(
                    old(self).toks(),
                    self.current as int,
                    expr@,
                ),
            ensures
                self.wf(),
                self.toks() == old(self).toks(),
                old(self).current < self.current,
                sp_factor(old(self).toks(), old(self).current as int) == Ok::<_, Seq<char>>(
                    (expr@, self.current as int),
                ),
            decreases self.toks().len() - self.current,
        {
            if self.match_token(vec![TokenType::And]) {
                let operator = self.previous();
                let right = match self.unary() {
                    Ok(e) => e,
                    Err(m) => {
                        return Err(m);
                    },
                };
                expr = Expr::Binary(Box::new(expr), operator, Box::new(right));
            } else {
                break;
            }
        }
        Ok(expr)
    }

    fn term(&mut self) -> (r: Result<Expr, &'static str>)
        requires
            old(self).wf(),
            nums_ok(old(self).toks()),
        ensures
            final(self).wf(),
            final(self).toks() == old(self).toks(),
            match sp_term(old(self).toks(), old(self).current as int) {
                Ok(p) => r matches Ok(e) && e@ == p.0 && final(self).current == p.1,
                Err(msg) => r matches Err(m) && m@ == msg,
            },
            r is Ok ==> old(self).current < final(self).current,
        decreases self.toks().len() - self.current, 4int,
    {
        let mut expr = match self.factor() {
            Ok(e) => e,
            Err(m) => {
                return Err(m);
            },
        };
        loop
            invariant
                self.wf(),
                nums_ok(self.toks()),
                self.toks() == old(self).toks(),
                old(self).current < self.current,
                sp_term(old(self).toks(), old(self).current as int) == sp_term_rest(
                    old(self).toks(),
                    self.current as int,
                    expr@,
                ),
            ensures
                self.wf(),
                self.toks() == old(self).toks(),
                old(self).current < self.current,
                sp_term(old(self).toks(), old(self).current as int) == Ok::<_, Seq<char>>(
                    (expr@, self.current as int),
                ),
            decreases self.toks().len() - self.current,
        {
            if self.match_token(vec![TokenType::Or]) {
                let operator = self.previous();
                let right = match self.factor() {
                    Ok(e) => e,
                    Err(m) => {
                        return Err(m);
                    },
                };
                expr = Expr::Binary(Box::new(expr), operator, Box::new(right));
            } else {
                break;
            }
        }
        Ok(expr)
    }

    fn assignment(&mut self) -> (r: Result<Expr, &'static str>)
        requires
            old(self).wf(),
            nums_ok(old(self).toks()),
        ensures
            final(self).wf(),
            final(self).toks() == old(self).toks(),
            match sp_assignment(old(self).toks(), old(self).current as int) {
                Ok(p) => r matches Ok(e) && e@ == p.0 && final(self).current == p.1,
                Err(msg) => r matches Err(m) && m@ == msg,
            },
            r is Ok ==> old(self).current < final(self).current,
        decreases self.toks().len() - self.current, 5int,
    {
        let expr = match self.term() {
            Ok(e) => e,
            Err(m) => {
                return Err(m);
            },
        };
        if self.match_token(vec![TokenType::Equals]) {
            let value = match self.assignment() {
                Ok(v) => v,
                Err(m) => {
                    return Err(m);
                },
            };
            match expr {
                Expr::Variable(name) => {
                    return Ok(Expr::Assign(name, Box::new(value)));
                },
                _ => {
                    return Err("Invalid assignment target.");
                },
            }
        }
        Ok(expr)
    }

    fn expression(&mut self) -> (r: Result<Expr, &'static str>)
        requires
            old(self).wf(),
            nums_ok(old(self).toks()),
        ensures
            final(self).wf(),
            final(self).toks() == old(self).toks(),
            match sp_expression(old(self).toks(), old(self).current as int) {
                Ok(p) => r matches Ok(e) && e@ == p.0 && final(self).current == p.1,
                Err(msg) => r matches Err(m) && m@ == msg,
            },
            r is Ok ==> old(self).current < final(self).current,
        decreases self.toks().len() - self.current, 6int,
    {
        self.assignment()
    }

    fn assign_statement(&mut self) -> (r: Result<Stmt, &'static str>)
        requires
            old(self).wf(),
            nums_ok(old(self).toks()),
            tok_at(old(self).toks(), old(self).current as int) == TokenType::Identifier,
            tok_at(old(self).toks(), old(self).current + 1) == TokenType::Equals,
        ensures
            final(self).wf(),
            final(self).toks() == old(self).toks(),
            match sp_assign_statement(old(self).toks(), old(self).current as int) {
                Ok(p) => r matches Ok(s) && s@ == p.0 && final(self).current == p.1,
                Err(msg) => r matches Err(m) && m@ == msg,
            },
            r is Ok ==> old(self).current < final(self).current,
    {
        let name_tok = self.advance();
        let _ = self.advance();
        let name = name_tok.lexeme;
        let value = self.expression();
        let v = match value {
            Ok(v) => v,
            Err(_) => {
                return Err("Expect value.");
            },
        };
        match self.consume(TokenType::Semicolon, "Expect ';' after value.") {
            Ok(_) => {},
            Err(m) => {
                return Err(m);
            },
        }
        Ok(Stmt::Assign { name, value: v })
    }

    fn expression_statement(&mut self) -> (r: Result<Stmt, &'static str>)
        requires
            old(self).wf(),
            nums_ok(old(self).toks()),
        ensures
            final(self).wf(),
            final(self).toks() == old(self).toks(),
            match sp_expression_statement(old(self).toks(), old(self).current as int) {
                Ok(p) => r matches Ok(s) && s@ == p.0 && final(self).current == p.1,
                Err(msg) => r matches Err(m) && m@ == msg,
            },
            r is Ok ==> old(self).current < final(self).current,
    {
        let expr = match self.expression() {
            Ok(e) => e,
            Err(m) => {
                return Err(m);
            },
        };
        match self.consume(TokenType::Semicolon, "Expect ';' after expression.") {
            Ok(_) => {},
            Err(m) => {
                return Err(m);
            },
        }
        Ok(Stmt::Expression { value: expr })
    }

    fn statement(&mut self) -> (r: Result<Stmt, &'static str>)
        requires
            old(self).wf(),
            nums_ok(old(self).toks()),
        ensures
            final(self).wf(),
            final(self).toks() == old(self).toks(),
            match sp_statement(old(self).toks(), old(self).current as int) {
                Ok(p) => r matches Ok(s) && s@ == p.0 && final(self).current == p.1,
                Err(msg) => r matches Err(m) && m@ == msg,
            },
            r is Ok ==> old(self).current < final(self).current,
    {
        if self.check(TokenType::Identifier) && self.check_next(TokenType::Equals) {
            return self.assign_statement();
        }
        self.expression_statement()
    }

    /// Parse every statement in the token stream.
    #[verifier::rlimit(60)]
    pub fn parse(&mut self) -> (r: Result<Vec<Stmt>, &'static str>)
        requires
            old(self).wf(),
            nums_ok(old(self).toks()),
        ensures
            final(self).toks() == old(self).toks(),
            match sp_parse(old(self).toks(), old(self).current as int) {
                Ok(ss) => r matches Ok(v) && stmt_views(v@) == ss,
                Err(msg) => r matches Err(m) && m@ == msg,
            },
    {
        let mut statements: Vec<Stmt> = Vec::new();
        proof {
            assert(stmt_views(statements@) =~= Seq::<StmtView>::empty());
        }
        loop
            invariant
                self.wf(),
                nums_ok(self.toks()),
                self.toks() == old(self).toks(),
                ({
                    let whole = sp_parse(old(self).toks(), old(self).current as int);
                    match sp_parse(old(self).toks(), self.current as int) {
                        Ok(rest) => whole == Ok::<_, Seq<char>>(stmt_views(statements@) + rest),
                        Err(m) => whole == Err::<Seq<StmtView>, _>(m),
                    }
                }),
            ensures
                self.wf(),
                self.toks() == old(self).toks(),
                tok_at(self.toks(), self.current as int) == TokenType::Eof,
                ({
                    let whole = sp_parse(old(self).toks(), old(self).current as int);
                    match sp_parse(old(self).toks(), self.current as int) {
                        Ok(rest) => whole == Ok::<_, Seq<char>>(stmt_views(statements@) + rest),
                        Err(m) => whole == Err::<Seq<StmtView>, _>(m),
                    }
                }),
            decreases self.toks().len() - self.current,
        {
            if self.is_at_end() {
                break;
            }
            let ghost prev = statements@;
            let s = match self.statement() {
                Ok(s) => s,
                Err(m) => {
                    return Err(m);
                },
            };
            statements.push(s);
            proof {
                assert(stmt_views(statements@) =~= stmt_views(prev) + seq![statements@.last()@]);
                if let Ok(rest) = sp_parse(old(self).toks(), self.current as int) {
                    assert((stmt_views(prev) + seq![statements@.last()@]) + rest =~= stmt_views(
                        prev,
                    ) + (seq![statements@.last()@] + rest));
                }
            }
        }
        proof {
            assert(stmt_views(statements@) + Seq::<StmtView>::empty() =~= stmt_views(statements@));
        }
        Ok(statements)
    }
}


} // verus!
