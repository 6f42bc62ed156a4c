use vstd::prelude::*;
use crate::token::{Token, TokenView};
use crate::token_type::TokenType;

verus! {

// --- character classes ---------------------------------------------------

pub open spec fn is_whitespace_char(c: char) -> bool {
    c == ' ' || c == '\r' || c == '\t' || c == '\n'
}

pub open spec fn is_digit_char(c: char) -> bool {
    48 <= c as u32 && c as u32 <= 57
}

pub open spec fn is_ascii_letter(c: char) -> bool {
    (65 <= c as u32 && c as u32 <= 90) || (97 <= c as u32 && c as u32 <= 122)
}

/// An identifier begins with an ASCII letter or an underscore.
pub open spec fn is_ident_start_char(c: char) -> bool {
    is_ascii_letter(c) || c == '_'
}

/// Whether a non-ASCII character is alphabetic or numeric under Unicode's
/// classification.
pub uninterp spec fn is_unicode_alphanumeric(c: char) -> bool;

/// An identifier, once begun, runs through the alphanumeric characters: on
/// the ASCII range exactly the letters and the digits, beyond it whatever
/// Unicode classes as alphabetic or numeric.
pub open spec fn is_ident_continue(c: char) -> bool {
    if (c as u32) < 128 {
        is_ascii_letter(c) || is_digit_char(c)
    } else {
        is_unicode_alphanumeric(c)
    }
}

/// Relies on char::is_alphanumeric: true exactly for the characters that are
/// alphabetic or numeric under Unicode, which on the ASCII range are the
/// letters and the digits.
#[verifier::external_body]
fn char_is_alphanumeric(c: char) -> (r: bool)
    ensures
        r == is_ident_continue(c),
        (c as u32) >= 128 ==> r == is_unicode_alphanumeric(c),
{
    c.is_alphanumeric()
}

/// The token kind a single character scans to, if it scans alone.
pub open spec fn single_char_token_type(c: char) -> Option<TokenType> {
    if c == '(' {
        Some(TokenType::LeftParen)
    } else if c == ')' {
        Some(TokenType::RightParen)
    } else if c == '+' || c == '|' {
        Some(TokenType::Or)
    } else if c == '*' || c == '&' {
        Some(TokenType::And)
    } else if c == '\'' {
        Some(TokenType::Not)
    } else if c == '!' {
        Some(TokenType::PreNot)
    } else if c == ';' {
        Some(TokenType::Semicolon)
    } else if c == '=' {
        Some(TokenType::Equals)
    } else {
        None
    }
}

// --- the scanner, as a mathematical function ------------------------------

/// Position right after the run of digits that starts at `i`.
pub open spec fn digits_end(src: Seq<char>, i: int) -> int
    decreases src.len() - i,
{
    if i < 0 || i >= src.len() || !is_digit_char(src[i]) {
        i
    } else {
        digits_end(src, i + 1)
    }
}

/// Position right after the run of alphanumeric characters that starts at `i`.
pub open spec fn ident_end(src: Seq<char>, i: int) -> int
    decreases src.len() - i,
{
    if i < 0 || i >= src.len() || !is_ident_continue(src[i]) {
        i
    } else {
        ident_end(src, i + 1)
    }
}

/// The kind of an identifier-shaped lexeme: the exact texts `true` and
/// `false` are keywords, everything else names a variable.
pub open spec fn keyword_or_identifier(text: Seq<char>) -> TokenType {
    if text == seq!['t', 'r', 'u', 'e'] {
        TokenType::True
    } else if text == seq!['f', 'a', 'l', 's', 'e'] {
        TokenType::False
    } else {
        TokenType::Identifier
    }
}

pub open spec fn token_view(token_type: TokenType, lexeme: Seq<char>) -> TokenView {
    TokenView { token_type, lexeme }
}

/// One scanning step at position `i`: the tokens it emits (none for
/// whitespace and for an unclassifiable character), the position it leaves
/// the scanner at, and how many unclassifiable characters it reported.
pub open spec fn scan_step(src: Seq<char>, i: int) -> (Seq<TokenView>, int, int) {
    let c = src[i];
    match single_char_token_type(c) {
        Some(tt) => (seq![token_view(tt, src.subrange(i, i + 1))], i + 1, 0),
        None => if is_whitespace_char(c) {
            (seq![], i + 1, 0)
        } else if is_digit_char(c) {
            let j = digits_end(src, i + 1);
            (seq![token_view(TokenType::Num, src.subrange(i, j))], j, 0)
        } else if is_ident_start_char(c) {
            let j = ident_end(src, i + 1);
            let text = src.subrange(i, j);
            (seq![token_view(keyword_or_identifier(text), text)], j, 0)
        } else {
            (seq![], i + 1, 1)
        },
    }
}

/// Every token scanned from position `i` on, closed by the end-of-input
/// token with an empty lexeme.
pub open spec fn scan_from(src: Seq<char>, i: int) -> Seq<TokenView>
    decreases src.len() - i,
{
    if !(0 <= i < src.len()) {
        seq![token_view(TokenType::Eof, Seq::empty())]
    } else {
        let step = scan_step(src, i);
        // termination guard: a step always advances (lemma_scan_step_advances)
        let next = if i < step.1 && step.1 <= src.len() { step.1 } else { i + 1 };
        step.0 + scan_from(src, next)
    }
}

/// How many unclassifiable characters lie at or after position `i`.
pub open spec fn unexpected_from(src: Seq<char>, i: int) -> int
    decreases src.len() - i,
{
    if !(0 <= i < src.len()) {
        0
    } else {
        let step = scan_step(src, i);
        let next = if i < step.1 && step.1 <= src.len() { step.1 } else { i + 1 };
        step.2 + unexpected_from(src, next)
    }
}

pub proof fn lemma_digits_end_bounds(src: Seq<char>, i: int)
    requires
        0 <= i <= src.len(),
    ensures
        i <= digits_end(src, i) <= src.len(),
    decreases src.len() - i,
{
    if i < src.len() && is_digit_char(src[i]) {
        lemma_digits_end_bounds(src, i + 1);
    }
}

pub proof fn lemma_ident_end_bounds(src: Seq<char>, i: int)
    requires
        0 <= i <= src.len(),
    ensures
        i <= ident_end(src, i) <= src.len(),
    decreases src.len() - i,
{
    if i < src.len() && is_ident_continue(src[i]) {
        lemma_ident_end_bounds(src, i + 1);
    }
}

/// A scanning step moves strictly forward and never past the end.
pub proof fn lemma_scan_step_advances(src: Seq<char>, i: int)
    requires
        0 <= i < src.len(),
    ensures
        i < scan_step(src, i).1 <= src.len(),
{
    lemma_digits_end_bounds(src, i + 1);
    lemma_ident_end_bounds(src, i + 1);
}

pub open spec fn token_views(ts: Seq<Token>) -> Seq<TokenView> {
    ts.map_values(|t: Token| t@)
}

// --- the scanner ----------------------------------------------------------

/// Scans one line of source text into tokens.
pub struct Lexer {
    pub input: String,
    pub nchars: usize,
    pub start: usize,
    pub current: usize,
    pub tokens: Vec<Token>,
    /// How many characters the scanner could not classify. Each one is worth
    /// a diagnostic to the user; none aborts scanning or emits a token.
    pub unexpected: usize,
}

impl Lexer {
    pub open spec fn src(&self) -> Seq<char> {
        self.input@
    }

    pub open spec fn pos(&self) -> int {
        self.current as int
    }

    pub open spec fn start_pos(&self) -> int {
        self.start as int
    }

    pub open spec fn toks(&self) -> Seq<TokenView> {
        token_views(self.tokens@)
    }

    pub open spec fn wf(&self) -> bool {
        &&& self.nchars == self.input@.len()
        &&& self.start <= self.current
        &&& self.current <= self.nchars
        &&& self.unexpected <= self.current
    }

    pub fn new(input: String) -> (r: Self)
        ensures
            r.wf(),
            r.src() == input@,
            r.pos() == 0,
            r.start_pos() == 0,
            r.toks() == Seq::<TokenView>::empty(),
            r.unexpected == 0,
    {
        let nchars = input.as_str().unicode_len();
        let r = Lexer { input, nchars, start: 0, current: 0, tokens: Vec::new(), unexpected: 0 };
        proof {
            assert(r.toks() =~= Seq::<TokenView>::empty());
        }
        r
    }

    fn is_done(&self) -> (r: bool)
        requires
            self.wf(),
        ensures
            r == (self.pos() >= self.src().len()),
    {
        self.current >= self.nchars
    }

    fn advance(&mut self) -> (c: char)
        requires
            old(self).wf(),
            old(self).pos() < old(self).src().len(),
        ensures
            final(self).wf(),
            c == old(self).src()[old(self).pos()],
            final(self).pos() == old(self).pos() + 1,
            final(self).src() == old(self).src(),
            final(self).start_pos() == old(self).start_pos(),
            final(self).toks() == old(self).toks(),
            final(self).unexpected == old(self).unexpected,
    {
        let c = self.input.as_str().get_char(self.current);
        self.current = self.current + 1;
        c
    }

    fn peek(&self) -> (c: char)
        requires
            self.wf(),
        ensures
            c == if self.pos() < self.src().len() {
                self.src()[self.pos()]
            } else {
                '\0'
            },
    {
        if self.is_done() {
            return '\0';
        }
        self.input.as_str().get_char(self.current)
    }

    /// Append a ready-made token.
    pub fn add_token(&mut self, token: Token)
        ensures
            final(self).toks() == old(self).toks().push(token@),
            final(self).wf() == old(self).wf(),
            final(self).src() == old(self).src(),
            final(self).pos() == old(self).pos(),
            final(self).start_pos() == old(self).start_pos(),
            final(self).unexpected == old(self).unexpected,
    {
        let ghost t = token@;
        self.tokens.push(token);
        proof {
            assert(self.toks() =~= old(self).toks().push(t));
        }
    }

    /// Append a token of the given kind whose lexeme is the text between the
    /// current token start and the scanning position.
    pub fn add_token_by_type(&mut self, token_type: TokenType)
        requires
            old(self).wf(),
        ensures
            final(self).wf(),
            final(self).toks() == old(self).toks().push(
                token_view(
                    token_type,
                    old(self).src().subrange(old(self).start_pos(), old(self).pos()),
                ),
            ),
            final(self).src() == old(self).src(),
            final(self).pos() == old(self).pos(),
            final(self).start_pos() == old(self).start_pos(),
            final(self).unexpected == old(self).unexpected,
    {
        let text = self.input.as_str().substring_char(self.start, self.current).to_owned();
        let token = Token::new(token_type, text);
        self.add_token(token);
    }

    /// Scan the run of digits begun just before the current position into a
    /// number token.
    fn number(&mut self)
        requires
            old(self).wf(),
        ensures
            final(self).wf(),
            final(self).src() == old(self).src(),
            final(self).pos() == digits_end(old(self).src(), old(self).pos()),
            final(self).start_pos() == old(self).start_pos(),
            final(self).toks() == old(self).toks().push(
                token_view(
                    TokenType::Num,
                    old(self).src().subrange(
                        old(self).start_pos(),
                        digits_end(old(self).src(), old(self).pos()),
                    ),
                ),
            ),
            final(self).unexpected == old(self).unexpected,
    {
        loop
            invariant
                self.wf(),
                self.src() == old(self).src(),
                self.start_pos() == old(self).start_pos(),
                self.toks() == old(self).toks(),
                self.unexpected == old(self).unexpected,
                old(self).pos() <= self.pos(),
                digits_end(self.src(), self.pos()) == digits_end(old(self).src(), old(self).pos()),
            ensures
                self.wf(),
                self.src() == old(self).src(),
                self.start_pos() == old(self).start_pos(),
                self.toks() == old(self).toks(),
                self.unexpected == old(self).unexpected,
                self.pos() == digits_end(old(self).src(), old(self).pos()),
            decreases self.src().len() - self.pos(),
        {
            let c = self.peek();
            let u = c as u32;
            if self.is_done() || !(48 <= u && u <= 57) {
                break;
            }
            let _ = self.advance();
        }
        let text = self.input.as_str().substring_char(self.start, self.current).to_owned();
        self.add_token(Token::new(TokenType::Num, text));
    }

    /// Scan the identifier begun just before the current position; the texts
    /// `true` and `false` become keyword tokens instead.
    fn identifier(&mut self)
        requires
            old(self).wf(),
        ensures
            final(self).wf(),
            final(self).src() == old(self).src(),
            final(self).pos() == ident_end(old(self).src(), old(self).pos()),
            final(self).start_pos() == old(self).start_pos(),
            final(self).toks() == ({
                let text = old(self).src().subrange(
                    old(self).start_pos(),
                    ident_end(old(self).src(), old(self).pos()),
                );
                old(self).toks().push(token_view(keyword_or_identifier(text), text))
            }),
            final(self).unexpected == old(self).unexpected,
    {
        loop
            invariant
                self.wf(),
                self.src() == old(self).src(),
                self.start_pos() == old(self).start_pos(),
                self.toks() == old(self).toks(),
                self.unexpected == old(self).unexpected,
                old(self).pos() <= self.pos(),
                ident_end(self.src(), self.pos()) == ident_end(old(self).src(), old(self).pos()),
            ensures
                self.wf(),
                self.src() == old(self).src(),
                self.start_pos() == old(self).start_pos(),
                self.toks() == old(self).toks(),
                self.unexpected == old(self).unexpected,
                self.pos() == ident_end(old(self).src(), old(self).pos()),
            decreases self.src().len() - self.pos(),
        {
            if self.is_done() {
                break;
            }
            let c = self.peek();
            if !char_is_alphanumeric(c) {
                break;
            }
            let _ = self.advance();
        }
        let text = self.input.as_str().substring_char(self.start, self.current).to_owned();
        let kw_true: String = "true".to_owned();
        let kw_false: String = "false".to_owned();
        proof {
            reveal_strlit("true");
            reveal_strlit("false");
            assert("true"@ =~= seq!['t', 'r', 'u', 'e']);
            assert("false"@ =~= seq!['f', 'a', 'l', 's', 'e']);
        }
        if text == kw_true {
            self.add_token(Token::new(TokenType::True, text));
        } else if text == kw_false {
            self.add_token(Token::new(TokenType::False, text));
        } else {
            self.add_token(Token::new(TokenType::Identifier, text));
        }
    }

    /// Scan the single token (or whitespace, or unclassifiable character) at
    /// the current position.
    pub fn scan_token(&mut self)
        requires
            old(self).wf(),
            old(self).start_pos() == old(self).pos(),
            old(self).pos() < old(self).src().len(),
        ensures
            final(self).wf(),
            final(self).src() == old(self).src(),
            final(self).toks() == old(self).toks() + scan_step(old(self).src(), old(self).pos()).0,
            final(self).pos() == scan_step(old(self).src(), old(self).pos()).1,
            final(self).unexpected == old(self).unexpected + scan_step(
                old(self).src(),
                old(self).pos(),
            ).2,
    {
        proof {
            lemma_scan_step_advances(old(self).src(), old(self).pos());
        }
        let c = self.advance();
        let u = c as u32;
        if c == '(' {
            self.add_token_by_type(TokenType::LeftParen);
        } else if c == ')' {
            self.add_token_by_type(TokenType::RightParen);
        } else if c == '+' || c == '|' {
            self.add_token_by_type(TokenType::Or);
        } else if c == '*' || c == '&' {
            self.add_token_by_type(TokenType::And);
        } else if c == '\'' {
            self.add_token_by_type(TokenType::Not);
        } else if c == '!' {
            self.add_token_by_type(TokenType::PreNot);
        } else if c == ';' {
            self.add_token_by_type(TokenType::Semicolon);
        } else if c == '=' {
            self.add_token_by_type(TokenType::Equals);
        } else if c == ' ' || c == '\r' || c == '\t' || c == '\n' {
        } else if 48 <= u && u <= 57 {
            self.number();
        } else if (65 <= u && u <= 90) || (97 <= u && u <= 122) || c == '_' {
            self.identifier();
        } else {
            self.unexpected = self.unexpected + 1;
        }
        proof {
            assert(self.toks() =~= old(self).toks() + scan_step(
                old(self).src(),
                old(self).pos(),
            ).0);
        }
    }

    /// Scan the whole remaining input, and close the token list with the
    /// end-of-input token.
    pub fn scan_tokens(&mut self) -> (r: &Vec<Token>)
        requires
            old(self).wf(),
        ensures
            final(self).wf(),
            final(self).src() == old(self).src(),
            final(self).toks() == old(self).toks() + scan_from(old(self).src(), old(self).pos()),
            final(self).unexpected == old(self).unexpected + unexpected_from(
                old(self).src(),
                old(self).pos(),
            ),
            token_views(r@) == final(self).toks(),
    {
        loop
            invariant
                self.wf(),
                self.src() == old(self).src(),
                old(self).toks() + scan_from(old(self).src(), old(self).pos()) == self.toks()
                    + scan_from(self.src(), self.pos()),
                old(self).unexpected + unexpected_from(old(self).src(), old(self).pos())
                    == self.unexpected + unexpected_from(self.src(), self.pos()),
            ensures
                self.wf(),
                self.src() == old(self).src(),
                self.pos() >= self.src().len(),
                old(self).toks() + scan_from(old(self).src(), old(self).pos()) == self.toks()
                    + scan_from(self.src(), self.pos()),
                old(self).unexpected + unexpected_from(old(self).src(), old(self).pos())
                    == self.unexpected + unexpected_from(self.src(), self.pos()),
            decreases self.src().len() - self.pos(),
        {
            if self.is_done() {
                break;
            }
            proof {
                lemma_scan_step_advances(self.src(), self.pos());
            }
            self.start = self.current;
            self.scan_token();
        }
        let eof_text: String = "".to_owned();
        proof {
            reveal_strlit("");
            assert(""@ =~= Seq::<char>::empty());
        }
        self.add_token(Token::new(TokenType::Eof, eof_text));
        proof {
            assert(self.toks() =~= old(self).toks() + scan_from(
                old(self).src(),
                old(self).pos(),
            ));
        }
        &self.tokens
    }
}

} // verus!
