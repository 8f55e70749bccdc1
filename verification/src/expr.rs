//! Tokenizer and recursive-descent parser for the arithmetic expressions in which
//! objectives and constraints are written.

use vstd::prelude::*;
use crate::text::{push_char, str_eq, decimal, usize_to_string};

verus! {

/// A lexical token. A number keeps the text of its literal; its value is computed
/// where the expression is evaluated.
#[derive(Debug, Clone, PartialEq)]
pub enum Token {
    Number(String),
    Variable(String),
    Plus,
    Minus,
    Star,
    Slash,
    Caret,
    LParen,
    RParen,
    Comma,
    Func(String),
}

/// The mathematical model of a token.
pub enum SpecToken {
    Number(Seq<char>),
    Variable(Seq<char>),
    Plus,
    Minus,
    Star,
    Slash,
    Caret,
    LParen,
    RParen,
    Comma,
    Func(Seq<char>),
}

impl View for Token {
    type V = SpecToken;

    open spec fn view(&self) -> SpecToken {
        match self {
            Token::Number(s) => SpecToken::Number(s@),
            Token::Variable(s) => SpecToken::Variable(s@),
            Token::Plus => SpecToken::Plus,
            Token::Minus => SpecToken::Minus,
            Token::Star => SpecToken::Star,
            Token::Slash => SpecToken::Slash,
            Token::Caret => SpecToken::Caret,
            Token::LParen => SpecToken::LParen,
            Token::RParen => SpecToken::RParen,
            Token::Comma => SpecToken::Comma,
            Token::Func(s) => SpecToken::Func(s@),
        }
    }
}

/// A blank between tokens.
pub open spec fn is_space(c: char) -> bool {
    c == ' ' || c == '\t' || c == '\n' || c == '\r'
}

/// An ASCII decimal digit.
pub open spec fn is_digit(c: char) -> bool {
    '0' <= c && c <= '9'
}

/// An ASCII letter.
pub open spec fn is_alpha(c: char) -> bool {
    ('a' <= c && c <= 'z') || ('A' <= c && c <= 'Z')
}

/// Characters that make up a numeric literal.
pub open spec fn is_number_char(c: char) -> bool {
    is_digit(c) || c == '.'
}

/// Characters that may start a name.
pub open spec fn is_name_start(c: char) -> bool {
    is_alpha(c) || c == '_'
}

/// Characters that may continue a name.
pub open spec fn is_name_char(c: char) -> bool {
    is_alpha(c) || is_digit(c) || c == '_'
}

fn char_is_space(c: char) -> (r: bool)
    ensures
        r == is_space(c),
{
    c == ' ' || c == '\t' || c == '\n' || c == '\r'
}

fn char_is_number(c: char) -> (r: bool)
    ensures
        r == is_number_char(c),
{
    ('0' <= c && c <= '9') || c == '.'
}

fn char_is_name_start(c: char) -> (r: bool)
    ensures
        r == is_name_start(c),
{
    ('a' <= c && c <= 'z') || ('A' <= c && c <= 'Z') || c == '_'
}

fn char_is_name(c: char) -> (r: bool)
    ensures
        r == is_name_char(c),
{
    ('a' <= c && c <= 'z') || ('A' <= c && c <= 'Z') || ('0' <= c && c <= '9') || c == '_'
}

/// The names of the functions that an expression may call.
pub open spec fn is_allowed_func_name(name: Seq<char>) -> bool {
    ||| name == "sin"@
    ||| name == "cos"@
    ||| name == "tan"@
    ||| name == "exp"@
    ||| name == "log"@
    ||| name == "sqrt"@
    ||| name == "abs"@
    ||| name == "asin"@
    ||| name == "acos"@
    ||| name == "atan"@
    ||| name == "ceil"@
    ||| name == "floor"@
    ||| name == "log2"@
    ||| name == "log10"@
    ||| name == "pow"@
}

/// Whether `name` is one of the functions an expression may call.
pub fn is_allowed_func(name: &str) -> (r: bool)
    ensures
        r == is_allowed_func_name(name@),
{
    str_eq(name, "sin") || str_eq(name, "cos") || str_eq(name, "tan") || str_eq(name, "exp")
        || str_eq(name, "log") || str_eq(name, "sqrt") || str_eq(name, "abs") || str_eq(name, "asin")
        || str_eq(name, "acos") || str_eq(name, "atan") || str_eq(name, "ceil") || str_eq(
        name,
        "floor",
    ) || str_eq(name, "log2") || str_eq(name, "log10") || str_eq(name, "pow")
}

/// A run of digits and dots is a number literal exactly when it holds at least one
/// digit and at most one dot (the grammar of `f64::from_str` on such text).
pub open spec fn is_valid_number_literal(lit: Seq<char>) -> bool {
    &&& exists|k: int| 0 <= k < lit.len() && is_digit(lit[k])
    &&& forall|a: int, b: int| 0 <= a < b < lit.len() && lit[a] == '.' ==> lit[b] != '.'
}

fn valid_number_literal(lit: &str) -> (r: bool)
    ensures
        r == is_valid_number_literal(lit@),
{
    let n = lit.unicode_len();
    let mut has_digit = false;
    let mut seen_dot = false;
    let mut i: usize = 0;
    while i < n
        invariant
            n == lit@.len(),
            i <= n,
            has_digit == (exists|k: int| 0 <= k < i && is_digit(lit@[k])),
            seen_dot == (exists|k: int| 0 <= k < i && lit@[k] == '.'),
            forall|a: int, b: int| 0 <= a < b < i && lit@[a] == '.' ==> lit@[b] != '.',
        decreases n - i,
    {
        let c = lit.get_char(i);
        if c == '.' {
            if seen_dot {
                let ghost a = choose|k: int| 0 <= k < i && lit@[k] == '.';
                assert(!(forall|a: int, b: int|
                    0 <= a < b < lit@.len() && lit@[a] == '.' ==> lit@[b] != '.')) by {
                    assert(0 <= a < i as int && lit@[a] == '.' && lit@[i as int] == '.');
                }
                return false;
            }
            seen_dot = true;
        }
        if '0' <= c && c <= '9' {
            has_digit = true;
        }
        i = i + 1;
    }
    has_digit
}

/// The end of the run of characters satisfying `is_number_char` that starts at `i`.
pub open spec fn number_end(s: Seq<char>, i: int) -> int
    decreases s.len() - i,
{
    if 0 <= i < s.len() && is_number_char(s[i]) {
        number_end(s, i + 1)
    } else {
        i
    }
}

/// The end of the run of characters satisfying `is_name_char` that starts at `i`.
pub open spec fn name_end(s: Seq<char>, i: int) -> int
    decreases s.len() - i,
{
    if 0 <= i < s.len() && is_name_char(s[i]) {
        name_end(s, i + 1)
    } else {
        i
    }
}

/// The run of number characters from `i` ends at or after `i` and within `s`, holds
/// only number characters, and is followed by none.
pub proof fn lemma_number_end(s: Seq<char>, i: int)
    requires
        0 <= i <= s.len(),
    ensures
        i <= number_end(s, i) <= s.len(),
        forall|k: int| i <= k < number_end(s, i) ==> is_number_char(s[k]),
        number_end(s, i) == s.len() || !is_number_char(s[number_end(s, i)]),
    decreases s.len() - i,
{
    if i < s.len() && is_number_char(s[i]) {
        lemma_number_end(s, i + 1);
    }
}

/// The run of name characters from `i` ends at or after `i` and within `s`, holds
/// only name characters, and is followed by none.
pub proof fn lemma_name_end(s: Seq<char>, i: int)
    requires
        0 <= i <= s.len(),
    ensures
        i <= name_end(s, i) <= s.len(),
        forall|k: int| i <= k < name_end(s, i) ==> is_name_char(s[k]),
        name_end(s, i) == s.len() || !is_name_char(s[name_end(s, i)]),
    decreases s.len() - i,
{
    if i < s.len() && is_name_char(s[i]) {
        lemma_name_end(s, i + 1);
    }
}

proof fn lemma_number_end_stable(s: Seq<char>, i: int, j: int)
    requires
        0 <= i <= j <= s.len(),
        forall|k: int| i <= k < j ==> is_number_char(s[k]),
    ensures
        number_end(s, i) == number_end(s, j),
    decreases j - i,
{
    if i < j {
        lemma_number_end_stable(s, i + 1, j);
    }
}

proof fn lemma_name_end_stable(s: Seq<char>, i: int, j: int)
    requires
        0 <= i <= j <= s.len(),
        forall|k: int| i <= k < j ==> is_name_char(s[k]),
    ensures
        name_end(s, i) == name_end(s, j),
    decreases j - i,
{
    if i < j {
        lemma_name_end_stable(s, i + 1, j);
    }
}

/// The outcome of tokenizing: the tokens or an error message, and the position at
/// which tokenizing stopped.
pub type TokenizeOutcome = (Result<Seq<SpecToken>, Seq<char>>, int);

/// Puts `t` in front of the tokens of an outcome.
pub open spec fn prepend_token(t: SpecToken, r: TokenizeOutcome) -> TokenizeOutcome {
    match r.0 {
        Ok(ts) => (Ok(seq![t] + ts), r.1),
        Err(e) => (Err(e), r.1),
    }
}

/// Puts `ts` in front of the tokens of an outcome.
pub open spec fn prepend_tokens(ts: Seq<SpecToken>, r: TokenizeOutcome) -> TokenizeOutcome {
    match r.0 {
        Ok(rest) => (Ok(ts + rest), r.1),
        Err(e) => (Err(e), r.1),
    }
}

/// The token that a punctuation character stands for.
pub open spec fn punct_token(c: char) -> Option<SpecToken> {
    if c == '+' {
        Some(SpecToken::Plus)
    } else if c == '-' {
        Some(SpecToken::Minus)
    } else if c == '*' {
        Some(SpecToken::Star)
    } else if c == '/' {
        Some(SpecToken::Slash)
    } else if c == '^' {
        Some(SpecToken::Caret)
    } else if c == '(' {
        Some(SpecToken::LParen)
    } else if c == ')' {
        Some(SpecToken::RParen)
    } else if c == ',' {
        Some(SpecToken::Comma)
    } else {
        None
    }
}

/// Tokenizing the characters of `s` from index `i` on: whitespace is skipped; a run of
/// digits and dots is a number, which must be a valid literal; a name made of
/// letters, digits and underscores that starts with a letter or underscore is a
/// function when it is one of the allowed function names and a variable otherwise;
/// the eight punctuation characters are tokens of their own; any other character is
/// an error.
pub open spec fn spec_tokenize(s: Seq<char>, i: int) -> TokenizeOutcome
    decreases s.len() - i,
{
    if i < 0 || i >= s.len() {
        (Ok(seq![]), i)
    } else {
        let c = s[i];
        if is_space(c) {
            spec_tokenize(s, i + 1)
        } else if is_number_char(c) {
            let e = number_end(s, i);
            let lit = s.subrange(i, e);
            proof {
                lemma_number_end(s, i);
            }
            if is_valid_number_literal(lit) {
                prepend_token(SpecToken::Number(lit), spec_tokenize(s, e))
            } else {
                (Err("Invalid number: "@ + lit), e)
            }
        } else if is_name_start(c) {
            let e = name_end(s, i);
            let name = s.subrange(i, e);
            proof {
                lemma_name_end(s, i);
            }
            if is_allowed_func_name(name) {
                prepend_token(SpecToken::Func(name), spec_tokenize(s, e))
            } else {
                prepend_token(SpecToken::Variable(name), spec_tokenize(s, e))
            }
        } else if punct_token(c) is Some {
            prepend_token(punct_token(c)->0, spec_tokenize(s, i + 1))
        } else {
            (Err("Unexpected character: '"@ + seq![c] + "'"@), i)
        }
    }
}

/// The tokenizing of a whole string.
pub open spec fn tokenize_all(s: Seq<char>) -> Result<Seq<SpecToken>, Seq<char>> {
    spec_tokenize(s, 0).0
}

/// The models of a sequence of tokens.
pub open spec fn tokens_view(ts: Seq<Token>) -> Seq<SpecToken> {
    ts.map_values(|t: Token| t@)
}

/// Turns the characters of an expression into tokens.
pub struct Tokenizer {
    chars: Vec<char>,
    pos: usize,
}

impl Tokenizer {
    #[verifier::type_invariant]
    spec fn inv(self) -> bool {
        self.pos <= self.chars.len()
    }

    /// The characters being tokenized.
    pub closed spec fn input(self) -> Seq<char> {
        self.chars@
    }

    /// The index of the next character to read.
    pub closed spec fn position(self) -> nat {
        self.pos as nat
    }

    /// A tokenizer at the start of `input`.
    pub fn new(input: &str) -> (t: Self)
        ensures
            t.input() == input@,
            t.position() == 0,
    {
        let n = input.unicode_len();
        let mut chars: Vec<char> = Vec::new();
        let mut i: usize = 0;
        while i < n
            invariant
                n == input@.len(),
                i <= n,
                chars@ == input@.subrange(0, i as int),
            decreases n - i,
        {
            chars.push(input.get_char(i));
            i = i + 1;
        }
        Tokenizer { chars, pos: 0 }
    }

    /// The next character, if any is left.
    pub fn peek(&self) -> (r: Option<char>)
        ensures
            r == (if self.position() < self.input().len() {
                Some(self.input()[self.position() as int])
            } else {
                None
            }),
    {
        if self.pos < self.chars.len() {
            Some(self.chars[self.pos])
        } else {
            None
        }
    }

    /// Reads the next character. Past the end it reads nothing and stays at the end,
    /// where every later read gives nothing as well.
    pub fn advance(&mut self) -> (r: Option<char>)
        ensures
            final(self).input() == old(self).input(),
            old(self).position() < old(self).input().len() ==> final(self).position()
                == old(self).position() + 1 && r == Some(
                old(self).input()[old(self).position() as int],
            ),
            old(self).position() >= old(self).input().len() ==> final(self).position()
                == old(self).position() && r is None,
    {
        proof {
            use_type_invariant(&*self);
        }
        if self.pos < self.chars.len() {
            let ch = self.chars[self.pos];
            self.pos = self.pos + 1;
            Some(ch)
        } else {
            None
        }
    }

    /// Tokenizes the rest of the input, as `spec_tokenize` says. On an error the
    /// position is left where tokenizing stopped.
    pub fn tokenize(&mut self) -> (r: Result<Vec<Token>, String>)
        ensures
            final(self).input() == old(self).input(),
            final(self).position() == spec_tokenize(
                old(self).input(),
                old(self).position() as int,
            ).1,
            match spec_tokenize(old(self).input(), old(self).position() as int).0 {
                Ok(ts) => r is Ok && tokens_view(r->Ok_0@) == ts,
                Err(m) => r is Err && r->Err_0@ == m,
            },
    {
        proof {
            use_type_invariant(&*self);
        }
        let ghost s = self.input();
        let ghost start = self.position() as int;
        let mut tokens: Vec<Token> = Vec::new();
        loop
            invariant
                self.input() == s,
                s == old(self).input(),
                start == old(self).position(),
                self.pos <= s.len(),
                0 <= start <= s.len(),
                spec_tokenize(s, start) == prepend_tokens(
                    tokens_view(tokens@),
                    spec_tokenize(s, self.position() as int),
                ),
            decreases s.len() - self.position(),
        {
            proof {
                use_type_invariant(&*self);
            }
            let ghost p = self.position() as int;
            match self.peek() {
                None => {
                    assert(tokens_view(tokens@) + seq![] =~= tokens_view(tokens@));
                    return Ok(tokens);
                },
                Some(ch) => {
                    if char_is_space(ch) {
                        self.advance();
                    } else if char_is_number(ch) {
                        let mut num_str = String::new();
                        loop
                            invariant
                                self.input() == s,
                                0 <= p < s.len(),
                                is_number_char(s[p]),
                                p <= self.position() <= s.len(),
                                num_str@ == s.subrange(p, self.position() as int),
                                forall|k: int| p <= k < self.position() ==> is_number_char(s[k]),
                            ensures
                                self.input() == s,
                                p <= self.position() <= s.len(),
                                num_str@ == s.subrange(p, self.position() as int),
                                forall|k: int| p <= k < self.position() ==> is_number_char(s[k]),
                                self.position() == s.len() || !is_number_char(
                                    s[self.position() as int],
                                ),
                            decreases s.len() - self.position(),
                        {
                            proof {
                                use_type_invariant(&*self);
                            }
                            match self.peek() {
                                Some(c) => {
                                    if char_is_number(c) {
                                        push_char(&mut num_str, c);
                                        self.advance();
                                        assert(num_str@ =~= s.subrange(
                                            p,
                                            self.position() as int,
                                        ));
                                    } else {
                                        break ;
                                    }
                                },
                                None => {
                                    break ;
                                },
                            }
                        }
                        proof {
                            lemma_number_end_stable(s, p, self.position() as int);
                        }
                        if !valid_number_literal(num_str.as_str()) {
                            let mut msg = String::from_str("Invalid number: ");
                            msg.append(num_str.as_str());
                            return Err(msg);
                        }
                        let ghost before = tokens_view(tokens@);
                        tokens.push(Token::Number(num_str));
                        assert(tokens_view(tokens@) =~= before.push(tokens@.last()@));
                        assert(before + (seq![tokens@.last()@] + 
                            spec_tokenize(s, self.position() as int).0->Ok_0)
                            =~= tokens_view(tokens@) + spec_tokenize(s, self.position() as int).0->Ok_0);
                    } else if char_is_name_start(ch) {
                        let mut name = String::new();
                        loop
                            invariant
                                self.input() == s,
                                0 <= p < s.len(),
                                is_name_start(s[p]),
                                p <= self.position() <= s.len(),
                                name@ == s.subrange(p, self.position() as int),
                                forall|k: int| p <= k < self.position() ==> is_name_char(s[k]),
                            ensures
                                self.input() == s,
                                p <= self.position() <= s.len(),
                                name@ == s.subrange(p, self.position() as int),
                                forall|k: int| p <= k < self.position() ==> is_name_char(s[k]),
                                self.position() == s.len() || !is_name_char(
                                    s[self.position() as int],
                                ),
                            decreases s.len() - self.position(),
                        {
                            proof {
                                use_type_invariant(&*self);
                            }
                            match self.peek() {
                                Some(c) => {
                                    if char_is_name(c) {
                                        push_char(&mut name, c);
                                        self.advance();
                                        assert(name@ =~= s.subrange(p, self.position() as int));
                                    } else {
                                        break ;
                                    }
                                },
                                None => {
                                    break ;
                                },
                            }
                        }
                        proof {
                            lemma_name_end_stable(s, p, self.position() as int);
                        }
                        let ghost before = tokens_view(tokens@);
                        if is_allowed_func(name.as_str()) {
                            tokens.push(Token::Func(name));
                        } else {
                            tokens.push(Token::Variable(name));
                        }
                        assert(tokens_view(tokens@) =~= before.push(tokens@.last()@));
                        assert(before + (seq![tokens@.last()@] + 
                            spec_tokenize(s, self.position() as int).0->Ok_0)
                            =~= tokens_view(tokens@) + spec_tokenize(s, self.position() as int).0->Ok_0);
                    } else {
                        let tok = if ch == '+' {
                            Token::Plus
                        } else if ch == '-' {
                            Token::Minus
                        } else if ch == '*' {
                            Token::Star
                        } else if ch == '/' {
                            Token::Slash
                        } else if ch == '^' {
                            Token::Caret
                        } else if ch == '(' {
                            Token::LParen
                        } else if ch == ')' {
                            Token::RParen
                        } else if ch == ',' {
                            Token::Comma
                        } else {
                            let mut msg = String::from_str("Unexpected character: '");
                            push_char(&mut msg, ch);
                            msg.append("'");
                            assert(msg@ =~= "Unexpected character: '"@ + seq![ch] + "'"@);
                            assert(spec_tokenize(s, p) == (
                                Err::<Seq<SpecToken>, Seq<char>>(msg@),
                                p,
                            ));
                            return Err(msg);
                        };
                        self.advance();
                        let ghost before = tokens_view(tokens@);
                        tokens.push(tok);
                        assert(tokens_view(tokens@) =~= before.push(tokens@.last()@));
                        assert(before + (seq![tokens@.last()@] + 
                            spec_tokenize(s, self.position() as int).0->Ok_0)
                            =~= tokens_view(tokens@) + spec_tokenize(s, self.position() as int).0->Ok_0);
                    }
                },
            }
        }
    }
}


/// A binary operator.
#[derive(Debug, Clone, Copy, PartialEq, Eq, Structural)]
pub enum BinOp {
    Add,
    Sub,
    Mul,
    Div,
    Pow,
}

/// An expression tree. A number keeps the text of its literal.
#[derive(Debug)]
pub enum Expr {
    Number(String),
    Variable(String),
    BinaryOp { op: BinOp, left: Box<Expr>, right: Box<Expr> },
    UnaryMinus(Box<Expr>),
    FuncCall { name: String, args: Vec<Expr> },
}

/// The mathematical model of an expression tree.
pub enum SpecExpr {
    Number(Seq<char>),
    Variable(Seq<char>),
    BinaryOp(BinOp, Box<SpecExpr>, Box<SpecExpr>),
    UnaryMinus(Box<SpecExpr>),
    FuncCall(Seq<char>, Seq<SpecExpr>),
}

/// The model of an expression tree.
pub open spec fn expr_view(e: Expr) -> SpecExpr
    decreases e,
{
    match e {
        Expr::Number(s) => SpecExpr::Number(s@),
        Expr::Variable(s) => SpecExpr::Variable(s@),
        Expr::BinaryOp { op, left, right } => SpecExpr::BinaryOp(
            op,
            Box::new(expr_view(*left)),
            Box::new(expr_view(*right)),
        ),
        Expr::UnaryMinus(inner) => SpecExpr::UnaryMinus(Box::new(expr_view(*inner))),
        Expr::FuncCall { name, args } => SpecExpr::FuncCall(name@, exprs_view(args@)),
    }
}

/// The models of a sequence of expression trees.
pub open spec fn exprs_view(es: Seq<Expr>) -> Seq<SpecExpr>
    decreases es,
{
    if es.len() == 0 {
        seq![]
    } else {
        seq![expr_view(es[0])] + exprs_view(es.drop_first())
    }
}

impl View for Expr {
    type V = SpecExpr;

    open spec fn view(&self) -> SpecExpr {
        expr_view(*self)
    }
}

/// The result of parsing a prefix of the tokens: an expression and the index of the
/// first token after it, or an error message.
pub type ParseOutcome = Result<(SpecExpr, int), Seq<char>>;

/// The token at index `i`, if there is one.
pub open spec fn token_at(t: Seq<SpecToken>, i: int) -> Option<SpecToken> {
    if 0 <= i < t.len() {
        Some(t[i])
    } else {
        None
    }
}

/// The application of a binary operator.
pub open spec fn binary(op: BinOp, l: SpecExpr, r: SpecExpr) -> SpecExpr {
    SpecExpr::BinaryOp(op, Box::new(l), Box::new(r))
}

/// addition := multiplication (('+' | '-') multiplication)*, left-associative.
pub open spec fn parse_add(t: Seq<SpecToken>, i: int) -> ParseOutcome
    decreases t.len() - i, 5int,
{
    if i < 0 || i > t.len() {
        Err(seq![])
    } else {
        match parse_mul(t, i) {
            Err(e) => Err(e),
            Ok((l, j)) => if i < j <= t.len() {
                parse_add_rest(t, l, j)
            } else {
                Ok((l, j))
            },
        }
    }
}

/// The rest of an addition after its left operand `left`, from index `j`.
pub open spec fn parse_add_rest(t: Seq<SpecToken>, left: SpecExpr, j: int) -> ParseOutcome
    decreases t.len() - j, 5int,
{
    if j < 0 || j > t.len() {
        Err(seq![])
    } else {
        match token_at(t, j) {
            Some(SpecToken::Plus) => match parse_mul(t, j + 1) {
                Err(e) => Err(e),
                Ok((r, k)) => if j < k <= t.len() {
                    parse_add_rest(t, binary(BinOp::Add, left, r), k)
                } else {
                    Ok((binary(BinOp::Add, left, r), k))
                },
            },
            Some(SpecToken::Minus) => match parse_mul(t, j + 1) {
                Err(e) => Err(e),
                Ok((r, k)) => if j < k <= t.len() {
                    parse_add_rest(t, binary(BinOp::Sub, left, r), k)
                } else {
                    Ok((binary(BinOp::Sub, left, r), k))
                },
            },
            _ => Ok((left, j)),
        }
    }
}

/// multiplication := power (('*' | '/') power)*, left-associative.
pub open spec fn parse_mul(t: Seq<SpecToken>, i: int) -> ParseOutcome
    decreases t.len() - i, 4int,
{
    if i < 0 || i > t.len() {
        Err(seq![])
    } else {
        match parse_pow(t, i) {
            Err(e) => Err(e),
            Ok((l, j)) => if i < j <= t.len() {
                parse_mul_rest(t, l, j)
            } else {
                Ok((l, j))
            },
        }
    }
}

/// The rest of a multiplication after its left operand `left`, from index `j`.
pub open spec fn parse_mul_rest(t: Seq<SpecToken>, left: SpecExpr, j: int) -> ParseOutcome
    decreases t.len() - j, 4int,
{
    if j < 0 || j > t.len() {
        Err(seq![])
    } else {
        match token_at(t, j) {
            Some(SpecToken::Star) => match parse_pow(t, j + 1) {
                Err(e) => Err(e),
                Ok((r, k)) => if j < k <= t.len() {
                    parse_mul_rest(t, binary(BinOp::Mul, left, r), k)
                } else {
                    Ok((binary(BinOp::Mul, left, r), k))
                },
            },
            Some(SpecToken::Slash) => match parse_pow(t, j + 1) {
                Err(e) => Err(e),
                Ok((r, k)) => if j < k <= t.len() {
                    parse_mul_rest(t, binary(BinOp::Div, left, r), k)
                } else {
                    Ok((binary(BinOp::Div, left, r), k))
                },
            },
            _ => Ok((left, j)),
        }
    }
}

/// power := unary ('^' unary)?  (one exponent, not chained).
pub open spec fn parse_pow(t: Seq<SpecToken>, i: int) -> ParseOutcome
    decreases t.len() - i, 3int,
{
    if i < 0 || i > t.len() {
        Err(seq![])
    } else {
        match parse_unary(t, i) {
            Err(e) => Err(e),
            Ok((b, j)) => if token_at(t, j) == Some(SpecToken::Caret) && i < j {
                match parse_unary(t, j + 1) {
                    Err(e) => Err(e),
                    Ok((x, k)) => Ok((binary(BinOp::Pow, b, x), k)),
                }
            } else {
                Ok((b, j))
            },
        }
    }
}

/// unary := '-' unary | '+' unary | primary.
pub open spec fn parse_unary(t: Seq<SpecToken>, i: int) -> ParseOutcome
    decreases t.len() - i, 2int,
{
    if i < 0 || i > t.len() {
        Err(seq![])
    } else {
        match token_at(t, i) {
            Some(SpecToken::Minus) => match parse_unary(t, i + 1) {
                Err(e) => Err(e),
                Ok((x, k)) => Ok((SpecExpr::UnaryMinus(Box::new(x)), k)),
            },
            Some(SpecToken::Plus) => parse_unary(t, i + 1),
            _ => parse_primary(t, i),
        }
    }
}

/// primary := number | variable | function '(' arguments? ')' | '(' addition ')'.
pub open spec fn parse_primary(t: Seq<SpecToken>, i: int) -> ParseOutcome
    decreases t.len() - i, 1int,
{
    if i < 0 || i > t.len() {
        Err(seq![])
    } else {
        match token_at(t, i) {
            Some(SpecToken::Number(n)) => Ok((SpecExpr::Number(n), i + 1)),
            Some(SpecToken::Variable(n)) => Ok((SpecExpr::Variable(n), i + 1)),
            Some(SpecToken::Func(name)) => parse_call(t, name, i + 1),
            Some(SpecToken::LParen) => match parse_add(t, i + 1) {
                Err(e) => Err(e),
                Ok((x, j)) => if token_at(t, j) == Some(SpecToken::RParen) {
                    Ok((x, j + 1))
                } else {
                    Err("Expected ')'"@)
                },
            },
            _ => Err("Unexpected token in expression"@),
        }
    }
}

/// The call of function `name`, whose name token ends before index `j`:
/// '(' arguments? ')'.
pub open spec fn parse_call(t: Seq<SpecToken>, name: Seq<char>, j: int) -> ParseOutcome
    decreases t.len() - j, 7int,
{
    if j < 0 || j > t.len() {
        Err(seq![])
    } else if token_at(t, j) == Some(SpecToken::LParen) {
        let args = if token_at(t, j + 1) == Some(SpecToken::RParen) {
            Ok((seq![], j + 1))
        } else {
            parse_args(t, j + 1)
        };
        match args {
            Err(e) => Err(e),
            Ok((a, k)) => if token_at(t, k) == Some(SpecToken::RParen) {
                Ok((SpecExpr::FuncCall(name, a), k + 1))
            } else {
                Err("Expected ')' after function arguments for "@ + name)
            },
        }
    } else {
        Err("Expected '(' after function name "@ + name)
    }
}

/// The outcome of parsing a list of arguments.
pub type ArgsOutcome = Result<(Seq<SpecExpr>, int), Seq<char>>;

/// arguments := addition (',' addition)*.
pub open spec fn parse_args(t: Seq<SpecToken>, i: int) -> ArgsOutcome
    decreases t.len() - i, 6int,
{
    if i < 0 || i > t.len() {
        Err(seq![])
    } else {
        match parse_add(t, i) {
            Err(e) => Err(e),
            Ok((a, j)) => if i < j <= t.len() {
                parse_args_rest(t, seq![a], j)
            } else {
                Ok((seq![a], j))
            },
        }
    }
}

/// The rest of an argument list after the arguments `acc`, from index `j`.
pub open spec fn parse_args_rest(t: Seq<SpecToken>, acc: Seq<SpecExpr>, j: int) -> ArgsOutcome
    decreases t.len() - j, 6int,
{
    if j < 0 || j > t.len() {
        Err(seq![])
    } else if token_at(t, j) == Some(SpecToken::Comma) {
        match parse_add(t, j + 1) {
            Err(e) => Err(e),
            Ok((a, k)) => if j < k <= t.len() {
                parse_args_rest(t, acc.push(a), k)
            } else {
                Ok((acc.push(a), k))
            },
        }
    } else {
        Ok((acc, j))
    }
}

/// Parsing a whole token sequence: an addition that must use every token.
pub open spec fn spec_parse(t: Seq<SpecToken>) -> Result<SpecExpr, Seq<char>> {
    spec_parse_from(t, 0)
}

/// Parsing the tokens from index `i` on: an addition that must use every token left.
pub open spec fn spec_parse_from(t: Seq<SpecToken>, i: int) -> Result<SpecExpr, Seq<char>> {
    match parse_add(t, i) {
        Err(e) => Err(e),
        Ok((x, j)) => if j < t.len() {
            Err("Unexpected token after expression"@)
        } else {
            Ok(x)
        },
    }
}


/// Builds an expression tree from tokens.
pub struct Parser {
    tokens: Vec<Token>,
    pos: usize,
}

/// What a parsing step promises: the tokens are unchanged; on success the result is
/// the expression that the grammar gives, the position is the index after it, and at
/// least one token was consumed; an error carries the grammar's message.
pub open spec fn parse_step_ok(
    outcome: ParseOutcome,
    r: Result<Expr, String>,
    start: int,
    end: int,
    len: int,
) -> bool {
    match outcome {
        Ok((x, j)) => r is Ok && r->Ok_0@ == x && end == j && start < j <= len,
        Err(m) => r is Err && r->Err_0@ == m,
    }
}

impl Parser {
    #[verifier::type_invariant]
    spec fn inv(self) -> bool {
        self.pos <= self.tokens.len()
    }

    /// The tokens being parsed.
    pub closed spec fn tokens(self) -> Seq<SpecToken> {
        tokens_view(self.tokens@)
    }

    /// The index of the next token to read.
    pub closed spec fn position(self) -> int {
        self.pos as int
    }

    /// A parser at the first of `tokens`.
    pub fn new(tokens: Vec<Token>) -> (p: Self)
        ensures
            p.tokens() == tokens_view(tokens@),
            p.position() == 0,
    {
        Parser { tokens, pos: 0 }
    }

    fn peek(&self) -> (r: Option<&Token>)
        ensures
            r == (if 0 <= self.pos < self.tokens.len() {
                Some(&self.tokens@[self.pos as int])
            } else {
                None
            }),
            r matches Some(t) ==> Some(t@) == token_at(self.tokens(), self.position()),
            r is None ==> token_at(self.tokens(), self.position()) is None,
    {
        if self.pos < self.tokens.len() {
            Some(&self.tokens[self.pos])
        } else {
            None
        }
    }

    fn advance(&mut self)
        requires
            old(self).position() < old(self).tokens().len(),
        ensures
            final(self).tokens() == old(self).tokens(),
            final(self).position() == old(self).position() + 1,
    {
        proof {
            use_type_invariant(&*self);
        }
        self.pos = self.pos + 1;
    }

    /// Parses the tokens left (all of them from a new parser): the result is
    /// `spec_parse_from` of them.
    pub fn parse(&mut self) -> (r: Result<Expr, String>)
        ensures
            final(self).tokens() == old(self).tokens(),
            match spec_parse_from(old(self).tokens(), old(self).position()) {
                Ok(x) => r is Ok && r->Ok_0@ == x,
                Err(m) => r is Err && r->Err_0@ == m,
            },
    {
        proof {
            use_type_invariant(&*self);
        }
        let expr = self.parse_addition()?;
        proof {
            use_type_invariant(&*self);
        }
        if self.pos < self.tokens.len() {
            return Err(String::from_str("Unexpected token after expression"));
        }
        Ok(expr)
    }

    fn parse_addition(&mut self) -> (r: Result<Expr, String>)
        ensures
            final(self).tokens() == old(self).tokens(),
            parse_step_ok(
                parse_add(old(self).tokens(), old(self).position()),
                r,
                old(self).position(),
                final(self).position(),
                old(self).tokens().len() as int,
            ),
        decreases old(self).tokens().len() - old(self).position(), 5int,
    {
        proof {
            use_type_invariant(&*self);
        }
        let ghost t = self.tokens();
        let ghost start = self.position();
        let mut left = self.parse_multiplication()?;
        loop
            invariant
                self.tokens() == t,
                t == old(self).tokens(),
                start == old(self).position(),
                0 <= start < self.position() <= t.len(),
                parse_add(t, start) == parse_add_rest(t, left@, self.position()),
            decreases t.len() - self.position(),
        {
            proof {
                use_type_invariant(&*self);
            }
            let op = match self.peek() {
                Some(Token::Plus) => BinOp::Add,
                Some(Token::Minus) => BinOp::Sub,
                _ => {
                    return Ok(left);
                },
            };
            let ghost j = self.position();
            self.advance();
            let right = self.parse_multiplication()?;
            left = Expr::BinaryOp { op, left: Box::new(left), right: Box::new(right) };
        }
    }

    fn parse_multiplication(&mut self) -> (r: Result<Expr, String>)
        ensures
            final(self).tokens() == old(self).tokens(),
            parse_step_ok(
                parse_mul(old(self).tokens(), old(self).position()),
                r,
                old(self).position(),
                final(self).position(),
                old(self).tokens().len() as int,
            ),
        decreases old(self).tokens().len() - old(self).position(), 4int,
    {
        proof {
            use_type_invariant(&*self);
        }
        let ghost t = self.tokens();
        let ghost start = self.position();
        let mut left = self.parse_power()?;
        loop
            invariant
                self.tokens() == t,
                t == old(self).tokens(),
                start == old(self).position(),
                0 <= start < self.position() <= t.len(),
                parse_mul(t, start) == parse_mul_rest(t, left@, self.position()),
            decreases t.len() - self.position(),
        {
            proof {
                use_type_invariant(&*self);
            }
            let op = match self.peek() {
                Some(Token::Star) => BinOp::Mul,
                Some(Token::Slash) => BinOp::Div,
                _ => {
                    return Ok(left);
                },
            };
            self.advance();
            let right = self.parse_power()?;
            left = Expr::BinaryOp { op, left: Box::new(left), right: Box::new(right) };
        }
    }

    fn parse_power(&mut self) -> (r: Result<Expr, String>)
        ensures
            final(self).tokens() == old(self).tokens(),
            parse_step_ok(
                parse_pow(old(self).tokens(), old(self).position()),
                r,
                old(self).position(),
                final(self).position(),
                old(self).tokens().len() as int,
            ),
        decreases old(self).tokens().len() - old(self).position(), 3int,
    {
        proof {
            use_type_invariant(&*self);
        }
        let base = self.parse_unary()?;
        if let Some(Token::Caret) = self.peek() {
            self.advance();
            let exp = self.parse_unary()?;
            Ok(Expr::BinaryOp { op: BinOp::Pow, left: Box::new(base), right: Box::new(exp) })
        } else {
            Ok(base)
        }
    }

    fn parse_unary(&mut self) -> (r: Result<Expr, String>)
        ensures
            final(self).tokens() == old(self).tokens(),
            parse_step_ok(
                parse_unary(old(self).tokens(), old(self).position()),
                r,
                old(self).position(),
                final(self).position(),
                old(self).tokens().len() as int,
            ),
        decreases old(self).tokens().len() - old(self).position(), 2int,
    {
        proof {
            use_type_invariant(&*self);
        }
        match self.peek() {
            Some(Token::Minus) => {
                self.advance();
                let expr = self.parse_unary()?;
                Ok(Expr::UnaryMinus(Box::new(expr)))
            },
            Some(Token::Plus) => {
                self.advance();
                self.parse_unary()
            },
            _ => self.parse_primary(),
        }
    }

    fn parse_primary(&mut self) -> (r: Result<Expr, String>)
        ensures
            final(self).tokens() == old(self).tokens(),
            parse_step_ok(
                parse_primary(old(self).tokens(), old(self).position()),
                r,
                old(self).position(),
                final(self).position(),
                old(self).tokens().len() as int,
            ),
        decreases old(self).tokens().len() - old(self).position(), 1int,
    {
        proof {
            use_type_invariant(&*self);
        }
        let ghost t = self.tokens();
        let ghost i = self.position();
        match self.peek() {
            Some(Token::Number(n)) => {
                let n = n.clone();
                self.advance();
                Ok(Expr::Number(n))
            },
            Some(Token::Variable(name)) => {
                let name = name.clone();
                self.advance();
                Ok(Expr::Variable(name))
            },
            Some(Token::Func(name)) => {
                let name = name.clone();
                self.advance();
                self.parse_call(name)
            },
            Some(Token::LParen) => {
                self.advance();
                let expr = self.parse_addition()?;
                match self.peek() {
                    Some(Token::RParen) => {
                        self.advance();
                        Ok(expr)
                    },
                    _ => Err(String::from_str("Expected ')'")),
                }
            },
            _ => Err(String::from_str("Unexpected token in expression")),
        }
    }

    /// Parses the parenthesised arguments of a call of `name`.
    fn parse_call(&mut self, name: String) -> (r: Result<Expr, String>)
        ensures
            final(self).tokens() == old(self).tokens(),
            parse_step_ok(
                parse_call(old(self).tokens(), name@, old(self).position()),
                r,
                old(self).position() - 1,
                final(self).position(),
                old(self).tokens().len() as int,
            ),
        decreases old(self).tokens().len() - old(self).position(), 7int,
    {
        proof {
            use_type_invariant(&*self);
        }
        match self.peek() {
            Some(Token::LParen) => {
                self.advance();
                let args = match self.peek() {
                    Some(Token::RParen) => Vec::new(),
                    _ => self.parse_arguments()?,
                };
                proof {
                    assert(exprs_view(Seq::<Expr>::empty()) =~= seq![]);
                }
                match self.peek() {
                    Some(Token::RParen) => {
                        self.advance();
                        Ok(Expr::FuncCall { name, args })
                    },
                    _ => {
                        let mut msg = String::from_str(
                            "Expected ')' after function arguments for ",
                        );
                        msg.append(name.as_str());
                        Err(msg)
                    },
                }
            },
            _ => {
                let mut msg = String::from_str("Expected '(' after function name ");
                msg.append(name.as_str());
                Err(msg)
            },
        }
    }

    /// Parses a comma-separated list of one or more arguments.
    fn parse_arguments(&mut self) -> (r: Result<Vec<Expr>, String>)
        ensures
            final(self).tokens() == old(self).tokens(),
            match parse_args(old(self).tokens(), old(self).position()) {
                Ok((a, j)) => r is Ok && exprs_view(r->Ok_0@) == a && final(self).position() == j
                    && old(self).position() < j <= old(self).tokens().len(),
                Err(m) => r is Err && r->Err_0@ == m,
            },
        decreases old(self).tokens().len() - old(self).position(), 6int,
    {
        proof {
            use_type_invariant(&*self);
        }
        let ghost t = self.tokens();
        let ghost start = self.position();
        let first = self.parse_addition()?;
        let mut args: Vec<Expr> = Vec::new();
        args.push(first);
        proof {
            lemma_exprs_view_push(Seq::empty(), args@[0]);
            assert(args@ =~= Seq::<Expr>::empty().push(args@[0]));
        }
        loop
            invariant
                self.tokens() == t,
                t == old(self).tokens(),
                start == old(self).position(),
                0 <= start < self.position() <= t.len(),
                parse_args(t, start) == parse_args_rest(t, exprs_view(args@), self.position()),
            decreases t.len() - self.position(),
        {
            proof {
                use_type_invariant(&*self);
            }
            match self.peek() {
                Some(Token::Comma) => {},
                _ => {
                    return Ok(args);
                },
            }
            self.advance();
            let a = self.parse_addition()?;
            let ghost before = args@;
            args.push(a);
            proof {
                lemma_exprs_view_push(before, args@.last());
                assert(args@ =~= before.push(args@.last()));
            }
        }
    }
}

/// The models of a sequence with one more tree are those of the sequence with one
/// more model.
pub proof fn lemma_exprs_view_push(es: Seq<Expr>, e: Expr)
    ensures
        exprs_view(es.push(e)) == exprs_view(es).push(expr_view(e)),
    decreases es.len(),
{
    if es.len() == 0 {
        assert(es.push(e).drop_first() =~= es);
        assert(exprs_view(es.push(e).drop_first()) == exprs_view(es));
        assert(exprs_view(es) =~= seq![]);
        assert(exprs_view(es.push(e)) =~= seq![expr_view(e)]);
    } else {
        lemma_exprs_view_push(es.drop_first(), e);
        assert(es.push(e).drop_first() =~= es.drop_first().push(e));
        assert(exprs_view(es.push(e)) =~= exprs_view(es).push(expr_view(e)));
    }
}


/// A token that stands for an operand by itself: a number or a variable.
pub open spec fn is_operand_token(x: SpecToken) -> bool {
    x is Number || x is Variable
}

/// The expression of a number or variable token.
pub open spec fn operand_expr(x: SpecToken) -> SpecExpr {
    match x {
        SpecToken::Number(n) => SpecExpr::Number(n),
        SpecToken::Variable(n) => SpecExpr::Variable(n),
        _ => SpecExpr::Number(seq![]),
    }
}

/// The token that writes a binary operator: `+`, `-`, `*`, `/`, `^`.
pub open spec fn operator_token(op: BinOp) -> SpecToken {
    match op {
        BinOp::Add => SpecToken::Plus,
        BinOp::Sub => SpecToken::Minus,
        BinOp::Mul => SpecToken::Star,
        BinOp::Div => SpecToken::Slash,
        BinOp::Pow => SpecToken::Caret,
    }
}

/// The tokens `x0 op0 x1 op1 ... xn` of operands `xs` joined by the operators `ops`
/// (one fewer than the operands).
pub open spec fn chain_tokens(xs: Seq<SpecToken>, ops: Seq<BinOp>) -> Seq<SpecToken> {
    Seq::new(
        (2 * xs.len() - 1) as nat,
        |i: int| if i % 2 == 0 { xs[i / 2] } else { operator_token(ops[i / 2]) },
    )
}

/// The first `k + 1` operands combined from the left: `((x0 op0 x1) op1 x2) ...`.
pub open spec fn left_fold(xs: Seq<SpecToken>, ops: Seq<BinOp>, k: nat) -> SpecExpr
    decreases k,
{
    if k == 0 {
        operand_expr(xs[0])
    } else {
        binary(ops[k - 1], left_fold(xs, ops, (k - 1) as nat), operand_expr(xs[k as int]))
    }
}

/// Operands and operators that make a chain: at least one operand, each a number
/// or a variable, and one operator fewer.
pub open spec fn is_chain(xs: Seq<SpecToken>, ops: Seq<BinOp>) -> bool {
    &&& xs.len() >= 1
    &&& ops.len() == xs.len() - 1
    &&& forall|i: int| 0 <= i < xs.len() ==> is_operand_token(#[trigger] xs[i])
}

/// An operand followed by anything but `^` is a power by itself.
proof fn lemma_operand_power(t: Seq<SpecToken>, p: int)
    requires
        0 <= p < t.len(),
        is_operand_token(t[p]),
        token_at(t, p + 1) != Some(SpecToken::Caret),
    ensures
        parse_pow(t, p) == Ok::<(SpecExpr, int), Seq<char>>((operand_expr(t[p]), p + 1)),
{
    assert(parse_primary(t, p) == Ok::<(SpecExpr, int), Seq<char>>((operand_expr(t[p]), p + 1)));
    assert(parse_unary(t, p) == Ok::<(SpecExpr, int), Seq<char>>((operand_expr(t[p]), p + 1)));
}

/// An operand followed by `+`, `-` or nothing is a product by itself.
proof fn lemma_operand_product(t: Seq<SpecToken>, p: int)
    requires
        0 <= p < t.len(),
        is_operand_token(t[p]),
        token_at(t, p + 1) is None || token_at(t, p + 1) == Some(SpecToken::Plus) || token_at(t, p + 1)
            == Some(SpecToken::Minus),
    ensures
        parse_mul(t, p) == Ok::<(SpecExpr, int), Seq<char>>((operand_expr(t[p]), p + 1)),
{
    lemma_operand_power(t, p);
    assert(parse_mul_rest(t, operand_expr(t[p]), p + 1) == Ok::<(SpecExpr, int), Seq<char>>(
        (operand_expr(t[p]), p + 1),
    ));
}

/// The rest of a chain of `+` and `-` after its first `k + 1` operands.
proof fn lemma_sum_chain_rest(xs: Seq<SpecToken>, ops: Seq<BinOp>, k: int)
    requires
        is_chain(xs, ops),
        forall|i: int| 0 <= i < ops.len() ==> #[trigger] ops[i] == BinOp::Add || ops[i] == BinOp::Sub,
        0 <= k < xs.len(),
    ensures
        parse_add_rest(chain_tokens(xs, ops), left_fold(xs, ops, k as nat), 2 * k + 1)
            == Ok::<(SpecExpr, int), Seq<char>>((left_fold(xs, ops, (xs.len() - 1) as nat), 2 * xs.len() - 1)),
    decreases xs.len() - k,
{
    let t = chain_tokens(xs, ops);
    if k < xs.len() - 1 {
        assert(t[2 * k + 1] == operator_token(ops[k]));
        assert(t[2 * k + 2] == xs[k + 1]);
        assert(is_operand_token(xs[k + 1]));
        if k + 1 < xs.len() - 1 {
            assert(t[2 * k + 3] == operator_token(ops[k + 1]));
            assert(ops[k + 1] == BinOp::Add || ops[k + 1] == BinOp::Sub);
        }
        lemma_operand_product(t, 2 * k + 2);
        assert(ops[k] == BinOp::Add || ops[k] == BinOp::Sub);
        assert(left_fold(xs, ops, (k + 1) as nat) == binary(ops[k], left_fold(xs, ops, k as nat), operand_expr(xs[k + 1])));
        lemma_sum_chain_rest(xs, ops, k + 1);
    }
}

/// The rest of a chain of `*` and `/` after its first `k + 1` operands.
proof fn lemma_product_chain_rest(xs: Seq<SpecToken>, ops: Seq<BinOp>, k: int)
    requires
        is_chain(xs, ops),
        forall|i: int| 0 <= i < ops.len() ==> #[trigger] ops[i] == BinOp::Mul || ops[i] == BinOp::Div,
        0 <= k < xs.len(),
    ensures
        parse_mul_rest(chain_tokens(xs, ops), left_fold(xs, ops, k as nat), 2 * k + 1)
            == Ok::<(SpecExpr, int), Seq<char>>((left_fold(xs, ops, (xs.len() - 1) as nat), 2 * xs.len() - 1)),
    decreases xs.len() - k,
{
    let t = chain_tokens(xs, ops);
    if k < xs.len() - 1 {
        assert(t[2 * k + 1] == operator_token(ops[k]));
        assert(t[2 * k + 2] == xs[k + 1]);
        assert(is_operand_token(xs[k + 1]));
        if k + 1 < xs.len() - 1 {
            assert(t[2 * k + 3] == operator_token(ops[k + 1]));
            assert(ops[k + 1] == BinOp::Mul || ops[k + 1] == BinOp::Div);
        }
        lemma_operand_power(t, 2 * k + 2);
        assert(ops[k] == BinOp::Mul || ops[k] == BinOp::Div);
        assert(left_fold(xs, ops, (k + 1) as nat) == binary(ops[k], left_fold(xs, ops, k as nat), operand_expr(xs[k + 1])));
        lemma_product_chain_rest(xs, ops, k + 1);
    }
}

/// A chain of numbers and variables joined by `+` and `-` parses into the
/// left-nested tree whose operators are those the tokens write: each `+` an `Add`
/// node and each `-` a `Sub` node of everything before it and the operand after it.
/// So `x - y` is `Sub(x, y)`, and `a - b + c` is `Add(Sub(a, b), c)`.
pub proof fn law_sum_chain_parses_left_nested(xs: Seq<SpecToken>, ops: Seq<BinOp>)
    requires
        is_chain(xs, ops),
        forall|i: int| 0 <= i < ops.len() ==> #[trigger] ops[i] == BinOp::Add || ops[i] == BinOp::Sub,
    ensures
        spec_parse(chain_tokens(xs, ops)) == Ok::<SpecExpr, Seq<char>>(
            left_fold(xs, ops, (xs.len() - 1) as nat),
        ),
{
    let t = chain_tokens(xs, ops);
    assert(t[0] == xs[0]);
    assert(is_operand_token(xs[0]));
    if xs.len() > 1 {
        assert(t[1] == operator_token(ops[0]));
        assert(ops[0] == BinOp::Add || ops[0] == BinOp::Sub);
    }
    lemma_operand_product(t, 0);
    lemma_sum_chain_rest(xs, ops, 0);
}

/// A chain of numbers and variables joined by `*` and `/` parses into the
/// left-nested tree whose operators are those the tokens write: each `*` a `Mul`
/// node and each `/` a `Div` node.
pub proof fn law_product_chain_parses_left_nested(xs: Seq<SpecToken>, ops: Seq<BinOp>)
    requires
        is_chain(xs, ops),
        forall|i: int| 0 <= i < ops.len() ==> #[trigger] ops[i] == BinOp::Mul || ops[i] == BinOp::Div,
    ensures
        spec_parse(chain_tokens(xs, ops)) == Ok::<SpecExpr, Seq<char>>(
            left_fold(xs, ops, (xs.len() - 1) as nat),
        ),
{
    let t = chain_tokens(xs, ops);
    let n = xs.len();
    assert(t[0] == xs[0]);
    assert(is_operand_token(xs[0]));
    if n > 1 {
        assert(t[1] == operator_token(ops[0]));
        assert(ops[0] == BinOp::Mul || ops[0] == BinOp::Div);
    }
    lemma_operand_power(t, 0);
    lemma_product_chain_rest(xs, ops, 0);
    let e = left_fold(xs, ops, (n - 1) as nat);
    assert(parse_mul(t, 0) == Ok::<(SpecExpr, int), Seq<char>>((e, 2 * n - 1)));
    assert(parse_add_rest(t, e, 2 * n - 1) == Ok::<(SpecExpr, int), Seq<char>>((e, 2 * n - 1)));
}

/// Compiling text: tokenizing, then parsing.
pub open spec fn spec_compile(s: Seq<char>) -> Result<SpecExpr, Seq<char>> {
    match tokenize_all(s) {
        Err(e) => Err(e),
        Ok(ts) => spec_parse(ts),
    }
}

/// Tokenizes and parses `input`, as `spec_compile` says.
pub fn compile_expr(input: &str) -> (r: Result<Expr, String>)
    ensures
        match spec_compile(input@) {
            Ok(x) => r is Ok && r->Ok_0@ == x,
            Err(m) => r is Err && r->Err_0@ == m,
        },
{
    let mut tokenizer = Tokenizer::new(input);
    let tokens = tokenizer.tokenize()?;
    let mut parser = Parser::new(tokens);
    parser.parse()
}

/// The texts of a sequence of strings.
pub open spec fn strings_view(v: Seq<String>) -> Seq<Seq<char>> {
    v.map_values(|s: String| s@)
}

/// The variables of an expression in the order in which a left-to-right walk first
/// meets them, each once, appended to `acc` (names already in `acc` are skipped).
pub open spec fn collect(e: SpecExpr, acc: Seq<Seq<char>>) -> Seq<Seq<char>>
    decreases e,
{
    match e {
        SpecExpr::Number(_) => acc,
        SpecExpr::Variable(n) => if acc.contains(n) {
            acc
        } else {
            acc.push(n)
        },
        SpecExpr::BinaryOp(_, l, r) => collect(*r, collect(*l, acc)),
        SpecExpr::UnaryMinus(x) => collect(*x, acc),
        SpecExpr::FuncCall(_, args) => collect_list(args, acc),
    }
}

/// `acc` followed by the variables of the expressions, in order of first occurrence,
/// those that `acc` does not hold yet.
pub open spec fn collect_list(es: Seq<SpecExpr>, acc: Seq<Seq<char>>) -> Seq<Seq<char>>
    decreases es,
{
    if es.len() == 0 {
        acc
    } else {
        collect_list(es.drop_first(), collect(es[0], acc))
    }
}

/// `name` occurs as a variable in `e`.
pub open spec fn occurs(e: SpecExpr, name: Seq<char>) -> bool
    decreases e,
{
    match e {
        SpecExpr::Number(_) => false,
        SpecExpr::Variable(n) => n == name,
        SpecExpr::BinaryOp(_, l, r) => occurs(*l, name) || occurs(*r, name),
        SpecExpr::UnaryMinus(x) => occurs(*x, name),
        SpecExpr::FuncCall(_, args) => occurs_list(args, name),
    }
}

/// `name` occurs as a variable in one of the expressions.
pub open spec fn occurs_list(es: Seq<SpecExpr>, name: Seq<char>) -> bool
    decreases es,
{
    if es.len() == 0 {
        false
    } else {
        occurs(es[0], name) || occurs_list(es.drop_first(), name)
    }
}

/// The distinct variables of `e`, in order of first occurrence.
pub open spec fn variables_of(e: SpecExpr) -> Seq<Seq<char>> {
    collect(e, seq![])
}

/// The models of a sequence of trees are the trees' models, index by index.
pub proof fn lemma_exprs_view_index(es: Seq<Expr>)
    ensures
        exprs_view(es).len() == es.len(),
        forall|k: int| 0 <= k < es.len() ==> #[trigger] exprs_view(es)[k] == expr_view(es[k]),
    decreases es.len(),
{
    if es.len() > 0 {
        lemma_exprs_view_index(es.drop_first());
        assert forall|k: int| 0 <= k < es.len() implies #[trigger] exprs_view(es)[k] == expr_view(
            es[k],
        ) by {
            if k > 0 {
                assert(es.drop_first()[k - 1] == es[k]);
            }
        }
    }
}

proof fn lemma_collect_list_step(es: Seq<SpecExpr>, i: int, acc: Seq<Seq<char>>)
    requires
        0 <= i < es.len(),
    ensures
        collect_list(es.skip(i), acc) == collect_list(es.skip(i + 1), collect(es[i], acc)),
{
    assert(es.skip(i).drop_first() =~= es.skip(i + 1));
}

fn contains_string(v: &Vec<String>, s: &String) -> (r: bool)
    ensures
        r == strings_view(v@).contains(s@),
{
    let mut i: usize = 0;
    while i < v.len()
        invariant
            i <= v.len(),
            forall|k: int| 0 <= k < i ==> v@[k]@ != s@,
        decreases v.len() - i,
    {
        if v[i] == *s {
            assert(strings_view(v@)[i as int] == s@);
            return true;
        }
        i = i + 1;
    }
    assert(!strings_view(v@).contains(s@)) by {
        if strings_view(v@).contains(s@) {
            let k = choose|k: int| 0 <= k < strings_view(v@).len() && strings_view(v@)[k] == s@;
            assert(v@[k]@ == s@);
        }
    }
    false
}

/// Appends to `vars` the variables of `expr` that it does not hold yet, in order of
/// first occurrence.
fn collect_vars(expr: &Expr, vars: &mut Vec<String>)
    ensures
        strings_view(final(vars)@) == collect(expr@, strings_view(old(vars)@)),
    decreases expr,
{
    match expr {
        Expr::Variable(name) => {
            if !contains_string(vars, name) {
                let ghost before = vars@;
                vars.push(name.clone());
                assert(strings_view(vars@) =~= strings_view(before).push(name@));
            }
        },
        Expr::BinaryOp { left, right, .. } => {
            collect_vars(left, vars);
            collect_vars(right, vars);
        },
        Expr::UnaryMinus(inner) => collect_vars(inner, vars),
        Expr::FuncCall { args, .. } => {
            let ghost es = exprs_view(args@);
            let ghost acc0 = strings_view(vars@);
            proof {
                lemma_exprs_view_index(args@);
                assert(es.skip(0) =~= es);
                assert forall|k: int| 0 <= k < args@.len() implies decreases_to!(
                    *expr => #[trigger] args@[k]
                ) by {
                    assert(decreases_to!(*expr => (*expr)->args));
                    assert(decreases_to!(*args => args@));
                    assert(decreases_to!(args@ => args@[k]));
                }
            }
            let mut i: usize = 0;
            while i < args.len()
                invariant
                    i <= args.len(),
                    es == exprs_view(args@),
                    es.len() == args.len(),
                    forall|k: int| 0 <= k < args.len() ==> #[trigger] es[k] == expr_view(args@[k]),
                    forall|k: int| 0 <= k < args@.len() ==> decreases_to!(*expr => #[trigger] args@[k]),
                    collect_list(es, acc0) == collect_list(es.skip(i as int), strings_view(vars@)),
                decreases args.len() - i,
            {
                proof {
                    lemma_collect_list_step(es, i as int, strings_view(vars@));
                }
                collect_vars(&args[i], vars);
                i = i + 1;
            }
            assert(es.skip(i as int) =~= Seq::<SpecExpr>::empty());
        },
        Expr::Number(_) => {},
    }
}


/// Collecting the variables of an expression keeps `acc` in front, adds no name twice,
/// and adds exactly the names that occur in it.
pub proof fn lemma_collect(e: SpecExpr, acc: Seq<Seq<char>>)
    requires
        acc.no_duplicates(),
    ensures
        collect(e, acc).no_duplicates(),
        acc.is_prefix_of(collect(e, acc)),
        forall|n: Seq<char>| #[trigger]
            collect(e, acc).contains(n) <==> (acc.contains(n) || occurs(e, n)),
    decreases e,
{
    match e {
        SpecExpr::Number(_) => {},
        SpecExpr::Variable(n) => {
            if !acc.contains(n) {
                assert forall|m: Seq<char>| #[trigger] acc.push(n).contains(m) <==> (acc.contains(m)
                    || m == n) by {
                    if acc.push(n).contains(m) {
                        let k = choose|k: int| 0 <= k < acc.push(n).len() && acc.push(n)[k] == m;
                        if k < acc.len() {
                            assert(acc[k] == m);
                        }
                    }
                    if acc.contains(m) {
                        let k = choose|k: int| 0 <= k < acc.len() && acc[k] == m;
                        assert(acc.push(n)[k] == m);
                    }
                    if m == n {
                        assert(acc.push(n)[acc.len() as int] == m);
                    }
                }
            }
        },
        SpecExpr::BinaryOp(_, l, r) => {
            lemma_collect(*l, acc);
            lemma_collect(*r, collect(*l, acc));
        },
        SpecExpr::UnaryMinus(x) => {
            lemma_collect(*x, acc);
        },
        SpecExpr::FuncCall(_, args) => {
            lemma_collect_list(args, acc);
        },
    }
}

/// Collecting the variables of expressions keeps `acc` in front, adds no name twice,
/// and adds exactly the names that occur in them.
pub proof fn lemma_collect_list(es: Seq<SpecExpr>, acc: Seq<Seq<char>>)
    requires
        acc.no_duplicates(),
    ensures
        collect_list(es, acc).no_duplicates(),
        acc.is_prefix_of(collect_list(es, acc)),
        forall|n: Seq<char>| #[trigger]
            collect_list(es, acc).contains(n) <==> (acc.contains(n) || occurs_list(es, n)),
    decreases es,
{
    if es.len() > 0 {
        lemma_collect(es[0], acc);
        lemma_collect_list(es.drop_first(), collect(es[0], acc));
    }
}

/// The variables of an expression are distinct, and they are exactly the names that
/// occur in it as variables.
pub proof fn law_variables_of(e: SpecExpr)
    ensures
        variables_of(e).no_duplicates(),
        forall|n: Seq<char>| #[trigger] variables_of(e).contains(n) <==> occurs(e, n),
{
    lemma_collect(e, seq![]);
}

/// `k` is the first index at which `x` stands in `s`.
pub open spec fn is_first_index(s: Seq<Seq<char>>, x: Seq<char>, k: int) -> bool {
    &&& 0 <= k < s.len()
    &&& s[k] == x
    &&& forall|j: int| 0 <= j < k ==> s[j] != x
}

/// `b` pairs each variable of `vars`, in order, with the first index of its name in
/// `allowed`.
pub open spec fn binds(b: Seq<(Seq<char>, int)>, vars: Seq<Seq<char>>, allowed: Seq<Seq<char>>) -> bool {
    &&& b.len() == vars.len()
    &&& forall|k: int| 0 <= k < vars.len() ==> #[trigger] b[k].0 == vars[k] && is_first_index(allowed, vars[k], b[k].1)
}

/// Every name of `vars` stands in `allowed`.
pub open spec fn all_allowed(vars: Seq<Seq<char>>, allowed: Seq<Seq<char>>) -> bool {
    forall|k: int| 0 <= k < vars.len() ==> allowed.contains(#[trigger] vars[k])
}

/// The first name of `vars` that does not stand in `allowed`.
pub open spec fn first_unknown(vars: Seq<Seq<char>>, allowed: Seq<Seq<char>>) -> Seq<char>
    decreases vars.len(),
{
    if vars.len() == 0 {
        seq![]
    } else if !allowed.contains(vars[0]) {
        vars[0]
    } else {
        first_unknown(vars.drop_first(), allowed)
    }
}

/// The text that `{:?}` gives for a list of strings.
pub uninterp spec fn debug_list_text(items: Seq<Seq<char>>) -> Seq<char>;

/// Formats a list of strings as `{:?}` does (`<[String] as Debug>::fmt`). The text is
/// named, not described: it depends on the strings alone.
#[verifier::external_body]
fn debug_string_list(items: &[String]) -> (r: String)
    ensures
        r@ == debug_list_text(strings_view(items@)),
{
    format!("{:?}", items)
}

/// The message for a variable that the allowed names do not hold.
pub open spec fn unknown_variable_message(name: Seq<char>, allowed: Seq<Seq<char>>) -> Seq<char> {
    "Unknown variable '"@ + name + "' in expression. Allowed: "@ + debug_list_text(allowed)
}

fn position_of(items: &[String], x: &String) -> (r: Option<usize>)
    ensures
        match r {
            Some(k) => is_first_index(strings_view(items@), x@, k as int),
            None => !strings_view(items@).contains(x@),
        },
{
    let mut i: usize = 0;
    while i < items.len()
        invariant
            i <= items@.len(),
            forall|j: int| 0 <= j < i ==> items@[j]@ != x@,
        decreases items@.len() - i,
    {
        if items[i] == *x {
            return Some(i);
        }
        i = i + 1;
    }
    assert(!strings_view(items@).contains(x@)) by {
        if strings_view(items@).contains(x@) {
            let k = choose|k: int|
                0 <= k < strings_view(items@).len() && strings_view(items@)[k] == x@;
            assert(items@[k]@ == x@);
        }
    }
    None
}

/// What compiling `input` against the variable names `allowed` gives: the tree, or
/// the compiler's message when the text is not an expression, or the unknown-variable
/// message for the first of its variables (in order of first occurrence) that
/// `allowed` does not hold.
pub open spec fn compile_result(input: Seq<char>, allowed: Seq<Seq<char>>) -> Result<SpecExpr, Seq<char>> {
    match spec_compile(input) {
        Err(m) => Err(m),
        Ok(x) => if all_allowed(variables_of(x), allowed) {
            Ok(x)
        } else {
            Err(unknown_variable_message(first_unknown(variables_of(x), allowed), allowed))
        },
    }
}

/// An expression compiled against a list of allowed variable names: its tree, and for
/// each of its variables the index of the value that stands for it.
pub struct CompiledExpr {
    ast: Expr,
    var_indices: Vec<(String, usize)>,
}

/// The model of variable bindings: each name with its index.
pub open spec fn bindings_view(b: Seq<(String, usize)>) -> Seq<(Seq<char>, int)> {
    b.map_values(|p: (String, usize)| (p.0@, p.1 as int))
}

impl CompiledExpr {
    /// The expression tree.
    pub closed spec fn tree(self) -> SpecExpr {
        self.ast@
    }

    /// Each variable of the tree with the index of its value.
    pub closed spec fn bindings(self) -> Seq<(Seq<char>, int)> {
        bindings_view(self.var_indices@)
    }

    /// Compiles `input`. It fails with the compiler's message when the text is not an
    /// expression, and with the unknown-variable message for the first variable (in
    /// order of first occurrence) that `allowed_vars` does not hold; otherwise each
    /// variable is bound to the first index of its name in `allowed_vars`.
    pub fn new(input: &str, allowed_vars: &[String]) -> (r: Result<Self, String>)
        ensures
            match compile_result(input@, strings_view(allowed_vars@)) {
                Ok(x) => r is Ok && r->Ok_0.tree() == x && binds(
                    r->Ok_0.bindings(),
                    variables_of(x),
                    strings_view(allowed_vars@),
                ),
                Err(m) => r is Err && r->Err_0@ == m,
            },
    {
        let ast = compile_expr(input)?;
        let mut var_names: Vec<String> = Vec::new();
        collect_vars(&ast, &mut var_names);
        proof {
            assert(strings_view(Seq::<String>::empty()) =~= seq![]);
        }
        let ghost vars = strings_view(var_names@);
        let ghost allowed = strings_view(allowed_vars@);
        let mut var_indices: Vec<(String, usize)> = Vec::new();
        let mut i: usize = 0;
        assert(vars.skip(0) =~= vars);
        while i < var_names.len()
            invariant
                i <= var_names.len(),
                vars == strings_view(var_names@),
                vars == variables_of(ast@),
                spec_compile(input@) == Ok::<SpecExpr, Seq<char>>(ast@),
                allowed == strings_view(allowed_vars@),
                binds(bindings_view(var_indices@), vars.take(i as int), allowed),
                all_allowed(vars.take(i as int), allowed),
                first_unknown(vars, allowed) == first_unknown(vars.skip(i as int), allowed),
            decreases var_names.len() - i,
        {
            assert(vars.skip(i as int).drop_first() =~= vars.skip(i + 1));
            assert(vars.skip(i as int)[0] == vars[i as int]);
            match position_of(allowed_vars, &var_names[i]) {
                Some(idx) => {
                    let ghost before = var_indices@;
                    var_indices.push((var_names[i].clone(), idx));
                    assert(bindings_view(var_indices@) =~= bindings_view(before).push(
                        (vars[i as int], idx as int),
                    ));
                    assert(vars.take(i + 1) =~= vars.take(i as int).push(vars[i as int]));
                    assert forall|k: int| 0 <= k < i + 1 implies #[trigger] bindings_view(
                        var_indices@,
                    )[k].0 == vars.take(i + 1)[k] && is_first_index(
                        allowed,
                        vars.take(i + 1)[k],
                        bindings_view(var_indices@)[k].1,
                    ) by {
                        if k < i {
                            assert(bindings_view(before)[k] == bindings_view(var_indices@)[k]);
                            assert(vars.take(i as int)[k] == vars.take(i + 1)[k]);
                        }
                    }
                    assert(allowed.contains(vars[i as int])) by {
                        assert(allowed[idx as int] == vars[i as int]);
                    }
                },
                None => {
                    proof {
                        assert(!all_allowed(vars, allowed)) by {
                            assert(!allowed.contains(vars[i as int]));
                        }
                        assert(first_unknown(vars.skip(i as int), allowed) == vars[i as int]);
                        reveal_strlit("Unknown variable '");
                        reveal_strlit("' in expression. Allowed: ");
                    }
                    let mut msg = String::from_str("Unknown variable '");
                    msg.append(var_names[i].as_str());
                    msg.append("' in expression. Allowed: ");
                    let listed = debug_string_list(allowed_vars);
                    msg.append(listed.as_str());
                    assert(msg@ =~= unknown_variable_message(vars[i as int], allowed));
                    return Err(msg);
                },
            }
            i = i + 1;
        }
        assert(vars.take(i as int) =~= vars);
        Ok(CompiledExpr { ast, var_indices })
    }

    /// The expression tree.
    pub fn ast(&self) -> (r: &Expr)
        ensures
            r@ == self.tree(),
    {
        &self.ast
    }

    /// Pairs each variable with its value in `values`; a variable whose index lies
    /// past the end of `values` is an error.
    pub fn bind_values<T: Copy>(&self, values: &[T]) -> (r: Result<Vec<(String, T)>, String>)
        ensures
            match r {
                Ok(pairs) => (forall|k: int|
                    0 <= k < self.bindings().len() ==> 0 <= #[trigger] self.bindings()[k].1
                        < values@.len()) && pairs@.len() == self.bindings().len() && forall|k: int|
                    0 <= k < pairs@.len() ==> #[trigger] pairs@[k].0@ == self.bindings()[k].0
                        && pairs@[k].1 == values@[self.bindings()[k].1],
                Err(m) => exists|k: int|
                    0 <= k < self.bindings().len() && self.bindings()[k].1 >= values@.len() && (
                    forall|j: int| 0 <= j < k ==> self.bindings()[j].1 < values@.len())
                        && m@ == out_of_bounds_message(
                        self.bindings()[k].0,
                        self.bindings()[k].1 as nat,
                        values@.len(),
                    ),
            },
    {
        let mut pairs: Vec<(String, T)> = Vec::new();
        let mut i: usize = 0;
        while i < self.var_indices.len()
            invariant
                i <= self.var_indices@.len(),
                pairs@.len() == i,
                forall|k: int| 0 <= k < i ==> 0 <= #[trigger] self.bindings()[k].1 < values@.len(),
                forall|k: int|
                    0 <= k < i ==> #[trigger] pairs@[k].0@ == self.bindings()[k].0 && pairs@[k].1
                        == values@[self.bindings()[k].1],
            decreases self.var_indices@.len() - i,
        {
            let name = &self.var_indices[i].0;
            let idx = self.var_indices[i].1;
            if idx < values.len() {
                pairs.push((name.clone(), values[idx]));
            } else {
                let mut msg = String::from_str("Variable '");
                msg.append(name.as_str());
                msg.append("' index ");
                let idx_text = usize_to_string(idx);
                msg.append(idx_text.as_str());
                msg.append(" out of bounds (values len: ");
                let len_text = usize_to_string(values.len());
                msg.append(len_text.as_str());
                msg.append(")");
                assert(self.bindings()[i as int].1 >= values@.len());
                return Err(msg);
            }
            i = i + 1;
        }
        Ok(pairs)
    }
}

/// The message for a variable whose index lies past the end of the values.
pub open spec fn out_of_bounds_message(name: Seq<char>, idx: nat, len: nat) -> Seq<char> {
    "Variable '"@ + name + "' index "@ + decimal(idx) + " out of bounds (values len: "@
        + decimal(len) + ")"@
}

/// The message for a call with the wrong number of arguments: `pow` takes two, every
/// other function one; `None` when the count is right.
pub open spec fn arity_message(name: Seq<char>, n: nat) -> Option<Seq<char>> {
    if name == "pow"@ {
        if n != 2 {
            Some("pow() requires exactly 2 arguments, got "@ + decimal(n))
        } else {
            None
        }
    } else if n != 1 {
        Some(name + "() requires exactly 1 argument, got "@ + decimal(n))
    } else {
        None
    }
}

/// Checks the number of arguments of a call before it is evaluated.
pub fn check_arity(name: &str, n: usize) -> (r: Result<(), String>)
    ensures
        match arity_message(name@, n as nat) {
            Some(m) => r is Err && r->Err_0@ == m,
            None => r is Ok,
        },
{
    proof {
        reveal_strlit("pow");
    }
    if str_eq(name, "pow") {
        if n != 2 {
            let mut m = String::from_str("pow() requires exactly 2 arguments, got ");
            let t = usize_to_string(n);
            m.append(t.as_str());
            return Err(m);
        }
        Ok(())
    } else if n != 1 {
        let mut m = String::from_str(name);
        m.append("() requires exactly 1 argument, got ");
        let t = usize_to_string(n);
        m.append(t.as_str());
        Err(m)
    } else {
        Ok(())
    }
}

/// The message for a variable that has no value.
pub fn undefined_variable_message(name: &str) -> (r: String)
    ensures
        r@ == "Undefined variable: "@ + name@,
{
    let mut m = String::from_str("Undefined variable: ");
    m.append(name);
    m
}

/// Every function token names an allowed function.
pub open spec fn only_allowed_functions(ts: Seq<SpecToken>) -> bool {
    forall|k: int| 0 <= k < ts.len() ==> (#[trigger] ts[k] matches SpecToken::Func(n) ==> is_allowed_func_name(n))
}

/// Every function that an expression calls is an allowed one.
pub open spec fn calls_allowed(e: SpecExpr) -> bool
    decreases e,
{
    match e {
        SpecExpr::BinaryOp(_, l, r) => calls_allowed(*l) && calls_allowed(*r),
        SpecExpr::UnaryMinus(x) => calls_allowed(*x),
        SpecExpr::FuncCall(name, args) => is_allowed_func_name(name) && calls_allowed_list(args),
        _ => true,
    }
}

/// Every function that the expressions call is an allowed one.
pub open spec fn calls_allowed_list(es: Seq<SpecExpr>) -> bool
    decreases es,
{
    if es.len() == 0 {
        true
    } else {
        calls_allowed(es[0]) && calls_allowed_list(es.drop_first())
    }
}

proof fn lemma_calls_allowed_push(es: Seq<SpecExpr>, a: SpecExpr)
    requires
        calls_allowed_list(es),
        calls_allowed(a),
    ensures
        calls_allowed_list(es.push(a)),
    decreases es.len(),
{
    if es.len() > 0 {
        assert(es.push(a).drop_first() =~= es.drop_first().push(a));
        lemma_calls_allowed_push(es.drop_first(), a);
        assert(es.push(a)[0] == es[0]);
    } else {
        assert(es.push(a).drop_first() =~= Seq::<SpecExpr>::empty());
        assert(calls_allowed_list(es.push(a).drop_first()));
        assert(es.push(a)[0] == a);
    }
}

/// Tokens never name a function that is not allowed.
pub proof fn law_tokens_name_allowed_functions(s: Seq<char>, i: int)
    ensures
        spec_tokenize(s, i).0 matches Ok(ts) ==> only_allowed_functions(ts),
    decreases s.len() - i,
{
    if 0 <= i < s.len() {
        let c = s[i];
        if is_space(c) {
            law_tokens_name_allowed_functions(s, i + 1);
        } else if is_number_char(c) {
            lemma_number_end(s, i);
            law_tokens_name_allowed_functions(s, number_end(s, i));
            lemma_prepend_allowed(SpecToken::Number(s.subrange(i, number_end(s, i))), spec_tokenize(s, number_end(s, i)));
        } else if is_name_start(c) {
            lemma_name_end(s, i);
            let e = name_end(s, i);
            let name = s.subrange(i, e);
            law_tokens_name_allowed_functions(s, e);
            if is_allowed_func_name(name) {
                lemma_prepend_allowed(SpecToken::Func(name), spec_tokenize(s, e));
            } else {
                lemma_prepend_allowed(SpecToken::Variable(name), spec_tokenize(s, e));
            }
        } else if punct_token(c) is Some {
            law_tokens_name_allowed_functions(s, i + 1);
            lemma_prepend_allowed(punct_token(c)->0, spec_tokenize(s, i + 1));
        }
    }
}

proof fn lemma_prepend_allowed(t: SpecToken, r: TokenizeOutcome)
    requires
        t matches SpecToken::Func(n) ==> is_allowed_func_name(n),
        r.0 matches Ok(ts) ==> only_allowed_functions(ts),
    ensures
        prepend_token(t, r).0 matches Ok(ts) ==> only_allowed_functions(ts),
{
    if let Ok(ts) = r.0 {
        let all = seq![t] + ts;
        assert forall|k: int| 0 <= k < all.len() implies (#[trigger] all[k] matches SpecToken::Func(n)
            ==> is_allowed_func_name(n)) by {
            if k > 0 {
                assert(all[k] == ts[k - 1]);
            }
        }
    }
}

proof fn lemma_parse_add_allowed(t: Seq<SpecToken>, i: int)
    requires
        only_allowed_functions(t),
    ensures
        parse_add(t, i) matches Ok((x, _)) ==> calls_allowed(x),
    decreases t.len() - i, 5int,
{
    if 0 <= i <= t.len() {
        lemma_parse_mul_allowed(t, i);
        if let Ok((l, j)) = parse_mul(t, i) {
            if i < j <= t.len() {
                lemma_parse_add_rest_allowed(t, l, j);
            }
        }
    }
}

proof fn lemma_parse_add_rest_allowed(t: Seq<SpecToken>, left: SpecExpr, j: int)
    requires
        only_allowed_functions(t),
        calls_allowed(left),
    ensures
        parse_add_rest(t, left, j) matches Ok((x, _)) ==> calls_allowed(x),
    decreases t.len() - j, 5int,
{
    if 0 <= j <= t.len() {
        match token_at(t, j) {
            Some(SpecToken::Plus) => {
                lemma_parse_mul_allowed(t, j + 1);
                if let Ok((r, k)) = parse_mul(t, j + 1) {
                    if j < k <= t.len() {
                        lemma_parse_add_rest_allowed(t, binary(BinOp::Add, left, r), k);
                    }
                }
            },
            Some(SpecToken::Minus) => {
                lemma_parse_mul_allowed(t, j + 1);
                if let Ok((r, k)) = parse_mul(t, j + 1) {
                    if j < k <= t.len() {
                        lemma_parse_add_rest_allowed(t, binary(BinOp::Sub, left, r), k);
                    }
                }
            },
            _ => {},
        }
    }
}

proof fn lemma_parse_mul_allowed(t: Seq<SpecToken>, i: int)
    requires
        only_allowed_functions(t),
    ensures
        parse_mul(t, i) matches Ok((x, _)) ==> calls_allowed(x),
    decreases t.len() - i, 4int,
{
    if 0 <= i <= t.len() {
        lemma_parse_pow_allowed(t, i);
        if let Ok((l, j)) = parse_pow(t, i) {
            if i < j <= t.len() {
                lemma_parse_mul_rest_allowed(t, l, j);
            }
        }
    }
}

proof fn lemma_parse_mul_rest_allowed(t: Seq<SpecToken>, left: SpecExpr, j: int)
    requires
        only_allowed_functions(t),
        calls_allowed(left),
    ensures
        parse_mul_rest(t, left, j) matches Ok((x, _)) ==> calls_allowed(x),
    decreases t.len() - j, 4int,
{
    if 0 <= j <= t.len() {
        match token_at(t, j) {
            Some(SpecToken::Star) => {
                lemma_parse_pow_allowed(t, j + 1);
                if let Ok((r, k)) = parse_pow(t, j + 1) {
                    if j < k <= t.len() {
                        lemma_parse_mul_rest_allowed(t, binary(BinOp::Mul, left, r), k);
                    }
                }
            },
            Some(SpecToken::Slash) => {
                lemma_parse_pow_allowed(t, j + 1);
                if let Ok((r, k)) = parse_pow(t, j + 1) {
                    if j < k <= t.len() {
                        lemma_parse_mul_rest_allowed(t, binary(BinOp::Div, left, r), k);
                    }
                }
            },
            _ => {},
        }
    }
}

proof fn lemma_parse_pow_allowed(t: Seq<SpecToken>, i: int)
    requires
        only_allowed_functions(t),
    ensures
        parse_pow(t, i) matches Ok((x, _)) ==> calls_allowed(x),
    decreases t.len() - i, 3int,
{
    if 0 <= i <= t.len() {
        lemma_parse_unary_allowed(t, i);
        if let Ok((b, j)) = parse_unary(t, i) {
            if token_at(t, j) == Some(SpecToken::Caret) && i < j {
                lemma_parse_unary_allowed(t, j + 1);
            }
        }
    }
}

proof fn lemma_parse_unary_allowed(t: Seq<SpecToken>, i: int)
    requires
        only_allowed_functions(t),
    ensures
        parse_unary(t, i) matches Ok((x, _)) ==> calls_allowed(x),
    decreases t.len() - i, 2int,
{
    if 0 <= i <= t.len() {
        match token_at(t, i) {
            Some(SpecToken::Minus) => {
                lemma_parse_unary_allowed(t, i + 1);
            },
            Some(SpecToken::Plus) => {
                lemma_parse_unary_allowed(t, i + 1);
            },
            _ => {
                lemma_parse_primary_allowed(t, i);
            },
        }
    }
}

proof fn lemma_parse_primary_allowed(t: Seq<SpecToken>, i: int)
    requires
        only_allowed_functions(t),
    ensures
        parse_primary(t, i) matches Ok((x, _)) ==> calls_allowed(x),
    decreases t.len() - i, 1int,
{
    if 0 <= i <= t.len() {
        match token_at(t, i) {
            Some(SpecToken::Func(name)) => {
                assert(t[i] matches SpecToken::Func(n) ==> is_allowed_func_name(n));
                lemma_parse_call_allowed(t, name, i + 1);
            },
            Some(SpecToken::LParen) => {
                lemma_parse_add_allowed(t, i + 1);
            },
            _ => {},
        }
    }
}

proof fn lemma_parse_call_allowed(t: Seq<SpecToken>, name: Seq<char>, j: int)
    requires
        only_allowed_functions(t),
        is_allowed_func_name(name),
    ensures
        parse_call(t, name, j) matches Ok((x, _)) ==> calls_allowed(x),
    decreases t.len() - j, 7int,
{
    if 0 <= j <= t.len() && token_at(t, j) == Some(SpecToken::LParen) {
        if token_at(t, j + 1) != Some(SpecToken::RParen) {
            lemma_parse_args_allowed(t, j + 1);
        } else {
            assert(calls_allowed_list(Seq::<SpecExpr>::empty()));
        }
    }
}

proof fn lemma_parse_args_allowed(t: Seq<SpecToken>, i: int)
    requires
        only_allowed_functions(t),
    ensures
        parse_args(t, i) matches Ok((a, _)) ==> calls_allowed_list(a),
    decreases t.len() - i, 6int,
{
    if 0 <= i <= t.len() {
        lemma_parse_add_allowed(t, i);
        if let Ok((a, j)) = parse_add(t, i) {
            lemma_calls_allowed_push(seq![], a);
            assert(Seq::<SpecExpr>::empty().push(a) =~= seq![a]);
            if i < j <= t.len() {
                lemma_parse_args_rest_allowed(t, seq![a], j);
            }
        }
    }
}

proof fn lemma_parse_args_rest_allowed(t: Seq<SpecToken>, acc: Seq<SpecExpr>, j: int)
    requires
        only_allowed_functions(t),
        calls_allowed_list(acc),
    ensures
        parse_args_rest(t, acc, j) matches Ok((a, _)) ==> calls_allowed_list(a),
    decreases t.len() - j, 6int,
{
    if 0 <= j <= t.len() && token_at(t, j) == Some(SpecToken::Comma) {
        lemma_parse_add_allowed(t, j + 1);
        if let Ok((a, k)) = parse_add(t, j + 1) {
            lemma_calls_allowed_push(acc, a);
            if j < k <= t.len() {
                lemma_parse_args_rest_allowed(t, acc.push(a), k);
            }
        }
    }
}

/// A compiled expression calls only the allowed functions: no other name can reach
/// evaluation as a function.
pub proof fn law_compiled_calls_allowed(s: Seq<char>)
    ensures
        spec_compile(s) matches Ok(x) ==> calls_allowed(x),
{
    law_tokens_name_allowed_functions(s, 0);
    if let Ok(ts) = tokenize_all(s) {
        lemma_parse_add_allowed(ts, 0);
    }
}

} // verus!
