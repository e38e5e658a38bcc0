//! The formula language: its tokens, its grammar, and a parser for both.
//!
//! ```text
//! expr   := term (('+' | '-') term)*
//! term   := factor (('*' | '/') factor)*
//! factor := '-' factor | number | string | ident | '[' raw-ident ']' | '(' expr ')'
//! ```
//!
//! The grammar is written down twice: as specification functions over
//! characters and tokens, and as the code that is proved to compute them.

use vstd::prelude::*;
use crate::number::{is_digit, unsigned_decimal, Number};
use crate::text::{chars_of, skip_spaces, slice_of, text_of_range, trim, trim_bounds};

verus! {

broadcast use vstd::std_specs::vec::group_vec_axioms;

/// Why a text is no formula.
#[derive(Clone, Copy, Debug, PartialEq, Eq, Structural)]
pub enum FormulaError {
    /// Nothing is left once the leading `=` and white space are gone.
    Empty,
    /// A character that starts no token.
    UnexpectedCharacter,
    /// Digits and points that make no number, or one too large.
    InvalidNumber,
    /// A string literal without its closing quote.
    UnterminatedString,
    /// A bracket identifier without its closing bracket.
    UnterminatedBracket,
    /// A token that starts no expression where one is due.
    ExpectedExpression,
    /// An opening parenthesis without its partner.
    MissingParenthesis,
    /// Tokens after a complete expression.
    TrailingTokens,
}

#[derive(Clone, Copy, Debug, PartialEq, Eq, Structural)]
pub enum BinOp {
    Add,
    Sub,
    Mul,
    Div,
}

pub enum TokenModel {
    Number(int),
    Text(Seq<char>),
    Ident(Seq<char>),
    Plus,
    Minus,
    Star,
    Slash,
    LParen,
    RParen,
}

#[derive(Debug, PartialEq)]
pub enum Token {
    Number(Number),
    String(String),
    Ident(String),
    Plus,
    Minus,
    Star,
    Slash,
    LParen,
    RParen,
}

pub enum ExprModel {
    Number(int),
    Text(Seq<char>),
    Ident(Seq<char>),
    Negate(Box<ExprModel>),
    Binary(BinOp, Box<ExprModel>, Box<ExprModel>),
}

#[derive(Debug, PartialEq)]
pub enum Expr {
    Number(Number),
    String(String),
    Ident(String),
    UnaryMinus(Box<Expr>),
    Binary { op: BinOp, left: Box<Expr>, right: Box<Expr> },
}

impl Token {
    pub open spec fn model_of(self) -> TokenModel {
        match self {
            Token::Number(n) => TokenModel::Number(n.units()),
            Token::String(s) => TokenModel::Text(s@),
            Token::Ident(s) => TokenModel::Ident(s@),
            Token::Plus => TokenModel::Plus,
            Token::Minus => TokenModel::Minus,
            Token::Star => TokenModel::Star,
            Token::Slash => TokenModel::Slash,
            Token::LParen => TokenModel::LParen,
            Token::RParen => TokenModel::RParen,
        }
    }
}

impl Expr {
    pub open spec fn model_of(self) -> ExprModel
        decreases self,
    {
        match self {
            Expr::Number(n) => ExprModel::Number(n.units()),
            Expr::String(s) => ExprModel::Text(s@),
            Expr::Ident(s) => ExprModel::Ident(s@),
            Expr::UnaryMinus(inner) => ExprModel::Negate(Box::new(inner.model_of())),
            Expr::Binary { op, left, right } => ExprModel::Binary(
                op,
                Box::new(left.model_of()),
                Box::new(right.model_of()),
            ),
        }
    }
}

pub open spec fn tokens_model(tokens: Seq<Token>) -> Seq<TokenModel> {
    Seq::new(tokens.len(), |i: int| tokens[i].model_of())
}

/// White space between tokens: space, tab, line feed, form feed, carriage return.
pub open spec fn is_blank(c: char) -> bool {
    c == ' ' || c == '\t' || c == '\n' || c == '\x0C' || c == '\r'
}

pub open spec fn is_letter(c: char) -> bool {
    ('a' <= c <= 'z') || ('A' <= c <= 'Z')
}

pub open spec fn is_number_part(c: char) -> bool {
    is_digit(c) || c == '.'
}

pub open spec fn is_ident_start(c: char) -> bool {
    is_letter(c) || c == '_'
}

pub open spec fn is_ident_part(c: char) -> bool {
    is_letter(c) || is_digit(c) || c == '_'
}

pub open spec fn is_not_closing_bracket(c: char) -> bool {
    c != ']'
}

/// The end of the run of characters of one class that starts at `i`.
pub open spec fn run_end(s: Seq<char>, i: int, class: spec_fn(char) -> bool) -> int
    decreases s.len() - i,
{
    if 0 <= i < s.len() && class(s[i]) {
        run_end(s, i + 1, class)
    } else {
        i
    }
}

/// The character that stands behind a backslash in a string literal.
pub open spec fn unescaped(c: char) -> char {
    if c == 'n' {
        '\n'
    } else if c == 't' {
        '\t'
    } else {
        c
    }
}

/// The content of the string literal whose opening quote stands before `i`,
/// and the index behind its closing quote; none where the quote never closes.
pub open spec fn scan_string(s: Seq<char>, i: int) -> Option<(Seq<char>, int)>
    decreases s.len() - i,
{
    if i < 0 || i >= s.len() {
        None
    } else if s[i] == '\\' {
        if i + 1 >= s.len() {
            None
        } else {
            match scan_string(s, i + 2) {
                Some((rest, end)) => Some((seq![unescaped(s[i + 1])] + rest, end)),
                None => None,
            }
        }
    } else if s[i] == '"' {
        Some((Seq::<char>::empty(), i + 1))
    } else {
        match scan_string(s, i + 1) {
            Some((rest, end)) => Some((seq![s[i]] + rest, end)),
            None => None,
        }
    }
}

pub open spec fn with_token(
    token: TokenModel,
    rest: Result<Seq<TokenModel>, FormulaError>,
) -> Result<Seq<TokenModel>, FormulaError> {
    match rest {
        Ok(tokens) => Ok(seq![token] + tokens),
        Err(e) => Err(e),
    }
}

pub open spec fn operator_token(c: char) -> Option<TokenModel> {
    if c == '+' {
        Some(TokenModel::Plus)
    } else if c == '-' {
        Some(TokenModel::Minus)
    } else if c == '*' {
        Some(TokenModel::Star)
    } else if c == '/' {
        Some(TokenModel::Slash)
    } else if c == '(' {
        Some(TokenModel::LParen)
    } else if c == ')' {
        Some(TokenModel::RParen)
    } else {
        None
    }
}

/// The tokens of `s` from index `i` on, or the first error met.
pub open spec fn lex_from(s: Seq<char>, i: int) -> Result<Seq<TokenModel>, FormulaError>
    decreases s.len() - i,
{
    if i < 0 || i >= s.len() {
        Ok(Seq::<TokenModel>::empty())
    } else {
        let c = s[i];
        if is_blank(c) {
            lex_from(s, i + 1)
        } else if is_number_part(c) {
            let end = run_end(s, i, |x: char| is_number_part(x));
            match unsigned_decimal(s.subrange(i, end)) {
                Some(m) => if i < end <= s.len() {
                    with_token(TokenModel::Number(m as int), lex_from(s, end))
                } else {
                    Err(FormulaError::InvalidNumber)
                },
                None => Err(FormulaError::InvalidNumber),
            }
        } else if c == '"' {
            match scan_string(s, i + 1) {
                Some((text, end)) => if i < end <= s.len() {
                    with_token(TokenModel::Text(text), lex_from(s, end))
                } else {
                    Err(FormulaError::UnterminatedString)
                },
                None => Err(FormulaError::UnterminatedString),
            }
        } else if c == '[' {
            let end = run_end(s, i + 1, |x: char| is_not_closing_bracket(x));
            if i < end < s.len() {
                with_token(TokenModel::Ident(s.subrange(i + 1, end)), lex_from(s, end + 1))
            } else {
                Err(FormulaError::UnterminatedBracket)
            }
        } else if is_ident_start(c) {
            let end = run_end(s, i, |x: char| is_ident_part(x));
            if i < end <= s.len() {
                with_token(TokenModel::Ident(s.subrange(i, end)), lex_from(s, end))
            } else {
                Err(FormulaError::UnexpectedCharacter)
            }
        } else {
            match operator_token(c) {
                Some(token) => with_token(token, lex_from(s, i + 1)),
                None => Err(FormulaError::UnexpectedCharacter),
            }
        }
    }
}

/// The tokens of a formula text.
pub open spec fn lex(s: Seq<char>) -> Result<Seq<TokenModel>, FormulaError> {
    lex_from(s, 0)
}

pub type Parsed = Result<(ExprModel, int), FormulaError>;

/// A factor that starts at token `pos`, and the index behind it.
pub open spec fn parse_factor(t: Seq<TokenModel>, pos: int) -> Parsed
    decreases t.len() - pos, 0nat,
{
    if pos < 0 || pos >= t.len() {
        Err(FormulaError::ExpectedExpression)
    } else {
        match t[pos] {
            TokenModel::Minus => match parse_factor(t, pos + 1) {
                Ok((inner, next)) => Ok((ExprModel::Negate(Box::new(inner)), next)),
                Err(e) => Err(e),
            },
            TokenModel::Number(u) => Ok((ExprModel::Number(u), pos + 1)),
            TokenModel::Text(s) => Ok((ExprModel::Text(s), pos + 1)),
            TokenModel::Ident(s) => Ok((ExprModel::Ident(s), pos + 1)),
            TokenModel::LParen => match parse_expr(t, pos + 1) {
                Ok((inner, next)) => if 0 <= next < t.len() && t[next] is RParen {
                    Ok((inner, next + 1))
                } else {
                    Err(FormulaError::MissingParenthesis)
                },
                Err(e) => Err(e),
            },
            _ => Err(FormulaError::ExpectedExpression),
        }
    }
}

/// The factors that follow `left` behind `*` and `/`, folded to the left.
pub open spec fn term_rest(t: Seq<TokenModel>, left: ExprModel, pos: int) -> Parsed
    decreases t.len() - pos, 1nat,
{
    if 0 <= pos < t.len() && (t[pos] is Star || t[pos] is Slash) {
        let op = if t[pos] is Star {
            BinOp::Mul
        } else {
            BinOp::Div
        };
        match parse_factor(t, pos + 1) {
            Ok((right, next)) => if pos < next <= t.len() {
                term_rest(t, ExprModel::Binary(op, Box::new(left), Box::new(right)), next)
            } else {
                Err(FormulaError::ExpectedExpression)
            },
            Err(e) => Err(e),
        }
    } else {
        Ok((left, pos))
    }
}

pub open spec fn parse_term(t: Seq<TokenModel>, pos: int) -> Parsed
    decreases t.len() - pos, 2nat,
{
    match parse_factor(t, pos) {
        Ok((left, next)) => if pos < next <= t.len() {
            term_rest(t, left, next)
        } else {
            Err(FormulaError::ExpectedExpression)
        },
        Err(e) => Err(e),
    }
}

/// The terms that follow `left` behind `+` and `-`, folded to the left.
pub open spec fn expr_rest(t: Seq<TokenModel>, left: ExprModel, pos: int) -> Parsed
    decreases t.len() - pos, 3nat,
{
    if 0 <= pos < t.len() && (t[pos] is Plus || t[pos] is Minus) {
        let op = if t[pos] is Plus {
            BinOp::Add
        } else {
            BinOp::Sub
        };
        match parse_term(t, pos + 1) {
            Ok((right, next)) => if pos < next <= t.len() {
                expr_rest(t, ExprModel::Binary(op, Box::new(left), Box::new(right)), next)
            } else {
                Err(FormulaError::ExpectedExpression)
            },
            Err(e) => Err(e),
        }
    } else {
        Ok((left, pos))
    }
}

pub open spec fn parse_expr(t: Seq<TokenModel>, pos: int) -> Parsed
    decreases t.len() - pos, 4nat,
{
    match parse_term(t, pos) {
        Ok((left, next)) => if pos < next <= t.len() {
            expr_rest(t, left, next)
        } else {
            Err(FormulaError::ExpectedExpression)
        },
        Err(e) => Err(e),
    }
}

/// The expression that a token sequence spells, all of it.
pub open spec fn parse_tokens(t: Seq<TokenModel>) -> Result<ExprModel, FormulaError> {
    if t.len() == 0 {
        Err(FormulaError::Empty)
    } else {
        match parse_expr(t, 0) {
            Ok((e, next)) => if next == t.len() {
                Ok(e)
            } else {
                Err(FormulaError::TrailingTokens)
            },
            Err(e) => Err(e),
        }
    }
}

/// The expression that a normalized formula text spells.
pub open spec fn parse_text(s: Seq<char>) -> Result<ExprModel, FormulaError> {
    match lex(s) {
        Ok(t) => parse_tokens(t),
        Err(e) => Err(e),
    }
}

/// A formula text without surrounding white space and without its leading `=`;
/// none where nothing is left.
pub open spec fn normalized(raw: Seq<char>) -> Option<Seq<char>> {
    let t = trim(raw);
    let body = if t.len() > 0 && t[0] == '=' {
        let rest = t.subrange(1, t.len() as int);
        rest.subrange(skip_spaces(rest, 0), rest.len() as int)
    } else {
        t
    };
    if body.len() == 0 {
        None
    } else {
        Some(body)
    }
}

/// Whether a text, once normalized, is a formula.
pub open spec fn is_formula(raw: Seq<char>) -> bool {
    match normalized(raw) {
        Some(body) => parse_text(body) is Ok,
        None => false,
    }
}

fn blank(c: char) -> (r: bool)
    ensures
        r == is_blank(c),
{
    c == ' ' || c == '\t' || c == '\n' || c == '\x0C' || c == '\r'
}

fn digit(c: char) -> (r: bool)
    ensures
        r == is_digit(c),
{
    '0' <= c && c <= '9'
}

fn letter(c: char) -> (r: bool)
    ensures
        r == is_letter(c),
{
    ('a' <= c && c <= 'z') || ('A' <= c && c <= 'Z')
}

proof fn lemma_run_end_bounds(s: Seq<char>, i: int, class: spec_fn(char) -> bool)
    requires
        0 <= i <= s.len(),
    ensures
        i <= run_end(s, i, class) <= s.len(),
        0 <= i < s.len() && class(s[i]) ==> run_end(s, i, class) > i,
    decreases s.len() - i,
{
    if i < s.len() && class(s[i]) {
        lemma_run_end_bounds(s, i + 1, class);
    }
}

/// Reads the number that starts at `start`.
fn consume_number(v: &Vec<char>, start: usize) -> (r: (Option<Number>, usize))
    requires
        start < v.len(),
        is_number_part(v@[start as int]),
    ensures
        r.1 == run_end(v@, start as int, |x: char| is_number_part(x)),
        start < r.1 <= v.len(),
        crate::number::units_of(r.0) == match unsigned_decimal(
            v@.subrange(start as int, r.1 as int),
        ) {
            Some(m) => Some(m as int),
            None => None,
        },
{
    let ghost class = |x: char| is_number_part(x);
    let mut i: usize = start;
    proof {
        lemma_run_end_bounds(v@, start as int, class);
    }
    while i < v.len() && (digit(v[i]) || v[i] == '.')
        invariant
            start <= i <= v.len(),
            class == (|x: char| is_number_part(x)),
            run_end(v@, start as int, class) == run_end(v@, i as int, class),
        decreases v.len() - i,
    {
        i += 1;
    }
    let piece = slice_of(v, start, i);
    (Number::parse_unsigned_chars(&piece), i)
}

/// Reads the identifier that starts at `start`.
fn consume_ident(v: &Vec<char>, start: usize) -> (r: (String, usize))
    requires
        start < v.len(),
        is_ident_start(v@[start as int]),
    ensures
        r.1 == run_end(v@, start as int, |x: char| is_ident_part(x)),
        start < r.1 <= v.len(),
        r.0@ == v@.subrange(start as int, r.1 as int),
{
    let ghost class = |x: char| is_ident_part(x);
    let mut i: usize = start;
    proof {
        lemma_run_end_bounds(v@, start as int, class);
    }
    while i < v.len() && (letter(v[i]) || digit(v[i]) || v[i] == '_')
        invariant
            start <= i <= v.len(),
            class == (|x: char| is_ident_part(x)),
            run_end(v@, start as int, class) == run_end(v@, i as int, class),
        decreases v.len() - i,
    {
        i += 1;
    }
    (text_of_range(v, start, i), i)
}

/// Reads the bracket identifier whose opening bracket stands at `start`.
fn consume_bracket(v: &Vec<char>, start: usize) -> (r: Option<(String, usize)>)
    requires
        start < v.len(),
    ensures
        ({
            let end = run_end(v@, start + 1, |x: char| is_not_closing_bracket(x));
            match r {
                Some((name, next)) => start < end < v.len() && next == end + 1 && name@
                    == v@.subrange(start + 1, end),
                None => end >= v.len(),
            }
        }),
{
    let ghost class = |x: char| is_not_closing_bracket(x);
    let mut i: usize = start + 1;
    proof {
        lemma_run_end_bounds(v@, start + 1, class);
    }
    while i < v.len() && v[i] != ']'
        invariant
            start < i <= v.len(),
            class == (|x: char| is_not_closing_bracket(x)),
            run_end(v@, start + 1, class) == run_end(v@, i as int, class),
        decreases v.len() - i,
    {
        i += 1;
    }
    if i < v.len() {
        Some((text_of_range(v, start + 1, i), i + 1))
    } else {
        None
    }
}

pub open spec fn with_text(prefix: Seq<char>, rest: Option<(Seq<char>, int)>) -> Option<
    (Seq<char>, int),
> {
    match rest {
        Some((text, end)) => Some((prefix + text, end)),
        None => None,
    }
}

/// Reads the string literal whose opening quote stands before `start`.
fn consume_string(v: &Vec<char>, start: usize) -> (r: Option<(String, usize)>)
    requires
        start <= v.len(),
    ensures
        match r {
            Some((text, next)) => scan_string(v@, start as int) == Some((text@, next as int))
                && start < next <= v.len(),
            None => scan_string(v@, start as int) is None,
        },
{
    let mut out = String::new();
    let mut i: usize = start;
    assert(with_text(out@, scan_string(v@, i as int)) == scan_string(v@, start as int)) by {
        match scan_string(v@, start as int) {
            Some((text, end)) => {
                assert(Seq::<char>::empty() + text =~= text);
            },
            None => {},
        }
    }
    while i < v.len()
        invariant
            start <= i <= v.len(),
            with_text(out@, scan_string(v@, i as int)) == scan_string(v@, start as int),
        decreases v.len() - i,
    {
        let c = v[i];
        let ghost before = out@;
        if c == '\\' {
            if i + 1 >= v.len() {
                return None;
            }
            let e = v[i + 1];
            let u = if e == 'n' {
                '\n'
            } else if e == 't' {
                '\t'
            } else {
                e
            };
            out.push(u);
            proof {
                match scan_string(v@, i + 2) {
                    Some((rest, end)) => {
                        assert(before + (seq![u] + rest) =~= before.push(u) + rest);
                    },
                    None => {},
                }
            }
            i += 2;
        } else if c == '"' {
            assert(before + Seq::<char>::empty() =~= before);
            return Some((out, i + 1));
        } else {
            out.push(c);
            proof {
                match scan_string(v@, i + 1) {
                    Some((rest, end)) => {
                        assert(before + (seq![c] + rest) =~= before.push(c) + rest);
                    },
                    None => {},
                }
            }
            i += 1;
        }
    }
    None
}

pub open spec fn with_tokens(
    prefix: Seq<TokenModel>,
    rest: Result<Seq<TokenModel>, FormulaError>,
) -> Result<Seq<TokenModel>, FormulaError> {
    match rest {
        Ok(tokens) => Ok(prefix + tokens),
        Err(e) => Err(e),
    }
}

proof fn lemma_with_tokens_step(
    prefix: Seq<TokenModel>,
    token: TokenModel,
    rest: Result<Seq<TokenModel>, FormulaError>,
)
    ensures
        with_tokens(prefix, with_token(token, rest)) == with_tokens(prefix.push(token), rest),
{
    match rest {
        Ok(tokens) => {
            assert(prefix + (seq![token] + tokens) =~= prefix.push(token) + tokens);
        },
        Err(e) => {},
    }
}

/// Splits a formula text into tokens.
pub fn tokenize(v: &Vec<char>) -> (r: Result<Vec<Token>, FormulaError>)
    ensures
        match r {
            Ok(tokens) => lex(v@) == Ok::<Seq<TokenModel>, FormulaError>(tokens_model(tokens@)),
            Err(e) => lex(v@) == Err::<Seq<TokenModel>, FormulaError>(e),
        },
{
    let mut tokens: Vec<Token> = Vec::new();
    let mut i: usize = 0;
    assert(with_tokens(tokens_model(tokens@), lex_from(v@, 0)) == lex(v@)) by {
        match lex_from(v@, 0) {
            Ok(t) => {
                assert(tokens_model(tokens@) + t =~= t);
            },
            Err(e) => {},
        }
    }
    while i < v.len()
        invariant
            i <= v.len(),
            with_tokens(tokens_model(tokens@), lex_from(v@, i as int)) == lex(v@),
        decreases v.len() - i,
    {
        let c = v[i];
        let ghost before = tokens_model(tokens@);
        if blank(c) {
            i += 1;
        } else if digit(c) || c == '.' {
            let (number, end) = consume_number(v, i);
            match number {
                Some(n) => {
                    proof {
                        lemma_with_tokens_step(
                            before,
                            TokenModel::Number(n.units()),
                            lex_from(v@, end as int),
                        );
                    }
                    tokens.push(Token::Number(n));
                    assert(tokens_model(tokens@) =~= before.push(TokenModel::Number(n.units())));
                    i = end;
                },
                None => {
                    return Err(FormulaError::InvalidNumber);
                },
            }
        } else if c == '"' {
            match consume_string(v, i + 1) {
                Some((text, end)) => {
                    proof {
                        lemma_with_tokens_step(
                            before,
                            TokenModel::Text(text@),
                            lex_from(v@, end as int),
                        );
                    }
                    tokens.push(Token::String(text));
                    assert(tokens_model(tokens@) =~= before.push(TokenModel::Text(text@)));
                    i = end;
                },
                None => {
                    return Err(FormulaError::UnterminatedString);
                },
            }
        } else if c == '[' {
            match consume_bracket(v, i) {
                Some((name, end)) => {
                    proof {
                        lemma_with_tokens_step(
                            before,
                            TokenModel::Ident(name@),
                            lex_from(v@, end as int),
                        );
                    }
                    tokens.push(Token::Ident(name));
                    assert(tokens_model(tokens@) =~= before.push(TokenModel::Ident(name@)));
                    i = end;
                },
                None => {
                    return Err(FormulaError::UnterminatedBracket);
                },
            }
        } else if letter(c) || c == '_' {
            let (name, end) = consume_ident(v, i);
            proof {
                lemma_with_tokens_step(before, TokenModel::Ident(name@), lex_from(v@, end as int));
            }
            tokens.push(Token::Ident(name));
            assert(tokens_model(tokens@) =~= before.push(TokenModel::Ident(name@)));
            i = end;
        } else {
            let token = if c == '+' {
                Token::Plus
            } else if c == '-' {
                Token::Minus
            } else if c == '*' {
                Token::Star
            } else if c == '/' {
                Token::Slash
            } else if c == '(' {
                Token::LParen
            } else if c == ')' {
                Token::RParen
            } else {
                return Err(FormulaError::UnexpectedCharacter);
            };
            proof {
                lemma_with_tokens_step(before, token.model_of(), lex_from(v@, i + 1));
            }
            let ghost m = token.model_of();
            tokens.push(token);
            assert(tokens_model(tokens@) =~= before.push(m));
            i += 1;
        }
    }
    proof {
        assert(tokens_model(tokens@) + Seq::<TokenModel>::empty() =~= tokens_model(tokens@));
    }
    Ok(tokens)
}

pub open spec fn parsed_model(r: Result<(Expr, usize), FormulaError>) -> Parsed {
    match r {
        Ok((e, next)) => Ok((e.model_of(), next as int)),
        Err(e) => Err(e),
    }
}

fn factor(tokens: &Vec<Token>, pos: usize) -> (r: Result<(Expr, usize), FormulaError>)
    requires
        pos <= tokens.len(),
    ensures
        parsed_model(r) == parse_factor(tokens_model(tokens@), pos as int),
        r matches Ok((_, next)) ==> pos < next <= tokens.len(),
    decreases tokens.len() - pos, 0nat,
{
    if pos >= tokens.len() {
        return Err(FormulaError::ExpectedExpression);
    }
    let ghost t = tokens_model(tokens@);
    assert(t[pos as int] == tokens@[pos as int].model_of());
    match &tokens[pos] {
        Token::Minus => match factor(tokens, pos + 1) {
            Ok((inner, next)) => Ok((Expr::UnaryMinus(Box::new(inner)), next)),
            Err(e) => Err(e),
        },
        Token::Number(n) => Ok((Expr::Number(*n), pos + 1)),
        Token::String(s) => Ok((Expr::String(s.clone()), pos + 1)),
        Token::Ident(s) => Ok((Expr::Ident(s.clone()), pos + 1)),
        Token::LParen => match expression(tokens, pos + 1) {
            Ok((inner, next)) => {
                if next < tokens.len() {
                    assert(t[next as int] == tokens@[next as int].model_of());
                    match &tokens[next] {
                        Token::RParen => Ok((inner, next + 1)),
                        _ => Err(FormulaError::MissingParenthesis),
                    }
                } else {
                    Err(FormulaError::MissingParenthesis)
                }
            },
            Err(e) => Err(e),
        },
        _ => Err(FormulaError::ExpectedExpression),
    }
}

fn term(tokens: &Vec<Token>, pos: usize) -> (r: Result<(Expr, usize), FormulaError>)
    requires
        pos <= tokens.len(),
    ensures
        parsed_model(r) == parse_term(tokens_model(tokens@), pos as int),
        r matches Ok((_, next)) ==> pos < next <= tokens.len(),
    decreases tokens.len() - pos, 2nat,
{
    let ghost t = tokens_model(tokens@);
    let (first, start) = match factor(tokens, pos) {
        Ok(found) => found,
        Err(e) => {
            return Err(e);
        },
    };
    let mut left = first;
    let mut at: usize = start;
    loop
        invariant
            pos < at <= tokens.len(),
            t == tokens_model(tokens@),
            term_rest(t, left.model_of(), at as int) == parse_term(t, pos as int),
        decreases tokens.len() - at,
    {
        if at >= tokens.len() {
            return Ok((left, at));
        }
        assert(t[at as int] == tokens@[at as int].model_of());
        let op = match &tokens[at] {
            Token::Star => BinOp::Mul,
            Token::Slash => BinOp::Div,
            _ => {
                return Ok((left, at));
            },
        };
        match factor(tokens, at + 1) {
            Ok((right, next)) => {
                left = Expr::Binary { op, left: Box::new(left), right: Box::new(right) };
                at = next;
            },
            Err(e) => {
                return Err(e);
            },
        }
    }
}

fn expression(tokens: &Vec<Token>, pos: usize) -> (r: Result<(Expr, usize), FormulaError>)
    requires
        pos <= tokens.len(),
    ensures
        parsed_model(r) == parse_expr(tokens_model(tokens@), pos as int),
        r matches Ok((_, next)) ==> pos < next <= tokens.len(),
    decreases tokens.len() - pos, 4nat,
{
    let ghost t = tokens_model(tokens@);
    let (first, start) = match term(tokens, pos) {
        Ok(found) => found,
        Err(e) => {
            return Err(e);
        },
    };
    let mut left = first;
    let mut at: usize = start;
    loop
        invariant
            pos < at <= tokens.len(),
            t == tokens_model(tokens@),
            expr_rest(t, left.model_of(), at as int) == parse_expr(t, pos as int),
        decreases tokens.len() - at,
    {
        if at >= tokens.len() {
            return Ok((left, at));
        }
        assert(t[at as int] == tokens@[at as int].model_of());
        let op = match &tokens[at] {
            Token::Plus => BinOp::Add,
            Token::Minus => BinOp::Sub,
            _ => {
                return Ok((left, at));
            },
        };
        match term(tokens, at + 1) {
            Ok((right, next)) => {
                left = Expr::Binary { op, left: Box::new(left), right: Box::new(right) };
                at = next;
            },
            Err(e) => {
                return Err(e);
            },
        }
    }
}

pub open spec fn expr_result_model(r: Result<Expr, FormulaError>) -> Result<ExprModel, FormulaError> {
    match r {
        Ok(e) => Ok(e.model_of()),
        Err(e) => Err(e),
    }
}

/// Parses a token sequence as one expression.
pub fn parse_token_list(tokens: &Vec<Token>) -> (r: Result<Expr, FormulaError>)
    ensures
        expr_result_model(r) == parse_tokens(tokens_model(tokens@)),
{
    if tokens.len() == 0 {
        return Err(FormulaError::Empty);
    }
    match expression(tokens, 0) {
        Ok((e, next)) => {
            if next != tokens.len() {
                Err(FormulaError::TrailingTokens)
            } else {
                Ok(e)
            }
        },
        Err(e) => Err(e),
    }
}

/// Parses a normalized formula text.
pub fn parse_formula(source: &str) -> (r: Result<Expr, FormulaError>)
    ensures
        expr_result_model(r) == parse_text(source@),
{
    let v = chars_of(source);
    match tokenize(&v) {
        Ok(tokens) => parse_token_list(&tokens),
        Err(e) => Err(e),
    }
}

/// Strips surrounding white space and one leading `=` from a formula text.
pub fn normalize_formula(raw: &str) -> (r: Option<String>)
    ensures
        match r {
            Some(s) => normalized(raw@) == Some(s@),
            None => normalized(raw@) is None,
        },
{
    let v = chars_of(raw);
    let (lo, hi) = trim_bounds(&v);
    let ghost t = trim(v@);
    let mut start: usize = lo;
    if lo < hi && v[lo] == '=' {
        let ghost rest = t.subrange(1, t.len() as int);
        let mut i: usize = lo + 1;
        while i < hi && crate::text::space(v[i])
            invariant
                lo < i <= hi <= v.len(),
                t == v@.subrange(lo as int, hi as int),
                rest == t.subrange(1, t.len() as int),
                skip_spaces(rest, 0) == skip_spaces(rest, i - lo - 1),
            decreases hi - i,
        {
            assert(rest[i - lo - 1] == v@[i as int]);
            i += 1;
        }
        proof {
            if i < hi {
                assert(rest[i - lo - 1] == v@[i as int]);
            }
            assert(rest.subrange(i - lo - 1, rest.len() as int) =~= v@.subrange(i as int, hi as int));
        }
        start = i;
    }
    if start >= hi {
        None
    } else {
        Some(text_of_range(&v, start, hi))
    }
}

/// Whether a text, once normalized, is a formula.
pub fn validate_formula(formula: &str) -> (r: bool)
    ensures
        r == is_formula(formula@),
{
    match normalize_formula(formula) {
        Some(body) => parse_formula(body.as_str()).is_ok(),
        None => false,
    }
}

} // verus!
