//! The grammar of derived-channel expressions and `when:` guards.
//!
//! ```text
//! sum     := product (('+' | '-') product)*
//! product := unary (('*' | '/') unary)*
//! unary   := '-' unary | atom
//! atom    := number | name | name '(' args ')' | '(' sum ')'
//! guard   := sum comparison sum
//! ```
//!
//! The calls are `abs(x)`, `exp(x)`, `pow(base, exponent)`, `min(a, b)` and
//! `max(a, b)`; any other name followed by `(` is refused by name. The tree
//! is built once, at load; evaluating it is floating point and is left to
//! the caller.

use vstd::prelude::*;
use crate::expr::{LexError, LexErrorV, RelOp, Tok, TokV, lex, lex_from, toks_view};

verus! {

/// An arithmetic operator.
#[derive(Debug, Clone, Copy, PartialEq, Eq)]
pub enum BinOp {
    Add,
    Sub,
    Mul,
    Div,
}

/// A parsed expression.
#[derive(Debug, PartialEq, Eq)]
pub enum Expr {
    /// A literal, as written.
    Const(String),
    Name(String),
    Neg(Box<Expr>),
    Bin(BinOp, Box<Expr>, Box<Expr>),
    Abs(Box<Expr>),
    Min(Box<Expr>, Box<Expr>),
    Max(Box<Expr>, Box<Expr>),
    /// `pow(base, exponent)`.
    Pow(Box<Expr>, Box<Expr>),
    Exp(Box<Expr>),
}

/// An expression with its texts as characters.
pub enum ExprV {
    Const(Seq<char>),
    Name(Seq<char>),
    Neg(Box<ExprV>),
    Bin(BinOp, Box<ExprV>, Box<ExprV>),
    Abs(Box<ExprV>),
    Min(Box<ExprV>, Box<ExprV>),
    Max(Box<ExprV>, Box<ExprV>),
    Pow(Box<ExprV>, Box<ExprV>),
    Exp(Box<ExprV>),
}

pub open spec fn expr_view(e: Expr) -> ExprV
    decreases e,
{
    match e {
        Expr::Const(s) => ExprV::Const(s@),
        Expr::Name(s) => ExprV::Name(s@),
        Expr::Neg(a) => ExprV::Neg(Box::new(expr_view(*a))),
        Expr::Bin(op, a, b) => ExprV::Bin(op, Box::new(expr_view(*a)), Box::new(expr_view(*b))),
        Expr::Abs(a) => ExprV::Abs(Box::new(expr_view(*a))),
        Expr::Min(a, b) => ExprV::Min(Box::new(expr_view(*a)), Box::new(expr_view(*b))),
        Expr::Max(a, b) => ExprV::Max(Box::new(expr_view(*a)), Box::new(expr_view(*b))),
        Expr::Pow(a, b) => ExprV::Pow(Box::new(expr_view(*a)), Box::new(expr_view(*b))),
        Expr::Exp(a) => ExprV::Exp(Box::new(expr_view(*a))),
    }
}

impl View for Expr {
    type V = ExprV;

    open spec fn view(&self) -> ExprV {
        expr_view(*self)
    }
}

/// A parsed `when:` guard: exactly one comparison between two expressions.
#[derive(Debug, PartialEq, Eq)]
pub struct Pred {
    pub lhs: Expr,
    pub op: RelOp,
    pub rhs: Expr,
}

pub struct PredV {
    pub lhs: ExprV,
    pub op: RelOp,
    pub rhs: ExprV,
}

impl View for Pred {
    type V = PredV;

    open spec fn view(&self) -> PredV {
        PredV { lhs: self.lhs@, op: self.op, rhs: self.rhs@ }
    }
}

/// The token a call or a bracket still wanted when the input ran out of
/// shape.
#[derive(Debug, Clone, Copy, PartialEq, Eq)]
pub enum Want {
    /// `)`.
    CloseParen,
    /// `)` after `abs(…)`.
    CloseAfterAbs,
    /// `)` after `exp(…)`.
    CloseAfterExp,
    /// `,` between the base and the exponent of `pow`.
    CommaBeforeExponent,
    /// `,` between the two arguments of `min` or `max`.
    CommaBetweenArguments,
}

/// The calls of the language.
#[derive(Debug, Clone, Copy, PartialEq, Eq)]
pub enum Func {
    Abs,
    Pow,
    Exp,
    Min,
    Max,
}

/// Why a text is not an expression or a guard.
#[derive(Debug, Clone, PartialEq, Eq)]
pub enum ParseError {
    Lex(LexError),
    /// An expression with no tokens.
    EmptyExpression,
    /// A guard with no tokens.
    EmptyCondition,
    /// The tokens ran out where an operand was due.
    EndedEarly,
    /// A token that cannot start an operand.
    UnexpectedToken(Tok),
    Expected(Want),
    /// A call of a function the language does not have.
    UnknownFunction(String),
    /// A size-checked expression nests unary operands deeper than 64.
    TooDeep,
    /// Tokens are left after a complete expression.
    TrailingInput,
    /// A guard's left-hand side is followed by something other than a
    /// comparison.
    NotAComparison(Tok),
    /// A guard that is only its left-hand side.
    OnlyLeftHandSide,
    /// Tokens are left after a guard's right-hand side.
    TrailingAfterComparison,
    /// A size-checked text longer than 8192 bytes.
    SourceTooLong,
    /// A size-checked text of more than 2048 tokens.
    TooManyTokens,
    /// A size-checked guard without a comparison after its left-hand side.
    GuardWithoutComparison,
    /// A size-checked expression of more than 512 nodes or deeper than 64.
    TooLarge,
    /// Tokens are left after a size-checked expression.
    TrailingInQuantize,
}

pub enum ParseErrorV {
    Lex(LexErrorV),
    EmptyExpression,
    EmptyCondition,
    EndedEarly,
    UnexpectedToken(TokV),
    Expected(Want),
    UnknownFunction(Seq<char>),
    TooDeep,
    TrailingInput,
    NotAComparison(TokV),
    OnlyLeftHandSide,
    TrailingAfterComparison,
    SourceTooLong,
    TooManyTokens,
    GuardWithoutComparison,
    TooLarge,
    TrailingInQuantize,
}

impl View for ParseError {
    type V = ParseErrorV;

    open spec fn view(&self) -> ParseErrorV {
        match self {
            ParseError::Lex(e) => ParseErrorV::Lex(e@),
            ParseError::EmptyExpression => ParseErrorV::EmptyExpression,
            ParseError::EmptyCondition => ParseErrorV::EmptyCondition,
            ParseError::EndedEarly => ParseErrorV::EndedEarly,
            ParseError::UnexpectedToken(t) => ParseErrorV::UnexpectedToken(t@),
            ParseError::Expected(w) => ParseErrorV::Expected(*w),
            ParseError::UnknownFunction(s) => ParseErrorV::UnknownFunction(s@),
            ParseError::TooDeep => ParseErrorV::TooDeep,
            ParseError::TrailingInput => ParseErrorV::TrailingInput,
            ParseError::NotAComparison(t) => ParseErrorV::NotAComparison(t@),
            ParseError::OnlyLeftHandSide => ParseErrorV::OnlyLeftHandSide,
            ParseError::TrailingAfterComparison => ParseErrorV::TrailingAfterComparison,
            ParseError::SourceTooLong => ParseErrorV::SourceTooLong,
            ParseError::TooManyTokens => ParseErrorV::TooManyTokens,
            ParseError::GuardWithoutComparison => ParseErrorV::GuardWithoutComparison,
            ParseError::TooLarge => ParseErrorV::TooLarge,
            ParseError::TrailingInQuantize => ParseErrorV::TrailingInQuantize,
        }
    }
}

/// The function a name calls.
pub open spec fn func_named(s: Seq<char>) -> Option<Func> {
    if s == seq!['a', 'b', 's'] {
        Some(Func::Abs)
    } else if s == seq!['p', 'o', 'w'] {
        Some(Func::Pow)
    } else if s == seq!['e', 'x', 'p'] {
        Some(Func::Exp)
    } else if s == seq!['m', 'i', 'n'] {
        Some(Func::Min)
    } else if s == seq!['m', 'a', 'x'] {
        Some(Func::Max)
    } else {
        None
    }
}

/// The result of reading an operand: the tree and the position after it.
pub type Parsed = Result<(ExprV, nat), ParseErrorV>;

/// Token `p` of `ts` is `t`.
pub open spec fn tok_at(ts: Seq<TokV>, p: nat, t: TokV) -> bool {
    p < ts.len() && ts[p as int] == t
}

/// The unary depth a `unary` at depth `d` works at: it counts only where
/// the depth is bounded.
pub open spec fn deeper(bounded: bool, d: nat) -> nat {
    if bounded {
        d + 1
    } else {
        d
    }
}

/// `sum` from token `p`.
pub open spec fn sum_at(ts: Seq<TokV>, p: nat, bounded: bool, d: nat) -> Parsed
    decreases ts.len() - p, 5nat,
{
    match product_at(ts, p, bounded, d) {
        Ok((lhs, q)) => if p < q <= ts.len() {
            sum_rest(ts, lhs, q, bounded, d)
        } else {
            Ok((lhs, q))
        },
        Err(e) => Err(e),
    }
}

/// The `(('+' | '-') product)*` tail of a sum whose terms so far are `lhs`.
pub open spec fn sum_rest(ts: Seq<TokV>, lhs: ExprV, p: nat, bounded: bool, d: nat) -> Parsed
    decreases ts.len() - p, 4nat,
{
    if tok_at(ts, p, TokV::Plus) || tok_at(ts, p, TokV::Minus) {
        let op = if tok_at(ts, p, TokV::Plus) {
            BinOp::Add
        } else {
            BinOp::Sub
        };
        match product_at(ts, p + 1, bounded, d) {
            Ok((rhs, q)) => {
                let e = ExprV::Bin(op, Box::new(lhs), Box::new(rhs));
                if p < q <= ts.len() {
                    sum_rest(ts, e, q, bounded, d)
                } else {
                    Ok((e, q))
                }
            },
            Err(e) => Err(e),
        }
    } else {
        Ok((lhs, p))
    }
}

/// `product` from token `p`.
pub open spec fn product_at(ts: Seq<TokV>, p: nat, bounded: bool, d: nat) -> Parsed
    decreases ts.len() - p, 3nat,
{
    match unary_at(ts, p, bounded, d) {
        Ok((lhs, q)) => if p < q <= ts.len() {
            product_rest(ts, lhs, q, bounded, d)
        } else {
            Ok((lhs, q))
        },
        Err(e) => Err(e),
    }
}

/// The `(('*' | '/') unary)*` tail of a product whose factors so far are
/// `lhs`.
pub open spec fn product_rest(ts: Seq<TokV>, lhs: ExprV, p: nat, bounded: bool, d: nat) -> Parsed
    decreases ts.len() - p, 2nat,
{
    if tok_at(ts, p, TokV::Star) || tok_at(ts, p, TokV::Slash) {
        let op = if tok_at(ts, p, TokV::Star) {
            BinOp::Mul
        } else {
            BinOp::Div
        };
        match unary_at(ts, p + 1, bounded, d) {
            Ok((rhs, q)) => {
                let e = ExprV::Bin(op, Box::new(lhs), Box::new(rhs));
                if p < q <= ts.len() {
                    product_rest(ts, e, q, bounded, d)
                } else {
                    Ok((e, q))
                }
            },
            Err(e) => Err(e),
        }
    } else {
        Ok((lhs, p))
    }
}

/// `unary` from token `p`, entered at unary depth `d`; where the depth is
/// bounded, a `unary` deeper than 64 is refused.
pub open spec fn unary_at(ts: Seq<TokV>, p: nat, bounded: bool, d: nat) -> Parsed
    decreases ts.len() - p, 1nat,
{
    let d2 = deeper(bounded, d);
    if bounded && d2 > 64 {
        Err(ParseErrorV::TooDeep)
    } else if tok_at(ts, p, TokV::Minus) {
        match unary_at(ts, p + 1, bounded, d2) {
            Ok((e, q)) => Ok((ExprV::Neg(Box::new(e)), q)),
            Err(e) => Err(e),
        }
    } else {
        atom_at(ts, p, bounded, d2)
    }
}

/// `atom` from token `p`.
pub open spec fn atom_at(ts: Seq<TokV>, p: nat, bounded: bool, d: nat) -> Parsed
    decreases ts.len() - p, 0nat,
{
    if p >= ts.len() {
        Err(ParseErrorV::EndedEarly)
    } else {
        match ts[p as int] {
            TokV::Num(s) => Ok((ExprV::Const(s), p + 1)),
            TokV::LParen => match sum_at(ts, p + 1, bounded, d) {
                Ok((e, q)) => if tok_at(ts, q, TokV::RParen) {
                    Ok((e, q + 1))
                } else {
                    Err(ParseErrorV::Expected(Want::CloseParen))
                },
                Err(e) => Err(e),
            },
            TokV::Ident(name) => if tok_at(ts, p + 1, TokV::LParen) {
                call_at(ts, name, p + 2, bounded, d)
            } else {
                Ok((ExprV::Name(name), p + 1))
            },
            t => Err(ParseErrorV::UnexpectedToken(t)),
        }
    }
}

/// The arguments and the closing bracket of a call of `name`, from token
/// `p` just past its `(`.
pub open spec fn call_at(ts: Seq<TokV>, name: Seq<char>, p: nat, bounded: bool, d: nat) -> Parsed
    decreases ts.len() - p, 6nat,
{
    match func_named(name) {
        None => Err(ParseErrorV::UnknownFunction(name)),
        Some(f) => match sum_at(ts, p, bounded, d) {
            Err(e) => Err(e),
            Ok((a, q)) => match f {
                Func::Abs => if tok_at(ts, q, TokV::RParen) {
                    Ok((ExprV::Abs(Box::new(a)), q + 1))
                } else {
                    Err(ParseErrorV::Expected(Want::CloseAfterAbs))
                },
                Func::Exp => if tok_at(ts, q, TokV::RParen) {
                    Ok((ExprV::Exp(Box::new(a)), q + 1))
                } else {
                    Err(ParseErrorV::Expected(Want::CloseAfterExp))
                },
                _ => if !tok_at(ts, q, TokV::Comma) {
                    Err(
                        ParseErrorV::Expected(
                            if f is Pow {
                                Want::CommaBeforeExponent
                            } else {
                                Want::CommaBetweenArguments
                            },
                        ),
                    )
                } else if p <= q {
                    match sum_at(ts, q + 1, bounded, d) {
                        Err(e) => Err(e),
                        Ok((b, q2)) => if tok_at(ts, q2, TokV::RParen) {
                            Ok((two_args(f, a, b), q2 + 1))
                        } else {
                            Err(ParseErrorV::Expected(Want::CloseParen))
                        },
                    }
                } else {
                    Err(ParseErrorV::EndedEarly)
                },
            },
        },
    }
}

/// The node a two-argument call builds.
pub open spec fn two_args(f: Func, a: ExprV, b: ExprV) -> ExprV {
    match f {
        Func::Pow => ExprV::Pow(Box::new(a), Box::new(b)),
        Func::Min => ExprV::Min(Box::new(a), Box::new(b)),
        _ => ExprV::Max(Box::new(a), Box::new(b)),
    }
}

/// An expression from the tokens `ts`: one `sum` that uses them all.
pub open spec fn parse_tokens(ts: Seq<TokV>) -> Result<ExprV, ParseErrorV> {
    if ts.len() == 0 {
        Err(ParseErrorV::EmptyExpression)
    } else {
        match sum_at(ts, 0, false, 0) {
            Ok((e, q)) => if q == ts.len() {
                Ok(e)
            } else {
                Err(ParseErrorV::TrailingInput)
            },
            Err(e) => Err(e),
        }
    }
}

/// The expression a text is.
pub open spec fn parse_text(cs: Seq<char>) -> Result<ExprV, ParseErrorV> {
    match lex_from(cs, 0) {
        Err(e) => Err(ParseErrorV::Lex(e)),
        Ok(ts) => parse_tokens(ts),
    }
}

/// A guard from the tokens `ts`: a `sum`, one comparison, a `sum`, and
/// nothing after.
pub open spec fn pred_tokens(ts: Seq<TokV>) -> Result<PredV, ParseErrorV> {
    if ts.len() == 0 {
        Err(ParseErrorV::EmptyCondition)
    } else {
        match sum_at(ts, 0, false, 0) {
            Err(e) => Err(e),
            Ok((lhs, q)) => if q >= ts.len() {
                Err(ParseErrorV::OnlyLeftHandSide)
            } else {
                match ts[q as int] {
                    TokV::Rel(op) => match sum_at(ts, q + 1, false, 0) {
                        Err(e) => Err(e),
                        Ok((rhs, q2)) => if q2 == ts.len() {
                            Ok(PredV { lhs, op, rhs })
                        } else {
                            Err(ParseErrorV::TrailingAfterComparison)
                        },
                    },
                    t => Err(ParseErrorV::NotAComparison(t)),
                }
            },
        }
    }
}

/// The guard a text is.
pub open spec fn pred_text(cs: Seq<char>) -> Result<PredV, ParseErrorV> {
    match lex_from(cs, 0) {
        Err(e) => Err(ParseErrorV::Lex(e)),
        Ok(ts) => pred_tokens(ts),
    }
}

/// `r` is the exec form of the spec result `s` of reading from `p` in
/// tokens of length `len`, and a success moved past `p`.
spec fn parsed_as(r: Result<(Expr, usize), ParseError>, s: Parsed, p: usize, len: nat) -> bool {
    match r {
        Ok((e, q)) => s == Ok::<(ExprV, nat), ParseErrorV>((e@, q as nat)) && p < q <= len,
        Err(err) => s == Err::<(ExprV, nat), ParseErrorV>(err@),
    }
}

/// A copy of a token.
fn tok_clone(t: &Tok) -> (r: Tok)
    ensures
        r@ == t@,
{
    match t {
        Tok::Num(s) => Tok::Num(s.clone()),
        Tok::Ident(s) => Tok::Ident(s.clone()),
        Tok::Plus => Tok::Plus,
        Tok::Minus => Tok::Minus,
        Tok::Star => Tok::Star,
        Tok::Slash => Tok::Slash,
        Tok::LParen => Tok::LParen,
        Tok::RParen => Tok::RParen,
        Tok::Comma => Tok::Comma,
        Tok::Rel(op) => Tok::Rel(*op),
    }
}

/// The function a name calls.
fn func_of(name: &String) -> (r: Option<Func>)
    ensures
        r == func_named(name@),
{
    let cs = crate::expr::chars_of(name.as_str());
    if cs.len() != 3 {
        assert(cs@ != seq!['a', 'b', 's']);
        assert(cs@ != seq!['p', 'o', 'w']);
        assert(cs@ != seq!['e', 'x', 'p']);
        assert(cs@ != seq!['m', 'i', 'n']);
        assert(cs@ != seq!['m', 'a', 'x']);
        return None;
    }
    let a = cs[0];
    let b = cs[1];
    let c = cs[2];
    assert(cs@ =~= seq![a, b, c]);
    if a == 'a' && b == 'b' && c == 's' {
        Some(Func::Abs)
    } else if a == 'p' && b == 'o' && c == 'w' {
        Some(Func::Pow)
    } else if a == 'e' && b == 'x' && c == 'p' {
        Some(Func::Exp)
    } else if a == 'm' && b == 'i' && c == 'n' {
        Some(Func::Min)
    } else if a == 'm' && b == 'a' && c == 'x' {
        Some(Func::Max)
    } else {
        assert(seq![a, b, c][0] == a && seq![a, b, c][1] == b && seq![a, b, c][2] == c);
        assert(seq!['a', 'b', 's'][0] == 'a' && seq!['a', 'b', 's'][1] == 'b');
        assert(seq!['p', 'o', 'w'][0] == 'p' && seq!['p', 'o', 'w'][1] == 'o');
        assert(seq!['e', 'x', 'p'][0] == 'e' && seq!['e', 'x', 'p'][1] == 'x');
        assert(seq!['m', 'i', 'n'][0] == 'm' && seq!['m', 'i', 'n'][1] == 'i');
        assert(seq!['m', 'a', 'x'][0] == 'm' && seq!['m', 'a', 'x'][1] == 'a');
        assert(seq!['a', 'b', 's'][2] == 's' && seq!['p', 'o', 'w'][2] == 'w');
        assert(seq!['e', 'x', 'p'][2] == 'p' && seq!['m', 'i', 'n'][2] == 'n');
        assert(seq!['m', 'a', 'x'][2] == 'x');
        None
    }
}

/// Whether token `p` is `)`.
fn is_close(ts: &Vec<Tok>, p: usize) -> (r: bool)
    ensures
        r == tok_at(toks_view(ts@), p as nat, TokV::RParen),
{
    p < ts.len() && matches!(ts[p], Tok::RParen)
}

/// Whether token `p` is `,`.
fn is_comma(ts: &Vec<Tok>, p: usize) -> (r: bool)
    ensures
        r == tok_at(toks_view(ts@), p as nat, TokV::Comma),
{
    p < ts.len() && matches!(ts[p], Tok::Comma)
}

/// Whether token `p` is `t`, for a token without text.
fn is_tok(ts: &Vec<Tok>, p: usize, t: Tok) -> (r: bool)
    requires
        !(t is Num) && !(t is Ident) && !(t is Rel),
    ensures
        r == tok_at(toks_view(ts@), p as nat, t@),
{
    if p >= ts.len() {
        return false;
    }
    match (&ts[p], &t) {
        (Tok::Plus, Tok::Plus) => true,
        (Tok::Minus, Tok::Minus) => true,
        (Tok::Star, Tok::Star) => true,
        (Tok::Slash, Tok::Slash) => true,
        (Tok::LParen, Tok::LParen) => true,
        (Tok::RParen, Tok::RParen) => true,
        (Tok::Comma, Tok::Comma) => true,
        _ => false,
    }
}

/// Reads a `sum` from token `p`.
fn parse_sum(ts: &Vec<Tok>, p: usize, bounded: bool, d: usize) -> (r: Result<(Expr, usize), ParseError>)
    requires
        p <= ts.len(),
        d <= 64,
    ensures
        parsed_as(r, sum_at(toks_view(ts@), p as nat, bounded, d as nat), p, ts.len() as nat),
    decreases ts.len() - p, 5nat,
{
    let ghost tv = toks_view(ts@);
    let (first, q0) = match parse_product(ts, p, bounded, d) {
        Err(e) => return Err(e),
        Ok(x) => x,
    };
    let mut lhs = first;
    let mut q = q0;
    while is_tok(ts, q, Tok::Plus) || is_tok(ts, q, Tok::Minus)
        invariant
            p < q <= ts.len(),
            d <= 64,
            tv == toks_view(ts@),
            sum_at(tv, p as nat, bounded, d as nat) == sum_rest(tv, lhs@, q as nat, bounded, d as nat),
        decreases ts.len() - q,
    {
        let op = if is_tok(ts, q, Tok::Plus) {
            BinOp::Add
        } else {
            BinOp::Sub
        };
        let (rhs, q2) = match parse_product(ts, q + 1, bounded, d) {
            Err(e) => return Err(e),
            Ok(x) => x,
        };
        lhs = Expr::Bin(op, Box::new(lhs), Box::new(rhs));
        q = q2;
    }
    Ok((lhs, q))
}

/// Reads a `product` from token `p`.
fn parse_product(ts: &Vec<Tok>, p: usize, bounded: bool, d: usize) -> (r: Result<(Expr, usize), ParseError>)
    requires
        p <= ts.len(),
        d <= 64,
    ensures
        parsed_as(r, product_at(toks_view(ts@), p as nat, bounded, d as nat), p, ts.len() as nat),
    decreases ts.len() - p, 3nat,
{
    let ghost tv = toks_view(ts@);
    let (first, q0) = match parse_unary(ts, p, bounded, d) {
        Err(e) => return Err(e),
        Ok(x) => x,
    };
    let mut lhs = first;
    let mut q = q0;
    while is_tok(ts, q, Tok::Star) || is_tok(ts, q, Tok::Slash)
        invariant
            p < q <= ts.len(),
            d <= 64,
            tv == toks_view(ts@),
            product_at(tv, p as nat, bounded, d as nat) == product_rest(tv, lhs@, q as nat, bounded, d as nat),
        decreases ts.len() - q,
    {
        let op = if is_tok(ts, q, Tok::Star) {
            BinOp::Mul
        } else {
            BinOp::Div
        };
        let (rhs, q2) = match parse_unary(ts, q + 1, bounded, d) {
            Err(e) => return Err(e),
            Ok(x) => x,
        };
        lhs = Expr::Bin(op, Box::new(lhs), Box::new(rhs));
        q = q2;
    }
    Ok((lhs, q))
}

/// Reads a `unary` from token `p`, entered at unary depth `d`.
fn parse_unary(ts: &Vec<Tok>, p: usize, bounded: bool, d: usize) -> (r: Result<(Expr, usize), ParseError>)
    requires
        p <= ts.len(),
        d <= 64,
    ensures
        parsed_as(r, unary_at(toks_view(ts@), p as nat, bounded, d as nat), p, ts.len() as nat),
    decreases ts.len() - p, 1nat,
{
    let d2 = if bounded {
        d + 1
    } else {
        d
    };
    if bounded && d2 > 64 {
        return Err(ParseError::TooDeep);
    }
    if is_tok(ts, p, Tok::Minus) {
        match parse_unary(ts, p + 1, bounded, d2) {
            Ok((e, q)) => Ok((Expr::Neg(Box::new(e)), q)),
            Err(e) => Err(e),
        }
    } else {
        parse_atom(ts, p, bounded, d2)
    }
}

/// Reads an `atom` from token `p`.
fn parse_atom(ts: &Vec<Tok>, p: usize, bounded: bool, d: usize) -> (r: Result<(Expr, usize), ParseError>)
    requires
        p <= ts.len(),
        d <= 64,
    ensures
        parsed_as(r, atom_at(toks_view(ts@), p as nat, bounded, d as nat), p, ts.len() as nat),
    decreases ts.len() - p, 0nat,
{
    let ghost tv = toks_view(ts@);
    if p >= ts.len() {
        return Err(ParseError::EndedEarly);
    }
    assert(tv[p as int] == ts@[p as int]@);
    match &ts[p] {
        Tok::Num(s) => Ok((Expr::Const(s.clone()), p + 1)),
        Tok::LParen => match parse_sum(ts, p + 1, bounded, d) {
            Err(e) => Err(e),
            Ok((e, q)) => if is_close(ts, q) {
                Ok((e, q + 1))
            } else {
                Err(ParseError::Expected(Want::CloseParen))
            },
        },
        Tok::Ident(name) => if is_tok(ts, p + 1, Tok::LParen) {
            parse_call(ts, name, p + 2, bounded, d)
        } else {
            Ok((Expr::Name(name.clone()), p + 1))
        },
        _ => Err(ParseError::UnexpectedToken(tok_clone(&ts[p]))),
    }
}

/// Reads the arguments and the closing bracket of a call of `name`, from
/// token `p` just past its `(`.
fn parse_call(ts: &Vec<Tok>, name: &String, p: usize, bounded: bool, d: usize) -> (r: Result<
    (Expr, usize),
    ParseError,
>)
    requires
        p <= ts.len(),
        d <= 64,
    ensures
        parsed_as(r, call_at(toks_view(ts@), name@, p as nat, bounded, d as nat), p, ts.len() as nat),
    decreases ts.len() - p, 6nat,
{
    let f = match func_of(name) {
        None => return Err(ParseError::UnknownFunction(name.clone())),
        Some(f) => f,
    };
    let (a, q) = match parse_sum(ts, p, bounded, d) {
        Err(e) => return Err(e),
        Ok(x) => x,
    };
    match f {
        Func::Abs => if is_close(ts, q) {
            Ok((Expr::Abs(Box::new(a)), q + 1))
        } else {
            Err(ParseError::Expected(Want::CloseAfterAbs))
        },
        Func::Exp => if is_close(ts, q) {
            Ok((Expr::Exp(Box::new(a)), q + 1))
        } else {
            Err(ParseError::Expected(Want::CloseAfterExp))
        },
        _ => {
            if !is_comma(ts, q) {
                return Err(
                    ParseError::Expected(
                        if matches!(f, Func::Pow) {
                            Want::CommaBeforeExponent
                        } else {
                            Want::CommaBetweenArguments
                        },
                    ),
                );
            }
            let (b, q2) = match parse_sum(ts, q + 1, bounded, d) {
                Err(e) => return Err(e),
                Ok(x) => x,
            };
            if !is_close(ts, q2) {
                return Err(ParseError::Expected(Want::CloseParen));
            }
            let e = match f {
                Func::Pow => Expr::Pow(Box::new(a), Box::new(b)),
                Func::Min => Expr::Min(Box::new(a), Box::new(b)),
                _ => Expr::Max(Box::new(a), Box::new(b)),
            };
            Ok((e, q2 + 1))
        },
    }
}

/// Parses an expression: `src` must be one `sum` and nothing more.
pub fn parse(src: &str) -> (r: Result<Expr, ParseError>)
    ensures
        match r {
            Ok(e) => parse_text(src@) == Ok::<ExprV, ParseErrorV>(e@),
            Err(err) => parse_text(src@) == Err::<ExprV, ParseErrorV>(err@),
        },
{
    let ts = match lex(src) {
        Err(e) => return Err(ParseError::Lex(e)),
        Ok(ts) => ts,
    };
    if ts.len() == 0 {
        return Err(ParseError::EmptyExpression);
    }
    let (e, q) = match parse_sum(&ts, 0, false, 0) {
        Err(e) => return Err(e),
        Ok(x) => x,
    };
    if q != ts.len() {
        return Err(ParseError::TrailingInput);
    }
    Ok(e)
}

/// Parses a `when:` guard: an expression, exactly one comparison, an
/// expression.
pub fn parse_pred(src: &str) -> (r: Result<Pred, ParseError>)
    ensures
        match r {
            Ok(g) => pred_text(src@) == Ok::<PredV, ParseErrorV>(g@),
            Err(err) => pred_text(src@) == Err::<PredV, ParseErrorV>(err@),
        },
{
    let ts = match lex(src) {
        Err(e) => return Err(ParseError::Lex(e)),
        Ok(ts) => ts,
    };
    let ghost tv = toks_view(ts@);
    if ts.len() == 0 {
        return Err(ParseError::EmptyCondition);
    }
    let (lhs, q) = match parse_sum(&ts, 0, false, 0) {
        Err(e) => return Err(e),
        Ok(x) => x,
    };
    if q >= ts.len() {
        return Err(ParseError::OnlyLeftHandSide);
    }
    assert(tv[q as int] == ts@[q as int]@);
    let op = match &ts[q] {
        Tok::Rel(op) => *op,
        _ => return Err(ParseError::NotAComparison(tok_clone(&ts[q]))),
    };
    let (rhs, q2) = match parse_sum(&ts, q + 1, false, 0) {
        Err(e) => return Err(e),
        Ok(x) => x,
    };
    if q2 != ts.len() {
        return Err(ParseError::TrailingAfterComparison);
    }
    Ok(Pred { lhs, op, rhs })
}

/// The number of nodes of an expression.
pub open spec fn nodes(e: ExprV) -> nat
    decreases e,
{
    match e {
        ExprV::Const(_) => 1,
        ExprV::Name(_) => 1,
        ExprV::Neg(a) => nodes(*a) + 1,
        ExprV::Abs(a) => nodes(*a) + 1,
        ExprV::Exp(a) => nodes(*a) + 1,
        ExprV::Bin(_, a, b) => nodes(*a) + nodes(*b) + 1,
        ExprV::Min(a, b) => nodes(*a) + nodes(*b) + 1,
        ExprV::Max(a, b) => nodes(*a) + nodes(*b) + 1,
        ExprV::Pow(a, b) => nodes(*a) + nodes(*b) + 1,
    }
}

pub open spec fn larger(a: nat, b: nat) -> nat {
    if a >= b {
        a
    } else {
        b
    }
}

/// The height of an expression: a leaf is 1.
pub open spec fn height(e: ExprV) -> nat
    decreases e,
{
    match e {
        ExprV::Const(_) => 1,
        ExprV::Name(_) => 1,
        ExprV::Neg(a) => height(*a) + 1,
        ExprV::Abs(a) => height(*a) + 1,
        ExprV::Exp(a) => height(*a) + 1,
        ExprV::Bin(_, a, b) => larger(height(*a), height(*b)) + 1,
        ExprV::Min(a, b) => larger(height(*a), height(*b)) + 1,
        ExprV::Max(a, b) => larger(height(*a), height(*b)) + 1,
        ExprV::Pow(a, b) => larger(height(*a), height(*b)) + 1,
    }
}

/// The size limits' verdict on `n` nodes of height `h`, read up to token
/// `q` of `len`.
pub open spec fn size_verdict(n: nat, h: nat, q: nat, len: nat) -> Result<(), ParseErrorV> {
    if n > 512 || h > 64 {
        Err(ParseErrorV::TooLarge)
    } else if q != len {
        Err(ParseErrorV::TrailingInQuantize)
    } else {
        Ok(())
    }
}

/// Whether a `quantize` expression (or, with `guard`, its guard) of `nbytes`
/// bytes and characters `cs` stays inside the resource bounds of exact
/// expressions: 8192 bytes, 2048 tokens, unary depth 64, and 512 nodes of
/// height at most 64 in all. The grammar is the float one, read with the
/// depth bounded.
pub open spec fn quantize_limits(nbytes: nat, cs: Seq<char>, guard: bool) -> Result<(), ParseErrorV> {
    if nbytes > 8192 {
        Err(ParseErrorV::SourceTooLong)
    } else {
        match lex_from(cs, 0) {
            Err(e) => Err(ParseErrorV::Lex(e)),
            Ok(ts) => if ts.len() > 2048 {
                Err(ParseErrorV::TooManyTokens)
            } else {
                match sum_at(ts, 0, true, 0) {
                    Err(e) => Err(e),
                    Ok((a, q)) => if !guard {
                        size_verdict(nodes(a), height(a), q, ts.len())
                    } else if q < ts.len() && ts[q as int] is Rel {
                        match sum_at(ts, q + 1, true, 0) {
                            Err(e) => Err(e),
                            Ok((b, q2)) => size_verdict(
                                nodes(a) + nodes(b),
                                larger(height(a), height(b)),
                                q2,
                                ts.len(),
                            ),
                        }
                    } else {
                        Err(ParseErrorV::GuardWithoutComparison)
                    },
                }
            },
        }
    }
}

pub open spec fn capped(x: nat) -> nat {
    if x > 1024 {
        1024
    } else {
        x
    }
}

/// The node count and height of `e`, each capped at 1024.
fn capped_size(e: &Expr) -> (r: (usize, usize))
    ensures
        r.0 == capped(nodes(e@)),
        r.1 == capped(height(e@)),
    decreases e,
{
    match e {
        Expr::Const(_) => (1, 1),
        Expr::Name(_) => (1, 1),
        Expr::Neg(a) => capped_one(capped_size(&**a), Ghost(nodes(a@)), Ghost(height(a@))),
        Expr::Abs(a) => capped_one(capped_size(&**a), Ghost(nodes(a@)), Ghost(height(a@))),
        Expr::Exp(a) => capped_one(capped_size(&**a), Ghost(nodes(a@)), Ghost(height(a@))),
        Expr::Bin(_, a, b) => capped_two(
            capped_size(&**a),
            capped_size(&**b),
            Ghost(nodes(a@)),
            Ghost(height(a@)),
            Ghost(nodes(b@)),
            Ghost(height(b@)),
        ),
        Expr::Min(a, b) => capped_two(
            capped_size(&**a),
            capped_size(&**b),
            Ghost(nodes(a@)),
            Ghost(height(a@)),
            Ghost(nodes(b@)),
            Ghost(height(b@)),
        ),
        Expr::Max(a, b) => capped_two(
            capped_size(&**a),
            capped_size(&**b),
            Ghost(nodes(a@)),
            Ghost(height(a@)),
            Ghost(nodes(b@)),
            Ghost(height(b@)),
        ),
        Expr::Pow(a, b) => capped_two(
            capped_size(&**a),
            capped_size(&**b),
            Ghost(nodes(a@)),
            Ghost(height(a@)),
            Ghost(nodes(b@)),
            Ghost(height(b@)),
        ),
    }
}

/// The capped size of a node over one operand of capped size `a`, the
/// operand having `n` nodes and height `h`.
fn capped_one(a: (usize, usize), Ghost(n): Ghost<nat>, Ghost(h): Ghost<nat>) -> (r: (usize, usize))
    requires
        a.0 == capped(n),
        a.1 == capped(h),
    ensures
        r.0 == capped(n + 1),
        r.1 == capped(h + 1),
{
    let nn = if a.0 >= 1024 {
        1024
    } else {
        a.0 + 1
    };
    let hh = if a.1 >= 1024 {
        1024
    } else {
        a.1 + 1
    };
    (nn, hh)
}

/// The capped size of a node over two operands of capped sizes `a` and `b`,
/// of `n` and `m` nodes and heights `h` and `g`.
fn capped_two(
    a: (usize, usize),
    b: (usize, usize),
    Ghost(n): Ghost<nat>,
    Ghost(h): Ghost<nat>,
    Ghost(m): Ghost<nat>,
    Ghost(g): Ghost<nat>,
) -> (r: (usize, usize))
    requires
        a.0 == capped(n),
        a.1 == capped(h),
        b.0 == capped(m),
        b.1 == capped(g),
    ensures
        r.0 == capped(n + m + 1),
        r.1 == capped(larger(h, g) + 1),
{
    let nn = if a.0 + b.0 >= 1024 {
        1024
    } else {
        a.0 + b.0 + 1
    };
    let top = if a.1 >= b.1 {
        a.1
    } else {
        b.1
    };
    let hh = if top >= 1024 {
        1024
    } else {
        top + 1
    };
    (nn, hh)
}

/// Checks a `quantize` expression, or with `guard` its guard, against the
/// resource bounds of exact expressions; see `quantize_limits`.
pub fn validate_quantize_limits(src: &str, guard: bool) -> (r: Result<(), ParseError>)
    ensures
        match r {
            Ok(()) => quantize_limits(src.len() as nat, src@, guard) == Ok::<(), ParseErrorV>(()),
            Err(e) => quantize_limits(src.len() as nat, src@, guard) == Err::<(), ParseErrorV>(e@),
        },
{
    if src.len() > 8192 {
        return Err(ParseError::SourceTooLong);
    }
    let ts = match lex(src) {
        Err(e) => return Err(ParseError::Lex(e)),
        Ok(ts) => ts,
    };
    let ghost tv = toks_view(ts@);
    if ts.len() > 2048 {
        return Err(ParseError::TooManyTokens);
    }
    let (a, q) = match parse_sum(&ts, 0, true, 0) {
        Err(e) => return Err(e),
        Ok(x) => x,
    };
    let sa = capped_size(&a);
    let (n, h, end) = if !guard {
        (sa.0, sa.1, q)
    } else {
        if q < ts.len() {
            assert(tv[q as int] == ts@[q as int]@);
        }
        if !(q < ts.len() && matches!(ts[q], Tok::Rel(_))) {
            return Err(ParseError::GuardWithoutComparison);
        }
        let (b, q2) = match parse_sum(&ts, q + 1, true, 0) {
            Err(e) => return Err(e),
            Ok(x) => x,
        };
        let sb = capped_size(&b);
        let top = if sa.1 >= sb.1 {
            sa.1
        } else {
            sb.1
        };
        (sa.0 + sb.0, top, q2)
    };
    if n > 512 || h > 64 {
        return Err(ParseError::TooLarge);
    }
    if end != ts.len() {
        return Err(ParseError::TrailingInQuantize);
    }
    Ok(())
}

/// The names an expression reads, left to right, with repeats.
pub open spec fn names_of(e: ExprV) -> Seq<Seq<char>>
    decreases e,
{
    match e {
        ExprV::Const(_) => Seq::empty(),
        ExprV::Name(n) => seq![n],
        ExprV::Neg(a) => names_of(*a),
        ExprV::Abs(a) => names_of(*a),
        ExprV::Exp(a) => names_of(*a),
        ExprV::Bin(_, a, b) => names_of(*a) + names_of(*b),
        ExprV::Min(a, b) => names_of(*a) + names_of(*b),
        ExprV::Max(a, b) => names_of(*a) + names_of(*b),
        ExprV::Pow(a, b) => names_of(*a) + names_of(*b),
    }
}

/// Strings as character sequences.
pub open spec fn texts(v: Seq<String>) -> Seq<Seq<char>> {
    v.map_values(|s: String| s@)
}

/// Appends every name `e` reads to `out`, left to right.
pub fn names(e: &Expr, out: &mut Vec<String>)
    ensures
        texts(final(out)@) == texts(old(out)@) + names_of(e@),
    decreases e,
{
    let ghost before = texts(out@);
    match e {
        Expr::Const(_) => {
            assert(before + Seq::<Seq<char>>::empty() =~= before);
        },
        Expr::Name(n) => {
            out.push(n.clone());
            assert(texts(out@) =~= before + seq![n@]);
        },
        Expr::Neg(a) => names(&**a, out),
        Expr::Abs(a) => names(&**a, out),
        Expr::Exp(a) => names(&**a, out),
        Expr::Bin(_, a, b) => {
            names(&**a, out);
            names(&**b, out);
            assert(before + names_of(a@) + names_of(b@) =~= before + (names_of(a@) + names_of(
                b@,
            )));
        },
        Expr::Min(a, b) => {
            names(&**a, out);
            names(&**b, out);
            assert(before + names_of(a@) + names_of(b@) =~= before + (names_of(a@) + names_of(
                b@,
            )));
        },
        Expr::Max(a, b) => {
            names(&**a, out);
            names(&**b, out);
            assert(before + names_of(a@) + names_of(b@) =~= before + (names_of(a@) + names_of(
                b@,
            )));
        },
        Expr::Pow(a, b) => {
            names(&**a, out);
            names(&**b, out);
            assert(before + names_of(a@) + names_of(b@) =~= before + (names_of(a@) + names_of(
                b@,
            )));
        },
    }
}

/// The first of `read` from index `i` on that `known` does not hold.
pub open spec fn first_unknown(read: Seq<Seq<char>>, known: Seq<Seq<char>>, i: nat) -> Option<
    Seq<char>,
>
    decreases read.len() - i,
{
    if i >= read.len() {
        None
    } else if !known.contains(read[i as int]) {
        Some(read[i as int])
    } else {
        first_unknown(read, known, i + 1)
    }
}

/// A compiled expression and its optional guard: while the guard does not
/// hold, the channel reads 0.
#[derive(Debug)]
pub struct CompiledExpr {
    pub expr: Expr,
    pub guard: Option<Pred>,
}

pub struct CompiledV {
    pub expr: ExprV,
    pub guard: Option<PredV>,
}

impl View for CompiledExpr {
    type V = CompiledV;

    open spec fn view(&self) -> CompiledV {
        CompiledV {
            expr: self.expr@,
            guard: match self.guard {
                Some(g) => Some(g@),
                None => None,
            },
        }
    }
}

/// Why a formula or a derived channel does not compile. `reader` is what
/// reads the expression: the formula's label, or the channel's name.
#[derive(Debug)]
pub enum CompileError {
    /// The text `src` is not an expression.
    Syntax { reader: String, src: String, error: ParseError },
    /// The guard is not a comparison.
    Guard { reader: String, src: String, error: ParseError },
    /// The expression or its guard reads `name`, which is neither a declared
    /// input nor a channel declared before it.
    UnknownName { reader: String, name: String },
}

pub enum CompileErrorV {
    Syntax { reader: Seq<char>, src: Seq<char>, error: ParseErrorV },
    Guard { reader: Seq<char>, src: Seq<char>, error: ParseErrorV },
    UnknownName { reader: Seq<char>, name: Seq<char> },
}

impl View for CompileError {
    type V = CompileErrorV;

    open spec fn view(&self) -> CompileErrorV {
        match self {
            CompileError::Syntax { reader, src, error } => CompileErrorV::Syntax {
                reader: reader@,
                src: src@,
                error: error@,
            },
            CompileError::Guard { reader, src, error } => CompileErrorV::Guard {
                reader: reader@,
                src: src@,
                error: error@,
            },
            CompileError::UnknownName { reader, name } => CompileErrorV::UnknownName {
                reader: reader@,
                name: name@,
            },
        }
    }
}

/// The names a guard reads.
pub open spec fn guard_names(g: Option<PredV>) -> Seq<Seq<char>> {
    match g {
        Some(p) => names_of(p.lhs) + names_of(p.rhs),
        None => Seq::empty(),
    }
}

/// What compiling `src`, read by `reader`, with the optional guard `when`,
/// against the names in scope `known` gives: the expression and guard, or
/// the first of a syntax error, a guard error and an unknown name.
pub open spec fn compile_outcome(
    reader: Seq<char>,
    src: Seq<char>,
    when: Option<Seq<char>>,
    known: Seq<Seq<char>>,
) -> Result<CompiledV, CompileErrorV> {
    match parse_text(src) {
        Err(error) => Err(CompileErrorV::Syntax { reader, src, error }),
        Ok(expr) => {
            let guard: Result<Option<PredV>, ParseErrorV> = match when {
                None => Ok(None),
                Some(w) => match pred_text(w) {
                    Ok(g) => Ok(Some(g)),
                    Err(e) => Err(e),
                },
            };
            match guard {
                Err(error) => Err(CompileErrorV::Guard { reader, src: when->0, error }),
                Ok(g) => match first_unknown(names_of(expr) + guard_names(g), known, 0) {
                    Some(name) => Err(CompileErrorV::UnknownName { reader, name }),
                    None => Ok(CompiledV { expr, guard: g }),
                },
            }
        },
    }
}

/// The view of a compile result.
pub open spec fn compiled_view(r: Result<CompiledExpr, CompileError>) -> Result<CompiledV, CompileErrorV> {
    match r {
        Ok(c) => Ok(c@),
        Err(e) => Err(e@),
    }
}

/// Whether `known` holds a string equal to `n`.
pub(crate) fn contains_text(known: &[String], n: &String) -> (r: bool)
    ensures
        r == texts(known@).contains(n@),
{
    let mut k: usize = 0;
    while k < known.len()
        invariant
            k <= known.len(),
            forall|j: int| 0 <= j < k ==> texts(known@)[j] != n@,
        decreases known.len() - k,
    {
        if known[k] == *n {
            assert(texts(known@)[k as int] == n@);
            return true;
        }
        k = k + 1;
    }
    proof {
        if texts(known@).contains(n@) {
            let j = choose|j: int| 0 <= j < texts(known@).len() && texts(known@)[j] == n@;
            assert(texts(known@)[j] != n@);
        }
    }
    false
}

/// The first name of `read` that `known` does not hold.
fn find_unknown(read: &Vec<String>, known: &[String]) -> (r: Option<String>)
    ensures
        match r {
            Some(n) => first_unknown(texts(read@), texts(known@), 0) == Some(n@),
            None => first_unknown(texts(read@), texts(known@), 0) is None,
        },
{
    let mut i: usize = 0;
    while i < read.len()
        invariant
            i <= read.len(),
            first_unknown(texts(read@), texts(known@), 0) == first_unknown(
                texts(read@),
                texts(known@),
                i as nat,
            ),
        decreases read.len() - i,
    {
        if !contains_text(known, &read[i]) {
            return Some(read[i].clone());
        }
        i = i + 1;
    }
    None
}

/// Compiles a formula (`what` labels it) against the names in scope.
pub fn compile_formula(what: &str, src: &str, known: &[String]) -> (r: Result<CompiledExpr, CompileError>)
    ensures
        compiled_view(r) == compile_outcome(what@, src@, None, texts(known@)),
{
    compile_float_derived(what, src, None, known)
}

/// Compiles the float expression of the derived channel `name`, with its
/// optional `when:` guard, against the names in scope: the declared inputs
/// and the channels declared before it.
pub fn compile_float_derived(name: &str, src: &str, when: Option<&str>, known: &[String]) -> (r: Result<
    CompiledExpr,
    CompileError,
>)
    ensures
        compiled_view(r) == compile_outcome(
            name@,
            src@,
            match when {
                Some(w) => Some(w@),
                None => None,
            },
            texts(known@),
        ),
{
    let expr = match parse(src) {
        Err(error) => {
            return Err(CompileError::Syntax { reader: name.to_owned(), src: src.to_owned(), error });
        },
        Ok(e) => e,
    };
    let guard = match when {
        None => None,
        Some(w) => match parse_pred(w) {
            Err(error) => {
                return Err(CompileError::Guard { reader: name.to_owned(), src: w.to_owned(), error });
            },
            Ok(g) => Some(g),
        },
    };
    let mut read: Vec<String> = Vec::new();
    names(&expr, &mut read);
    match &guard {
        Some(g) => {
            names(&g.lhs, &mut read);
            names(&g.rhs, &mut read);
            assert(Seq::<Seq<char>>::empty() + names_of(expr@) + names_of(g.lhs@) + names_of(g.rhs@)
                =~= names_of(expr@) + (names_of(g.lhs@) + names_of(g.rhs@)));
        },
        None => {
            assert(Seq::<Seq<char>>::empty() + names_of(expr@) =~= names_of(expr@) + Seq::<
                Seq<char>,
            >::empty());
        },
    }
    match find_unknown(&read, known) {
        Some(unknown) => Err(CompileError::UnknownName { reader: name.to_owned(), name: unknown }),
        None => Ok(CompiledExpr { expr, guard }),
    }
}

/// No token of `ts` from `p` up to `q` is a comparison.
pub open spec fn comparison_free(ts: Seq<TokV>, p: nat, q: nat) -> bool {
    forall|k: int| p <= k < q ==> !(#[trigger] ts[k] is Rel)
}

/// What a read of an operand from `p` consumes: a success ends past `p`,
/// inside the tokens, with no comparison on the way.
pub open spec fn reads_well(r: Parsed, ts: Seq<TokV>, p: nat) -> bool {
    r matches Ok((_, q)) ==> p < q <= ts.len() && comparison_free(ts, p, q)
}

/// A tail read from `p` ends at or after `p`, with no comparison on the way.
pub open spec fn tail_reads_well(r: Parsed, ts: Seq<TokV>, p: nat) -> bool {
    r matches Ok((_, q)) ==> p <= q <= ts.len() && comparison_free(ts, p, q)
}

proof fn lemma_sum_reads(ts: Seq<TokV>, p: nat, bounded: bool, d: nat)
    requires
        p <= ts.len(),
    ensures
        reads_well(sum_at(ts, p, bounded, d), ts, p),
    decreases ts.len() - p, 5nat,
{
    lemma_product_reads(ts, p, bounded, d);
    if let Ok((lhs, q)) = product_at(ts, p, bounded, d) {
        lemma_sum_rest_reads(ts, lhs, q, bounded, d);
    }
}

proof fn lemma_sum_rest_reads(ts: Seq<TokV>, lhs: ExprV, p: nat, bounded: bool, d: nat)
    requires
        p <= ts.len(),
    ensures
        tail_reads_well(sum_rest(ts, lhs, p, bounded, d), ts, p),
    decreases ts.len() - p, 4nat,
{
    if tok_at(ts, p, TokV::Plus) || tok_at(ts, p, TokV::Minus) {
        let op = if tok_at(ts, p, TokV::Plus) {
            BinOp::Add
        } else {
            BinOp::Sub
        };
        lemma_product_reads(ts, p + 1, bounded, d);
        if let Ok((rhs, q)) = product_at(ts, p + 1, bounded, d) {
            lemma_sum_rest_reads(ts, ExprV::Bin(op, Box::new(lhs), Box::new(rhs)), q, bounded, d);
        }
    }
}

proof fn lemma_product_reads(ts: Seq<TokV>, p: nat, bounded: bool, d: nat)
    requires
        p <= ts.len(),
    ensures
        reads_well(product_at(ts, p, bounded, d), ts, p),
    decreases ts.len() - p, 3nat,
{
    lemma_unary_reads(ts, p, bounded, d);
    if let Ok((lhs, q)) = unary_at(ts, p, bounded, d) {
        lemma_product_rest_reads(ts, lhs, q, bounded, d);
    }
}

proof fn lemma_product_rest_reads(ts: Seq<TokV>, lhs: ExprV, p: nat, bounded: bool, d: nat)
    requires
        p <= ts.len(),
    ensures
        tail_reads_well(product_rest(ts, lhs, p, bounded, d), ts, p),
    decreases ts.len() - p, 2nat,
{
    if tok_at(ts, p, TokV::Star) || tok_at(ts, p, TokV::Slash) {
        let op = if tok_at(ts, p, TokV::Star) {
            BinOp::Mul
        } else {
            BinOp::Div
        };
        lemma_unary_reads(ts, p + 1, bounded, d);
        if let Ok((rhs, q)) = unary_at(ts, p + 1, bounded, d) {
            lemma_product_rest_reads(ts, ExprV::Bin(op, Box::new(lhs), Box::new(rhs)), q, bounded, d);
        }
    }
}

proof fn lemma_unary_reads(ts: Seq<TokV>, p: nat, bounded: bool, d: nat)
    requires
        p <= ts.len(),
    ensures
        reads_well(unary_at(ts, p, bounded, d), ts, p),
    decreases ts.len() - p, 1nat,
{
    let d2 = deeper(bounded, d);
    if bounded && d2 > 64 {
    } else if tok_at(ts, p, TokV::Minus) {
        lemma_unary_reads(ts, p + 1, bounded, d2);
    } else {
        lemma_atom_reads(ts, p, bounded, d2);
    }
}

proof fn lemma_atom_reads(ts: Seq<TokV>, p: nat, bounded: bool, d: nat)
    requires
        p <= ts.len(),
    ensures
        reads_well(atom_at(ts, p, bounded, d), ts, p),
    decreases ts.len() - p, 0nat,
{
    if p < ts.len() {
        match ts[p as int] {
            TokV::LParen => lemma_sum_reads(ts, p + 1, bounded, d),
            TokV::Ident(name) => if tok_at(ts, p + 1, TokV::LParen) {
                lemma_call_reads(ts, name, p + 2, bounded, d);
            },
            _ => {},
        }
    }
}

#[verifier::spinoff_prover]
#[verifier::rlimit(40)]
proof fn lemma_call_reads(ts: Seq<TokV>, name: Seq<char>, p: nat, bounded: bool, d: nat)
    requires
        p <= ts.len(),
    ensures
        reads_well(call_at(ts, name, p, bounded, d), ts, p),
    decreases ts.len() - p, 6nat,
{
    lemma_sum_reads(ts, p, bounded, d);
    if let Ok((a, q)) = sum_at(ts, p, bounded, d) {
        if tok_at(ts, q, TokV::Comma) {
            lemma_sum_reads(ts, q + 1, bounded, d);
        }
    }
}

/// A comparison is a guard and never arithmetic: an expression whose
/// tokens hold a comparison anywhere is refused.
pub proof fn lemma_comparison_never_arithmetic(cs: Seq<char>, i: int)
    requires
        lex_from(cs, 0) is Ok,
        0 <= i < lex_from(cs, 0)->Ok_0.len(),
        lex_from(cs, 0)->Ok_0[i] is Rel,
    ensures
        parse_text(cs) is Err,
{
    let ts = lex_from(cs, 0)->Ok_0;
    lemma_sum_reads(ts, 0, false, 0);
    if let Ok((e, q)) = sum_at(ts, 0, false, 0) {
        if q == ts.len() {
            assert(!(ts[i] is Rel));
        }
    }
}

/// A guard holds exactly one comparison: the tokens of a text that parses
/// as a guard hold one comparison, and it is the guard's.
pub proof fn lemma_guard_has_one_comparison(cs: Seq<char>)
    requires
        pred_text(cs) is Ok,
    ensures
        lex_from(cs, 0) is Ok,
        exists|i: int|
            0 <= i < lex_from(cs, 0)->Ok_0.len() && lex_from(cs, 0)->Ok_0[i] == TokV::Rel(
                pred_text(cs)->Ok_0.op,
            ) && forall|j: int|
                0 <= j < lex_from(cs, 0)->Ok_0.len() && j != i ==> !(
                #[trigger] lex_from(cs, 0)->Ok_0[j] is Rel),
{
    let ts = lex_from(cs, 0)->Ok_0;
    lemma_sum_reads(ts, 0, false, 0);
    let (lhs, q) = sum_at(ts, 0, false, 0)->Ok_0;
    lemma_sum_reads(ts, q + 1, false, 0);
    assert(forall|j: int| 0 <= j < ts.len() && j != q ==> !(#[trigger] ts[j] is Rel));
}

/// The first name outside `known` is `None` only when `known` holds every
/// name from `i` on.
proof fn lemma_no_unknown(read: Seq<Seq<char>>, known: Seq<Seq<char>>, i: nat)
    requires
        first_unknown(read, known, i) is None,
    ensures
        forall|j: int| i <= j < read.len() ==> known.contains(#[trigger] read[j]),
    decreases read.len() - i,
{
    if i < read.len() {
        lemma_no_unknown(read, known, i + 1);
    }
}

/// An unknown name that compiling reports is read and is not in scope.
proof fn lemma_unknown_is_read(read: Seq<Seq<char>>, known: Seq<Seq<char>>, i: nat)
    requires
        first_unknown(read, known, i) is Some,
    ensures
        read.contains(first_unknown(read, known, i)->0),
        !known.contains(first_unknown(read, known, i)->0),
    decreases read.len() - i,
{
    if i < read.len() && known.contains(read[i as int]) {
        lemma_unknown_is_read(read, known, i + 1);
    }
}

/// Names exist in declaration order: a compiled expression and its guard
/// read only names in scope, and a refusal for a name names one that is
/// read and is not in scope.
pub proof fn lemma_compiled_reads_only_known(
    reader: Seq<char>,
    src: Seq<char>,
    when: Option<Seq<char>>,
    known: Seq<Seq<char>>,
)
    ensures
        compile_outcome(reader, src, when, known) matches Ok(c) ==> forall|n: Seq<char>|
            (names_of(c.expr) + guard_names(c.guard)).contains(n) ==> known.contains(n),
        compile_outcome(reader, src, when, known) matches Err(CompileErrorV::UnknownName { name, .. })
            ==> !known.contains(name) && parse_text(src) is Ok && (names_of(parse_text(src)->Ok_0)
            + match when {
            Some(w) => guard_names(Some(pred_text(w)->Ok_0)),
            None => Seq::empty(),
        }).contains(name),
{
    if let Ok(expr) = parse_text(src) {
        let guard: Result<Option<PredV>, ParseErrorV> = match when {
            None => Ok(None),
            Some(w) => match pred_text(w) {
                Ok(g) => Ok(Some(g)),
                Err(e) => Err(e),
            },
        };
        if let Ok(g) = guard {
            let read = names_of(expr) + guard_names(g);
            if first_unknown(read, known, 0) is None {
                lemma_no_unknown(read, known, 0);
            } else {
                lemma_unknown_is_read(read, known, 0);
            }
        }
    }
}

} // verus!
