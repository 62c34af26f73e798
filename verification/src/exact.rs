//! Checked exact arithmetic for the opt-in integer producers of derived
//! channels.
//!
//! An integer expression is `+ - * /` over decimal `i64` literals, declared
//! names and local bindings, unary minus, parentheses and the calls `abs`,
//! `min`, `max`, `shl` and `shr`. Every operation is checked: an overflow, a
//! division by zero or a shift count outside `0..=63` is an error, never a
//! wrapped value. Literals never pass through floating point, and local
//! bindings and inverse candidates stay integers throughout; only the outer
//! slots arrive from outside, already imported (or refused) by the caller.

use vstd::prelude::*;
use vstd::arithmetic::power2::pow2;
use crate::expr::{
    digit_run_end, ident_run_end, is_alpha, is_digit, is_ident_char, lemma_digit_run_end,
    lemma_ident_run_end, RelOp,
};
use crate::formula::{contains_text, texts};

verus! {

/// Longest accepted source, in bytes.
pub const MAX_SOURCE: usize = 8192;

/// Most tokens in one expression.
pub const MAX_TOKENS: usize = 2048;

/// Most nodes in one expression or guard.
pub const MAX_NODES: usize = 512;

/// Deepest nesting of operands, and greatest height of a tree.
pub const MAX_DEPTH: usize = 64;

/// Most local bindings in one program.
pub const MAX_BINDINGS: usize = 128;

/// The token a construct still wanted.
#[derive(Debug, Clone, Copy, PartialEq, Eq)]
pub enum Expect {
    /// `)`.
    Close,
    /// `,`.
    Comma,
}

/// Why a text is not an integer expression or guard.
#[derive(Debug, Clone, PartialEq, Eq)]
pub enum SyntaxError {
    /// The text is longer than 8192 bytes.
    SourceLimit,
    /// A character that starts no token.
    UnexpectedChar,
    /// More than 2048 tokens.
    TokenLimit,
    Expected(Expect),
    /// More than 512 nodes.
    NodeLimit,
    /// Operands nest deeper than 64, or the tree is higher than 64.
    DepthLimit,
    /// The tokens ran out where an operand was due.
    EndedEarly,
    /// A literal outside the `i64` range.
    LiteralRange,
    /// A call of a function the language does not have.
    UnknownFunction(String),
    /// A name that is neither a local binding nor a declared input.
    UnknownName(String),
    /// Tokens are left after a complete expression.
    Trailing,
    /// A guard without a comparison after its left-hand side.
    NoComparison,
}

pub enum SyntaxErrorV {
    SourceLimit,
    UnexpectedChar,
    TokenLimit,
    Expected(Expect),
    NodeLimit,
    DepthLimit,
    EndedEarly,
    LiteralRange,
    UnknownFunction(Seq<char>),
    UnknownName(Seq<char>),
    Trailing,
    NoComparison,
}

impl View for SyntaxError {
    type V = SyntaxErrorV;

    open spec fn view(&self) -> SyntaxErrorV {
        match self {
            SyntaxError::SourceLimit => SyntaxErrorV::SourceLimit,
            SyntaxError::UnexpectedChar => SyntaxErrorV::UnexpectedChar,
            SyntaxError::TokenLimit => SyntaxErrorV::TokenLimit,
            SyntaxError::Expected(e) => SyntaxErrorV::Expected(*e),
            SyntaxError::NodeLimit => SyntaxErrorV::NodeLimit,
            SyntaxError::DepthLimit => SyntaxErrorV::DepthLimit,
            SyntaxError::EndedEarly => SyntaxErrorV::EndedEarly,
            SyntaxError::LiteralRange => SyntaxErrorV::LiteralRange,
            SyntaxError::UnknownFunction(s) => SyntaxErrorV::UnknownFunction(s@),
            SyntaxError::UnknownName(s) => SyntaxErrorV::UnknownName(s@),
            SyntaxError::Trailing => SyntaxErrorV::Trailing,
            SyntaxError::NoComparison => SyntaxErrorV::NoComparison,
        }
    }
}

// ─── tokens ────────────────────────────────────────────────────────────────

pub open spec fn is_ascii_space(c: char) -> bool {
    c == ' ' || c == '\t' || c == '\n' || c == '\x0C' || c == '\r'
}

/// One of the characters that start a comparison.
pub open spec fn is_rel_char(c: char) -> bool {
    c == '<' || c == '>' || c == '!' || c == '='
}

/// One of the one-character operators and brackets.
pub open spec fn is_op_char(c: char) -> bool {
    c == '+' || c == '-' || c == '*' || c == '/' || c == '(' || c == ')' || c == ','
}

pub open spec fn starts_token(c: char) -> bool {
    is_digit(c) || is_alpha(c) || c == '_' || is_rel_char(c) || is_op_char(c)
}

/// The end of the token that starts at `i`: a run of digits, a name, a
/// comparison character with an optional `=`, or one operator.
pub open spec fn token_end(cs: Seq<char>, i: nat) -> nat {
    let c = cs[i as int];
    if is_digit(c) {
        digit_run_end(cs, i + 1)
    } else if is_alpha(c) || c == '_' {
        ident_run_end(cs, i)
    } else if is_rel_char(c) && i + 1 < cs.len() && cs[i + 1int] == '=' {
        i + 2
    } else {
        i + 1
    }
}

pub proof fn lemma_token_end(cs: Seq<char>, i: nat)
    requires
        i < cs.len(),
        starts_token(cs[i as int]),
    ensures
        i < token_end(cs, i) <= cs.len(),
{
    lemma_digit_run_end(cs, i + 1);
    lemma_ident_run_end(cs, i);
}

/// `t` in front of the tokens of the rest, or the rest's error.
pub open spec fn push_front(t: Seq<char>, rest: Result<Seq<Seq<char>>, SyntaxErrorV>) -> Result<
    Seq<Seq<char>>,
    SyntaxErrorV,
> {
    match rest {
        Ok(ts) => Ok(seq![t] + ts),
        Err(e) => Err(e),
    }
}

/// The tokens of `cs` from `i` on, `n` having been read before: ASCII
/// whitespace separates, and the 2049th token is refused as soon as it is
/// read.
pub open spec fn tokens_from(cs: Seq<char>, i: nat, n: nat) -> Result<Seq<Seq<char>>, SyntaxErrorV>
    decreases cs.len() - i,
{
    if i >= cs.len() {
        Ok(Seq::empty())
    } else if is_ascii_space(cs[i as int]) {
        tokens_from(cs, i + 1, n)
    } else if !starts_token(cs[i as int]) {
        Err(SyntaxErrorV::UnexpectedChar)
    } else if n + 1 > MAX_TOKENS {
        Err(SyntaxErrorV::TokenLimit)
    } else {
        let e = token_end(cs, i);
        proof {
            lemma_token_end(cs, i);
        }
        push_front(cs.subrange(i as int, e as int), tokens_from(cs, e, n + 1))
    }
}

/// The length in bytes of the text of the characters `cs`, as `str::len`
/// reports it.
pub open spec fn src_len(cs: Seq<char>) -> nat {
    (vstd::utf8::encode_utf8(cs).len() as usize) as nat
}

/// The tokens of the text of the characters `cs`.
pub open spec fn tokens_of(cs: Seq<char>) -> Result<Seq<Seq<char>>, SyntaxErrorV> {
    if src_len(cs) > MAX_SOURCE {
        Err(SyntaxErrorV::SourceLimit)
    } else {
        tokens_from(cs, 0, 0)
    }
}

pub open spec fn texts_of(ts: Seq<Vec<char>>) -> Seq<Seq<char>> {
    ts.map_values(|t: Vec<char>| t@)
}

pub open spec fn push_front_all(prefix: Seq<Seq<char>>, rest: Result<Seq<Seq<char>>, SyntaxErrorV>) -> Result<
    Seq<Seq<char>>,
    SyntaxErrorV,
> {
    match rest {
        Ok(ts) => Ok(prefix + ts),
        Err(e) => Err(e),
    }
}

proof fn lemma_push_front_assoc(
    before: Seq<Seq<char>>,
    t: Seq<char>,
    rest: Result<Seq<Seq<char>>, SyntaxErrorV>,
)
    ensures
        push_front_all(before, push_front(t, rest)) == push_front_all(before + seq![t], rest),
{
    if let Ok(ts) = rest {
        assert((before + seq![t]) + ts =~= before + (seq![t] + ts));
    }
}

/// Splits `src` into tokens; see `tokens_from`.
pub fn tokenize(src: &str) -> (r: Result<Vec<Vec<char>>, SyntaxError>)
    ensures
        match r {
            Ok(ts) => tokens_of(src@) == Ok::<Seq<Seq<char>>, SyntaxErrorV>(
                texts_of(ts@),
            ),
            Err(e) => tokens_of(src@) == Err::<Seq<Seq<char>>, SyntaxErrorV>(e@),
        },
{
    if src.len() > MAX_SOURCE {
        return Err(SyntaxError::SourceLimit);
    }
    let cs = crate::expr::chars_of(src);
    let mut out: Vec<Vec<char>> = Vec::new();
    let mut i: usize = 0;
    while i < cs.len()
        invariant
            i <= cs.len(),
            cs@ == src@,
            src.len() <= MAX_SOURCE,
            out.len() <= MAX_TOKENS,
            tokens_from(cs@, 0, 0) == push_front_all(
                texts_of(out@),
                tokens_from(cs@, i as nat, out.len() as nat),
            ),
        decreases cs.len() - i,
    {
        let c = cs[i];
        if c == ' ' || c == '\t' || c == '\n' || c == '\x0C' || c == '\r' {
            i = i + 1;
        } else {
            let digit = crate::expr::is_digit_char(c);
            let alpha = crate::expr::is_alpha_char(c);
            let rel = c == '<' || c == '>' || c == '!' || c == '=';
            let op = c == '+' || c == '-' || c == '*' || c == '/' || c == '(' || c == ')' || c == ',';
            if !(digit || alpha || c == '_' || rel || op) {
                return Err(SyntaxError::UnexpectedChar);
            }
            if out.len() + 1 > MAX_TOKENS {
                return Err(SyntaxError::TokenLimit);
            }
            proof {
                lemma_token_end(cs@, i as nat);
            }
            let e = if digit {
                crate::expr::scan_digit_run(&cs, i + 1)
            } else if alpha || c == '_' {
                crate::expr::scan_ident_run(&cs, i)
            } else if rel && i + 1 < cs.len() && cs[i + 1] == '=' {
                i + 2
            } else {
                i + 1
            };
            let t = crate::expr::chars_between(&cs, i, e);
            let ghost before = texts_of(out@);
            out.push(t);
            assert(texts_of(out@) =~= before + seq![t@]);
            proof {
                lemma_push_front_assoc(before, t@, tokens_from(cs@, e as nat, (out.len() - 1 + 1) as nat));
            }
            i = e;
        }
    }
    assert(texts_of(out@) + Seq::<Seq<char>>::empty() =~= texts_of(out@));
    Ok(out)
}

// ─── trees ─────────────────────────────────────────────────────────────────

/// A checked binary operation.
#[derive(Debug, Clone, Copy, PartialEq, Eq)]
pub enum Op {
    Add,
    Sub,
    Mul,
    Div,
    Min,
    Max,
    Shl,
    Shr,
}

/// A parsed integer expression.
#[derive(Debug, PartialEq, Eq)]
pub enum Expr {
    Const(i64),
    /// A declared input, read from the outer slots.
    Outer(String),
    /// A local binding, by its index in the program's locals.
    Local(usize),
    Neg(Box<Expr>),
    Abs(Box<Expr>),
    Bin(Op, Box<Expr>, Box<Expr>),
}

pub enum ExprV {
    Const(i64),
    Outer(Seq<char>),
    Local(usize),
    Neg(Box<ExprV>),
    Abs(Box<ExprV>),
    Bin(Op, Box<ExprV>, Box<ExprV>),
}

pub open spec fn expr_view(e: Expr) -> ExprV
    decreases e,
{
    match e {
        Expr::Const(v) => ExprV::Const(v),
        Expr::Outer(n) => ExprV::Outer(n@),
        Expr::Local(i) => ExprV::Local(i),
        Expr::Neg(a) => ExprV::Neg(Box::new(expr_view(*a))),
        Expr::Abs(a) => ExprV::Abs(Box::new(expr_view(*a))),
        Expr::Bin(op, a, b) => ExprV::Bin(op, Box::new(expr_view(*a)), Box::new(expr_view(*b))),
    }
}

impl View for Expr {
    type V = ExprV;

    open spec fn view(&self) -> ExprV {
        expr_view(*self)
    }
}

/// The height of a tree: a leaf is 1.
pub open spec fn height(e: ExprV) -> nat
    decreases e,
{
    match e {
        ExprV::Neg(a) => height(*a) + 1,
        ExprV::Abs(a) => height(*a) + 1,
        ExprV::Bin(_, a, b) => if height(*a) >= height(*b) {
            height(*a) + 1
        } else {
            height(*b) + 1
        },
        _ => 1,
    }
}

/// The height of `e`, capped at 65.
fn capped_height(e: &Expr) -> (r: u64)
    ensures
        r == if height(e@) > 65 {
            65
        } else {
            height(e@)
        },
    decreases e,
{
    let h = match e {
        Expr::Neg(a) => capped_height(&**a) + 1,
        Expr::Abs(a) => capped_height(&**a) + 1,
        Expr::Bin(_, a, b) => {
            let x = capped_height(&**a);
            let y = capped_height(&**b);
            if x >= y {
                x + 1
            } else {
                y + 1
            }
        },
        _ => 1,
    };
    if h > 65 {
        65
    } else {
        h
    }
}

// ─── grammar ───────────────────────────────────────────────────────────────

/// What an expression is read against: its tokens, the declared inputs and
/// the local bindings in scope.
pub struct Scope {
    pub ts: Seq<Seq<char>>,
    pub known: Seq<Seq<char>>,
    pub local: Seq<Seq<char>>,
}

/// A read: the tree, the position after it, and the nodes counted so far.
pub type Read = Result<(ExprV, nat, nat), SyntaxErrorV>;

/// Token `p` is the text `w`.
pub open spec fn tok_is(s: Scope, p: nat, w: Seq<char>) -> bool {
    p < s.ts.len() && s.ts[p as int] == w
}

/// A new node `e` at position `p`, `n` nodes having been counted before it.
pub open spec fn counted(e: ExprV, p: nat, n: nat) -> Read {
    if n + 1 > MAX_NODES {
        Err(SyntaxErrorV::NodeLimit)
    } else {
        Ok((e, p, n + 1))
    }
}

/// The magnitude of `i64::MIN`, as written.
pub open spec fn min_magnitude() -> Seq<char> {
    seq!['9', '2', '2', '3', '3', '7', '2', '0', '3', '6', '8', '5', '4', '7', '7', '5', '8', '0', '8']
}

/// Every character of `t` is a decimal digit.
pub open spec fn all_digits(t: Seq<char>) -> bool {
    forall|k: int| 0 <= k < t.len() ==> is_digit(#[trigger] t[k])
}

/// The value of a run of decimal digits.
pub open spec fn decimal(t: Seq<char>) -> nat
    decreases t.len(),
{
    if t.len() == 0 {
        0
    } else {
        decimal(t.drop_last()) * 10 + ((t.last() as nat) - ('0' as nat)) as nat
    }
}

/// The `i64` a literal is, if it is one.
pub open spec fn literal_value(t: Seq<char>) -> Option<i64> {
    if all_digits(t) && decimal(t) <= i64::MAX {
        Some(decimal(t) as i64)
    } else {
        None
    }
}

/// The first index from `i` at which `names` holds `t`.
pub open spec fn index_from(names: Seq<Seq<char>>, t: Seq<char>, i: nat) -> Option<nat>
    decreases names.len() - i,
{
    if i >= names.len() {
        None
    } else if names[i as int] == t {
        Some(i)
    } else {
        index_from(names, t, i + 1)
    }
}

/// The two-argument function a name calls.
pub open spec fn int_func(t: Seq<char>) -> Option<Op> {
    if t == seq!['m', 'i', 'n'] {
        Some(Op::Min)
    } else if t == seq!['m', 'a', 'x'] {
        Some(Op::Max)
    } else if t == seq!['s', 'h', 'l'] {
        Some(Op::Shl)
    } else if t == seq!['s', 'h', 'r'] {
        Some(Op::Shr)
    } else {
        None
    }
}

/// `sum := product (('+' | '-') product)*` at depth `d`.
pub open spec fn sum_at(s: Scope, p: nat, n: nat, d: nat) -> Read
    decreases s.ts.len() - p, 4nat,
{
    match product_at(s, p, n, d) {
        Err(e) => Err(e),
        Ok((a, q, m)) => if p < q <= s.ts.len() {
            sum_rest(s, a, q, m, d)
        } else {
            Ok((a, q, m))
        },
    }
}

pub open spec fn sum_rest(s: Scope, a: ExprV, p: nat, n: nat, d: nat) -> Read
    decreases s.ts.len() - p, 3nat,
{
    if tok_is(s, p, seq!['+']) || tok_is(s, p, seq!['-']) {
        let op = if tok_is(s, p, seq!['+']) {
            Op::Add
        } else {
            Op::Sub
        };
        match product_at(s, p + 1, n, d) {
            Err(e) => Err(e),
            Ok((b, q, m)) => match counted(ExprV::Bin(op, Box::new(a), Box::new(b)), q, m) {
                Err(e) => Err(e),
                Ok((e, q2, m2)) => if p < q2 <= s.ts.len() {
                    sum_rest(s, e, q2, m2, d)
                } else {
                    Ok((e, q2, m2))
                },
            },
        }
    } else {
        Ok((a, p, n))
    }
}

/// `product := atom (('*' | '/') atom)*` at depth `d`.
pub open spec fn product_at(s: Scope, p: nat, n: nat, d: nat) -> Read
    decreases s.ts.len() - p, 2nat,
{
    match atom_at(s, p, n, d) {
        Err(e) => Err(e),
        Ok((a, q, m)) => if p < q <= s.ts.len() {
            product_rest(s, a, q, m, d)
        } else {
            Ok((a, q, m))
        },
    }
}

pub open spec fn product_rest(s: Scope, a: ExprV, p: nat, n: nat, d: nat) -> Read
    decreases s.ts.len() - p, 1nat,
{
    if tok_is(s, p, seq!['*']) || tok_is(s, p, seq!['/']) {
        let op = if tok_is(s, p, seq!['*']) {
            Op::Mul
        } else {
            Op::Div
        };
        match atom_at(s, p + 1, n, d) {
            Err(e) => Err(e),
            Ok((b, q, m)) => match counted(ExprV::Bin(op, Box::new(a), Box::new(b)), q, m) {
                Err(e) => Err(e),
                Ok((e, q2, m2)) => if p < q2 <= s.ts.len() {
                    product_rest(s, e, q2, m2, d)
                } else {
                    Ok((e, q2, m2))
                },
            },
        }
    } else {
        Ok((a, p, n))
    }
}

/// An operand at depth `d`: a negation (or the literal `-9223372036854775808`),
/// a bracketed sum, a literal, a call, or a name in scope.
pub open spec fn atom_at(s: Scope, p: nat, n: nat, d: nat) -> Read
    decreases s.ts.len() - p, 0nat,
{
    if d >= MAX_DEPTH {
        Err(SyntaxErrorV::DepthLimit)
    } else if tok_is(s, p, seq!['-']) {
        if tok_is(s, p + 1, min_magnitude()) {
            counted(ExprV::Const(i64::MIN), p + 2, n)
        } else {
            match atom_at(s, p + 1, n, d + 1) {
                Err(e) => Err(e),
                Ok((a, q, m)) => counted(ExprV::Neg(Box::new(a)), q, m),
            }
        }
    } else if tok_is(s, p, seq!['(']) {
        match sum_at(s, p + 1, n, d + 1) {
            Err(e) => Err(e),
            Ok((a, q, m)) => if tok_is(s, q, seq![')']) {
                Ok((a, q + 1, m))
            } else {
                Err(SyntaxErrorV::Expected(Expect::Close))
            },
        }
    } else if p >= s.ts.len() {
        Err(SyntaxErrorV::EndedEarly)
    } else {
        let t = s.ts[p as int];
        if t.len() > 0 && is_digit(t[0]) {
            match literal_value(t) {
                Some(v) => counted(ExprV::Const(v), p + 1, n),
                None => Err(SyntaxErrorV::LiteralRange),
            }
        } else if tok_is(s, p + 1, seq!['(']) {
            call_at(s, t, p + 2, n, d)
        } else {
            match index_from(s.local, t, 0) {
                Some(i) => counted(ExprV::Local(i as usize), p + 1, n),
                None => if s.known.contains(t) {
                    counted(ExprV::Outer(t), p + 1, n)
                } else {
                    Err(SyntaxErrorV::UnknownName(t))
                },
            }
        }
    }
}

/// The arguments and closing bracket of a call of `name` made at depth `d`,
/// from token `p` just past its `(`.
pub open spec fn call_at(s: Scope, name: Seq<char>, p: nat, n: nat, d: nat) -> Read
    decreases s.ts.len() - p, 5nat,
{
    match sum_at(s, p, n, d + 1) {
        Err(e) => Err(e),
        Ok((a, q, m)) => if name == seq!['a', 'b', 's'] {
            if tok_is(s, q, seq![')']) {
                counted(ExprV::Abs(Box::new(a)), q + 1, m)
            } else {
                Err(SyntaxErrorV::Expected(Expect::Close))
            }
        } else {
            match int_func(name) {
                None => Err(SyntaxErrorV::UnknownFunction(name)),
                Some(op) => if !tok_is(s, q, seq![',']) {
                    Err(SyntaxErrorV::Expected(Expect::Comma))
                } else if p <= q {
                    match sum_at(s, q + 1, m, d + 1) {
                        Err(e) => Err(e),
                        Ok((b, q2, m2)) => if tok_is(s, q2, seq![')']) {
                            counted(ExprV::Bin(op, Box::new(a), Box::new(b)), q2 + 1, m2)
                        } else {
                            Err(SyntaxErrorV::Expected(Expect::Close))
                        },
                    }
                } else {
                    Err(SyntaxErrorV::EndedEarly)
                },
            }
        },
    }
}

/// The checks after a complete tree `e` read up to `p`: nothing left over,
/// and no more than 64 high.
pub open spec fn finish(e: ExprV, p: nat, len: nat) -> Result<(), SyntaxErrorV> {
    if p != len {
        Err(SyntaxErrorV::Trailing)
    } else if height(e) > MAX_DEPTH {
        Err(SyntaxErrorV::DepthLimit)
    } else {
        Ok(())
    }
}

/// One whole expression over the tokens of `s`.
pub open spec fn expression_of(s: Scope) -> Result<ExprV, SyntaxErrorV> {
    match sum_at(s, 0, 0, 0) {
        Err(e) => Err(e),
        Ok((e, q, _)) => match finish(e, q, s.ts.len()) {
            Err(err) => Err(err),
            Ok(()) => Ok(e),
        },
    }
}

/// The scope an expression over the tokens `ts` is read in.
pub open spec fn scope_of(ts: &Vec<Vec<char>>, known: &[String], local: &[String]) -> Scope {
    Scope { ts: texts_of(ts@), known: texts(known@), local: texts(local@) }
}

/// `r` is the exec form of the read `s` from `p`: a success moved past
/// `p`, inside the tokens, and kept to the node limit.
spec fn read_as(r: Result<(Expr, usize, usize), SyntaxError>, s: Read, p: usize, len: nat) -> bool {
    match r {
        Ok((e, q, m)) => s == Ok::<(ExprV, nat, nat), SyntaxErrorV>((e@, q as nat, m as nat)) && p < q
            <= len && m <= MAX_NODES,
        Err(err) => s == Err::<(ExprV, nat, nat), SyntaxErrorV>(err@),
    }
}

/// Whether token `p` is the one character `c`.
fn tok_is_char(ts: &Vec<Vec<char>>, p: usize, c: char) -> (r: bool)
    ensures
        r == (p < ts.len() && ts@[p as int]@ == seq![c]),
{
    if p >= ts.len() {
        return false;
    }
    let t = &ts[p];
    if t.len() != 1 {
        assert(t@.len() != seq![c].len());
        return false;
    }
    let r = t[0] == c;
    assert(r ==> t@ =~= seq![c]);
    assert(!r ==> t@[0] != seq![c][0]);
    r
}

/// Whether `t` is `w`.
fn same_chars(t: &Vec<char>, w: &Vec<char>) -> (r: bool)
    ensures
        r == (t@ == w@),
{
    if t.len() != w.len() {
        return false;
    }
    let mut k: usize = 0;
    while k < t.len()
        invariant
            k <= t.len(),
            t.len() == w.len(),
            forall|j: int| 0 <= j < k ==> t@[j] == w@[j],
        decreases t.len() - k,
    {
        if t[k] != w[k] {
            return false;
        }
        k = k + 1;
    }
    assert(t@ =~= w@);
    true
}

/// Whether `t` is the three characters `a`, `b`, `c`.
fn is_word3(t: &Vec<char>, a: char, b: char, c: char) -> (r: bool)
    ensures
        r == (t@ == seq![a, b, c]),
{
    if t.len() != 3 {
        assert(t@.len() != seq![a, b, c].len());
        return false;
    }
    let r = t[0] == a && t[1] == b && t[2] == c;
    assert(r ==> t@ =~= seq![a, b, c]);
    assert(seq![a, b, c][0] == a && seq![a, b, c][1] == b && seq![a, b, c][2] == c);
    r
}

/// Whether token `p` is the magnitude of `i64::MIN`.
fn is_min_magnitude(ts: &Vec<Vec<char>>, p: usize) -> (r: bool)
    ensures
        r == (p < ts.len() && ts@[p as int]@ == min_magnitude()),
{
    if p >= ts.len() {
        return false;
    }
    let w: Vec<char> = vec![
        '9',
        '2',
        '2',
        '3',
        '3',
        '7',
        '2',
        '0',
        '3',
        '6',
        '8',
        '5',
        '4',
        '7',
        '7',
        '5',
        '8',
        '0',
        '8',
    ];
    assert(w@ =~= min_magnitude());
    same_chars(&ts[p], &w)
}

proof fn lemma_decimal_grows(t: Seq<char>, k: nat, j: nat)
    requires
        k <= j <= t.len(),
    ensures
        decimal(t.subrange(0, k as int)) <= decimal(t.subrange(0, j as int)),
    decreases j - k,
{
    if k < j {
        lemma_decimal_grows(t, k, (j - 1) as nat);
        assert(t.subrange(0, j as int).drop_last() =~= t.subrange(0, j - 1));
    }
}

/// The `i64` a literal is, if it is one.
fn literal_of(t: &Vec<char>) -> (r: Option<i64>)
    ensures
        r == literal_value(t@),
{
    let mut acc: u128 = 0;
    let mut k: usize = 0;
    while k < t.len()
        invariant
            k <= t.len(),
            acc == decimal(t@.subrange(0, k as int)),
            acc <= i64::MAX,
            all_digits(t@.subrange(0, k as int)),
        decreases t.len() - k,
    {
        let c = t[k];
        if !crate::expr::is_digit_char(c) {
            assert(!is_digit(t@[k as int]));
            return None;
        }
        let digit = (c as u32 - '0' as u32) as u128;
        let next = acc * 10 + digit;
        assert(t@.subrange(0, k + 1).drop_last() =~= t@.subrange(0, k as int));
        assert(next == decimal(t@.subrange(0, k + 1)));
        if next > i64::MAX as u128 {
            proof {
                lemma_decimal_grows(t@, (k + 1) as nat, t.len() as nat);
                assert(t@.subrange(0, t.len() as int) =~= t@);
            }
            return None;
        }
        assert forall|j: int| 0 <= j < k + 1 implies is_digit(#[trigger] t@.subrange(0, k + 1)[j]) by {
            if j < k {
                assert(t@.subrange(0, k + 1)[j] == t@.subrange(0, k as int)[j]);
            }
        }
        acc = next;
        k = k + 1;
    }
    assert(t@.subrange(0, t.len() as int) =~= t@);
    Some(acc as i64)
}

/// The first index at which `names` holds `name`.
fn find_index(names: &[String], name: &String) -> (r: Option<usize>)
    ensures
        match r {
            Some(i) => index_from(texts(names@), name@, 0) == Some(i as nat),
            None => index_from(texts(names@), name@, 0) is None,
        },
{
    let mut i: usize = 0;
    while i < names.len()
        invariant
            i <= names.len(),
            index_from(texts(names@), name@, 0) == index_from(texts(names@), name@, i as nat),
        decreases names.len() - i,
    {
        if names[i] == *name {
            return Some(i);
        }
        i = i + 1;
    }
    None
}

/// Reads a `sum` from token `p` at depth `d`, `n` nodes counted.
fn parse_sum(ts: &Vec<Vec<char>>, known: &[String], local: &[String], p: usize, n: usize, d: usize) -> (r: Result<
    (Expr, usize, usize),
    SyntaxError,
>)
    requires
        p <= ts.len(),
        n <= MAX_NODES,
        d <= MAX_DEPTH,
    ensures
        read_as(r, sum_at(scope_of(ts, known, local), p as nat, n as nat, d as nat), p, ts.len() as nat),
    decreases ts.len() - p, 4nat,
{
    let ghost sc = scope_of(ts, known, local);
    let (first, q0, m0) = match parse_product(ts, known, local, p, n, d) {
        Err(e) => return Err(e),
        Ok(x) => x,
    };
    let mut a = first;
    let mut q = q0;
    let mut m = m0;
    while tok_is_char(ts, q, '+') || tok_is_char(ts, q, '-')
        invariant
            p < q <= ts.len(),
            m <= MAX_NODES,
            d <= MAX_DEPTH,
            sc == scope_of(ts, known, local),
            sum_at(sc, p as nat, n as nat, d as nat) == sum_rest(sc, a@, q as nat, m as nat, d as nat),
        decreases ts.len() - q,
    {
        let op = if tok_is_char(ts, q, '+') {
            Op::Add
        } else {
            Op::Sub
        };
        let (b, q2, m2) = match parse_product(ts, known, local, q + 1, m, d) {
            Err(e) => return Err(e),
            Ok(x) => x,
        };
        if m2 + 1 > MAX_NODES {
            return Err(SyntaxError::NodeLimit);
        }
        a = Expr::Bin(op, Box::new(a), Box::new(b));
        q = q2;
        m = m2 + 1;
    }
    Ok((a, q, m))
}

/// Reads a `product` from token `p` at depth `d`, `n` nodes counted.
fn parse_product(ts: &Vec<Vec<char>>, known: &[String], local: &[String], p: usize, n: usize, d: usize) -> (r: Result<
    (Expr, usize, usize),
    SyntaxError,
>)
    requires
        p <= ts.len(),
        n <= MAX_NODES,
        d <= MAX_DEPTH,
    ensures
        read_as(r, product_at(scope_of(ts, known, local), p as nat, n as nat, d as nat), p, ts.len() as nat),
    decreases ts.len() - p, 2nat,
{
    let ghost sc = scope_of(ts, known, local);
    let (first, q0, m0) = match parse_atom(ts, known, local, p, n, d) {
        Err(e) => return Err(e),
        Ok(x) => x,
    };
    let mut a = first;
    let mut q = q0;
    let mut m = m0;
    while tok_is_char(ts, q, '*') || tok_is_char(ts, q, '/')
        invariant
            p < q <= ts.len(),
            m <= MAX_NODES,
            d <= MAX_DEPTH,
            sc == scope_of(ts, known, local),
            product_at(sc, p as nat, n as nat, d as nat) == product_rest(sc, a@, q as nat, m as nat, d as nat),
        decreases ts.len() - q,
    {
        let op = if tok_is_char(ts, q, '*') {
            Op::Mul
        } else {
            Op::Div
        };
        let (b, q2, m2) = match parse_atom(ts, known, local, q + 1, m, d) {
            Err(e) => return Err(e),
            Ok(x) => x,
        };
        if m2 + 1 > MAX_NODES {
            return Err(SyntaxError::NodeLimit);
        }
        a = Expr::Bin(op, Box::new(a), Box::new(b));
        q = q2;
        m = m2 + 1;
    }
    Ok((a, q, m))
}

/// Reads an operand from token `p` at depth `d`, `n` nodes counted.
fn parse_atom(ts: &Vec<Vec<char>>, known: &[String], local: &[String], p: usize, n: usize, d: usize) -> (r: Result<
    (Expr, usize, usize),
    SyntaxError,
>)
    requires
        p <= ts.len(),
        n <= MAX_NODES,
        d <= MAX_DEPTH,
    ensures
        read_as(r, atom_at(scope_of(ts, known, local), p as nat, n as nat, d as nat), p, ts.len() as nat),
    decreases ts.len() - p, 0nat,
{
    let ghost sc = scope_of(ts, known, local);
    if d >= MAX_DEPTH {
        return Err(SyntaxError::DepthLimit);
    }
    if tok_is_char(ts, p, '-') {
        if is_min_magnitude(ts, p + 1) {
            if n + 1 > MAX_NODES {
                return Err(SyntaxError::NodeLimit);
            }
            return Ok((Expr::Const(i64::MIN), p + 2, n + 1));
        }
        let (a, q, m) = match parse_atom(ts, known, local, p + 1, n, d + 1) {
            Err(e) => return Err(e),
            Ok(x) => x,
        };
        if m + 1 > MAX_NODES {
            return Err(SyntaxError::NodeLimit);
        }
        return Ok((Expr::Neg(Box::new(a)), q, m + 1));
    }
    if tok_is_char(ts, p, '(') {
        let (a, q, m) = match parse_sum(ts, known, local, p + 1, n, d + 1) {
            Err(e) => return Err(e),
            Ok(x) => x,
        };
        if !tok_is_char(ts, q, ')') {
            return Err(SyntaxError::Expected(Expect::Close));
        }
        return Ok((a, q + 1, m));
    }
    if p >= ts.len() {
        return Err(SyntaxError::EndedEarly);
    }
    let t = &ts[p];
    assert(sc.ts[p as int] == t@);
    if t.len() > 0 && crate::expr::is_digit_char(t[0]) {
        return match literal_of(t) {
            Some(v) => if n + 1 > MAX_NODES {
                Err(SyntaxError::NodeLimit)
            } else {
                Ok((Expr::Const(v), p + 1, n + 1))
            },
            None => Err(SyntaxError::LiteralRange),
        };
    }
    if tok_is_char(ts, p + 1, '(') {
        return parse_call(ts, known, local, t, p + 2, n, d);
    }
    let name = crate::expr::string_from_chars(t.as_slice());
    match find_index(local, &name) {
        Some(i) => if n + 1 > MAX_NODES {
            Err(SyntaxError::NodeLimit)
        } else {
            Ok((Expr::Local(i), p + 1, n + 1))
        },
        None => if contains_text(known, &name) {
            if n + 1 > MAX_NODES {
                Err(SyntaxError::NodeLimit)
            } else {
                Ok((Expr::Outer(name), p + 1, n + 1))
            }
        } else {
            Err(SyntaxError::UnknownName(name))
        },
    }
}

/// Reads the arguments and closing bracket of a call of `name` made at
/// depth `d`, from token `p` just past its `(`.
fn parse_call(
    ts: &Vec<Vec<char>>,
    known: &[String],
    local: &[String],
    name: &Vec<char>,
    p: usize,
    n: usize,
    d: usize,
) -> (r: Result<(Expr, usize, usize), SyntaxError>)
    requires
        p <= ts.len(),
        n <= MAX_NODES,
        d < MAX_DEPTH,
    ensures
        read_as(r, call_at(scope_of(ts, known, local), name@, p as nat, n as nat, d as nat), p, ts.len() as nat),
    decreases ts.len() - p, 5nat,
{
    let (a, q, m) = match parse_sum(ts, known, local, p, n, d + 1) {
        Err(e) => return Err(e),
        Ok(x) => x,
    };
    if is_word3(name, 'a', 'b', 's') {
        if !tok_is_char(ts, q, ')') {
            return Err(SyntaxError::Expected(Expect::Close));
        }
        if m + 1 > MAX_NODES {
            return Err(SyntaxError::NodeLimit);
        }
        return Ok((Expr::Abs(Box::new(a)), q + 1, m + 1));
    }
    let op = if is_word3(name, 'm', 'i', 'n') {
        Op::Min
    } else if is_word3(name, 'm', 'a', 'x') {
        Op::Max
    } else if is_word3(name, 's', 'h', 'l') {
        Op::Shl
    } else if is_word3(name, 's', 'h', 'r') {
        Op::Shr
    } else {
        return Err(SyntaxError::UnknownFunction(crate::expr::string_from_chars(name.as_slice())));
    };
    if !tok_is_char(ts, q, ',') {
        return Err(SyntaxError::Expected(Expect::Comma));
    }
    let (b, q2, m2) = match parse_sum(ts, known, local, q + 1, m, d + 1) {
        Err(e) => return Err(e),
        Ok(x) => x,
    };
    if !tok_is_char(ts, q2, ')') {
        return Err(SyntaxError::Expected(Expect::Close));
    }
    if m2 + 1 > MAX_NODES {
        return Err(SyntaxError::NodeLimit);
    }
    Ok((Expr::Bin(op, Box::new(a), Box::new(b)), q2 + 1, m2 + 1))
}

/// The checks after a complete tree read up to `p`.
fn finish_exec(e: &Expr, p: usize, len: usize) -> (r: Result<(), SyntaxError>)
    ensures
        match r {
            Ok(()) => finish(e@, p as nat, len as nat) == Ok::<(), SyntaxErrorV>(()),
            Err(err) => finish(e@, p as nat, len as nat) == Err::<(), SyntaxErrorV>(err@),
        },
{
    if p != len {
        return Err(SyntaxError::Trailing);
    }
    if capped_height(e) > MAX_DEPTH as u64 {
        return Err(SyntaxError::DepthLimit);
    }
    Ok(())
}

/// One whole expression in the text `cs`, read against the declared inputs
/// `known` and the locals `local`.
pub open spec fn expression_in(cs: Seq<char>, known: Seq<Seq<char>>, local: Seq<Seq<char>>) -> Result<
    ExprV,
    SyntaxErrorV,
> {
    match tokens_of(cs) {
        Err(e) => Err(e),
        Ok(ts) => expression_of(Scope { ts, known, local }),
    }
}

/// Parses one whole expression of `src` against the declared inputs and the
/// locals in scope.
fn read_expression(src: &str, known: &[String], local: &[String]) -> (r: Result<Expr, SyntaxError>)
    ensures
        match r {
            Ok(e) => expression_in(src@, texts(known@), texts(local@)) == Ok::<ExprV, SyntaxErrorV>(e@),
            Err(err) => expression_in(src@, texts(known@), texts(local@)) == Err::<ExprV, SyntaxErrorV>(
                err@,
            ),
        },
{
    let ts = match tokenize(src) {
        Err(e) => return Err(e),
        Ok(ts) => ts,
    };
    let (e, q, _) = match parse_sum(&ts, known, local, 0, 0, 0) {
        Err(e) => return Err(e),
        Ok(x) => x,
    };
    match finish_exec(&e, q, ts.len()) {
        Err(err) => Err(err),
        Ok(()) => Ok(e),
    }
}

/// A compiled integer expression over the declared inputs.
#[derive(Debug)]
pub struct IntExpr(pub Expr);

impl IntExpr {
    /// Compiles `src` against the declared inputs `known`.
    pub fn compile(src: &str, known: &[String]) -> (r: Result<IntExpr, SyntaxError>)
        ensures
            match r {
                Ok(e) => expression_in(src@, texts(known@), Seq::empty()) == Ok::<ExprV, SyntaxErrorV>(
                    e.0@,
                ),
                Err(err) => expression_in(src@, texts(known@), Seq::empty()) == Err::<
                    ExprV,
                    SyntaxErrorV,
                >(err@),
            },
    {
        let none: Vec<String> = Vec::new();
        assert(texts(none@) =~= Seq::<Seq<char>>::empty());
        match read_expression(src, known, none.as_slice()) {
            Ok(e) => Ok(IntExpr(e)),
            Err(err) => Err(err),
        }
    }
}

/// The comparison a token is.
pub open spec fn rel_word(t: Seq<char>) -> Option<RelOp> {
    if t == seq!['>'] {
        Some(RelOp::Gt)
    } else if t == seq!['>', '='] {
        Some(RelOp::Ge)
    } else if t == seq!['<'] {
        Some(RelOp::Lt)
    } else if t == seq!['<', '='] {
        Some(RelOp::Le)
    } else if t == seq!['=', '='] {
        Some(RelOp::Eq)
    } else if t == seq!['!', '='] {
        Some(RelOp::Ne)
    } else {
        None
    }
}

fn rel_of_token(t: &Vec<char>) -> (r: Option<RelOp>)
    ensures
        r == rel_word(t@),
{
    if t.len() == 1 {
        let c = t[0];
        assert(t@ =~= seq![c]);
        assert(seq![c] != seq!['>', '='] && seq![c] != seq!['<', '='] && seq![c] != seq!['=', '=']
            && seq![c] != seq!['!', '=']);
        if c == '>' {
            Some(RelOp::Gt)
        } else if c == '<' {
            Some(RelOp::Lt)
        } else {
            assert(seq![c][0] == c);
            None
        }
    } else if t.len() == 2 {
        let a = t[0];
        let b = t[1];
        assert(t@ =~= seq![a, b]);
        assert(seq![a, b] != seq!['>'] && seq![a, b] != seq!['<']);
        assert(seq![a, b][0] == a && seq![a, b][1] == b);
        if b != '=' {
            None
        } else if a == '>' {
            Some(RelOp::Ge)
        } else if a == '<' {
            Some(RelOp::Le)
        } else if a == '=' {
            Some(RelOp::Eq)
        } else if a == '!' {
            Some(RelOp::Ne)
        } else {
            None
        }
    } else {
        assert(t@.len() != 1 && t@.len() != 2);
        assert(seq!['>'].len() == 1 && seq!['>', '='].len() == 2);
        None
    }
}

/// A guard: exactly one comparison between two integer expressions.
#[derive(Debug)]
pub struct Guard {
    pub a: Expr,
    pub op: RelOp,
    pub b: Expr,
}

pub struct GuardV {
    pub a: ExprV,
    pub op: RelOp,
    pub b: ExprV,
}

impl View for Guard {
    type V = GuardV;

    open spec fn view(&self) -> GuardV {
        GuardV { a: self.a@, op: self.op, b: self.b@ }
    }
}

/// A guard over the tokens of `s`: a sum, one comparison, a sum, nothing
/// after, both sides at most 64 high; the two sides share one node count.
pub open spec fn guard_of(s: Scope) -> Result<GuardV, SyntaxErrorV> {
    match sum_at(s, 0, 0, 0) {
        Err(e) => Err(e),
        Ok((a, q, m)) => if q >= s.ts.len() {
            Err(SyntaxErrorV::NoComparison)
        } else {
            match rel_word(s.ts[q as int]) {
                None => Err(SyntaxErrorV::NoComparison),
                Some(op) => match sum_at(s, q + 1, m, 0) {
                    Err(e) => Err(e),
                    Ok((b, q2, _)) => match finish(a, q2, s.ts.len()) {
                        Err(e) => Err(e),
                        Ok(()) => match finish(b, q2, s.ts.len()) {
                            Err(e) => Err(e),
                            Ok(()) => Ok(GuardV { a, op, b }),
                        },
                    },
                },
            }
        },
    }
}

/// The guard the text `cs` is, read against `known` and `local`.
pub open spec fn guard_in(cs: Seq<char>, known: Seq<Seq<char>>, local: Seq<Seq<char>>) -> Result<
    GuardV,
    SyntaxErrorV,
> {
    match tokens_of(cs) {
        Err(e) => Err(e),
        Ok(ts) => guard_of(Scope { ts, known, local }),
    }
}

impl Guard {
    /// Compiles a guard over the declared inputs `known`.
    pub fn compile(src: &str, known: &[String]) -> (r: Result<Guard, SyntaxError>)
        ensures
            match r {
                Ok(g) => guard_in(src@, texts(known@), Seq::empty()) == Ok::<GuardV, SyntaxErrorV>(g@),
                Err(err) => guard_in(src@, texts(known@), Seq::empty()) == Err::<GuardV, SyntaxErrorV>(
                    err@,
                ),
            },
    {
        let none: Vec<String> = Vec::new();
        assert(texts(none@) =~= Seq::<Seq<char>>::empty());
        Guard::parse(src, known, none.as_slice())
    }

    /// Parses a guard against the declared inputs and the locals in scope.
    pub fn parse(src: &str, known: &[String], local: &[String]) -> (r: Result<Guard, SyntaxError>)
        ensures
            match r {
                Ok(g) => guard_in(src@, texts(known@), texts(local@)) == Ok::<GuardV, SyntaxErrorV>(g@),
                Err(err) => guard_in(src@, texts(known@), texts(local@)) == Err::<GuardV, SyntaxErrorV>(
                    err@,
                ),
            },
    {
        let ts = match tokenize(src) {
            Err(e) => return Err(e),
            Ok(ts) => ts,
        };
        let ghost sc = scope_of(&ts, known, local);
        let (a, q, m) = match parse_sum(&ts, known, local, 0, 0, 0) {
            Err(e) => return Err(e),
            Ok(x) => x,
        };
        if q >= ts.len() {
            return Err(SyntaxError::NoComparison);
        }
        assert(sc.ts[q as int] == ts@[q as int]@);
        let op = match rel_of_token(&ts[q]) {
            None => return Err(SyntaxError::NoComparison),
            Some(op) => op,
        };
        let (b, q2, _) = match parse_sum(&ts, known, local, q + 1, m, 0) {
            Err(e) => return Err(e),
            Ok(x) => x,
        };
        match finish_exec(&a, q2, ts.len()) {
            Err(e) => return Err(e),
            Ok(()) => {},
        }
        match finish_exec(&b, q2, ts.len()) {
            Err(e) => return Err(e),
            Ok(()) => {},
        }
        Ok(Guard { a, op, b })
    }
}

// ─── evaluation ────────────────────────────────────────────────────────────

/// An outer slot as the caller imported it: `Some` of its exact integer
/// value, or `None` when the number there is not finite, integral and
/// within `[-2^53, 2^53]`.
#[derive(Debug, Clone, PartialEq, Eq)]
pub struct Slot {
    pub name: String,
    pub value: Option<i64>,
}

pub open spec fn slots_view(slots: Seq<Slot>) -> Seq<(Seq<char>, Option<i64>)> {
    slots.map_values(|s: Slot| (s.name@, s.value))
}

/// The first slot from `i` named `n`.
pub open spec fn slot_from(slots: Seq<(Seq<char>, Option<i64>)>, n: Seq<char>, i: nat) -> Option<
    Option<i64>,
>
    decreases slots.len() - i,
{
    if i >= slots.len() {
        None
    } else if slots[i as int].0 == n {
        Some(slots[i as int].1)
    } else {
        slot_from(slots, n, i + 1)
    }
}

/// Why an integer evaluation failed.
#[derive(Debug, Clone, PartialEq, Eq)]
pub enum EvalError {
    /// No slot of this name.
    MissingInput(String),
    /// The slot of this name holds no exact integer.
    Import(String),
    /// A local index past the locals.
    MissingLocal(usize),
    /// A result outside the `i64` range.
    Overflow,
    /// A division by zero, or `i64::MIN / -1`.
    Division,
    /// A shift count outside `[0, 63]`.
    ShiftCount(i64),
}

pub enum EvalErrorV {
    MissingInput(Seq<char>),
    Import(Seq<char>),
    MissingLocal(usize),
    Overflow,
    Division,
    ShiftCount(i64),
}

impl View for EvalError {
    type V = EvalErrorV;

    open spec fn view(&self) -> EvalErrorV {
        match self {
            EvalError::MissingInput(n) => EvalErrorV::MissingInput(n@),
            EvalError::Import(n) => EvalErrorV::Import(n@),
            EvalError::MissingLocal(i) => EvalErrorV::MissingLocal(*i),
            EvalError::Overflow => EvalErrorV::Overflow,
            EvalError::Division => EvalErrorV::Division,
            EvalError::ShiftCount(b) => EvalErrorV::ShiftCount(*b),
        }
    }
}

pub open spec fn int_result(r: Result<i64, EvalError>) -> Result<i64, EvalErrorV> {
    match r {
        Ok(v) => Ok(v),
        Err(e) => Err(e@),
    }
}

/// `2^k`.
pub open spec fn two_to(k: nat) -> nat
    decreases k,
{
    if k == 0 {
        1
    } else {
        2 * two_to((k - 1) as nat)
    }
}

pub open spec fn in_i64(v: int) -> bool {
    i64::MIN <= v <= i64::MAX
}

/// `v` as a checked result.
pub open spec fn checked(v: int) -> Result<i64, EvalErrorV> {
    if in_i64(v) {
        Ok(v as i64)
    } else {
        Err(EvalErrorV::Overflow)
    }
}

/// Division truncating toward zero, as `i64::checked_div` rounds.
pub open spec fn trunc_div(x: int, y: int) -> int {
    if x == 0 {
        0
    } else if x > 0 && y > 0 {
        x / y
    } else if x < 0 && y < 0 {
        (-x) / (-y)
    } else if x < 0 {
        -((-x) / y)
    } else {
        -(x / (-y))
    }
}

/// What `op` makes of `x` and `y`.
pub open spec fn apply(op: Op, x: i64, y: i64) -> Result<i64, EvalErrorV> {
    match op {
        Op::Add => checked(x + y),
        Op::Sub => checked(x - y),
        Op::Mul => checked(x * y),
        Op::Div => if y == 0 || !in_i64(trunc_div(x as int, y as int)) {
            Err(EvalErrorV::Division)
        } else {
            Ok(trunc_div(x as int, y as int) as i64)
        },
        Op::Min => Ok(if x <= y {
            x
        } else {
            y
        }),
        Op::Max => Ok(if x >= y {
            x
        } else {
            y
        }),
        Op::Shl => if y < 0 || y > 63 {
            Err(EvalErrorV::ShiftCount(y))
        } else {
            checked(x * two_to(y as nat))
        },
        Op::Shr => if y < 0 || y > 63 {
            Err(EvalErrorV::ShiftCount(y))
        } else {
            Ok((x as int / two_to(y as nat) as int) as i64)
        },
    }
}

/// The value of `e` over the outer slots and the locals: the left operand
/// first, and the first error stops it.
pub open spec fn eval(e: ExprV, outer: Seq<(Seq<char>, Option<i64>)>, local: Seq<i64>) -> Result<
    i64,
    EvalErrorV,
>
    decreases e,
{
    match e {
        ExprV::Const(v) => Ok(v),
        ExprV::Outer(n) => match slot_from(outer, n, 0) {
            None => Err(EvalErrorV::MissingInput(n)),
            Some(None) => Err(EvalErrorV::Import(n)),
            Some(Some(v)) => Ok(v),
        },
        ExprV::Local(i) => if (i as int) < local.len() {
            Ok(local[i as int])
        } else {
            Err(EvalErrorV::MissingLocal(i))
        },
        ExprV::Neg(a) => match eval(*a, outer, local) {
            Err(err) => Err(err),
            Ok(x) => checked(-x),
        },
        ExprV::Abs(a) => match eval(*a, outer, local) {
            Err(err) => Err(err),
            Ok(x) => checked(if x < 0 {
                -x
            } else {
                x as int
            }),
        },
        ExprV::Bin(op, a, b) => match eval(*a, outer, local) {
            Err(err) => Err(err),
            Ok(x) => match eval(*b, outer, local) {
                Err(err) => Err(err),
                Ok(y) => apply(op, x, y),
            },
        },
    }
}

proof fn lemma_two_to_grows(k: nat, j: nat)
    requires
        k <= j,
    ensures
        1 <= two_to(k) <= two_to(j),
    decreases j,
{
    if j > 0 {
        if k == j {
            lemma_two_to_grows((k - 1) as nat, (j - 1) as nat);
        } else {
            lemma_two_to_grows(k, (j - 1) as nat);
        }
    }
}

proof fn lemma_two_to_63()
    ensures
        two_to(63) == 0x8000_0000_0000_0000,
{
    reveal_with_fuel(two_to, 64);
}

/// `2^k` for `k <= 63`.
fn power_of_two(k: u64) -> (r: u64)
    requires
        k <= 63,
    ensures
        r == two_to(k as nat),
{
    let mut m: u64 = 1;
    let mut i: u64 = 0;
    while i < k
        invariant
            i <= k <= 63,
            m == two_to(i as nat),
        decreases k - i,
    {
        proof {
            lemma_two_to_grows((i + 1) as nat, 63);
            lemma_two_to_63();
        }
        m = m * 2;
        i = i + 1;
    }
    m
}

/// `x` shifted right by `b`: floor division by `2^b`.
fn shift_right(x: i64, b: i64) -> (r: i64)
    requires
        0 <= b <= 63,
    ensures
        r == x as int / two_to(b as nat) as int,
{
    let m = power_of_two(b as u64);
    proof {
        lemma_two_to_grows(0, b as nat);
    }
    if x >= 0 {
        let q = (x as u64) / m;
        proof {
            vstd::arithmetic::div_mod::lemma_div_is_ordered_by_denominator(x as int, 1, m as int);
        }
        q as i64
    } else {
        let u = (-(x + 1)) as u64;
        let q = u / m;
        let rem = u % m;
        proof {
            vstd::arithmetic::div_mod::lemma_fundamental_div_mod(u as int, m as int);
            vstd::arithmetic::div_mod::lemma_div_is_ordered_by_denominator(u as int, 1, m as int);
            let qq = -(q as int) - 1;
            let rr = m as int - rem as int - 1;
            assert(x as int == qq * (m as int) + rr) by (nonlinear_arith)
                requires
                    u as int == (m as int) * (q as int) + rem as int,
                    u as int == -(x as int + 1),
                    qq == -(q as int) - 1,
                    rr == m as int - rem as int - 1,
            ;
            vstd::arithmetic::div_mod::lemma_fundamental_div_mod_converse(x as int, m as int, qq, rr);
        }
        -(q as i64) - 1
    }
}

/// `x` shifted left by `b`, if the result fits.
fn shift_left(x: i64, b: i64) -> (r: Option<i64>)
    requires
        0 <= b <= 63,
    ensures
        r == (if in_i64(x * two_to(b as nat)) {
            Some((x * two_to(b as nat)) as i64)
        } else {
            None::<i64>
        }),
{
    if b == 63 {
        proof {
            lemma_two_to_63();
        }
        if x == 0 {
            Some(0)
        } else if x == -1 {
            Some(i64::MIN)
        } else {
            assert(!in_i64(x * 0x8000_0000_0000_0000)) by (nonlinear_arith)
                requires
                    x != 0,
                    x != -1,
            ;
            None
        }
    } else {
        proof {
            lemma_two_to_grows(b as nat, 62);
            lemma_two_to_grows(62, 63);
            lemma_two_to_63();
        }
        let m = power_of_two(b as u64) as i64;
        x.checked_mul(m)
    }
}

/// The value of the first slot named `n`.
fn slot_value(outer: &[Slot], n: &String) -> (r: Option<Option<i64>>)
    ensures
        r == slot_from(slots_view(outer@), n@, 0),
{
    let mut i: usize = 0;
    while i < outer.len()
        invariant
            i <= outer.len(),
            slot_from(slots_view(outer@), n@, 0) == slot_from(slots_view(outer@), n@, i as nat),
        decreases outer.len() - i,
    {
        if outer[i].name == *n {
            return Some(outer[i].value);
        }
        i = i + 1;
    }
    None
}

/// Applies `op` to `x` and `y`, checked.
fn apply_exec(op: Op, x: i64, y: i64) -> (r: Result<i64, EvalError>)
    ensures
        int_result(r) == apply(op, x, y),
{
    match op {
        Op::Add => match x.checked_add(y) {
            Some(v) => Ok(v),
            None => Err(EvalError::Overflow),
        },
        Op::Sub => match x.checked_sub(y) {
            Some(v) => Ok(v),
            None => Err(EvalError::Overflow),
        },
        Op::Mul => match x.checked_mul(y) {
            Some(v) => Ok(v),
            None => Err(EvalError::Overflow),
        },
        Op::Div => match x.checked_div(y) {
            Some(v) => Ok(v),
            None => Err(EvalError::Division),
        },
        Op::Min => Ok(if x <= y {
            x
        } else {
            y
        }),
        Op::Max => Ok(if x >= y {
            x
        } else {
            y
        }),
        Op::Shl => {
            if y < 0 || y > 63 {
                return Err(EvalError::ShiftCount(y));
            }
            match shift_left(x, y) {
                Some(v) => Ok(v),
                None => Err(EvalError::Overflow),
            }
        },
        Op::Shr => {
            if y < 0 || y > 63 {
                return Err(EvalError::ShiftCount(y));
            }
            Ok(shift_right(x, y))
        },
    }
}

impl Expr {
    /// The value of the expression over the outer slots and the locals.
    pub fn eval(&self, outer: &[Slot], local: &[i64]) -> (r: Result<i64, EvalError>)
        ensures
            int_result(r) == eval(self@, slots_view(outer@), local@),
        decreases self,
    {
        match self {
            Expr::Const(v) => Ok(*v),
            Expr::Outer(n) => match slot_value(outer, n) {
                None => Err(EvalError::MissingInput(n.clone())),
                Some(None) => Err(EvalError::Import(n.clone())),
                Some(Some(v)) => Ok(v),
            },
            Expr::Local(i) => if *i < local.len() {
                Ok(local[*i])
            } else {
                Err(EvalError::MissingLocal(*i))
            },
            Expr::Neg(a) => match a.eval(outer, local) {
                Err(e) => Err(e),
                Ok(x) => if x == i64::MIN {
                    Err(EvalError::Overflow)
                } else {
                    Ok(-x)
                },
            },
            Expr::Abs(a) => match a.eval(outer, local) {
                Err(e) => Err(e),
                Ok(x) => if x == i64::MIN {
                    Err(EvalError::Overflow)
                } else if x < 0 {
                    Ok(-x)
                } else {
                    Ok(x)
                },
            },
            Expr::Bin(op, a, b) => match a.eval(outer, local) {
                Err(e) => Err(e),
                Ok(x) => match b.eval(outer, local) {
                    Err(e) => Err(e),
                    Ok(y) => apply_exec(*op, x, y),
                },
            },
        }
    }
}

/// Whether `op` holds between `x` and `y`.
pub open spec fn compares(op: RelOp, x: i64, y: i64) -> bool {
    match op {
        RelOp::Gt => x > y,
        RelOp::Ge => x >= y,
        RelOp::Lt => x < y,
        RelOp::Le => x <= y,
        RelOp::Eq => x == y,
        RelOp::Ne => x != y,
    }
}

/// Whether a guard holds: its left side first, and the first error stops
/// it.
pub open spec fn holds(g: GuardV, outer: Seq<(Seq<char>, Option<i64>)>, local: Seq<i64>) -> Result<
    bool,
    EvalErrorV,
> {
    match eval(g.a, outer, local) {
        Err(e) => Err(e),
        Ok(x) => match eval(g.b, outer, local) {
            Err(e) => Err(e),
            Ok(y) => Ok(compares(g.op, x, y)),
        },
    }
}

pub open spec fn bool_result(r: Result<bool, EvalError>) -> Result<bool, EvalErrorV> {
    match r {
        Ok(v) => Ok(v),
        Err(e) => Err(e@),
    }
}

impl Guard {
    /// Whether the guard holds over the outer slots and the locals.
    pub fn holds(&self, outer: &[Slot], local: &[i64]) -> (r: Result<bool, EvalError>)
        ensures
            bool_result(r) == holds(self@, slots_view(outer@), local@),
    {
        let x = match self.a.eval(outer, local) {
            Err(e) => return Err(e),
            Ok(x) => x,
        };
        let y = match self.b.eval(outer, local) {
            Err(e) => return Err(e),
            Ok(y) => y,
        };
        Ok(match self.op {
            RelOp::Gt => x > y,
            RelOp::Ge => x >= y,
            RelOp::Lt => x < y,
            RelOp::Le => x <= y,
            RelOp::Eq => x == y,
            RelOp::Ne => x != y,
        })
    }

    /// Whether the guard holds over the outer slots alone.
    pub fn holds_outer(&self, outer: &[Slot]) -> (r: Result<bool, EvalError>)
        ensures
            bool_result(r) == holds(self@, slots_view(outer@), Seq::empty()),
    {
        let none: Vec<i64> = Vec::new();
        assert(none@ =~= Seq::<i64>::empty());
        self.holds(outer, none.as_slice())
    }
}

// ─── programs ──────────────────────────────────────────────────────────────

/// A local binding as written: its name, its expression and an optional
/// guard (while the guard does not hold the binding is 0).
#[derive(Debug, Clone, PartialEq, Eq)]
pub struct IntegerBinding {
    pub name: String,
    pub expr: String,
    pub when: Option<String>,
}

pub struct IntegerBindingV {
    pub name: Seq<char>,
    pub expr: Seq<char>,
    pub when: Option<Seq<char>>,
}

impl View for IntegerBinding {
    type V = IntegerBindingV;

    open spec fn view(&self) -> IntegerBindingV {
        IntegerBindingV {
            name: self.name@,
            expr: self.expr@,
            when: match self.when {
                Some(w) => Some(w@),
                None => None,
            },
        }
    }
}

pub open spec fn binding_srcs(bs: Seq<IntegerBinding>) -> Seq<IntegerBindingV> {
    bs.map_values(|b: IntegerBinding| b@)
}

/// A compiled binding.
#[derive(Debug)]
pub struct Binding {
    pub name: String,
    pub expr: Expr,
    pub guard: Option<Guard>,
}

pub struct BindingV {
    pub name: Seq<char>,
    pub expr: ExprV,
    pub guard: Option<GuardV>,
}

pub open spec fn opt_guard_view(g: Option<Guard>) -> Option<GuardV> {
    match g {
        Some(g) => Some(g@),
        None => None,
    }
}

impl View for Binding {
    type V = BindingV;

    open spec fn view(&self) -> BindingV {
        BindingV { name: self.name@, expr: self.expr@, guard: opt_guard_view(self.guard) }
    }
}

/// A compiled program: bindings in order, each seeing the ones before it,
/// then the output expression and an optional guard on it.
#[derive(Debug)]
pub struct Program {
    pub bindings: Vec<Binding>,
    pub of: Expr,
    pub guard: Option<Guard>,
}

pub struct ProgramV {
    pub bindings: Seq<BindingV>,
    pub of: ExprV,
    pub guard: Option<GuardV>,
}

pub open spec fn bindings_view(bs: Seq<Binding>) -> Seq<BindingV> {
    bs.map_values(|b: Binding| b@)
}

impl View for Program {
    type V = ProgramV;

    open spec fn view(&self) -> ProgramV {
        ProgramV { bindings: bindings_view(self.bindings@), of: self.of@, guard: opt_guard_view(self.guard) }
    }
}

/// Why a program does not compile.
#[derive(Debug, Clone, PartialEq, Eq)]
pub enum ProgramError {
    /// More than 128 bindings.
    TooManyBindings,
    /// A binding or variable name that is not an identifier.
    InvalidName(String),
    /// A binding or variable name already declared or bound.
    Shadows(String),
    /// The expression of the binding `name` does not parse.
    Binding { name: String, error: SyntaxError },
    /// The guard of the binding `name` does not parse.
    BindingGuard { name: String, error: SyntaxError },
    /// A text of the program does not tokenize, or its output expression or
    /// guard does not parse.
    Syntax(SyntaxError),
}

pub enum ProgramErrorV {
    TooManyBindings,
    InvalidName(Seq<char>),
    Shadows(Seq<char>),
    Binding { name: Seq<char>, error: SyntaxErrorV },
    BindingGuard { name: Seq<char>, error: SyntaxErrorV },
    Syntax(SyntaxErrorV),
}

impl View for ProgramError {
    type V = ProgramErrorV;

    open spec fn view(&self) -> ProgramErrorV {
        match self {
            ProgramError::TooManyBindings => ProgramErrorV::TooManyBindings,
            ProgramError::InvalidName(n) => ProgramErrorV::InvalidName(n@),
            ProgramError::Shadows(n) => ProgramErrorV::Shadows(n@),
            ProgramError::Binding { name, error } => ProgramErrorV::Binding {
                name: name@,
                error: error@,
            },
            ProgramError::BindingGuard { name, error } => ProgramErrorV::BindingGuard {
                name: name@,
                error: error@,
            },
            ProgramError::Syntax(e) => ProgramErrorV::Syntax(e@),
        }
    }
}

/// An identifier: a letter or `_`, then letters, digits and `_`.
pub open spec fn is_identifier(n: Seq<char>) -> bool {
    n.len() > 0 && (is_alpha(n[0]) || n[0] == '_') && forall|k: int|
        1 <= k < n.len() ==> is_ident_char(#[trigger] n[k])
}

/// The refusal of the new name `n` where `known` and `local` are in scope,
/// if any.
pub open spec fn name_check(n: Seq<char>, known: Seq<Seq<char>>, local: Seq<Seq<char>>) -> Option<
    ProgramErrorV,
> {
    if !is_identifier(n) {
        Some(ProgramErrorV::InvalidName(n))
    } else if known.contains(n) || local.contains(n) {
        Some(ProgramErrorV::Shadows(n))
    } else {
        None
    }
}

/// The optional guard `when`, read in scope.
pub open spec fn opt_guard_in(when: Option<Seq<char>>, known: Seq<Seq<char>>, local: Seq<Seq<char>>) -> Result<
    Option<GuardV>,
    SyntaxErrorV,
> {
    match when {
        None => Ok(None),
        Some(w) => match guard_in(w, known, local) {
            Ok(g) => Ok(Some(g)),
            Err(e) => Err(e),
        },
    }
}

/// The binding `b` compiled with `local` in scope. An expression that does
/// not tokenize is refused without naming the binding.
#[verifier::opaque]
pub open spec fn binding_step(b: IntegerBindingV, known: Seq<Seq<char>>, local: Seq<Seq<char>>) -> Result<
    BindingV,
    ProgramErrorV,
> {
    match name_check(b.name, known, local) {
        Some(e) => Err(e),
        None => match tokens_of(b.expr) {
            Err(e) => Err(ProgramErrorV::Syntax(e)),
            Ok(ts) => match expression_of(Scope { ts, known, local }) {
                Err(e) => Err(ProgramErrorV::Binding { name: b.name, error: e }),
                Ok(expr) => match opt_guard_in(b.when, known, local) {
                    Err(e) => Err(ProgramErrorV::BindingGuard { name: b.name, error: e }),
                    Ok(guard) => Ok(BindingV { name: b.name, expr, guard }),
                },
            },
        },
    }
}

/// The bindings from `i` on, compiled in order with `local` in scope, and
/// the locals in scope after them.
pub open spec fn bindings_from(
    bs: Seq<IntegerBindingV>,
    i: nat,
    known: Seq<Seq<char>>,
    local: Seq<Seq<char>>,
) -> Result<(Seq<BindingV>, Seq<Seq<char>>), ProgramErrorV>
    decreases bs.len() - i,
{
    if i >= bs.len() {
        Ok((Seq::empty(), local))
    } else {
        match binding_step(bs[i as int], known, local) {
            Err(e) => Err(e),
            Ok(bv) => match bindings_from(bs, i + 1, known, local.push(bs[i as int].name)) {
                Err(e) => Err(e),
                Ok((rest, fin)) => Ok((seq![bv] + rest, fin)),
            },
        }
    }
}

/// The program of the bindings `bs`, the output `of` with its optional
/// guard `when`, over the optional candidate `variable`, against the
/// declared inputs `known`.
pub open spec fn program_of(
    bs: Seq<IntegerBindingV>,
    of: Seq<char>,
    when: Option<Seq<char>>,
    variable: Option<Seq<char>>,
    known: Seq<Seq<char>>,
) -> Result<ProgramV, ProgramErrorV> {
    if bs.len() > MAX_BINDINGS {
        Err(ProgramErrorV::TooManyBindings)
    } else {
        let start: Result<Seq<Seq<char>>, ProgramErrorV> = match variable {
            None => Ok(Seq::empty()),
            Some(v) => match name_check(v, known, Seq::empty()) {
                Some(e) => Err(e),
                None => Ok(seq![v]),
            },
        };
        match start {
            Err(e) => Err(e),
            Ok(local0) => match bindings_from(bs, 0, known, local0) {
                Err(e) => Err(e),
                Ok((bindings, local)) => match expression_in(of, known, local) {
                    Err(e) => Err(ProgramErrorV::Syntax(e)),
                    Ok(o) => match opt_guard_in(when, known, local) {
                        Err(e) => Err(ProgramErrorV::Syntax(e)),
                        Ok(guard) => Ok(ProgramV { bindings, of: o, guard }),
                    },
                },
            },
        }
    }
}

/// Checks a new name against the names in scope.
pub fn validate_name(name: &str, known: &[String], local: &[String]) -> (r: Result<(), ProgramError>)
    ensures
        match r {
            Ok(()) => name_check(name@, texts(known@), texts(local@)) is None,
            Err(e) => name_check(name@, texts(known@), texts(local@)) == Some(e@),
        },
{
    let cs = crate::expr::chars_of(name);
    if !(cs.len() > 0 && (crate::expr::is_alpha_char(cs[0]) || cs[0] == '_')) {
        return Err(ProgramError::InvalidName(name.to_owned()));
    }
    let mut k: usize = 1;
    while k < cs.len()
        invariant
            1 <= k <= cs.len(),
            cs@ == name@,
            forall|j: int| 1 <= j < k ==> is_ident_char(#[trigger] cs@[j]),
        decreases cs.len() - k,
    {
        let c = cs[k];
        if !(crate::expr::is_digit_char(c) || crate::expr::is_alpha_char(c) || c == '_') {
            assert(!is_ident_char(cs@[k as int]));
            return Err(ProgramError::InvalidName(name.to_owned()));
        }
        k = k + 1;
    }
    let owned = name.to_owned();
    if contains_text(known, &owned) || contains_text(local, &owned) {
        return Err(ProgramError::Shadows(owned));
    }
    Ok(())
}

pub open spec fn prepend_bindings(
    done: Seq<BindingV>,
    rest: Result<(Seq<BindingV>, Seq<Seq<char>>), ProgramErrorV>,
) -> Result<(Seq<BindingV>, Seq<Seq<char>>), ProgramErrorV> {
    match rest {
        Ok((bs, fin)) => Ok((done + bs, fin)),
        Err(e) => Err(e),
    }
}

/// Compiles one binding with `local` in scope.
fn compile_binding(b: &IntegerBinding, known: &[String], local: &[String]) -> (r: Result<Binding, ProgramError>)
    ensures
        match r {
            Ok(bv) => binding_step(b@, texts(known@), texts(local@)) == Ok::<BindingV, ProgramErrorV>(bv@),
            Err(e) => binding_step(b@, texts(known@), texts(local@)) == Err::<BindingV, ProgramErrorV>(e@),
        },
{
    reveal(binding_step);
    match validate_name(b.name.as_str(), known, local) {
        Err(e) => return Err(e),
        Ok(()) => {},
    }
    let ts = match tokenize(b.expr.as_str()) {
        Err(e) => return Err(ProgramError::Syntax(e)),
        Ok(ts) => ts,
    };
    let (e, q, _) = match parse_sum(&ts, known, local, 0, 0, 0) {
        Err(e) => return Err(ProgramError::Binding { name: b.name.clone(), error: e }),
        Ok(x) => x,
    };
    match finish_exec(&e, q, ts.len()) {
        Err(err) => return Err(ProgramError::Binding { name: b.name.clone(), error: err }),
        Ok(()) => {},
    }
    let guard = match &b.when {
        None => None,
        Some(w) => match Guard::parse(w.as_str(), known, local) {
            Err(err) => {
                return Err(ProgramError::BindingGuard { name: b.name.clone(), error: err });
            },
            Ok(g) => Some(g),
        },
    };
    Ok(Binding { name: b.name.clone(), expr: e, guard })
}

/// Compiles `bindings` in order, starting with `local` in scope; gives
/// them and the locals in scope after them.
fn compile_bindings(bindings: &[IntegerBinding], known: &[String], start: Vec<String>) -> (r: Result<
    (Vec<Binding>, Vec<String>),
    ProgramError,
>)
    ensures
        match r {
            Ok((cb, fin)) => bindings_from(
                binding_srcs(bindings@),
                0,
                texts(known@),
                texts(start@),
            ) == Ok::<(Seq<BindingV>, Seq<Seq<char>>), ProgramErrorV>(
                (bindings_view(cb@), texts(fin@)),
            ),
            Err(e) => bindings_from(
                binding_srcs(bindings@),
                0,
                texts(known@),
                texts(start@),
            ) == Err::<(Seq<BindingV>, Seq<Seq<char>>), ProgramErrorV>(e@),
        },
{
    let ghost bs = binding_srcs(bindings@);
    let ghost local0 = texts(start@);
    let mut local = start;
    let mut compiled: Vec<Binding> = Vec::new();
    let mut i: usize = 0;
    while i < bindings.len()
        invariant
            i <= bindings.len(),
            bs == binding_srcs(bindings@),
            local0 == texts(start@),
            bindings_from(bs, 0, texts(known@), local0) == prepend_bindings(
                bindings_view(compiled@),
                bindings_from(bs, i as nat, texts(known@), texts(local@)),
            ),
        decreases bindings.len() - i,
    {
        let b = &bindings[i];
        assert(bs[i as int] == b@);
        let nb = match compile_binding(b, known, local.as_slice()) {
            Err(e) => {
                assert(bindings_from(bs, i as nat, texts(known@), texts(local@)) == Err::<
                    (Seq<BindingV>, Seq<Seq<char>>),
                    ProgramErrorV,
                >(e@));
                return Err(e);
            },
            Ok(nb) => nb,
        };
        let ghost before = bindings_view(compiled@);
        let ghost old_local = texts(local@);
        let ghost nbv = nb@;
        compiled.push(nb);
        local.push(b.name.clone());
        assert(bindings_view(compiled@) =~= before + seq![nbv]);
        assert(texts(local@) =~= old_local.push(b.name@));
        proof {
            let rest = bindings_from(bs, (i + 1) as nat, texts(known@), texts(local@));
            if let Ok((more, fin)) = rest {
                assert(before + (seq![nbv] + more) =~= (before + seq![nbv]) + more);
            }
        }
        i = i + 1;
    }
    let ghost done = bindings_view(compiled@);
    assert(done + Seq::<BindingV>::empty() =~= done);
    Ok((compiled, local))
}

impl Program {
    /// Compiles a program: `bindings` in order, then `of` and its guard
    /// `when`, each seeing the candidate `variable` (if any) and the
    /// bindings before it.
    pub fn compile(
        bindings: &[IntegerBinding],
        of: &str,
        when: Option<&str>,
        variable: Option<&str>,
        known: &[String],
    ) -> (r: Result<Program, ProgramError>)
        ensures
            match r {
                Ok(p) => program_of(
                    binding_srcs(bindings@),
                    of@,
                    match when {
                        Some(w) => Some(w@),
                        None => None,
                    },
                    match variable {
                        Some(v) => Some(v@),
                        None => None,
                    },
                    texts(known@),
                ) == Ok::<ProgramV, ProgramErrorV>(p@),
                Err(e) => program_of(
                    binding_srcs(bindings@),
                    of@,
                    match when {
                        Some(w) => Some(w@),
                        None => None,
                    },
                    match variable {
                        Some(v) => Some(v@),
                        None => None,
                    },
                    texts(known@),
                ) == Err::<ProgramV, ProgramErrorV>(e@),
            },
    {
        let ghost bs = binding_srcs(bindings@);
        if bindings.len() > MAX_BINDINGS {
            return Err(ProgramError::TooManyBindings);
        }
        let mut local: Vec<String> = Vec::new();
        assert(texts(local@) =~= Seq::<Seq<char>>::empty());
        match variable {
            Some(v) => {
                match validate_name(v, known, local.as_slice()) {
                    Err(e) => return Err(e),
                    Ok(()) => {},
                }
                local.push(v.to_owned());
            },
            None => {},
        }
        assert(texts(local@) =~= match variable {
            Some(v) => seq![v@],
            None => Seq::<Seq<char>>::empty(),
        });
        let (compiled, local) = match compile_bindings(bindings, known, local) {
            Err(e) => return Err(e),
            Ok(x) => x,
        };
        let out = match read_expression(of, known, local.as_slice()) {
            Err(e) => return Err(ProgramError::Syntax(e)),
            Ok(e) => e,
        };
        let guard = match when {
            None => None,
            Some(w) => match Guard::parse(w, known, local.as_slice()) {
                Err(e) => return Err(ProgramError::Syntax(e)),
                Ok(g) => Some(g),
            },
        };
        Ok(Program { bindings: compiled, of: out, guard })
    }
}

/// Why a program's evaluation failed.
#[derive(Debug, Clone, PartialEq, Eq)]
pub enum ProgramEvalError {
    /// The binding `name` (its guard or its expression) failed.
    Binding { name: String, error: EvalError },
    /// The output's guard failed.
    Guard(EvalError),
    /// The output expression failed.
    Output(EvalError),
}

pub enum ProgramEvalErrorV {
    Binding { name: Seq<char>, error: EvalErrorV },
    Guard(EvalErrorV),
    Output(EvalErrorV),
}

impl View for ProgramEvalError {
    type V = ProgramEvalErrorV;

    open spec fn view(&self) -> ProgramEvalErrorV {
        match self {
            ProgramEvalError::Binding { name, error } => ProgramEvalErrorV::Binding {
                name: name@,
                error: error@,
            },
            ProgramEvalError::Guard(e) => ProgramEvalErrorV::Guard(e@),
            ProgramEvalError::Output(e) => ProgramEvalErrorV::Output(e@),
        }
    }
}

/// The value of a binding: 0 while its guard does not hold.
pub open spec fn binding_value(b: BindingV, outer: Seq<(Seq<char>, Option<i64>)>, local: Seq<i64>) -> Result<
    i64,
    EvalErrorV,
> {
    match b.guard {
        None => eval(b.expr, outer, local),
        Some(g) => match holds(g, outer, local) {
            Err(e) => Err(e),
            Ok(false) => Ok(0),
            Ok(true) => eval(b.expr, outer, local),
        },
    }
}

/// The locals after evaluating the bindings from `i` on, each seeing the
/// ones before it.
pub open spec fn locals_from(
    bs: Seq<BindingV>,
    i: nat,
    outer: Seq<(Seq<char>, Option<i64>)>,
    local: Seq<i64>,
) -> Result<Seq<i64>, ProgramEvalErrorV>
    decreases bs.len() - i,
{
    if i >= bs.len() {
        Ok(local)
    } else {
        match binding_value(bs[i as int], outer, local) {
            Err(e) => Err(ProgramEvalErrorV::Binding { name: bs[i as int].name, error: e }),
            Ok(v) => locals_from(bs, i + 1, outer, local.push(v)),
        }
    }
}

/// The candidate, if any, as the first local.
pub open spec fn first_locals(candidate: Option<i64>) -> Seq<i64> {
    match candidate {
        Some(v) => seq![v],
        None => Seq::empty(),
    }
}

/// The program's value: its bindings in order, then 0 while its guard does
/// not hold, else its output.
pub open spec fn program_value(
    p: ProgramV,
    outer: Seq<(Seq<char>, Option<i64>)>,
    candidate: Option<i64>,
) -> Result<i64, ProgramEvalErrorV> {
    match locals_from(p.bindings, 0, outer, first_locals(candidate)) {
        Err(e) => Err(e),
        Ok(local) => {
            let gate: Result<bool, EvalErrorV> = match p.guard {
                None => Ok(true),
                Some(g) => holds(g, outer, local),
            };
            match gate {
                Err(e) => Err(ProgramEvalErrorV::Guard(e)),
                Ok(false) => Ok(0),
                Ok(true) => match eval(p.of, outer, local) {
                    Err(e) => Err(ProgramEvalErrorV::Output(e)),
                    Ok(v) => Ok(v),
                },
            }
        },
    }
}

pub open spec fn program_result(r: Result<i64, ProgramEvalError>) -> Result<i64, ProgramEvalErrorV> {
    match r {
        Ok(v) => Ok(v),
        Err(e) => Err(e@),
    }
}

impl Binding {
    /// The binding's value over the outer slots and the locals before it.
    pub fn value(&self, outer: &[Slot], local: &[i64]) -> (r: Result<i64, EvalError>)
        ensures
            int_result(r) == binding_value(self@, slots_view(outer@), local@),
    {
        match &self.guard {
            None => {},
            Some(g) => match g.holds(outer, local) {
                Err(e) => return Err(e),
                Ok(false) => return Ok(0),
                Ok(true) => {},
            },
        }
        self.expr.eval(outer, local)
    }
}

impl Program {
    /// The program's value over the outer slots, with the inverse search's
    /// `candidate` as the first local when there is one.
    pub fn eval(&self, outer: &[Slot], candidate: Option<i64>) -> (r: Result<i64, ProgramEvalError>)
        ensures
            program_result(r) == program_value(self@, slots_view(outer@), candidate),
    {
        let ghost bs = bindings_view(self.bindings@);
        let mut local: Vec<i64> = Vec::new();
        match candidate {
            Some(v) => local.push(v),
            None => {},
        }
        assert(local@ =~= first_locals(candidate));
        let mut i: usize = 0;
        while i < self.bindings.len()
            invariant
                i <= self.bindings.len(),
                bs == bindings_view(self.bindings@),
                locals_from(bs, 0, slots_view(outer@), first_locals(candidate)) == locals_from(
                    bs,
                    i as nat,
                    slots_view(outer@),
                    local@,
                ),
            decreases self.bindings.len() - i,
        {
            let b = &self.bindings[i];
            assert(bs[i as int] == b@);
            let v = match b.value(outer, local.as_slice()) {
                Err(e) => return Err(ProgramEvalError::Binding { name: b.name.clone(), error: e }),
                Ok(v) => v,
            };
            local.push(v);
            i = i + 1;
        }
        match &self.guard {
            None => {},
            Some(g) => match g.holds(outer, local.as_slice()) {
                Err(e) => return Err(ProgramEvalError::Guard(e)),
                Ok(false) => return Ok(0),
                Ok(true) => {},
            },
        }
        match self.of.eval(outer, local.as_slice()) {
            Err(e) => Err(ProgramEvalError::Output(e)),
            Ok(v) => Ok(v),
        }
    }
}

// ─── inversion ─────────────────────────────────────────────────────────────

/// The program's value for the candidate `x`.
pub open spec fn candidate_value(p: ProgramV, outer: Seq<(Seq<char>, Option<i64>)>, x: int) -> Result<
    i64,
    ProgramEvalErrorV,
> {
    program_value(p, outer, Some(x as i64))
}

/// The binary search for the first candidate in `[lo, hi]` whose value is
/// not below `target`, taking `hi` when none is before it.
pub open spec fn bisect(
    p: ProgramV,
    outer: Seq<(Seq<char>, Option<i64>)>,
    lo: int,
    hi: int,
    target: i64,
) -> Result<int, ProgramEvalErrorV>
    decreases hi - lo,
{
    if lo >= hi {
        Ok(lo)
    } else {
        let mid = lo + (hi - lo) / 2;
        match candidate_value(p, outer, mid) {
            Err(e) => Err(e),
            Ok(v) => if v < target {
                bisect(p, outer, mid + 1, hi, target)
            } else {
                bisect(p, outer, lo, mid, target)
            },
        }
    }
}

pub open spec fn distance(v: i64, target: i64) -> int {
    if v >= target {
        v - target
    } else {
        target - v
    }
}

/// Lower-bound nearest inversion over `[lower, upper]`: the search's
/// candidate, or the one before it when that one's value is at least as
/// near the target. The chosen candidate is evaluated even when the domain
/// has one point.
pub open spec fn inverse_value(
    p: ProgramV,
    outer: Seq<(Seq<char>, Option<i64>)>,
    lower: int,
    upper: int,
    target: i64,
) -> Result<int, ProgramEvalErrorV> {
    match bisect(p, outer, lower, upper, target) {
        Err(e) => Err(e),
        Ok(lo) => match candidate_value(p, outer, lo) {
            Err(e) => Err(e),
            Ok(v) => if lo > lower {
                match candidate_value(p, outer, lo - 1) {
                    Err(e) => Err(e),
                    Ok(w) => if distance(w, target) <= distance(v, target) {
                        Ok(lo - 1)
                    } else {
                        Ok(lo)
                    },
                }
            } else {
                Ok(lo)
            },
        },
    }
}

/// The candidate in `bounds` whose value is nearest `target`, by the
/// lower-bound search of a nondecreasing program; see `inverse_value`.
pub fn inverse(program: &Program, slots: &[Slot], bounds: [i64; 2], target: i64) -> (r: Result<
    i64,
    ProgramEvalError,
>)
    ensures
        match r {
            Ok(x) => inverse_value(program@, slots_view(slots@), bounds[0] as int, bounds[1] as int, target)
                == Ok::<int, ProgramEvalErrorV>(x as int),
            Err(e) => inverse_value(program@, slots_view(slots@), bounds[0] as int, bounds[1] as int, target)
                == Err::<int, ProgramEvalErrorV>(e@),
        },
{
    let lower = bounds[0];
    let upper = bounds[1];
    let ghost pv = program@;
    let ghost outer = slots_view(slots@);
    let mut lo = lower;
    let mut hi = upper;
    while lo < hi
        invariant
            lower <= lo,
            lo < hi ==> hi <= upper,
            lower == bounds[0],
            upper == bounds[1],
            pv == program@,
            outer == slots_view(slots@),
            bisect(pv, outer, lower as int, upper as int, target) == bisect(pv, outer, lo as int, hi as int, target),
        decreases hi - lo,
    {
        let mid = (lo as i128 + (hi as i128 - lo as i128) / 2) as i64;
        assert(mid as int == lo + (hi - lo) / 2);
        match program.eval(slots, Some(mid)) {
            Err(e) => return Err(e),
            Ok(v) => if v < target {
                lo = mid + 1;
            } else {
                hi = mid;
            },
        }
    }
    let here_v = match program.eval(slots, Some(lo)) {
        Err(e) => return Err(e),
        Ok(v) => v,
    };
    let here = if here_v as i128 >= target as i128 {
        here_v as i128 - target as i128
    } else {
        target as i128 - here_v as i128
    };
    if lo > lower {
        let prev_v = match program.eval(slots, Some(lo - 1)) {
            Err(e) => return Err(e),
            Ok(v) => v,
        };
        let prev = if prev_v as i128 >= target as i128 {
            prev_v as i128 - target as i128
        } else {
            target as i128 - prev_v as i128
        };
        if prev <= here {
            return Ok(lo - 1);
        }
    }
    Ok(lo)
}

/// The program's values over `[lower, upper]` all exist and never
/// decrease.
pub open spec fn nondecreasing_on(
    p: ProgramV,
    outer: Seq<(Seq<char>, Option<i64>)>,
    lower: int,
    upper: int,
) -> bool {
    &&& forall|x: int| lower <= x <= upper ==> (#[trigger] candidate_value(p, outer, x)) is Ok
    &&& forall|x: int, y: int|
        lower <= x <= y <= upper ==> (#[trigger] candidate_value(p, outer, x))->Ok_0 <= (
        #[trigger] candidate_value(p, outer, y))->Ok_0
}

proof fn lemma_bisect_lower_bound(
    p: ProgramV,
    outer: Seq<(Seq<char>, Option<i64>)>,
    lower: int,
    upper: int,
    lo: int,
    hi: int,
    target: i64,
)
    requires
        lower <= lo <= hi <= upper,
        nondecreasing_on(p, outer, lower, upper),
        forall|x: int| lower <= x < lo ==> (#[trigger] candidate_value(p, outer, x))->Ok_0 < target,
        hi < upper ==> candidate_value(p, outer, hi)->Ok_0 >= target,
    ensures
        bisect(p, outer, lo, hi, target) is Ok,
        lo <= bisect(p, outer, lo, hi, target)->Ok_0 <= hi,
        forall|x: int|
            lower <= x < bisect(p, outer, lo, hi, target)->Ok_0 ==> (#[trigger] candidate_value(
                p,
                outer,
                x,
            ))->Ok_0 < target,
        bisect(p, outer, lo, hi, target)->Ok_0 < upper ==> candidate_value(
            p,
            outer,
            bisect(p, outer, lo, hi, target)->Ok_0,
        )->Ok_0 >= target,
    decreases hi - lo,
{
    if lo < hi {
        let mid = lo + (hi - lo) / 2;
        assert(candidate_value(p, outer, mid) is Ok);
        if candidate_value(p, outer, mid)->Ok_0 < target {
            assert forall|x: int| lower <= x < mid + 1 implies (#[trigger] candidate_value(
                p,
                outer,
                x,
            ))->Ok_0 < target by {
                assert(candidate_value(p, outer, x)->Ok_0 <= candidate_value(p, outer, mid)->Ok_0);
            }
            lemma_bisect_lower_bound(p, outer, lower, upper, mid + 1, hi, target);
        } else {
            lemma_bisect_lower_bound(p, outer, lower, upper, lo, mid, target);
        }
    }
}

/// Lower-bound inversion: over a domain where the program's values exist
/// and never decrease, the search lands on the first candidate whose value
/// is not below the target (the upper end when there is none), and the
/// inverse is that candidate or the one just before it, whichever value is
/// nearer the target, the earlier one on a tie.
pub proof fn lemma_inverse_is_nearest_lower_bound(
    p: ProgramV,
    outer: Seq<(Seq<char>, Option<i64>)>,
    lower: int,
    upper: int,
    target: i64,
)
    requires
        lower <= upper,
        nondecreasing_on(p, outer, lower, upper),
    ensures
        ({
            let lo = bisect(p, outer, lower, upper, target)->Ok_0;
            &&& bisect(p, outer, lower, upper, target) is Ok
            &&& lower <= lo <= upper
            &&& forall|x: int| lower <= x < lo ==> (#[trigger] candidate_value(p, outer, x))->Ok_0 < target
            &&& lo < upper ==> candidate_value(p, outer, lo)->Ok_0 >= target
            &&& inverse_value(p, outer, lower, upper, target) == if lo > lower && distance(
                candidate_value(p, outer, lo - 1)->Ok_0,
                target,
            ) <= distance(candidate_value(p, outer, lo)->Ok_0, target) {
                Ok::<int, ProgramEvalErrorV>(lo - 1)
            } else {
                Ok::<int, ProgramEvalErrorV>(lo)
            }
        }),
{
    lemma_bisect_lower_bound(p, outer, lower, upper, lower, upper, target);
    let lo = bisect(p, outer, lower, upper, target)->Ok_0;
    assert(candidate_value(p, outer, lo) is Ok);
    if lo > lower {
        assert(candidate_value(p, outer, lo - 1) is Ok);
    }
}

// ─── laws ──────────────────────────────────────────────────────────────────

/// Every name `e` reads is in `known`, and every local it reads is below
/// `nlocal`.
pub open spec fn refs_in(e: ExprV, known: Seq<Seq<char>>, nlocal: nat) -> bool
    decreases e,
{
    match e {
        ExprV::Const(_) => true,
        ExprV::Outer(n) => known.contains(n),
        ExprV::Local(i) => (i as nat) < nlocal,
        ExprV::Neg(a) => refs_in(*a, known, nlocal),
        ExprV::Abs(a) => refs_in(*a, known, nlocal),
        ExprV::Bin(_, a, b) => refs_in(*a, known, nlocal) && refs_in(*b, known, nlocal),
    }
}

pub open spec fn read_refs_ok(r: Read, s: Scope) -> bool {
    r matches Ok((e, _, _)) ==> refs_in(e, s.known, s.local.len())
}

proof fn lemma_index_from(names: Seq<Seq<char>>, t: Seq<char>, i: nat)
    ensures
        index_from(names, t, i) matches Some(k) ==> k < names.len(),
    decreases names.len() - i,
{
    if i < names.len() && names[i as int] != t {
        lemma_index_from(names, t, i + 1);
    }
}

proof fn lemma_sum_refs(s: Scope, p: nat, n: nat, d: nat)
    ensures
        read_refs_ok(sum_at(s, p, n, d), s),
    decreases s.ts.len() - p, 4nat,
{
    lemma_product_refs(s, p, n, d);
    if let Ok((a, q, m)) = product_at(s, p, n, d) {
        if p < q <= s.ts.len() {
            lemma_sum_rest_refs(s, a, q, m, d);
        }
    }
}

proof fn lemma_sum_rest_refs(s: Scope, a: ExprV, p: nat, n: nat, d: nat)
    requires
        refs_in(a, s.known, s.local.len()),
    ensures
        read_refs_ok(sum_rest(s, a, p, n, d), s),
    decreases s.ts.len() - p, 3nat,
{
    if tok_is(s, p, seq!['+']) || tok_is(s, p, seq!['-']) {
        let op = if tok_is(s, p, seq!['+']) {
            Op::Add
        } else {
            Op::Sub
        };
        lemma_product_refs(s, p + 1, n, d);
        if let Ok((b, q, m)) = product_at(s, p + 1, n, d) {
            let e = ExprV::Bin(op, Box::new(a), Box::new(b));
            if let Ok((e2, q2, m2)) = counted(e, q, m) {
                if p < q2 <= s.ts.len() {
                    lemma_sum_rest_refs(s, e2, q2, m2, d);
                }
            }
        }
    }
}

proof fn lemma_product_refs(s: Scope, p: nat, n: nat, d: nat)
    ensures
        read_refs_ok(product_at(s, p, n, d), s),
    decreases s.ts.len() - p, 2nat,
{
    lemma_atom_refs(s, p, n, d);
    if let Ok((a, q, m)) = atom_at(s, p, n, d) {
        if p < q <= s.ts.len() {
            lemma_product_rest_refs(s, a, q, m, d);
        }
    }
}

proof fn lemma_product_rest_refs(s: Scope, a: ExprV, p: nat, n: nat, d: nat)
    requires
        refs_in(a, s.known, s.local.len()),
    ensures
        read_refs_ok(product_rest(s, a, p, n, d), s),
    decreases s.ts.len() - p, 1nat,
{
    if tok_is(s, p, seq!['*']) || tok_is(s, p, seq!['/']) {
        let op = if tok_is(s, p, seq!['*']) {
            Op::Mul
        } else {
            Op::Div
        };
        lemma_atom_refs(s, p + 1, n, d);
        if let Ok((b, q, m)) = atom_at(s, p + 1, n, d) {
            let e = ExprV::Bin(op, Box::new(a), Box::new(b));
            if let Ok((e2, q2, m2)) = counted(e, q, m) {
                if p < q2 <= s.ts.len() {
                    lemma_product_rest_refs(s, e2, q2, m2, d);
                }
            }
        }
    }
}

proof fn lemma_atom_refs(s: Scope, p: nat, n: nat, d: nat)
    ensures
        read_refs_ok(atom_at(s, p, n, d), s),
    decreases s.ts.len() - p, 0nat,
{
    if d >= MAX_DEPTH {
    } else if tok_is(s, p, seq!['-']) {
        if !tok_is(s, p + 1, min_magnitude()) {
            lemma_atom_refs(s, p + 1, n, d + 1);
        }
    } else if tok_is(s, p, seq!['(']) {
        lemma_sum_refs(s, p + 1, n, d + 1);
    } else if p < s.ts.len() {
        let t = s.ts[p as int];
        if t.len() > 0 && is_digit(t[0]) {
        } else if tok_is(s, p + 1, seq!['(']) {
            lemma_call_refs(s, t, p + 2, n, d);
        } else {
            lemma_index_from(s.local, t, 0);
        }
    }
}

proof fn lemma_call_refs(s: Scope, name: Seq<char>, p: nat, n: nat, d: nat)
    ensures
        read_refs_ok(call_at(s, name, p, n, d), s),
    decreases s.ts.len() - p, 5nat,
{
    lemma_sum_refs(s, p, n, d + 1);
    if let Ok((a, q, m)) = sum_at(s, p, n, d + 1) {
        if tok_is(s, q, seq![',']) && p <= q {
            lemma_sum_refs(s, q + 1, m, d + 1);
        }
    }
}

/// A parsed expression reads only names in scope.
proof fn lemma_expression_refs(cs: Seq<char>, known: Seq<Seq<char>>, local: Seq<Seq<char>>)
    ensures
        expression_in(cs, known, local) matches Ok(e) ==> refs_in(e, known, local.len()),
{
    if let Ok(ts) = tokens_of(cs) {
        lemma_sum_refs(Scope { ts, known, local }, 0, 0, 0);
    }
}

/// A parsed guard reads only names in scope.
proof fn lemma_guard_refs(cs: Seq<char>, known: Seq<Seq<char>>, local: Seq<Seq<char>>)
    ensures
        guard_in(cs, known, local) matches Ok(g) ==> refs_in(g.a, known, local.len()) && refs_in(
            g.b,
            known,
            local.len(),
        ),
{
    if let Ok(ts) = tokens_of(cs) {
        let s = Scope { ts, known, local };
        lemma_sum_refs(s, 0, 0, 0);
        if let Ok((a, q, m)) = sum_at(s, 0, 0, 0) {
            lemma_sum_refs(s, q + 1, m, 0);
        }
    }
}

pub open spec fn guard_refs_in(g: Option<GuardV>, known: Seq<Seq<char>>, nlocal: nat) -> bool {
    match g {
        None => true,
        Some(g) => refs_in(g.a, known, nlocal) && refs_in(g.b, known, nlocal),
    }
}

/// Binding `k` of a compiled program, and its guard, read only the declared
/// inputs and the `base + k` locals before it.
pub open spec fn bindings_refs_in(bs: Seq<BindingV>, known: Seq<Seq<char>>, base: nat) -> bool {
    forall|k: int|
        0 <= k < bs.len() ==> refs_in((#[trigger] bs[k]).expr, known, base + k as nat) && guard_refs_in(
            bs[k].guard,
            known,
            base + k as nat,
        )
}

proof fn lemma_bindings_refs(bs: Seq<IntegerBindingV>, i: nat, known: Seq<Seq<char>>, local: Seq<Seq<char>>)
    ensures
        bindings_from(bs, i, known, local) matches Ok((cb, fin)) ==> bindings_refs_in(
            cb,
            known,
            local.len(),
        ) && fin.len() == local.len() + cb.len(),
    decreases bs.len() - i,
{
    if i < bs.len() {
        reveal(binding_step);
        let b = bs[i as int];
        lemma_expression_refs_scope(b.expr, known, local);
        if let Some(w) = b.when {
            lemma_guard_refs(w, known, local);
        }
        lemma_bindings_refs(bs, i + 1, known, local.push(b.name));
        if let Ok((cb, fin)) = bindings_from(bs, i, known, local) {
            let bv = binding_step(b, known, local)->Ok_0;
            let rest = bindings_from(bs, i + 1, known, local.push(b.name))->Ok_0.0;
            assert(cb == seq![bv] + rest);
            assert forall|k: int| 0 <= k < cb.len() implies refs_in(
                (#[trigger] cb[k]).expr,
                known,
                local.len() + k as nat,
            ) && guard_refs_in(cb[k].guard, known, local.len() + k as nat) by {
                if k > 0 {
                    assert(cb[k] == rest[k - 1]);
                }
            }
        }
    }
}

proof fn lemma_expression_refs_scope(cs: Seq<char>, known: Seq<Seq<char>>, local: Seq<Seq<char>>)
    ensures
        tokens_of(cs) matches Ok(ts) ==> (expression_of(Scope { ts, known, local }) matches Ok(e)
            ==> refs_in(e, known, local.len())),
{
    if let Ok(ts) = tokens_of(cs) {
        lemma_sum_refs(Scope { ts, known, local }, 0, 0, 0);
    }
}

/// What a compiled program reads is in scope: each binding the declared
/// inputs and the locals before it (the candidate, when the program has a
/// variable, being the first), the output and its guard all of them.
pub proof fn lemma_program_refs(
    bs: Seq<IntegerBindingV>,
    of: Seq<char>,
    when: Option<Seq<char>>,
    variable: Option<Seq<char>>,
    known: Seq<Seq<char>>,
)
    ensures
        program_of(bs, of, when, variable, known) matches Ok(p) ==> {
            let base: nat = if variable is Some {
                1
            } else {
                0
            };
            &&& bindings_refs_in(p.bindings, known, base)
            &&& refs_in(p.of, known, base + p.bindings.len())
            &&& guard_refs_in(p.guard, known, base + p.bindings.len())
        },
{
    if bs.len() <= MAX_BINDINGS {
        let start: Result<Seq<Seq<char>>, ProgramErrorV> = match variable {
            None => Ok(Seq::empty()),
            Some(v) => match name_check(v, known, Seq::empty()) {
                Some(e) => Err(e),
                None => Ok(seq![v]),
            },
        };
        if let Ok(local0) = start {
            lemma_bindings_refs(bs, 0, known, local0);
            if let Ok((cb, local)) = bindings_from(bs, 0, known, local0) {
                lemma_expression_refs(of, known, local);
                if let Some(w) = when {
                    lemma_guard_refs(w, known, local);
                }
            }
        }
    }
}

/// Every declared input has a slot.
pub open spec fn slots_cover(outer: Seq<(Seq<char>, Option<i64>)>, known: Seq<Seq<char>>) -> bool {
    forall|n: Seq<char>| known.contains(n) ==> (#[trigger] slot_from(outer, n, 0)) is Some
}

/// An error that a name checked at load can never cause.
pub open spec fn is_miss(e: EvalErrorV) -> bool {
    e is MissingInput || e is MissingLocal
}

proof fn lemma_eval_no_miss(
    e: ExprV,
    outer: Seq<(Seq<char>, Option<i64>)>,
    local: Seq<i64>,
    known: Seq<Seq<char>>,
    nlocal: nat,
)
    requires
        refs_in(e, known, nlocal),
        nlocal <= local.len(),
        slots_cover(outer, known),
    ensures
        eval(e, outer, local) matches Err(err) ==> !is_miss(err),
    decreases e,
{
    match e {
        ExprV::Outer(n) => {
            assert(slot_from(outer, n, 0) is Some);
        },
        ExprV::Neg(a) => lemma_eval_no_miss(*a, outer, local, known, nlocal),
        ExprV::Abs(a) => lemma_eval_no_miss(*a, outer, local, known, nlocal),
        ExprV::Bin(op, a, b) => {
            lemma_eval_no_miss(*a, outer, local, known, nlocal);
            lemma_eval_no_miss(*b, outer, local, known, nlocal);
        },
        _ => {},
    }
}

pub open spec fn program_error_is_miss(e: ProgramEvalErrorV) -> bool {
    match e {
        ProgramEvalErrorV::Binding { error, .. } => is_miss(error),
        ProgramEvalErrorV::Guard(error) => is_miss(error),
        ProgramEvalErrorV::Output(error) => is_miss(error),
    }
}

proof fn lemma_locals_no_miss(
    bs: Seq<BindingV>,
    i: nat,
    outer: Seq<(Seq<char>, Option<i64>)>,
    local: Seq<i64>,
    known: Seq<Seq<char>>,
    base: nat,
)
    requires
        bindings_refs_in(bs, known, base),
        local.len() == base + i,
        i <= bs.len(),
        slots_cover(outer, known),
    ensures
        locals_from(bs, i, outer, local) matches Err(e) ==> !program_error_is_miss(e),
        locals_from(bs, i, outer, local) matches Ok(l) ==> l.len() == base + bs.len(),
    decreases bs.len() - i,
{
    if i < bs.len() {
        let b = bs[i as int];
        assert(refs_in(b.expr, known, base + i) && guard_refs_in(b.guard, known, base + i));
        lemma_eval_no_miss(b.expr, outer, local, known, base + i);
        if let Some(g) = b.guard {
            lemma_eval_no_miss(g.a, outer, local, known, base + i);
            lemma_eval_no_miss(g.b, outer, local, known, base + i);
        }
        if let Ok(v) = binding_value(b, outer, local) {
            lemma_locals_no_miss(bs, i + 1, outer, local.push(v), known, base);
        }
    }
}

/// A name checked at load never misses at run time: a compiled program,
/// evaluated over slots that hold every declared input and with a candidate
/// exactly when it was compiled over a variable, never fails for a missing
/// input or a missing local.
pub proof fn lemma_compiled_program_never_misses(
    bs: Seq<IntegerBindingV>,
    of: Seq<char>,
    when: Option<Seq<char>>,
    variable: Option<Seq<char>>,
    known: Seq<Seq<char>>,
    outer: Seq<(Seq<char>, Option<i64>)>,
    candidate: Option<i64>,
)
    requires
        program_of(bs, of, when, variable, known) is Ok,
        slots_cover(outer, known),
        candidate is Some <==> variable is Some,
    ensures
        program_value(program_of(bs, of, when, variable, known)->Ok_0, outer, candidate) matches Err(e)
            ==> !program_error_is_miss(e),
{
    let p = program_of(bs, of, when, variable, known)->Ok_0;
    lemma_program_refs(bs, of, when, variable, known);
    let base: nat = if variable is Some {
        1
    } else {
        0
    };
    lemma_locals_no_miss(p.bindings, 0, outer, first_locals(candidate), known, base);
    if let Ok(local) = locals_from(p.bindings, 0, outer, first_locals(candidate)) {
        lemma_eval_no_miss(p.of, outer, local, known, base + p.bindings.len());
        if let Some(g) = p.guard {
            lemma_eval_no_miss(g.a, outer, local, known, base + p.bindings.len());
            lemma_eval_no_miss(g.b, outer, local, known, base + p.bindings.len());
        }
    }
}

/// A compiled guard over the declared inputs reads only them.
pub proof fn lemma_guard_reads(cs: Seq<char>, known: Seq<Seq<char>>)
    ensures
        guard_in(cs, known, Seq::empty()) matches Ok(g) ==> guard_refs_in(Some(g), known, 0),
{
    lemma_guard_refs(cs, known, Seq::empty());
}

/// A compiled expression over the declared inputs reads only them.
pub proof fn lemma_target_reads(cs: Seq<char>, known: Seq<Seq<char>>)
    ensures
        expression_in(cs, known, Seq::empty()) matches Ok(e) ==> refs_in(e, known, 0),
{
    lemma_expression_refs(cs, known, Seq::empty());
}


/// The locals in scope at binding `j`: the candidate variable, if any, then
/// the names of the bindings before `j`.
pub open spec fn locals_before(bs: Seq<IntegerBindingV>, variable: Option<Seq<char>>, j: nat) -> Seq<
    Seq<char>,
> {
    (match variable {
        None => Seq::empty(),
        Some(v) => seq![v],
    }) + Seq::new(j, |k: int| bs[k].name)
}

proof fn lemma_binding_refusal_from(
    bs: Seq<IntegerBindingV>,
    i: nat,
    known: Seq<Seq<char>>,
    variable: Option<Seq<char>>,
    j: int,
)
    requires
        i <= j < bs.len(),
        binding_step(bs[j], known, locals_before(bs, variable, j as nat)) is Err,
    ensures
        bindings_from(bs, i, known, locals_before(bs, variable, i)) is Err,
    decreases j - i,
{
    if i < j {
        if binding_step(bs[i as int], known, locals_before(bs, variable, i)) is Ok {
            assert(locals_before(bs, variable, i).push(bs[i as int].name) =~= locals_before(
                bs,
                variable,
                i + 1,
            ));
            lemma_binding_refusal_from(bs, i + 1, known, variable, j);
        }
    }
}

/// What a program refuses: more than 128 bindings; a candidate variable
/// that is not an identifier or names an input; and any binding refused
/// where it stands: one whose name is not an identifier or repeats an
/// input, the variable or an earlier binding; one whose expression does not
/// read in the scope above it, among them one that reads a name that is none
/// of the inputs, the variable and the earlier bindings (`UnknownName`); or
/// one refused for any other reason.
pub proof fn lemma_program_refusals(
    bs: Seq<IntegerBindingV>,
    of: Seq<char>,
    when: Option<Seq<char>>,
    variable: Option<Seq<char>>,
    known: Seq<Seq<char>>,
    j: int,
)
    ensures
        bs.len() > MAX_BINDINGS ==> program_of(bs, of, when, variable, known) is Err,
        (variable matches Some(v) && name_check(v, known, Seq::empty()) is Some) ==> program_of(
            bs,
            of,
            when,
            variable,
            known,
        ) is Err,
        (0 <= j < bs.len() && (name_check(bs[j].name, known, locals_before(bs, variable, j as nat))
            is Some || expression_in(bs[j].expr, known, locals_before(bs, variable, j as nat)) is Err
            || binding_step(bs[j], known, locals_before(bs, variable, j as nat)) is Err)) ==> program_of(
            bs,
            of,
            when,
            variable,
            known,
        ) is Err,
        (0 <= j < bs.len() && exists|n: Seq<char>|
            #[trigger] expression_in(bs[j].expr, known, locals_before(bs, variable, j as nat))
                == Err::<ExprV, SyntaxErrorV>(SyntaxErrorV::UnknownName(n))) ==> program_of(
            bs,
            of,
            when,
            variable,
            known,
        ) is Err,
{
    if 0 <= j < bs.len() && bs.len() <= MAX_BINDINGS {
        let local = locals_before(bs, variable, j as nat);
        if name_check(bs[j].name, known, local) is Some || expression_in(bs[j].expr, known, local)
            is Err {
            reveal(binding_step);
        }
        if binding_step(bs[j], known, local) is Err {
            let start: Seq<Seq<char>> = match variable {
                None => Seq::empty(),
                Some(v) => seq![v],
            };
            assert(locals_before(bs, variable, 0) =~= start);
            lemma_binding_refusal_from(bs, 0, known, variable, j);
        }
    }
}


/// `min` gives the smaller operand and `max` the larger: for operands that
/// evaluate to `x` and `y`, `min(a, b)` is no more than either and is one of
/// them, `max(a, b)` is no less than either and is one of them, and neither
/// ever fails.
pub proof fn lemma_min_max_pick_the_extremes(
    a: ExprV,
    b: ExprV,
    outer: Seq<(Seq<char>, Option<i64>)>,
    local: Seq<i64>,
)
    requires
        eval(a, outer, local) is Ok,
        eval(b, outer, local) is Ok,
    ensures
        ({
            let x = eval(a, outer, local)->Ok_0;
            let y = eval(b, outer, local)->Ok_0;
            &&& eval(ExprV::Bin(Op::Min, Box::new(a), Box::new(b)), outer, local) matches Ok(r) && r
                <= x && r <= y && (r == x || r == y)
            &&& eval(ExprV::Bin(Op::Max, Box::new(a), Box::new(b)), outer, local) matches Ok(r) && r
                >= x && r >= y && (r == x || r == y)
        }),
{
}


proof fn lemma_two_to_is_pow2(k: nat)
    ensures
        two_to(k) == vstd::arithmetic::power2::pow2(k),
    decreases k,
{
    if k == 0 {
        vstd::arithmetic::power::lemma_pow0(2);
    } else {
        lemma_two_to_is_pow2((k - 1) as nat);
        vstd::arithmetic::power2::lemma_pow2_unfold(k);
    }
}

/// The checked arithmetic of the language on `i64` operands `x` and `y`:
/// `+`, `-` and `*` give the exact sum, difference and product when it fits
/// in `i64` and overflow otherwise; `/` fails on a zero divisor and
/// otherwise gives the quotient rounded toward zero (the remainder
/// `x - q * y` is smaller than the divisor and has the sign of `x`); `shl`
/// and `shr` take a count in `[0, 63]` and multiply by, or floor-divide by,
/// two to that power.
pub proof fn lemma_arithmetic_is_exact(x: i64, y: i64)
    ensures
        apply(Op::Add, x, y) == (if i64::MIN <= x + y <= i64::MAX {
            Ok::<i64, EvalErrorV>((x + y) as i64)
        } else {
            Err(EvalErrorV::Overflow)
        }),
        apply(Op::Sub, x, y) == (if i64::MIN <= x - y <= i64::MAX {
            Ok::<i64, EvalErrorV>((x - y) as i64)
        } else {
            Err(EvalErrorV::Overflow)
        }),
        apply(Op::Mul, x, y) == (if i64::MIN <= x * y <= i64::MAX {
            Ok::<i64, EvalErrorV>((x * y) as i64)
        } else {
            Err(EvalErrorV::Overflow)
        }),
        (y == 0 || (x == i64::MIN && y == -1)) ==> apply(Op::Div, x, y) == Err::<i64, EvalErrorV>(
            EvalErrorV::Division,
        ),
        !(y == 0 || (x == i64::MIN && y == -1)) ==> apply(Op::Div, x, y) is Ok,
        apply(Op::Div, x, y) matches Ok(q) ==> {
            let r = x - q * y;
            &&& (if r < 0 {
                -r
            } else {
                r
            }) < (if y < 0 {
                -y
            } else {
                y as int
            })
            &&& (r == 0 || (r > 0) == (x > 0))
        },
        (y < 0 || y > 63) ==> apply(Op::Shl, x, y) == Err::<i64, EvalErrorV>(
            EvalErrorV::ShiftCount(y),
        ),
        (y < 0 || y > 63) ==> apply(Op::Shr, x, y) == Err::<i64, EvalErrorV>(
            EvalErrorV::ShiftCount(y),
        ),
        0 <= y <= 63 ==> apply(Op::Shl, x, y) == (if i64::MIN <= x * vstd::arithmetic::power2::pow2(
            y as nat,
        ) <= i64::MAX {
            Ok::<i64, EvalErrorV>((x * vstd::arithmetic::power2::pow2(y as nat)) as i64)
        } else {
            Err(EvalErrorV::Overflow)
        }),
        0 <= y <= 63 ==> apply(Op::Shr, x, y) == Ok::<i64, EvalErrorV>(
            (x as int / vstd::arithmetic::power2::pow2(y as nat) as int) as i64,
        ),
{
    if 0 <= y <= 63 {
        lemma_two_to_is_pow2(y as nat);
    }
    if y != 0 {
        let xi = x as int;
        let yi = y as int;
        let ax = if xi < 0 {
            -xi
        } else {
            xi
        };
        let ay = if yi < 0 {
            -yi
        } else {
            yi
        };
        let aq = ax / ay;
        vstd::arithmetic::div_mod::lemma_div_is_ordered_by_denominator(ax, 1, ay);
        vstd::arithmetic::div_mod::lemma_div_basics(ax);
        if ay >= 2 {
            vstd::arithmetic::div_mod::lemma_div_is_ordered_by_denominator(ax, 2, ay);
        }
        vstd::arithmetic::div_mod::lemma_div_pos_is_pos(ax, ay);
        assert(trunc_div(xi, yi) == if (xi < 0) == (yi < 0) {
            aq
        } else {
            -aq
        });
        if let Ok(q) = apply(Op::Div, x, y) {
            let xi = x as int;
            let yi = y as int;
            let ax = if xi < 0 {
                -xi
            } else {
                xi
            };
            let ay = if yi < 0 {
                -yi
            } else {
                yi
            };
            let aq = ax / ay;
            let ar = ax % ay;
            vstd::arithmetic::div_mod::lemma_fundamental_div_mod(ax, ay);
            assert(0 <= ar < ay) by {
                vstd::arithmetic::div_mod::lemma_mod_bound(ax, ay);
            }
            assert(trunc_div(xi, yi) == if (xi < 0) == (yi < 0) {
                aq
            } else {
                -aq
            });
            if xi == 0 {
                assert(aq == 0) by {
                    vstd::arithmetic::div_mod::lemma_basic_div(0, ay);
                }
            }
            assert(x - q * y == if xi < 0 {
                -ar
            } else {
                ar
            }) by (nonlinear_arith)
                requires
                    q == (if (xi < 0) == (yi < 0) {
                        aq
                    } else {
                        -aq
                    }),
                    ax == ay * aq + ar,
                    ax == (if xi < 0 {
                        -xi
                    } else {
                        xi
                    }),
                    ay == (if yi < 0 {
                        -yi
                    } else {
                        yi
                    }),
                    x == xi,
                    y == yi,
                    xi != 0 || aq == 0,
            ;
        }
    }
}


/// Negation and `abs` of an operand that evaluates to `x`: `-x` and `|x|`
/// when they fit in `i64` (all but `x == i64::MIN`), overflow otherwise.
pub proof fn lemma_neg_and_abs_are_exact(a: ExprV, outer: Seq<(Seq<char>, Option<i64>)>, local: Seq<i64>)
    requires
        eval(a, outer, local) is Ok,
    ensures
        ({
            let x = eval(a, outer, local)->Ok_0;
            &&& x == i64::MIN ==> eval(ExprV::Neg(Box::new(a)), outer, local) == Err::<i64, EvalErrorV>(
                EvalErrorV::Overflow,
            )
            &&& x == i64::MIN ==> eval(ExprV::Abs(Box::new(a)), outer, local) == Err::<i64, EvalErrorV>(
                EvalErrorV::Overflow,
            )
            &&& x != i64::MIN ==> (eval(ExprV::Neg(Box::new(a)), outer, local) matches Ok(r) && r + x
                == 0)
            &&& x != i64::MIN ==> (eval(ExprV::Abs(Box::new(a)), outer, local) matches Ok(r) && r >= 0
                && (r == x || r + x == 0))
        }),
{
}


/// The language's named functions do what their names say: `min` gives the
/// smaller of its arguments, `max` the larger, `shl` multiplies by and `shr`
/// floor-divides by two to the count (a count in `[0, 63]`), and no other
/// name is a function.
pub proof fn lemma_named_functions(x: i64, y: i64, t: Seq<char>)
    ensures
        int_func(seq!['m', 'i', 'n']) matches Some(op) && (apply(op, x, y) matches Ok(r) && r <= x && r
            <= y && (r == x || r == y)),
        int_func(seq!['m', 'a', 'x']) matches Some(op) && (apply(op, x, y) matches Ok(r) && r >= x && r
            >= y && (r == x || r == y)),
        int_func(seq!['s', 'h', 'l']) matches Some(op) && (0 <= y <= 63 && i64::MIN <= x
            * vstd::arithmetic::power2::pow2(y as nat) <= i64::MAX ==> apply(op, x, y) == Ok::<
            i64,
            EvalErrorV,
        >((x * vstd::arithmetic::power2::pow2(y as nat)) as i64)),
        int_func(seq!['s', 'h', 'r']) matches Some(op) && (0 <= y <= 63 ==> apply(op, x, y) == Ok::<
            i64,
            EvalErrorV,
        >((x as int / vstd::arithmetic::power2::pow2(y as nat) as int) as i64)),
        int_func(t) is Some ==> t == seq!['m', 'i', 'n'] || t == seq!['m', 'a', 'x'] || t == seq![
            's',
            'h',
            'l',
        ] || t == seq!['s', 'h', 'r'],
{
    lemma_arithmetic_is_exact(x, y);
}

} // verus!
