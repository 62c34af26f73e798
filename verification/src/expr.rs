//! The arithmetic expression language of derived channels: its tokens and
//! its grammar.
//!
//! An expression is `+ - * /` over decimal literals and names, unary minus,
//! parentheses and the calls `abs`, `min`, `max`, `pow` and `exp`; a guard is
//! exactly one comparison between two expressions. Parsing happens once, at
//! load: a literal is kept as its source text, already checked to be one the
//! float grammar accepts, and evaluation is left to the caller.

use vstd::prelude::*;

verus! {

broadcast use vstd::string::axiom_spec_iter;

/// A comparison in a guard.
#[derive(Debug, Clone, Copy, PartialEq, Eq)]
pub enum RelOp {
    Gt,
    Ge,
    Lt,
    Le,
    Eq,
    Ne,
}

/// A token.
#[derive(Debug, Clone, PartialEq, Eq)]
pub enum Tok {
    /// A decimal literal, as written.
    Num(String),
    Ident(String),
    Plus,
    Minus,
    Star,
    Slash,
    LParen,
    RParen,
    Comma,
    Rel(RelOp),
}

/// A token with its text as characters.
pub enum TokV {
    Num(Seq<char>),
    Ident(Seq<char>),
    Plus,
    Minus,
    Star,
    Slash,
    LParen,
    RParen,
    Comma,
    Rel(RelOp),
}

impl View for Tok {
    type V = TokV;

    open spec fn view(&self) -> TokV {
        match self {
            Tok::Num(s) => TokV::Num(s@),
            Tok::Ident(s) => TokV::Ident(s@),
            Tok::Plus => TokV::Plus,
            Tok::Minus => TokV::Minus,
            Tok::Star => TokV::Star,
            Tok::Slash => TokV::Slash,
            Tok::LParen => TokV::LParen,
            Tok::RParen => TokV::RParen,
            Tok::Comma => TokV::Comma,
            Tok::Rel(op) => TokV::Rel(*op),
        }
    }
}

/// Why the text does not tokenize.
#[derive(Debug, Clone, PartialEq, Eq)]
pub enum LexError {
    /// A lone `=`: comparison is `==`.
    BareEquals,
    /// A lone `!`: inequality is `!=`.
    BareBang,
    /// A literal the float grammar refuses (such as `1.2.3`).
    NotANumber(String),
    UnexpectedChar(char),
}

/// A lexing error with its text as characters.
pub enum LexErrorV {
    BareEquals,
    BareBang,
    NotANumber(Seq<char>),
    UnexpectedChar(char),
}

impl View for LexError {
    type V = LexErrorV;

    open spec fn view(&self) -> LexErrorV {
        match self {
            LexError::BareEquals => LexErrorV::BareEquals,
            LexError::BareBang => LexErrorV::BareBang,
            LexError::NotANumber(s) => LexErrorV::NotANumber(s@),
            LexError::UnexpectedChar(c) => LexErrorV::UnexpectedChar(*c),
        }
    }
}

pub open spec fn is_digit(c: char) -> bool {
    '0' <= c <= '9'
}

pub open spec fn is_alpha(c: char) -> bool {
    ('a' <= c <= 'z') || ('A' <= c <= 'Z')
}

pub open spec fn is_space(c: char) -> bool {
    c == ' ' || c == '\t' || c == '\n' || c == '\r'
}

/// May continue a literal's digits-and-dots run.
pub open spec fn is_num_char(c: char) -> bool {
    is_digit(c) || c == '.'
}

/// May continue a name.
pub open spec fn is_ident_char(c: char) -> bool {
    is_digit(c) || is_alpha(c) || c == '_'
}

/// The end of the run of digits and dots from `i`.
pub open spec fn num_run_end(cs: Seq<char>, i: nat) -> nat
    decreases cs.len() - i,
{
    if i < cs.len() && is_num_char(cs[i as int]) {
        num_run_end(cs, i + 1)
    } else {
        i
    }
}

/// The end of the run of digits from `i`.
pub open spec fn digit_run_end(cs: Seq<char>, i: nat) -> nat
    decreases cs.len() - i,
{
    if i < cs.len() && is_digit(cs[i as int]) {
        digit_run_end(cs, i + 1)
    } else {
        i
    }
}

/// The end of the name from `i`.
pub open spec fn ident_run_end(cs: Seq<char>, i: nat) -> nat
    decreases cs.len() - i,
{
    if i < cs.len() && is_ident_char(cs[i as int]) {
        ident_run_end(cs, i + 1)
    } else {
        i
    }
}

/// The end of a literal starting at `i`: its digits and dots, and an
/// exponent (`e` or `E`, an optional sign, at least one digit) when one
/// follows in full.
pub open spec fn number_end(cs: Seq<char>, i: nat) -> nat {
    let m = num_run_end(cs, i);
    if m < cs.len() && (cs[m as int] == 'e' || cs[m as int] == 'E') {
        let k: nat = if m + 1 < cs.len() && (cs[m + 1int] == '+' || cs[m + 1int] == '-') {
            m + 2
        } else {
            m + 1
        };
        if k < cs.len() && is_digit(cs[k as int]) {
            digit_run_end(cs, k)
        } else {
            m
        }
    } else {
        m
    }
}

/// How many of `s` are `c`.
pub open spec fn count_of(s: Seq<char>, c: char) -> nat
    decreases s.len(),
{
    if s.len() == 0 {
        0
    } else {
        count_of(s.drop_last(), c) + if s.last() == c {
            1nat
        } else {
            0nat
        }
    }
}

/// The digits-and-dots part of a literal is one the float grammar accepts:
/// at least one digit and at most one dot.
pub open spec fn valid_mantissa(s: Seq<char>) -> bool {
    count_of(s, '.') <= 1 && count_of(s, '.') < s.len()
}

/// The comparison a `<`, `>`, `=` or `!` starts, `two` telling whether `=`
/// follows; `None` for a lone `=` or `!`.
pub open spec fn rel_of(c: char, two: bool) -> Option<RelOp> {
    if c == '>' {
        Some(if two {
            RelOp::Ge
        } else {
            RelOp::Gt
        })
    } else if c == '<' {
        Some(if two {
            RelOp::Le
        } else {
            RelOp::Lt
        })
    } else if c == '=' && two {
        Some(RelOp::Eq)
    } else if c == '!' && two {
        Some(RelOp::Ne)
    } else {
        None
    }
}

/// The token a one-character operator or bracket is.
pub open spec fn single_tok(c: char) -> Option<TokV> {
    if c == '+' {
        Some(TokV::Plus)
    } else if c == '-' {
        Some(TokV::Minus)
    } else if c == '*' {
        Some(TokV::Star)
    } else if c == '/' {
        Some(TokV::Slash)
    } else if c == '(' {
        Some(TokV::LParen)
    } else if c == ')' {
        Some(TokV::RParen)
    } else if c == ',' {
        Some(TokV::Comma)
    } else {
        None
    }
}

/// A run of digits and dots ends at or after its start, inside the text,
/// past a first character that can start it, and holds only such characters.
pub proof fn lemma_num_run_end(cs: Seq<char>, i: nat)
    ensures
        i <= num_run_end(cs, i),
        i <= cs.len() ==> num_run_end(cs, i) <= cs.len(),
        i < cs.len() && is_num_char(cs[i as int]) ==> num_run_end(cs, i) > i,
        forall|k: int| i <= k < num_run_end(cs, i) ==> is_num_char(#[trigger] cs[k]),
    decreases cs.len() - i,
{
    if i < cs.len() && is_num_char(cs[i as int]) {
        lemma_num_run_end(cs, i + 1);
    }
}

/// A run of digits ends at or after its start, inside the text, and holds
/// only digits.
pub proof fn lemma_digit_run_end(cs: Seq<char>, i: nat)
    ensures
        i <= digit_run_end(cs, i),
        i <= cs.len() ==> digit_run_end(cs, i) <= cs.len(),
        forall|k: int| i <= k < digit_run_end(cs, i) ==> is_digit(#[trigger] cs[k]),
    decreases cs.len() - i,
{
    if i < cs.len() && is_digit(cs[i as int]) {
        lemma_digit_run_end(cs, i + 1);
    }
}

/// A name ends at or after its start, inside the text, past a first
/// character that can start it, and holds only name characters.
pub proof fn lemma_ident_run_end(cs: Seq<char>, i: nat)
    ensures
        i <= ident_run_end(cs, i),
        i <= cs.len() ==> ident_run_end(cs, i) <= cs.len(),
        i < cs.len() && is_ident_char(cs[i as int]) ==> ident_run_end(cs, i) > i,
        forall|k: int| i <= k < ident_run_end(cs, i) ==> is_ident_char(#[trigger] cs[k]),
    decreases cs.len() - i,
{
    if i < cs.len() && is_ident_char(cs[i as int]) {
        lemma_ident_run_end(cs, i + 1);
    }
}

/// A literal with its exponent ends no earlier than its digits and dots,
/// and inside the text.
pub proof fn lemma_number_end(cs: Seq<char>, i: nat)
    requires
        i <= cs.len(),
    ensures
        num_run_end(cs, i) <= number_end(cs, i) <= cs.len(),
{
    lemma_num_run_end(cs, i);
    let m = num_run_end(cs, i);
    if m < cs.len() && (cs[m as int] == 'e' || cs[m as int] == 'E') {
        let k: nat = if m + 1 < cs.len() && (cs[m + 1int] == '+' || cs[m + 1int] == '-') {
            m + 2
        } else {
            m + 1
        };
        if k < cs.len() && is_digit(cs[k as int]) {
            lemma_digit_run_end(cs, k);
        }
    }
}

/// `t` in front of the tokens of the rest, or the rest's error.
pub open spec fn prepend(t: TokV, rest: Result<Seq<TokV>, LexErrorV>) -> Result<Seq<TokV>, LexErrorV> {
    match rest {
        Ok(ts) => Ok(seq![t] + ts),
        Err(e) => Err(e),
    }
}

/// The tokens of `cs` from `i` on: whitespace separates, operators and
/// brackets stand alone, a comparison is one or two characters, a literal
/// and a name run as far as they can.
pub open spec fn lex_from(cs: Seq<char>, i: nat) -> Result<Seq<TokV>, LexErrorV>
    decreases cs.len() - i,
{
    if i >= cs.len() {
        Ok(Seq::empty())
    } else {
        let c = cs[i as int];
        if is_space(c) {
            lex_from(cs, i + 1)
        } else if single_tok(c) is Some {
            prepend(single_tok(c)->0, lex_from(cs, i + 1))
        } else if c == '>' || c == '<' || c == '=' || c == '!' {
            let two = i + 1 < cs.len() && cs[i + 1int] == '=';
            match rel_of(c, two) {
                Some(op) => prepend(
                    TokV::Rel(op),
                    lex_from(
                        cs,
                        if two {
                            i + 2
                        } else {
                            i + 1
                        },
                    ),
                ),
                None => Err(
                    if c == '=' {
                        LexErrorV::BareEquals
                    } else {
                        LexErrorV::BareBang
                    },
                ),
            }
        } else if is_num_char(c) {
            let e = number_end(cs, i);
            proof {
                lemma_number_end(cs, i);
                lemma_num_run_end(cs, i);
            }
            if valid_mantissa(cs.subrange(i as int, num_run_end(cs, i) as int)) {
                prepend(TokV::Num(cs.subrange(i as int, e as int)), lex_from(cs, e))
            } else {
                Err(LexErrorV::NotANumber(cs.subrange(i as int, e as int)))
            }
        } else if is_alpha(c) || c == '_' {
            let e = ident_run_end(cs, i);
            proof {
                lemma_ident_run_end(cs, i);
            }
            prepend(TokV::Ident(cs.subrange(i as int, e as int)), lex_from(cs, e))
        } else {
            Err(LexErrorV::UnexpectedChar(c))
        }
    }
}

/// The tokens of a text as characters.
pub open spec fn toks_view(ts: Seq<Tok>) -> Seq<TokV> {
    ts.map_values(|t: Tok| t@)
}

/// `prefix` in front of the tokens of a lexing result.
pub open spec fn prepend_all(prefix: Seq<TokV>, rest: Result<Seq<TokV>, LexErrorV>) -> Result<
    Seq<TokV>,
    LexErrorV,
> {
    match rest {
        Ok(ts) => Ok(prefix + ts),
        Err(e) => Err(e),
    }
}

proof fn lemma_prepend_assoc(before: Seq<TokV>, t: TokV, rest: Result<Seq<TokV>, LexErrorV>)
    ensures
        prepend_all(before, prepend(t, rest)) == prepend_all(before + seq![t], rest),
{
    match rest {
        Ok(ts) => {
            assert((before + seq![t]) + ts =~= before + (seq![t] + ts));
        },
        Err(_) => {},
    }
}

/// `String`'s `FromIterator<char>`: the string of the characters `cs`, in
/// order.
#[verifier::external_body]
pub(crate) fn string_from_chars(cs: &[char]) -> (r: String)
    ensures
        r@ == cs@,
{
    cs.iter().collect()
}

/// The characters of `cs` from `a` to `b`.
pub(crate) fn chars_between(cs: &Vec<char>, a: usize, b: usize) -> (r: Vec<char>)
    requires
        a <= b <= cs.len(),
    ensures
        r@ == cs@.subrange(a as int, b as int),
{
    let mut out: Vec<char> = Vec::new();
    let mut k = a;
    while k < b
        invariant
            a <= k <= b,
            b <= cs.len(),
            out@ == cs@.subrange(a as int, k as int),
        decreases b - k,
    {
        out.push(cs[k]);
        assert(out@ =~= cs@.subrange(a as int, (k + 1) as int));
        k = k + 1;
    }
    out
}

pub(crate) fn is_digit_char(c: char) -> (r: bool)
    ensures
        r == is_digit(c),
{
    '0' <= c && c <= '9'
}

pub(crate) fn is_alpha_char(c: char) -> (r: bool)
    ensures
        r == is_alpha(c),
{
    ('a' <= c && c <= 'z') || ('A' <= c && c <= 'Z')
}

fn scan_num_run(cs: &Vec<char>, i: usize) -> (r: usize)
    requires
        i <= cs.len(),
    ensures
        r == num_run_end(cs@, i as nat),
{
    let mut k = i;
    while k < cs.len() && (is_digit_char(cs[k]) || cs[k] == '.')
        invariant
            i <= k <= cs.len(),
            num_run_end(cs@, k as nat) == num_run_end(cs@, i as nat),
        decreases cs.len() - k,
    {
        k = k + 1;
    }
    k
}

pub(crate) fn scan_digit_run(cs: &Vec<char>, i: usize) -> (r: usize)
    requires
        i <= cs.len(),
    ensures
        r == digit_run_end(cs@, i as nat),
{
    let mut k = i;
    while k < cs.len() && is_digit_char(cs[k])
        invariant
            i <= k <= cs.len(),
            digit_run_end(cs@, k as nat) == digit_run_end(cs@, i as nat),
        decreases cs.len() - k,
    {
        k = k + 1;
    }
    k
}

pub(crate) fn scan_ident_run(cs: &Vec<char>, i: usize) -> (r: usize)
    requires
        i <= cs.len(),
    ensures
        r == ident_run_end(cs@, i as nat),
{
    let mut k = i;
    while k < cs.len() && (is_digit_char(cs[k]) || is_alpha_char(cs[k]) || cs[k] == '_')
        invariant
            i <= k <= cs.len(),
            ident_run_end(cs@, k as nat) == ident_run_end(cs@, i as nat),
        decreases cs.len() - k,
    {
        k = k + 1;
    }
    k
}

fn scan_number(cs: &Vec<char>, i: usize) -> (r: usize)
    requires
        i <= cs.len(),
    ensures
        r == number_end(cs@, i as nat),
{
    let m = scan_num_run(cs, i);
    proof {
        lemma_num_run_end(cs@, i as nat);
    }
    if m < cs.len() && (cs[m] == 'e' || cs[m] == 'E') {
        let k = if m + 1 < cs.len() && (cs[m + 1] == '+' || cs[m + 1] == '-') {
            m + 2
        } else {
            m + 1
        };
        if k < cs.len() && is_digit_char(cs[k]) {
            scan_digit_run(cs, k)
        } else {
            m
        }
    } else {
        m
    }
}

/// Whether the digits and dots of `cs[a..b]` form a mantissa the float
/// grammar accepts.
fn mantissa_ok(cs: &Vec<char>, a: usize, b: usize) -> (r: bool)
    requires
        a <= b <= cs.len(),
    ensures
        r == valid_mantissa(cs@.subrange(a as int, b as int)),
{
    let mut dots: usize = 0;
    let mut k = a;
    while k < b
        invariant
            a <= k <= b,
            b <= cs.len(),
            dots == count_of(cs@.subrange(a as int, k as int), '.'),
            dots <= k - a,
        decreases b - k,
    {
        assert(cs@.subrange(a as int, (k + 1) as int).drop_last() =~= cs@.subrange(
            a as int,
            k as int,
        ));
        if cs[k] == '.' {
            dots = dots + 1;
        }
        k = k + 1;
    }
    dots <= 1 && dots < b - a
}

/// Split `src` into tokens; see `lex_from` for the rules.
pub fn lex(src: &str) -> (r: Result<Vec<Tok>, LexError>)
    ensures
        match r {
            Ok(ts) => lex_from(src@, 0) == Ok::<Seq<TokV>, LexErrorV>(toks_view(ts@)),
            Err(e) => lex_from(src@, 0) == Err::<Seq<TokV>, LexErrorV>(e@),
        },
{
    let cs = chars_of(src);
    let mut out: Vec<Tok> = Vec::new();
    let mut i: usize = 0;
    while i < cs.len()
        invariant
            i <= cs.len(),
            cs@ == src@,
            lex_from(cs@, 0) == prepend_all(toks_view(out@), lex_from(cs@, i as nat)),
        decreases cs.len() - i,
    {
        let c = cs[i];
        let ghost before = toks_view(out@);
        if c == ' ' || c == '\t' || c == '\n' || c == '\r' {
            i = i + 1;
        } else if c == '+' || c == '-' || c == '*' || c == '/' || c == '(' || c == ')' || c == ',' {
            let t = if c == '+' {
                Tok::Plus
            } else if c == '-' {
                Tok::Minus
            } else if c == '*' {
                Tok::Star
            } else if c == '/' {
                Tok::Slash
            } else if c == '(' {
                Tok::LParen
            } else if c == ')' {
                Tok::RParen
            } else {
                Tok::Comma
            };
            out.push(t);
            assert(toks_view(out@) =~= before + seq![t@]);
            proof {
                lemma_prepend_assoc(before, t@, lex_from(cs@, (i + 1) as nat));
            }
            i = i + 1;
        } else if c == '>' || c == '<' || c == '=' || c == '!' {
            let two = i + 1 < cs.len() && cs[i + 1] == '=';
            let op = if c == '>' {
                if two {
                    RelOp::Ge
                } else {
                    RelOp::Gt
                }
            } else if c == '<' {
                if two {
                    RelOp::Le
                } else {
                    RelOp::Lt
                }
            } else if c == '=' && two {
                RelOp::Eq
            } else if c == '!' && two {
                RelOp::Ne
            } else if c == '=' {
                return Err(LexError::BareEquals);
            } else {
                return Err(LexError::BareBang);
            };
            out.push(Tok::Rel(op));
            assert(toks_view(out@) =~= before + seq![TokV::Rel(op)]);
            proof {
                lemma_prepend_assoc(
                    before,
                    TokV::Rel(op),
                    lex_from(
                        cs@,
                        if two {
                            (i + 2) as nat
                        } else {
                            (i + 1) as nat
                        },
                    ),
                );
            }
            i = if two {
                i + 2
            } else {
                i + 1
            };
        } else if is_digit_char(c) || c == '.' {
            let e = scan_number(&cs, i);
            let m = scan_num_run(&cs, i);
            proof {
                lemma_number_end(cs@, i as nat);
                lemma_num_run_end(cs@, i as nat);
            }
            let text = string_from_chars(chars_between(&cs, i, e).as_slice());
            if !mantissa_ok(&cs, i, m) {
                return Err(LexError::NotANumber(text));
            }
            let t = Tok::Num(text);
            out.push(t);
            assert(toks_view(out@) =~= before + seq![t@]);
            proof {
                lemma_prepend_assoc(before, t@, lex_from(cs@, e as nat));
            }
            i = e;
        } else if is_alpha_char(c) || c == '_' {
            let e = scan_ident_run(&cs, i);
            proof {
                lemma_ident_run_end(cs@, i as nat);
            }
            let t = Tok::Ident(string_from_chars(chars_between(&cs, i, e).as_slice()));
            out.push(t);
            assert(toks_view(out@) =~= before + seq![t@]);
            proof {
                lemma_prepend_assoc(before, t@, lex_from(cs@, e as nat));
            }
            i = e;
        } else {
            return Err(LexError::UnexpectedChar(c));
        }
    }
    assert(toks_view(out@) + Seq::<TokV>::empty() =~= toks_view(out@));
    Ok(out)
}

/// The characters of `src`.
pub fn chars_of(src: &str) -> (r: Vec<char>)
    ensures
        r@ == src@,
{
    let mut out: Vec<char> = Vec::new();
    for c in it: src.chars()
        invariant
            out@ == it.seq().take(it.index() as int),
    {
        out.push(c);
    }
    out
}

} // verus!
