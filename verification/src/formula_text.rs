//! The texts of the formula language's errors, as a user reads them.
//!
//! A token is named the way the language's diagnostics have always named it
//! (`RParen`, `Ident("x")`, `Cmp(Gt)`); a number token is named by the text it
//! was written as.

use crate::expr::{string_from_chars, LexError, LexErrorV, RelOp, Tok, TokV};
use crate::formula::{ParseError, ParseErrorV, Want};
use vstd::prelude::*;

verus! {

/// The name of a comparison operator in a token's name.
pub open spec fn rel_name(op: RelOp) -> Seq<char> {
    match op {
        RelOp::Gt => "Gt"@,
        RelOp::Ge => "Ge"@,
        RelOp::Lt => "Lt"@,
        RelOp::Le => "Le"@,
        RelOp::Eq => "Eq"@,
        RelOp::Ne => "Ne"@,
    }
}

/// How a token is named in an error.
pub open spec fn tok_name(t: TokV) -> Seq<char> {
    match t {
        TokV::Num(s) => "Num("@ + s + ")"@,
        TokV::Ident(s) => "Ident(\""@ + s + "\")"@,
        TokV::Plus => "Plus"@,
        TokV::Minus => "Minus"@,
        TokV::Star => "Star"@,
        TokV::Slash => "Slash"@,
        TokV::LParen => "LParen"@,
        TokV::RParen => "RParen"@,
        TokV::Comma => "Comma"@,
        TokV::Rel(op) => "Cmp("@ + rel_name(op) + ")"@,
    }
}

/// What a parser wanted where it found something else.
pub open spec fn want_text(w: Want) -> Seq<char> {
    match w {
        Want::CloseParen => "')'"@,
        Want::CloseAfterAbs => "')' after abs(…)"@,
        Want::CloseAfterExp => "')' after exp(…)"@,
        Want::CommaBeforeExponent => "',' between the base and the exponent"@,
        Want::CommaBetweenArguments => "',' between the two arguments"@,
    }
}

/// The text of a lexing error.
pub open spec fn lex_message(e: LexErrorV) -> Seq<char> {
    match e {
        LexErrorV::BareEquals => "'=' is not an operator — write '==' to compare"@,
        LexErrorV::BareBang => "'!' is not an operator — write '!=' to compare"@,
        LexErrorV::NotANumber(t) => "'"@ + t + "' is not a number"@,
        LexErrorV::UnexpectedChar(c) => "unexpected character '"@ + seq![c] + "'"@,
    }
}

/// The text of a parse error of the source `src`.
pub open spec fn parse_message(e: ParseErrorV, src: Seq<char>) -> Seq<char> {
    match e {
        ParseErrorV::Lex(l) => lex_message(l),
        ParseErrorV::EmptyExpression => "the expression is empty"@,
        ParseErrorV::EmptyCondition => "the condition is empty"@,
        ParseErrorV::EndedEarly => "expression ended early"@,
        ParseErrorV::UnexpectedToken(t) => "unexpected token "@ + tok_name(t),
        ParseErrorV::Expected(w) => "expected "@ + want_text(w),
        ParseErrorV::UnknownFunction(n) => "unknown function '"@ + n
            + "(' — this language has abs(), min(), max(), pow() and exp() and nothing else"@,
        ParseErrorV::TooDeep => "quantize expression exceeds depth 64"@,
        ParseErrorV::TrailingInput => "trailing input after a complete expression"@,
        ParseErrorV::NotAComparison(t) => "expected a comparison (>, >=, <, <=, ==, !=), got "@
            + tok_name(t),
        ParseErrorV::OnlyLeftHandSide => "a `when:` is a COMPARISON — '"@ + src
            + "' is only the left-hand side"@,
        ParseErrorV::TrailingAfterComparison =>
            "trailing input after the comparison — a `when:` holds exactly one, and a compound condition belongs in a second derived channel"@,
        ParseErrorV::SourceTooLong => "quantize expression exceeds source limit"@,
        ParseErrorV::TooManyTokens => "quantize expression exceeds token limit"@,
        ParseErrorV::GuardWithoutComparison => "quantize guard requires comparison"@,
        ParseErrorV::TooLarge => "quantize expression exceeds 512 nodes or depth 64"@,
        ParseErrorV::TrailingInQuantize => "trailing input in quantize expression"@,
    }
}

/// `a`, then `b`.
fn joined(a: &str, b: &str) -> (r: String)
    ensures
        r@ == a@ + b@,
{
    let mut t = a.to_owned();
    t.append(b);
    t
}

/// `a`, then `b`, then `c`.
fn joined3(a: &str, b: &str, c: &str) -> (r: String)
    ensures
        r@ == a@ + b@ + c@,
{
    let mut t = a.to_owned();
    t.append(b);
    t.append(c);
    t
}

/// The name of comparison operator `op`.
fn rel_text(op: RelOp) -> (r: &'static str)
    ensures
        r@ == rel_name(op),
{
    match op {
        RelOp::Gt => "Gt",
        RelOp::Ge => "Ge",
        RelOp::Lt => "Lt",
        RelOp::Le => "Le",
        RelOp::Eq => "Eq",
        RelOp::Ne => "Ne",
    }
}

/// How token `t` is named in an error.
pub fn tok_text(t: &Tok) -> (r: String)
    ensures
        r@ == tok_name(t@),
{
    match t {
        Tok::Num(s) => joined3("Num(", s.as_str(), ")"),
        Tok::Ident(s) => joined3("Ident(\"", s.as_str(), "\")"),
        Tok::Plus => "Plus".to_owned(),
        Tok::Minus => "Minus".to_owned(),
        Tok::Star => "Star".to_owned(),
        Tok::Slash => "Slash".to_owned(),
        Tok::LParen => "LParen".to_owned(),
        Tok::RParen => "RParen".to_owned(),
        Tok::Comma => "Comma".to_owned(),
        Tok::Rel(op) => joined3("Cmp(", rel_text(*op), ")"),
    }
}

/// What the parser wanted, as text.
fn want_str(w: Want) -> (r: &'static str)
    ensures
        r@ == want_text(w),
{
    match w {
        Want::CloseParen => "')'",
        Want::CloseAfterAbs => "')' after abs(…)",
        Want::CloseAfterExp => "')' after exp(…)",
        Want::CommaBeforeExponent => "',' between the base and the exponent",
        Want::CommaBetweenArguments => "',' between the two arguments",
    }
}

impl LexError {
    /// The error as a user reads it.
    pub fn message(&self) -> (r: String)
        ensures
            r@ == lex_message(self@),
    {
        match self {
            LexError::BareEquals => "'=' is not an operator — write '==' to compare".to_owned(),
            LexError::BareBang => "'!' is not an operator — write '!=' to compare".to_owned(),
            LexError::NotANumber(t) => joined3("'", t.as_str(), "' is not a number"),
            LexError::UnexpectedChar(c) => {
                let v: Vec<char> = vec![*c];
                let one = string_from_chars(v.as_slice());
                assert(v@ =~= seq![*c]);
                joined3("unexpected character '", one.as_str(), "'")
            },
        }
    }
}

impl ParseError {
    /// The error as a user reads it; `src` is the text that was parsed,
    /// which a guard that is only its left-hand side quotes.
    pub fn message(&self, src: &str) -> (r: String)
        ensures
            r@ == parse_message(self@, src@),
    {
        match self {
            ParseError::Lex(l) => l.message(),
            ParseError::EmptyExpression => "the expression is empty".to_owned(),
            ParseError::EmptyCondition => "the condition is empty".to_owned(),
            ParseError::EndedEarly => "expression ended early".to_owned(),
            ParseError::UnexpectedToken(t) => {
                let name = tok_text(t);
                joined("unexpected token ", name.as_str())
            },
            ParseError::Expected(w) => joined("expected ", want_str(*w)),
            ParseError::UnknownFunction(n) => joined3(
                "unknown function '",
                n.as_str(),
                "(' — this language has abs(), min(), max(), pow() and exp() and nothing else",
            ),
            ParseError::TooDeep => "quantize expression exceeds depth 64".to_owned(),
            ParseError::TrailingInput => "trailing input after a complete expression".to_owned(),
            ParseError::NotAComparison(t) => {
                let name = tok_text(t);
                joined("expected a comparison (>, >=, <, <=, ==, !=), got ", name.as_str())
            },
            ParseError::OnlyLeftHandSide => joined3(
                "a `when:` is a COMPARISON — '",
                src,
                "' is only the left-hand side",
            ),
            ParseError::TrailingAfterComparison =>
                "trailing input after the comparison — a `when:` holds exactly one, and a compound condition belongs in a second derived channel".to_owned(),
            ParseError::SourceTooLong => "quantize expression exceeds source limit".to_owned(),
            ParseError::TooManyTokens => "quantize expression exceeds token limit".to_owned(),
            ParseError::GuardWithoutComparison => "quantize guard requires comparison".to_owned(),
            ParseError::TooLarge => "quantize expression exceeds 512 nodes or depth 64".to_owned(),
            ParseError::TrailingInQuantize => "trailing input in quantize expression".to_owned(),
        }
    }
}

} // verus!
