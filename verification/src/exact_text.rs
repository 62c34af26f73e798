//! The texts of the exact integer language's load errors, as a user reads
//! them.

use crate::exact::{
    EvalError, EvalErrorV, Expect, ProgramError, ProgramErrorV, ProgramEvalError, ProgramEvalErrorV,
    SyntaxError, SyntaxErrorV,
};
use crate::expr::string_from_chars;
use vstd::prelude::*;

verus! {

/// The text of a syntax error of an integer expression or guard.
pub open spec fn syntax_message(e: SyntaxErrorV) -> Seq<char> {
    match e {
        SyntaxErrorV::SourceLimit => "integer expression exceeds source limit"@,
        SyntaxErrorV::UnexpectedChar => "unexpected character in integer expression"@,
        SyntaxErrorV::TokenLimit => "integer expression exceeds token limit"@,
        SyntaxErrorV::Expected(Expect::Close) => "expected ')' in integer expression"@,
        SyntaxErrorV::Expected(Expect::Comma) => "expected ',' in integer expression"@,
        SyntaxErrorV::NodeLimit => "integer expression exceeds 512 nodes"@,
        SyntaxErrorV::DepthLimit => "integer expression exceeds depth 64"@,
        SyntaxErrorV::EndedEarly => "integer expression ended early"@,
        SyntaxErrorV::LiteralRange => "integer literal outside i64 range"@,
        SyntaxErrorV::UnknownFunction(f) => "unknown integer function '"@ + f + "'"@,
        SyntaxErrorV::UnknownName(n) => "unknown integer name '"@ + n
            + "': names must be declared before use"@,
        SyntaxErrorV::Trailing => "trailing input in integer expression"@,
        SyntaxErrorV::NoComparison => "integer guard requires comparison"@,
    }
}

/// The text of a program's load error.
pub open spec fn program_message(e: ProgramErrorV) -> Seq<char> {
    match e {
        ProgramErrorV::TooManyBindings => "integer program exceeds 128 bindings"@,
        ProgramErrorV::InvalidName(n) => "invalid integer binding name '"@ + n + "'"@,
        ProgramErrorV::Shadows(n) => "integer binding '"@ + n + "' shadows an existing name"@,
        ProgramErrorV::Binding { name, error } => "binding '"@ + name + "': "@ + syntax_message(
            error,
        ),
        ProgramErrorV::BindingGuard { name, error } => "binding '"@ + name + "' guard: "@
            + syntax_message(error),
        ProgramErrorV::Syntax(e) => syntax_message(e),
    }
}

/// `a`, then `b`, then `c`.
fn joined3(a: &str, b: &str, c: &str) -> (r: String)
    ensures
        r@ == a@ + b@ + c@,
{
    let mut t = a.to_owned();
    t.append(b);
    t.append(c);
    t
}

impl SyntaxError {
    /// The error as a user reads it.
    pub fn message(&self) -> (r: String)
        ensures
            r@ == syntax_message(self@),
    {
        match self {
            SyntaxError::SourceLimit => "integer expression exceeds source limit".to_owned(),
            SyntaxError::UnexpectedChar => "unexpected character in integer expression".to_owned(),
            SyntaxError::TokenLimit => "integer expression exceeds token limit".to_owned(),
            SyntaxError::Expected(Expect::Close) => "expected ')' in integer expression".to_owned(),
            SyntaxError::Expected(Expect::Comma) => "expected ',' in integer expression".to_owned(),
            SyntaxError::NodeLimit => "integer expression exceeds 512 nodes".to_owned(),
            SyntaxError::DepthLimit => "integer expression exceeds depth 64".to_owned(),
            SyntaxError::EndedEarly => "integer expression ended early".to_owned(),
            SyntaxError::LiteralRange => "integer literal outside i64 range".to_owned(),
            SyntaxError::UnknownFunction(f) => joined3(
                "unknown integer function '",
                f.as_str(),
                "'",
            ),
            SyntaxError::UnknownName(n) => joined3(
                "unknown integer name '",
                n.as_str(),
                "': names must be declared before use",
            ),
            SyntaxError::Trailing => "trailing input in integer expression".to_owned(),
            SyntaxError::NoComparison => "integer guard requires comparison".to_owned(),
        }
    }
}

impl ProgramError {
    /// The error as a user reads it.
    pub fn message(&self) -> (r: String)
        ensures
            r@ == program_message(self@),
    {
        match self {
            ProgramError::TooManyBindings => "integer program exceeds 128 bindings".to_owned(),
            ProgramError::InvalidName(n) => joined3(
                "invalid integer binding name '",
                n.as_str(),
                "'",
            ),
            ProgramError::Shadows(n) => joined3(
                "integer binding '",
                n.as_str(),
                "' shadows an existing name",
            ),
            ProgramError::Binding { name, error } => {
                let m = error.message();
                joined3("binding '", name.as_str(), "': ").concat(m.as_str())
            },
            ProgramError::BindingGuard { name, error } => {
                let m = error.message();
                joined3("binding '", name.as_str(), "' guard: ").concat(m.as_str())
            },
            ProgramError::Syntax(e) => e.message(),
        }
    }
}


/// The decimal digit `d`.
pub open spec fn digit_char(d: nat) -> char {
    if d == 0 {
        '0'
    } else if d == 1 {
        '1'
    } else if d == 2 {
        '2'
    } else if d == 3 {
        '3'
    } else if d == 4 {
        '4'
    } else if d == 5 {
        '5'
    } else if d == 6 {
        '6'
    } else if d == 7 {
        '7'
    } else if d == 8 {
        '8'
    } else {
        '9'
    }
}

/// `n` in decimal, without leading zeros.
pub open spec fn decimal(n: nat) -> Seq<char>
    decreases n,
{
    if n < 10 {
        seq![digit_char(n)]
    } else {
        decimal(n / 10).push(digit_char(n % 10))
    }
}

/// `v` in decimal, a minus sign before a negative value.
pub open spec fn signed_decimal(v: int) -> Seq<char> {
    if v < 0 {
        seq!['-'] + decimal((-v) as nat)
    } else {
        decimal(v as nat)
    }
}

fn digit_of(d: u64) -> (r: char)
    requires
        d < 10,
    ensures
        r == digit_char(d as nat),
{
    if d == 0 {
        '0'
    } else if d == 1 {
        '1'
    } else if d == 2 {
        '2'
    } else if d == 3 {
        '3'
    } else if d == 4 {
        '4'
    } else if d == 5 {
        '5'
    } else if d == 6 {
        '6'
    } else if d == 7 {
        '7'
    } else if d == 8 {
        '8'
    } else {
        '9'
    }
}

fn push_decimal(n: u64, out: &mut Vec<char>)
    ensures
        final(out)@ == old(out)@ + decimal(n as nat),
    decreases n,
{
    if n < 10 {
        out.push(digit_of(n));
        assert(final(out)@ =~= old(out)@ + decimal(n as nat)) by {
            assert(out@ =~= old(out)@ + seq![digit_char(n as nat)]);
        }
    } else {
        push_decimal(n / 10, out);
        let ghost mid = out@;
        out.push(digit_of(n % 10));
        assert(out@ =~= old(out)@ + decimal(n as nat));
    }
}

/// `n` in decimal.
pub fn decimal_text(n: u64) -> (r: String)
    ensures
        r@ == decimal(n as nat),
{
    let mut cs: Vec<char> = Vec::new();
    push_decimal(n, &mut cs);
    assert(cs@ =~= decimal(n as nat));
    string_from_chars(cs.as_slice())
}

/// `v` in decimal, a minus sign before a negative value.
pub fn signed_decimal_text(v: i64) -> (r: String)
    ensures
        r@ == signed_decimal(v as int),
{
    let mut cs: Vec<char> = Vec::new();
    if v < 0 {
        cs.push('-');
        let m: u64 = ((-(v + 1)) as u64) + 1;
        push_decimal(m, &mut cs);
        assert(cs@ =~= signed_decimal(v as int));
    } else {
        push_decimal(v as u64, &mut cs);
        assert(cs@ =~= signed_decimal(v as int));
    }
    string_from_chars(cs.as_slice())
}

/// The text of an evaluation error; `got` is how the host shows the value
/// of the input an import refused.
pub open spec fn eval_message(e: EvalErrorV, got: Seq<char>) -> Seq<char> {
    match e {
        EvalErrorV::MissingInput(n) => "missing integer input '"@ + n + "'"@,
        EvalErrorV::Import(n) => "input '"@ + n
            + "': integer import must be finite, integral and within [-2^53, 2^53], got "@ + got,
        EvalErrorV::MissingLocal(i) => "missing integer local "@ + decimal(i as nat),
        EvalErrorV::Overflow => "checked integer arithmetic overflow"@,
        EvalErrorV::Division => "integer division by zero or overflow"@,
        EvalErrorV::ShiftCount(b) => "integer shift count "@ + signed_decimal(b as int)
            + " outside [0, 63]"@,
    }
}

/// The text of a program's evaluation error.
pub open spec fn program_eval_message(e: ProgramEvalErrorV, got: Seq<char>) -> Seq<char> {
    match e {
        ProgramEvalErrorV::Binding { name, error } => "binding '"@ + name + "': "@ + eval_message(
            error,
            got,
        ),
        ProgramEvalErrorV::Guard(e) => eval_message(e, got),
        ProgramEvalErrorV::Output(e) => "integer output: "@ + eval_message(e, got),
    }
}

impl EvalError {
    /// The error as a user reads it; `got` is how the host shows the value
    /// of the input an import refused.
    pub fn message(&self, got: &str) -> (r: String)
        ensures
            r@ == eval_message(self@, got@),
    {
        match self {
            EvalError::MissingInput(n) => joined3("missing integer input '", n.as_str(), "'"),
            EvalError::Import(n) => joined3(
                "input '",
                n.as_str(),
                "': integer import must be finite, integral and within [-2^53, 2^53], got ",
            ).concat(got),
            EvalError::MissingLocal(i) => {
                let d = decimal_text(*i as u64);
                "missing integer local ".to_owned().concat(d.as_str())
            },
            EvalError::Overflow => "checked integer arithmetic overflow".to_owned(),
            EvalError::Division => "integer division by zero or overflow".to_owned(),
            EvalError::ShiftCount(b) => {
                let d = signed_decimal_text(*b);
                joined3("integer shift count ", d.as_str(), " outside [0, 63]")
            },
        }
    }
}

impl ProgramEvalError {
    /// The error as a user reads it; see `EvalError::message`.
    pub fn message(&self, got: &str) -> (r: String)
        ensures
            r@ == program_eval_message(self@, got@),
    {
        match self {
            ProgramEvalError::Binding { name, error } => {
                let m = error.message(got);
                joined3("binding '", name.as_str(), "': ").concat(m.as_str())
            },
            ProgramEvalError::Guard(e) => e.message(got),
            ProgramEvalError::Output(e) => {
                let m = e.message(got);
                "integer output: ".to_owned().concat(m.as_str())
            },
        }
    }
}

} // verus!
