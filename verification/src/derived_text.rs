//! The texts of derived-channel load errors, as a user reads them.

use crate::derived::{DerivedError, DerivedErrorV, ExactError, ExactErrorV, ProducerError, ProducerErrorV};
use crate::exact_text::{
    eval_message, program_eval_message, program_message, signed_decimal, signed_decimal_text,
    syntax_message,
};
use crate::formula::{CompileError, CompileErrorV};
use crate::formula_text::parse_message;
use vstd::prelude::*;

verus! {

/// The text of a float expression's refusal inside the derived channel
/// `reader`.
pub open spec fn formula_message(e: CompileErrorV) -> Seq<char> {
    match e {
        CompileErrorV::Syntax { reader, src, error } => parse_message(error, src) + " (in `"@ + src
            + "`)"@,
        CompileErrorV::Guard { reader, src, error } => parse_message(error, src),
        CompileErrorV::UnknownName { reader, name } => "derived channel '"@ + reader + "' reads '"@
            + name
            + "', which is neither a declared input channel nor a derived channel declared above it; names must exist in declaration order, which makes a cycle impossible to write"@,
    }
}

/// The text of a channel's producer refusal.
pub open spec fn producer_message(e: ProducerErrorV) -> Seq<char> {
    match e {
        ProducerErrorV::Count => "exactly one of expr, integer, quantize or invert is required"@,
        ProducerErrorV::Formula(f) => formula_message(f),
        ProducerErrorV::Quantize(p) => parse_message(p, Seq::empty()),
        ProducerErrorV::Guard(s) => syntax_message(s),
        ProducerErrorV::Program(p) => program_message(p),
        ProducerErrorV::Target(s) => syntax_message(s),
        ProducerErrorV::Domain => "inverse domain must contain 1 to 1048576 candidates"@,
    }
}

/// The text of a refused list of derived channels.
pub open spec fn derived_message(e: DerivedErrorV) -> Seq<char> {
    match e {
        DerivedErrorV::EmptyName => "a derived channel has an empty name"@,
        DerivedErrorV::ShadowsInput(n) => "derived channel '"@ + n
            + "' has the same name as a stimulus input channel"@,
        DerivedErrorV::Duplicate(n) => "derived channel '"@ + n + "' is declared twice"@,
        DerivedErrorV::Channel { name, error } => "derived channel '"@ + name + "': "@
            + producer_message(error),
    }
}

/// `a`, then `b`, then `c`.
fn joined3(a: &str, b: &str, c: &str) -> (r: String)
    ensures
        r@ == a@ + b@ + c@,
{
    let mut t = a.to_owned();
    t.append(b);
    t.append(c);
    t
}

impl CompileError {
    /// The refusal as a user reads it, inside a derived channel.
    pub fn message(&self) -> (r: String)
        ensures
            r@ == formula_message(self@),
    {
        match self {
            CompileError::Syntax { src, error, .. } => {
                let m = error.message(src.as_str());
                let tail = joined3(" (in `", src.as_str(), "`)");
                m.concat(tail.as_str())
            },
            CompileError::Guard { src, error, .. } => error.message(src.as_str()),
            CompileError::UnknownName { reader, name } => {
                let head = joined3("derived channel '", reader.as_str(), "' reads '");
                head.concat(name.as_str()).concat(
                    "', which is neither a declared input channel nor a derived channel declared above it; names must exist in declaration order, which makes a cycle impossible to write",
                )
            },
        }
    }
}

impl ProducerError {
    /// The refusal as a user reads it.
    pub fn message(&self) -> (r: String)
        ensures
            r@ == producer_message(self@),
    {
        match self {
            ProducerError::Count => "exactly one of expr, integer, quantize or invert is required".to_owned(),
            ProducerError::Formula(f) => f.message(),
            ProducerError::Quantize(p) => {
                let r = p.message("");
                proof {
                    reveal_strlit("");
                }
                assert(""@ =~= Seq::<char>::empty());
                r
            },
            ProducerError::Guard(s) => s.message(),
            ProducerError::Program(p) => p.message(),
            ProducerError::Target(s) => s.message(),
            ProducerError::Domain => "inverse domain must contain 1 to 1048576 candidates".to_owned(),
        }
    }
}

impl DerivedError {
    /// The refusal as a user reads it.
    pub fn message(&self) -> (r: String)
        ensures
            r@ == derived_message(self@),
    {
        match self {
            DerivedError::EmptyName => "a derived channel has an empty name".to_owned(),
            DerivedError::ShadowsInput(n) => joined3(
                "derived channel '",
                n.as_str(),
                "' has the same name as a stimulus input channel",
            ),
            DerivedError::Duplicate(n) => joined3("derived channel '", n.as_str(), "' is declared twice"),
            DerivedError::Channel { name, error } => {
                let m = error.message();
                joined3("derived channel '", name.as_str(), "': ").concat(m.as_str())
            },
        }
    }
}


/// The text of an exact producer's failure; `got` is how the host shows the
/// value of the input an import refused.
pub open spec fn exact_message(e: ExactErrorV, got: Seq<char>) -> Seq<char> {
    match e {
        ExactErrorV::Eval(e) => eval_message(e, got),
        ExactErrorV::Program(e) => program_eval_message(e, got),
        ExactErrorV::Export(v) => "integer export "@ + signed_decimal(v as int)
            + " is outside [-2^53, 2^53]"@,
    }
}

impl ExactError {
    /// The failure as a user reads it; see `EvalError::message`.
    pub fn message(&self, got: &str) -> (r: String)
        ensures
            r@ == exact_message(self@, got@),
    {
        match self {
            ExactError::Eval(e) => e.message(got),
            ExactError::Program(e) => e.message(got),
            ExactError::Export(v) => {
                let d = signed_decimal_text(*v);
                joined3("integer export ", d.as_str(), " is outside [-2^53, 2^53]")
            },
        }
    }
}

/// The text of a derived channel's evaluation failure: the channel's name,
/// then the failure `reason`.
pub fn channel_failure_message(name: &str, reason: &str) -> (r: String)
    ensures
        r@ == "derived channel '"@ + name@ + "': "@ + reason@,
{
    joined3("derived channel '", name, "': ").concat(reason)
}

} // verus!
