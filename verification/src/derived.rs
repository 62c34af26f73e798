//! The load-time contract of derived channels: a descriptor's list of
//! channels, each computed from the declared inputs and the channels above
//! it, compiled once when the descriptor is built.
//!
//! Enforced here, so a broken descriptor fails at load with the channel's
//! name rather than reading 0 forever:
//!   * a derived name is not blank, does not collide with a declared input,
//!     and is not declared twice;
//!   * each channel has exactly one producer: a float `expr`, a `quantize`d
//!     float expression, an exact `integer` program, or an `invert`ed one;
//!   * every name a channel reads is a declared input or a channel declared
//!     above it, which is why no cycle can be written.

use vstd::prelude::*;
use crate::exact::{
    bindings_refs_in, guard_refs_in, refs_in, eval, expression_in, guard_in, holds, inverse, inverse_value, program_of, program_value,
    slots_view, src_len, binding_srcs, EvalError, EvalErrorV, Guard, GuardV, IntExpr,
    IntegerBinding, Program, ProgramError, ProgramErrorV, ProgramEvalError, ProgramEvalErrorV,
    ProgramV, Slot, SyntaxError, SyntaxErrorV, ExprV as IntExprV,
};
use crate::formula::{
    compile_float_derived, compile_outcome, contains_text, guard_names, names_of, quantize_limits,
    texts, validate_quantize_limits, CompileError, CompileErrorV, CompiledExpr, CompiledV,
    ParseError, ParseErrorV,
};

verus! {

/// The largest inverse domain, in candidates.
pub const MAX_CANDIDATES: i128 = 1_048_576;

/// An exact integer producer as written.
#[derive(Debug, Clone, PartialEq, Eq)]
pub struct IntegerProgram {
    pub bindings: Vec<IntegerBinding>,
    pub of: String,
    pub when: Option<String>,
}

/// How a `quantize` producer rounds to an integer.
#[derive(Debug, Clone, Copy, PartialEq, Eq)]
pub enum Rounding {
    /// To the nearest integer, halves away from zero.
    Nearest,
}

/// A float expression rounded to an exact integer, as written.
#[derive(Debug, Clone, PartialEq, Eq)]
pub struct QuantizeSpec {
    pub expr: String,
    pub rounding: Rounding,
}

/// An inverted exact program, as written: the candidate in `over` whose
/// value under `of` is nearest `target`.
#[derive(Debug, Clone, PartialEq, Eq)]
pub struct InverseProgram {
    pub variable: String,
    pub over: [i64; 2],
    pub target: String,
    pub of: String,
    pub bindings: Vec<IntegerBinding>,
    pub when: Option<String>,
}

/// A derived channel as a descriptor declares it.
#[derive(Debug, Clone, PartialEq, Eq)]
pub struct DerivedChannel {
    pub name: String,
    pub expr: Option<String>,
    pub integer: Option<IntegerProgram>,
    pub quantize: Option<QuantizeSpec>,
    pub invert: Option<InverseProgram>,
    /// While this comparison does not hold, the channel reads 0.
    pub when: Option<String>,
}

pub open spec fn opt_text(s: Option<String>) -> Option<Seq<char>> {
    match s {
        Some(s) => Some(s@),
        None => None,
    }
}

/// Why a derived channel's producer does not compile.
#[derive(Debug)]
pub enum ProducerError {
    /// Not exactly one of `expr`, `integer`, `quantize` and `invert`.
    Count,
    /// The float expression or its guard.
    Formula(CompileError),
    /// A `quantize` expression or guard outside the exact resource bounds.
    Quantize(ParseError),
    /// The exact guard.
    Guard(SyntaxError),
    /// The exact program.
    Program(ProgramError),
    /// The inverse target.
    Target(SyntaxError),
    /// An inverse domain of no candidates or of more than 1048576.
    Domain,
}

pub enum ProducerErrorV {
    Count,
    Formula(CompileErrorV),
    Quantize(ParseErrorV),
    Guard(SyntaxErrorV),
    Program(ProgramErrorV),
    Target(SyntaxErrorV),
    Domain,
}

impl View for ProducerError {
    type V = ProducerErrorV;

    open spec fn view(&self) -> ProducerErrorV {
        match self {
            ProducerError::Count => ProducerErrorV::Count,
            ProducerError::Formula(e) => ProducerErrorV::Formula(e@),
            ProducerError::Quantize(e) => ProducerErrorV::Quantize(e@),
            ProducerError::Guard(e) => ProducerErrorV::Guard(e@),
            ProducerError::Program(e) => ProducerErrorV::Program(e@),
            ProducerError::Target(e) => ProducerErrorV::Target(e@),
            ProducerError::Domain => ProducerErrorV::Domain,
        }
    }
}

/// Why a list of derived channels does not compile.
#[derive(Debug)]
pub enum DerivedError {
    /// A channel whose name is blank.
    EmptyName,
    /// A channel named like a declared input.
    ShadowsInput(String),
    /// A channel declared twice.
    Duplicate(String),
    /// The producer of the channel `name`.
    Channel { name: String, error: ProducerError },
}

pub enum DerivedErrorV {
    EmptyName,
    ShadowsInput(Seq<char>),
    Duplicate(Seq<char>),
    Channel { name: Seq<char>, error: ProducerErrorV },
}

impl View for DerivedError {
    type V = DerivedErrorV;

    open spec fn view(&self) -> DerivedErrorV {
        match self {
            DerivedError::EmptyName => DerivedErrorV::EmptyName,
            DerivedError::ShadowsInput(n) => DerivedErrorV::ShadowsInput(n@),
            DerivedError::Duplicate(n) => DerivedErrorV::Duplicate(n@),
            DerivedError::Channel { name, error } => DerivedErrorV::Channel {
                name: name@,
                error: error@,
            },
        }
    }
}

/// How a compiled channel produces its value.
#[derive(Debug)]
pub enum Producer {
    Float(CompiledExpr),
    Quantize(CompiledExpr),
    Integer { program: Program, guard: Option<Guard> },
    Invert { program: Program, guard: Option<Guard>, target: IntExpr, bounds: [i64; 2] },
}

pub enum ProducerV {
    Float(CompiledV),
    Quantize(CompiledV),
    Integer { program: ProgramV, guard: Option<GuardV> },
    Invert { program: ProgramV, guard: Option<GuardV>, target: IntExprV, bounds: (i64, i64) },
}

impl View for Producer {
    type V = ProducerV;

    open spec fn view(&self) -> ProducerV {
        match self {
            Producer::Float(c) => ProducerV::Float(c@),
            Producer::Quantize(c) => ProducerV::Quantize(c@),
            Producer::Integer { program, guard } => ProducerV::Integer {
                program: program@,
                guard: crate::exact::opt_guard_view(*guard),
            },
            Producer::Invert { program, guard, target, bounds } => ProducerV::Invert {
                program: program@,
                guard: crate::exact::opt_guard_view(*guard),
                target: target.0@,
                bounds: (bounds[0], bounds[1]),
            },
        }
    }
}

/// A compiled derived channel.
#[derive(Debug)]
pub struct CompiledDerived {
    pub name: String,
    pub producer: Producer,
}

pub struct CompiledDerivedV {
    pub name: Seq<char>,
    pub producer: ProducerV,
}

impl View for CompiledDerived {
    type V = CompiledDerivedV;

    open spec fn view(&self) -> CompiledDerivedV {
        CompiledDerivedV { name: self.name@, producer: self.producer@ }
    }
}

impl CompiledDerived {
    /// Whether the channel's value is an exact integer: any producer but a
    /// float expression.
    pub fn is_exact(&self) -> (r: bool)
        ensures
            r == !(self.producer@ is Float),
    {
        !matches!(self.producer, Producer::Float(_))
    }
}

/// How many producers a channel declares.
pub open spec fn producer_count(d: DerivedChannel) -> nat {
    (if d.expr is Some {
        1nat
    } else {
        0nat
    }) + (if d.integer is Some {
        1nat
    } else {
        0nat
    }) + (if d.quantize is Some {
        1nat
    } else {
        0nat
    }) + (if d.invert is Some {
        1nat
    } else {
        0nat
    })
}

/// An inverse domain from `lower` to `upper` holds 1 to 1048576 candidates.
pub open spec fn domain_ok(lower: i64, upper: i64) -> bool {
    lower <= upper && upper - lower + 1 <= MAX_CANDIDATES
}

/// The quantize resource bounds on an expression and its optional guard.
pub open spec fn quantize_checks(src: Seq<char>, when: Option<Seq<char>>) -> Result<(), ParseErrorV> {
    match quantize_limits(src_len(src), src, false) {
        Err(e) => Err(e),
        Ok(()) => match when {
            None => Ok(()),
            Some(g) => quantize_limits(src_len(g), g, true),
        },
    }
}

/// The producer channel `d` compiles to, with `known` in scope.
#[verifier::opaque]
pub open spec fn producer_of(d: DerivedChannel, known: Seq<Seq<char>>) -> Result<ProducerV, ProducerErrorV> {
    if producer_count(d) != 1 {
        Err(ProducerErrorV::Count)
    } else if d.expr is Some {
        match compile_outcome(d.name@, d.expr->0@, opt_text(d.when), known) {
            Err(e) => Err(ProducerErrorV::Formula(e)),
            Ok(c) => Ok(ProducerV::Float(c)),
        }
    } else if d.quantize is Some {
        let q = d.quantize->0;
        match quantize_checks(q.expr@, opt_text(d.when)) {
            Err(e) => Err(ProducerErrorV::Quantize(e)),
            Ok(()) => match compile_outcome(d.name@, q.expr@, opt_text(d.when), known) {
                Err(e) => Err(ProducerErrorV::Formula(e)),
                Ok(c) => Ok(ProducerV::Quantize(c)),
            },
        }
    } else {
        let guard: Result<Option<GuardV>, SyntaxErrorV> = match d.when {
            None => Ok(None),
            Some(g) => match guard_in(g@, known, Seq::empty()) {
                Ok(gv) => Ok(Some(gv)),
                Err(e) => Err(e),
            },
        };
        match guard {
            Err(e) => Err(ProducerErrorV::Guard(e)),
            Ok(g) => if d.integer is Some {
                let p = d.integer->0;
                match program_of(binding_srcs(p.bindings@), p.of@, opt_text(p.when), None, known) {
                    Err(e) => Err(ProducerErrorV::Program(e)),
                    Ok(prog) => Ok(ProducerV::Integer { program: prog, guard: g }),
                }
            } else {
                let p = d.invert->0;
                if !domain_ok(p.over[0], p.over[1]) {
                    Err(ProducerErrorV::Domain)
                } else {
                    match program_of(
                        binding_srcs(p.bindings@),
                        p.of@,
                        opt_text(p.when),
                        Some(p.variable@),
                        known,
                    ) {
                        Err(e) => Err(ProducerErrorV::Program(e)),
                        Ok(prog) => match expression_in(p.target@, known, Seq::empty()) {
                            Err(e) => Err(ProducerErrorV::Target(e)),
                            Ok(t) => Ok(
                                ProducerV::Invert {
                                    program: prog,
                                    guard: g,
                                    target: t,
                                    bounds: (p.over[0], p.over[1]),
                                },
                            ),
                        },
                    }
                }
            },
        }
    }
}

/// Whether a character has Unicode's White_Space property (PropList.txt):
/// the 25 code points U+0009..U+000D, U+0020, U+0085, U+00A0, U+1680,
/// U+2000..U+200A, U+2028, U+2029, U+202F, U+205F and U+3000. This is what
/// `char::is_whitespace` reports, and what `str::trim` strips.
pub open spec fn white_space(c: char) -> bool {
    ||| c == '\u{9}' || c == '\u{a}' || c == '\u{b}' || c == '\u{c}' || c == '\u{d}'
    ||| c == ' ' || c == '\u{85}' || c == '\u{a0}' || c == '\u{1680}'
    ||| c == '\u{2000}' || c == '\u{2001}' || c == '\u{2002}' || c == '\u{2003}'
        || c == '\u{2004}' || c == '\u{2005}' || c == '\u{2006}' || c == '\u{2007}'
        || c == '\u{2008}' || c == '\u{2009}' || c == '\u{200a}'
    ||| c == '\u{2028}' || c == '\u{2029}' || c == '\u{202f}' || c == '\u{205f}'
        || c == '\u{3000}'
}

/// Whether `c` is white space, as `white_space` states it.
fn is_white_space(c: char) -> (r: bool)
    ensures
        r == white_space(c),
{
    c == '\u{9}' || c == '\u{a}' || c == '\u{b}' || c == '\u{c}' || c == '\u{d}' || c == ' '
        || c == '\u{85}' || c == '\u{a0}' || c == '\u{1680}' || c == '\u{2000}'
        || c == '\u{2001}' || c == '\u{2002}' || c == '\u{2003}' || c == '\u{2004}'
        || c == '\u{2005}' || c == '\u{2006}' || c == '\u{2007}' || c == '\u{2008}'
        || c == '\u{2009}' || c == '\u{200a}' || c == '\u{2028}' || c == '\u{2029}'
        || c == '\u{202f}' || c == '\u{205f}' || c == '\u{3000}'
}

/// A name is blank when every character of it is white space (so that
/// trimming it leaves nothing).
pub open spec fn blank(s: Seq<char>) -> bool {
    forall|k: int| 0 <= k < s.len() ==> white_space(#[trigger] s[k])
}

fn is_blank(s: &String) -> (r: bool)
    ensures
        r == blank(s@),
{
    let cs = crate::expr::chars_of(s.as_str());
    let mut k: usize = 0;
    while k < cs.len()
        invariant
            k <= cs.len(),
            cs@ == s@,
            forall|j: int| 0 <= j < k ==> white_space(#[trigger] cs@[j]),
        decreases cs.len() - k,
    {
        if !is_white_space(cs[k]) {
            return false;
        }
        k = k + 1;
    }
    true
}

fn opt_str(s: &Option<String>) -> (r: Option<&str>)
    ensures
        match r {
            Some(v) => s is Some && v@ == s->0@,
            None => s is None,
        },
{
    match s {
        Some(v) => Some(v.as_str()),
        None => None,
    }
}

/// Compiles the producer of the channel `d` with `known` in scope.
pub fn compile_producer(d: &DerivedChannel, known: &[String]) -> (r: Result<Producer, ProducerError>)
    ensures
        match r {
            Ok(p) => producer_of(*d, texts(known@)) == Ok::<ProducerV, ProducerErrorV>(p@),
            Err(e) => producer_of(*d, texts(known@)) == Err::<ProducerV, ProducerErrorV>(e@),
        },
{
    reveal(producer_of);
    let count = (if d.expr.is_some() {
        1usize
    } else {
        0
    }) + (if d.integer.is_some() {
        1usize
    } else {
        0
    }) + (if d.quantize.is_some() {
        1usize
    } else {
        0
    }) + (if d.invert.is_some() {
        1usize
    } else {
        0
    });
    if count != 1 {
        return Err(ProducerError::Count);
    }
    let when = opt_str(&d.when);
    assert(match when {
        Some(w) => Some(w@),
        None => None,
    } == opt_text(d.when));
    if let Some(src) = &d.expr {
        return match compile_float_derived(d.name.as_str(), src.as_str(), when, known) {
            Err(e) => Err(ProducerError::Formula(e)),
            Ok(c) => Ok(Producer::Float(c)),
        };
    }
    if let Some(q) = &d.quantize {
        match validate_quantize_limits(q.expr.as_str(), false) {
            Err(e) => return Err(ProducerError::Quantize(e)),
            Ok(()) => {},
        }
        if let Some(g) = &d.when {
            match validate_quantize_limits(g.as_str(), true) {
                Err(e) => return Err(ProducerError::Quantize(e)),
                Ok(()) => {},
            }
        }
        return match compile_float_derived(d.name.as_str(), q.expr.as_str(), when, known) {
            Err(e) => Err(ProducerError::Formula(e)),
            Ok(c) => Ok(Producer::Quantize(c)),
        };
    }
    let guard = match &d.when {
        None => None,
        Some(g) => match Guard::compile(g.as_str(), known) {
            Err(e) => return Err(ProducerError::Guard(e)),
            Ok(gv) => Some(gv),
        },
    };
    if let Some(p) = &d.integer {
        return match Program::compile(p.bindings.as_slice(), p.of.as_str(), opt_str(&p.when), None, known) {
            Err(e) => Err(ProducerError::Program(e)),
            Ok(program) => Ok(Producer::Integer { program, guard }),
        };
    }
    let p = match &d.invert {
        Some(p) => p,
        None => return Err(ProducerError::Count),
    };
    let lower = p.over[0];
    let upper = p.over[1];
    if upper < lower || upper as i128 - lower as i128 + 1 > MAX_CANDIDATES {
        return Err(ProducerError::Domain);
    }
    let program = match Program::compile(
        p.bindings.as_slice(),
        p.of.as_str(),
        opt_str(&p.when),
        Some(p.variable.as_str()),
        known,
    ) {
        Err(e) => return Err(ProducerError::Program(e)),
        Ok(program) => program,
    };
    let target = match IntExpr::compile(p.target.as_str(), known) {
        Err(e) => return Err(ProducerError::Target(e)),
        Ok(t) => t,
    };
    Ok(Producer::Invert { program, guard, target, bounds: [lower, upper] })
}

/// The refusal of the channel `d` before its producer is compiled, if any:
/// a blank name, a declared input's name, or a name declared above it.
pub open spec fn name_refusal(d: DerivedChannel, inputs: Seq<Seq<char>>, names: Seq<Seq<char>>) -> Option<
    DerivedErrorV,
> {
    if blank(d.name@) {
        Some(DerivedErrorV::EmptyName)
    } else if inputs.contains(d.name@) {
        Some(DerivedErrorV::ShadowsInput(d.name@))
    } else if names.contains(d.name@) {
        Some(DerivedErrorV::Duplicate(d.name@))
    } else {
        None
    }
}

/// The channel `d` compiled with the declared inputs `inputs` and the
/// channels `names` above it in scope.
pub open spec fn channel_of(d: DerivedChannel, inputs: Seq<Seq<char>>, names: Seq<Seq<char>>) -> Result<
    CompiledDerivedV,
    DerivedErrorV,
> {
    match name_refusal(d, inputs, names) {
        Some(e) => Err(e),
        None => match producer_of(d, inputs + names) {
            Err(e) => Err(DerivedErrorV::Channel { name: d.name@, error: e }),
            Ok(p) => Ok(CompiledDerivedV { name: d.name@, producer: p }),
        },
    }
}

/// The channels from `i` on, compiled in declaration order, the ones before
/// `i` being named `names`.
pub open spec fn channels_from(
    ds: Seq<DerivedChannel>,
    i: nat,
    inputs: Seq<Seq<char>>,
    names: Seq<Seq<char>>,
) -> Result<Seq<CompiledDerivedV>, DerivedErrorV>
    decreases ds.len() - i,
{
    if i >= ds.len() {
        Ok(Seq::empty())
    } else {
        match channel_of(ds[i as int], inputs, names) {
            Err(e) => Err(e),
            Ok(c) => match channels_from(ds, i + 1, inputs, names.push(ds[i as int].name@)) {
                Err(e) => Err(e),
                Ok(rest) => Ok(seq![c] + rest),
            },
        }
    }
}

pub open spec fn compiled_views(cs: Seq<CompiledDerived>) -> Seq<CompiledDerivedV> {
    cs.map_values(|c: CompiledDerived| c@)
}

pub open spec fn prepend_channels(
    done: Seq<CompiledDerivedV>,
    rest: Result<Seq<CompiledDerivedV>, DerivedErrorV>,
) -> Result<Seq<CompiledDerivedV>, DerivedErrorV> {
    match rest {
        Ok(cs) => Ok(done + cs),
        Err(e) => Err(e),
    }
}

/// Compiles the channel `d`, with the declared inputs and the channels above
/// it (`names`; `known` is the two in that order) in scope.
fn compile_channel(d: &DerivedChannel, inputs: &[String], names: &Vec<String>, known: &Vec<String>) -> (r: Result<
    CompiledDerived,
    DerivedError,
>)
    requires
        texts(known@) == texts(inputs@) + texts(names@),
    ensures
        match r {
            Ok(c) => channel_of(*d, texts(inputs@), texts(names@)) == Ok::<
                CompiledDerivedV,
                DerivedErrorV,
            >(c@),
            Err(e) => channel_of(*d, texts(inputs@), texts(names@)) == Err::<
                CompiledDerivedV,
                DerivedErrorV,
            >(e@),
        },
{
    if is_blank(&d.name) {
        return Err(DerivedError::EmptyName);
    }
    if contains_text(inputs, &d.name) {
        return Err(DerivedError::ShadowsInput(d.name.clone()));
    }
    if contains_text(names.as_slice(), &d.name) {
        return Err(DerivedError::Duplicate(d.name.clone()));
    }
    match compile_producer(d, known.as_slice()) {
        Err(e) => Err(DerivedError::Channel { name: d.name.clone(), error: e }),
        Ok(p) => Ok(CompiledDerived { name: d.name.clone(), producer: p }),
    }
}

/// Compiles a descriptor's derived channels against its declared input
/// channel keys, in declaration order: each channel sees the inputs and the
/// channels above it.
pub fn compile_derived(derived: &[DerivedChannel], input_keys: &[String]) -> (r: Result<
    Vec<CompiledDerived>,
    DerivedError,
>)
    ensures
        match r {
            Ok(cs) => channels_from(derived@, 0, texts(input_keys@), Seq::empty()) == Ok::<
                Seq<CompiledDerivedV>,
                DerivedErrorV,
            >(compiled_views(cs@)),
            Err(e) => channels_from(derived@, 0, texts(input_keys@), Seq::empty()) == Err::<
                Seq<CompiledDerivedV>,
                DerivedErrorV,
            >(e@),
        },
{
    let mut out: Vec<CompiledDerived> = Vec::new();
    let mut names: Vec<String> = Vec::new();
    let mut known: Vec<String> = Vec::new();
    let mut k: usize = 0;
    while k < input_keys.len()
        invariant
            k <= input_keys.len(),
            texts(known@) == texts(input_keys@).subrange(0, k as int),
        decreases input_keys.len() - k,
    {
        let ghost before = texts(known@);
        let key = input_keys[k].clone();
        known.push(key);
        assert(texts(known@) =~= before.push(input_keys@[k as int]@));
        assert(texts(known@) =~= texts(input_keys@).subrange(0, k + 1));
        k = k + 1;
    }
    assert(texts(names@) =~= Seq::<Seq<char>>::empty());
    assert(texts(known@) =~= texts(input_keys@) + texts(names@));
    let mut i: usize = 0;
    while i < derived.len()
        invariant
            i <= derived.len(),
            texts(known@) == texts(input_keys@) + texts(names@),
            channels_from(derived@, 0, texts(input_keys@), Seq::empty()) == prepend_channels(
                compiled_views(out@),
                channels_from(derived@, i as nat, texts(input_keys@), texts(names@)),
            ),
        decreases derived.len() - i,
    {
        let d = &derived[i];
        let c = match compile_channel(d, input_keys, &names, &known) {
            Err(e) => return Err(e),
            Ok(c) => c,
        };
        let ghost before = compiled_views(out@);
        let ghost old_names = texts(names@);
        let ghost old_known = texts(known@);
        let ghost cv = c@;
        out.push(c);
        names.push(d.name.clone());
        known.push(d.name.clone());
        assert(texts(known@) =~= old_known.push(d.name@));
        assert(compiled_views(out@) =~= before + seq![cv]);
        assert(texts(names@) =~= old_names.push(d.name@));
        assert(texts(known@) =~= texts(input_keys@) + texts(names@));
        proof {
            let rest = channels_from(derived@, (i + 1) as nat, texts(input_keys@), texts(names@));
            if let Ok(more) = rest {
                assert(before + (seq![cv] + more) =~= (before + seq![cv]) + more);
            }
        }
        i = i + 1;
    }
    let ghost done = compiled_views(out@);
    assert(done + Seq::<CompiledDerivedV>::empty() =~= done);
    Ok(out)
}

// ─── exact values ──────────────────────────────────────────────────────────

/// The largest magnitude an exact value crosses into the float slots with:
/// `2^53`, below which every integer is a float.
pub const EXACT_LIMIT: i64 = 9007199254740992;

/// Why an exact producer gave no value.
#[derive(Debug, Clone, PartialEq, Eq)]
pub enum ExactError {
    /// The guard, or the inverse target, failed.
    Eval(EvalError),
    /// The program failed.
    Program(ProgramEvalError),
    /// The value is outside `[-2^53, 2^53]`.
    Export(i64),
}

pub enum ExactErrorV {
    Eval(EvalErrorV),
    Program(ProgramEvalErrorV),
    Export(i64),
}

impl View for ExactError {
    type V = ExactErrorV;

    open spec fn view(&self) -> ExactErrorV {
        match self {
            ExactError::Eval(e) => ExactErrorV::Eval(e@),
            ExactError::Program(e) => ExactErrorV::Program(e@),
            ExactError::Export(v) => ExactErrorV::Export(*v),
        }
    }
}

pub open spec fn exact_result(r: Result<i64, ExactError>) -> Result<i64, ExactErrorV> {
    match r {
        Ok(v) => Ok(v),
        Err(e) => Err(e@),
    }
}

/// `v` as it may leave for the float slots: within `[-2^53, 2^53]`.
pub open spec fn exported(v: i64) -> Result<i64, ExactErrorV> {
    if -EXACT_LIMIT <= v <= EXACT_LIMIT {
        Ok(v)
    } else {
        Err(ExactErrorV::Export(v))
    }
}

/// Checks that an exact value can leave for the float slots.
pub fn export(v: i64) -> (r: Result<i64, ExactError>)
    ensures
        exact_result(r) == exported(v),
{
    if -EXACT_LIMIT <= v && v <= EXACT_LIMIT {
        Ok(v)
    } else {
        Err(ExactError::Export(v))
    }
}

/// Whether an optional guard lets the value through.
pub open spec fn gate(g: Option<GuardV>, outer: Seq<(Seq<char>, Option<i64>)>) -> Result<bool, EvalErrorV> {
    match g {
        None => Ok(true),
        Some(g) => holds(g, outer, Seq::empty()),
    }
}

/// The value of an exact integer or inverse producer over the outer slots:
/// 0 while its guard does not hold; otherwise the program's value, or the
/// inverse of the target's value; in both cases checked for export.
pub open spec fn exact_value(p: ProducerV, outer: Seq<(Seq<char>, Option<i64>)>) -> Result<
    i64,
    ExactErrorV,
> {
    match p {
        ProducerV::Integer { program, guard } => match gate(guard, outer) {
            Err(e) => Err(ExactErrorV::Eval(e)),
            Ok(false) => Ok(0),
            Ok(true) => match program_value(program, outer, None) {
                Err(e) => Err(ExactErrorV::Program(e)),
                Ok(v) => exported(v),
            },
        },
        ProducerV::Invert { program, guard, target, bounds } => match gate(guard, outer) {
            Err(e) => Err(ExactErrorV::Eval(e)),
            Ok(false) => Ok(0),
            Ok(true) => match eval(target, outer, Seq::empty()) {
                Err(e) => Err(ExactErrorV::Eval(e)),
                Ok(t) => match inverse_value(program, outer, bounds.0 as int, bounds.1 as int, t) {
                    Err(e) => Err(ExactErrorV::Program(e)),
                    Ok(x) => exported(x as i64),
                },
            },
        },
        _ => Ok(0),
    }
}

impl CompiledDerived {
    /// The value of an exact integer or inverse channel over the outer
    /// slots; see `exact_value`.
    pub fn exact_value(&self, outer: &[Slot]) -> (r: Result<i64, ExactError>)
        requires
            self.producer@ is Integer || self.producer@ is Invert,
        ensures
            exact_result(r) == exact_value(self.producer@, slots_view(outer@)),
    {
        let guard = match &self.producer {
            Producer::Integer { guard, .. } => guard,
            Producer::Invert { guard, .. } => guard,
            _ => return Ok(0),
        };
        match guard {
            None => {},
            Some(g) => match g.holds_outer(outer) {
                Err(e) => return Err(ExactError::Eval(e)),
                Ok(false) => return Ok(0),
                Ok(true) => {},
            },
        }
        match &self.producer {
            Producer::Integer { program, .. } => match program.eval(outer, None) {
                Err(e) => Err(ExactError::Program(e)),
                Ok(v) => export(v),
            },
            Producer::Invert { program, target, bounds, .. } => {
                let none: Vec<i64> = Vec::new();
                assert(none@ =~= Seq::<i64>::empty());
                let t = match target.0.eval(outer, none.as_slice()) {
                    Err(e) => return Err(ExactError::Eval(e)),
                    Ok(t) => t,
                };
                match inverse(program, outer, *bounds, t) {
                    Err(e) => Err(ExactError::Program(e)),
                    Ok(x) => export(x),
                }
            },
            _ => Ok(0),
        }
    }
}

// ─── laws ──────────────────────────────────────────────────────────────────

/// Every name the producer reads is in `known`: the float expression and
/// guard by name; an exact program's bindings, output and guard over its
/// locals as well; an inverse's target and guard over no locals.
pub open spec fn producer_reads_within(p: ProducerV, known: Seq<Seq<char>>) -> bool {
    match p {
        ProducerV::Float(c) => forall|n: Seq<char>|
            (names_of(c.expr) + guard_names(c.guard)).contains(n) ==> known.contains(n),
        ProducerV::Quantize(c) => forall|n: Seq<char>|
            (names_of(c.expr) + guard_names(c.guard)).contains(n) ==> known.contains(n),
        ProducerV::Integer { program, guard } => {
            &&& bindings_refs_in(program.bindings, known, 0)
            &&& refs_in(program.of, known, program.bindings.len())
            &&& guard_refs_in(program.guard, known, program.bindings.len())
            &&& guard_refs_in(guard, known, 0)
        },
        ProducerV::Invert { program, guard, target, .. } => {
            &&& bindings_refs_in(program.bindings, known, 1)
            &&& refs_in(program.of, known, 1 + program.bindings.len())
            &&& guard_refs_in(program.guard, known, 1 + program.bindings.len())
            &&& guard_refs_in(guard, known, 0)
            &&& refs_in(target, known, 0)
        },
    }
}

proof fn lemma_producer_reads_within(d: DerivedChannel, known: Seq<Seq<char>>)
    ensures
        producer_of(d, known) matches Ok(p) ==> producer_reads_within(p, known),
{
    reveal(producer_of);
    if producer_count(d) == 1 {
        if d.expr is Some {
            crate::formula::lemma_compiled_reads_only_known(d.name@, d.expr->0@, opt_text(d.when), known);
        } else if d.quantize is Some {
            crate::formula::lemma_compiled_reads_only_known(
                d.name@,
                d.quantize->0.expr@,
                opt_text(d.when),
                known,
            );
        } else {
            if let Some(g) = d.when {
                crate::exact::lemma_guard_reads(g@, known);
            }
            if d.integer is Some {
                let p = d.integer->0;
                crate::exact::lemma_program_refs(binding_srcs(p.bindings@), p.of@, opt_text(p.when), None, known);
            } else {
                let p = d.invert->0;
                crate::exact::lemma_program_refs(
                    binding_srcs(p.bindings@),
                    p.of@,
                    opt_text(p.when),
                    Some(p.variable@),
                    known,
                );
                crate::exact::lemma_target_reads(p.target@, known);
            }
        }
    }
}

/// The names of the compiled channels before `i`.
pub open spec fn names_before(cs: Seq<CompiledDerivedV>, i: int) -> Seq<Seq<char>> {
    cs.subrange(0, i).map_values(|c: CompiledDerivedV| c.name)
}

proof fn lemma_channels_from_reads(ds: Seq<DerivedChannel>, i: nat, inputs: Seq<Seq<char>>, names: Seq<Seq<char>>)
    ensures
        channels_from(ds, i, inputs, names) matches Ok(cs) ==> forall|k: int|
            0 <= k < cs.len() ==> producer_reads_within(
                (#[trigger] cs[k]).producer,
                inputs + names + names_before(cs, k),
            ),
    decreases ds.len() - i,
{
    if i < ds.len() {
        let d = ds[i as int];
        lemma_producer_reads_within(d, inputs + names);
        lemma_channels_from_reads(ds, i + 1, inputs, names.push(d.name@));
        if let Ok(cs) = channels_from(ds, i, inputs, names) {
            let c = channel_of(d, inputs, names)->Ok_0;
            let rest = channels_from(ds, i + 1, inputs, names.push(d.name@))->Ok_0;
            assert(cs == seq![c] + rest);
            assert forall|k: int| 0 <= k < cs.len() implies producer_reads_within(
                (#[trigger] cs[k]).producer,
                inputs + names + names_before(cs, k),
            ) by {
                if k == 0 {
                    assert(names_before(cs, 0) =~= Seq::<Seq<char>>::empty());
                    assert(inputs + names + names_before(cs, 0) =~= inputs + names);
                } else {
                    assert(cs[k] == rest[k - 1]);
                    assert(c.name == d.name@);
                    assert(names.push(d.name@) + names_before(rest, k - 1) =~= names + names_before(cs, k));
                    assert(inputs + names.push(d.name@) + names_before(rest, k - 1) =~= inputs + names
                        + names_before(cs, k));
                }
            }
        }
    }
}

/// Names exist in declaration order, which makes a cycle impossible to
/// write: in a compiled list, every name a channel reads is a declared input
/// or the name of a channel declared above it.
pub proof fn lemma_channels_read_only_earlier(ds: Seq<DerivedChannel>, inputs: Seq<Seq<char>>)
    ensures
        channels_from(ds, 0, inputs, Seq::empty()) matches Ok(cs) ==> forall|k: int|
            0 <= k < cs.len() ==> producer_reads_within(
                (#[trigger] cs[k]).producer,
                inputs + names_before(cs, k),
            ),
{
    lemma_channels_from_reads(ds, 0, inputs, Seq::empty());
    assert(inputs + Seq::<Seq<char>>::empty() =~= inputs);
    if let Ok(cs) = channels_from(ds, 0, inputs, Seq::empty()) {
        assert forall|k: int| 0 <= k < cs.len() implies producer_reads_within(
            (#[trigger] cs[k]).producer,
            inputs + names_before(cs, k),
        ) by {
            assert(inputs + Seq::<Seq<char>>::empty() + names_before(cs, k) =~= inputs + names_before(cs, k));
        }
    }
}


/// The names of the first `n` channels of `ds`.
pub open spec fn declared_names(ds: Seq<DerivedChannel>, n: nat) -> Seq<Seq<char>> {
    Seq::new(n, |k: int| ds[k].name@)
}

proof fn lemma_refusal_from(
    ds: Seq<DerivedChannel>,
    i: nat,
    inputs: Seq<Seq<char>>,
    j: int,
)
    requires
        i <= j < ds.len(),
        channel_of(ds[j], inputs, declared_names(ds, j as nat)) is Err,
    ensures
        channels_from(ds, i, inputs, declared_names(ds, i)) is Err,
    decreases j - i,
{
    if i < j {
        if channel_of(ds[i as int], inputs, declared_names(ds, i)) is Ok {
            assert(declared_names(ds, i).push(ds[i as int].name@) =~= declared_names(ds, i + 1));
            lemma_refusal_from(ds, i + 1, inputs, j);
        }
    }
}

/// One channel that is refused where it stands refuses the whole list:
/// a blank name, the name of an input, the name of an earlier channel, not
/// exactly one producer, an inverse domain that is empty or holds more than
/// 1048576 candidates, or any other refusal of the channel among the
/// names above it, makes `compile_derived` fail.
pub proof fn lemma_one_refused_channel_refuses_all(
    ds: Seq<DerivedChannel>,
    inputs: Seq<Seq<char>>,
    j: int,
)
    requires
        0 <= j < ds.len(),
        blank(ds[j].name@) || inputs.contains(ds[j].name@) || (exists|k: int|
            0 <= k < j && #[trigger] ds[k].name@ == ds[j].name@) || producer_count(ds[j]) != 1
            || channel_of(ds[j], inputs, declared_names(ds, j as nat)) is Err,
    ensures
        channels_from(ds, 0, inputs, Seq::empty()) is Err,
{
    let names = declared_names(ds, j as nat);
    if exists|k: int| 0 <= k < j && #[trigger] ds[k].name@ == ds[j].name@ {
        let k = choose|k: int| 0 <= k < j && #[trigger] ds[k].name@ == ds[j].name@;
        assert(names[k] == ds[j].name@);
        assert(names.contains(ds[j].name@));
    }
    if name_refusal(ds[j], inputs, names) is None {
        reveal(producer_of);
        assert(producer_of(ds[j], inputs + names) is Err);
    }
    assert(channel_of(ds[j], inputs, names) is Err);
    assert(declared_names(ds, 0) =~= Seq::<Seq<char>>::empty());
    lemma_refusal_from(ds, 0, inputs, j);
}

} // verus!
