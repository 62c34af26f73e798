use std::collections::HashMap;

use labwired_core::derived::{
    compile_derived, CompiledDerived, DerivedChannel, DerivedError, ExactError, IntegerProgram,
    InverseProgram, Producer, ProducerError, QuantizeSpec, Rounding,
};
use labwired_core::exact::{
    EvalError, IntegerBinding, Program, ProgramError, ProgramEvalError, Slot, SyntaxError,
};
use labwired_core::derived_text::channel_failure_message;
use labwired_core::expr::RelOp;
use labwired_core::formula::{compile_formula, BinOp, CompileError, Expr, ParseError, Pred};

// ─── a float evaluator and the channel loop, as a descriptor's reader runs them ───

fn feval(e: &Expr, slots: &HashMap<String, f64>) -> f64 {
    match e {
        Expr::Const(t) => t.parse::<f64>().unwrap(),
        Expr::Name(n) => slots.get(n).copied().unwrap_or(0.0),
        Expr::Neg(a) => -feval(a, slots),
        Expr::Bin(op, a, b) => {
            let (a, b) = (feval(a, slots), feval(b, slots));
            match op {
                BinOp::Add => a + b,
                BinOp::Sub => a - b,
                BinOp::Mul => a * b,
                BinOp::Div => a / b,
            }
        }
        Expr::Abs(a) => feval(a, slots).abs(),
        Expr::Min(a, b) => feval(a, slots).min(feval(b, slots)),
        Expr::Max(a, b) => feval(a, slots).max(feval(b, slots)),
        Expr::Pow(a, b) => feval(a, slots).powf(feval(b, slots)),
        Expr::Exp(a) => feval(a, slots).exp(),
    }
}

fn fholds(p: &Pred, slots: &HashMap<String, f64>) -> bool {
    let (a, b) = (feval(&p.lhs, slots), feval(&p.rhs, slots));
    match p.op {
        RelOp::Gt => a > b,
        RelOp::Ge => a >= b,
        RelOp::Lt => a < b,
        RelOp::Le => a <= b,
        RelOp::Eq => a == b,
        RelOp::Ne => a != b,
    }
}

fn import(v: f64) -> Option<i64> {
    if !v.is_finite() || v.fract() != 0.0 || v.abs() > 9007199254740992.0 {
        None
    } else {
        Some(v as i64)
    }
}

fn slots_of(slots: &HashMap<String, f64>) -> Vec<Slot> {
    slots
        .iter()
        .map(|(k, v)| Slot { name: k.clone(), value: import(*v) })
        .collect()
}

#[derive(Debug)]
enum RunError {
    Compile(DerivedError),
    Exact(String, ExactError),
    Quantize(String),
}

fn eval_derived(compiled: &[CompiledDerived], slots: &mut HashMap<String, f64>) -> Result<(), RunError> {
    for c in compiled {
        let v = match &c.producer {
            Producer::Float(e) => match &e.guard {
                Some(g) if !fholds(g, slots) => 0.0,
                _ => feval(&e.expr, slots),
            },
            Producer::Quantize(e) => {
                let raw = match &e.guard {
                    Some(g) if !fholds(g, slots) => 0.0,
                    _ => feval(&e.expr, slots),
                };
                match import(raw.round()) {
                    Some(v) => v as f64,
                    None => return Err(RunError::Quantize(c.name.clone())),
                }
            }
            _ => match c.exact_value(&slots_of(slots)) {
                Ok(v) => v as f64,
                Err(e) => return Err(RunError::Exact(c.name.clone(), e)),
            },
        };
        slots.insert(c.name.clone(), v);
    }
    Ok(())
}

fn keys(values: &[(&str, f64)]) -> Vec<String> {
    values.iter().map(|(k, _)| k.to_string()).collect()
}

fn run(ds: Vec<DerivedChannel>, values: &[(&str, f64)]) -> Result<f64, RunError> {
    let compiled = compile_derived(&ds, &keys(values)).map_err(RunError::Compile)?;
    let mut slots: HashMap<String, f64> = values.iter().map(|(k, v)| (k.to_string(), *v)).collect();
    eval_derived(&compiled, &mut slots)?;
    Ok(slots["out"])
}

fn blank(name: &str) -> DerivedChannel {
    DerivedChannel {
        name: name.into(),
        expr: None,
        integer: None,
        quantize: None,
        invert: None,
        when: None,
    }
}

fn d(name: &str, expr: &str) -> DerivedChannel {
    DerivedChannel { expr: Some(expr.into()), ..blank(name) }
}

fn d_when(name: &str, when: &str, expr: &str) -> DerivedChannel {
    DerivedChannel { when: Some(when.into()), ..d(name, expr) }
}

fn binding(name: &str, expr: &str) -> IntegerBinding {
    IntegerBinding { name: name.into(), expr: expr.into(), when: None }
}

fn int_program(bindings: Vec<IntegerBinding>, of: &str, when: Option<&str>) -> IntegerProgram {
    IntegerProgram { bindings, of: of.into(), when: when.map(|w| w.to_string()) }
}

fn integer_channel(of: &str) -> DerivedChannel {
    DerivedChannel { integer: Some(int_program(vec![], of, None)), ..blank("out") }
}

fn integer(expr: &str) -> Result<f64, RunError> {
    run(vec![integer_channel(expr)], &[])
}

fn quantize(expr: &str) -> DerivedChannel {
    DerivedChannel {
        quantize: Some(QuantizeSpec { expr: expr.into(), rounding: Rounding::Nearest }),
        ..blank("out")
    }
}

fn invert(over: [i64; 2], target: &str, of: &str) -> DerivedChannel {
    DerivedChannel {
        invert: Some(InverseProgram {
            variable: "x".into(),
            over,
            target: target.into(),
            of: of.into(),
            bindings: vec![],
            when: None,
        }),
        ..blank("out")
    }
}

fn eval(expr: &str, slots: &[(&str, f64)]) -> f64 {
    run(vec![d("out", expr)], slots).expect("compiles")
}

fn unknown_name(r: Result<Vec<CompiledDerived>, DerivedError>) -> (String, String) {
    match r {
        Err(DerivedError::Channel {
            name,
            error: ProducerError::Formula(CompileError::UnknownName { name: read, .. }),
        }) => (name, read),
        other => panic!("unexpected {other:?}"),
    }
}

// ─── float channels ───

#[test]
fn precedence_and_parentheses_follow_arithmetic() {
    assert_eq!(eval("2 + 3 * 4", &[]), 14.0);
    assert_eq!(eval("(2 + 3) * 4", &[]), 20.0);
    assert_eq!(eval("10 / 4", &[]), 2.5);
    assert_eq!(eval("1 - 2 - 3", &[]), -4.0, "subtraction is left-associative");
    assert_eq!(eval("-2 * -3", &[]), 6.0);
    assert_eq!(eval("2 * 1e3", &[]), 2000.0);
}

#[test]
fn the_three_functions_are_the_only_ones() {
    assert_eq!(eval("abs(0 - 4.5)", &[]), 4.5);
    assert_eq!(eval("min(3, 7)", &[]), 3.0);
    assert_eq!(eval("max(3, 7)", &[]), 7.0);
    match compile_derived(&[d("out", "round(1.5)")], &[]) {
        Err(DerivedError::Channel {
            error:
                ProducerError::Formula(CompileError::Syntax {
                    error: error @ ParseError::UnknownFunction(_),
                    src,
                    ..
                }),
            ..
        }) => {
            let err = error.message(&src);
            assert!(err.contains("unknown function 'round('"), "{err}");
        }
        other => panic!("unexpected {other:?}"),
    }
}

#[test]
fn the_ina219_power_expression_is_the_product_of_two_channels() {
    assert_eq!(
        eval("bus_voltage * abs(current)", &[("bus_voltage", 12.0), ("current", 1.5)]),
        18.0
    );
    assert_eq!(
        eval("bus_voltage * abs(current)", &[("bus_voltage", 12.0), ("current", -1.5)]),
        18.0
    );
}

#[test]
fn a_later_channel_sees_an_earlier_one() {
    let compiled = compile_derived(&[d("half", "x / 2"), d("quarter", "half / 2")], &["x".to_string()])
        .expect("compiles");
    let mut slots: HashMap<String, f64> = [("x".to_string(), 8.0)].into_iter().collect();
    eval_derived(&compiled, &mut slots).unwrap();
    assert_eq!(slots["half"], 4.0);
    assert_eq!(slots["quarter"], 2.0);
}

#[test]
fn a_forward_reference_is_a_load_error_which_is_why_a_cycle_cannot_be_written() {
    let r = compile_derived(&[d("a", "b + 1"), d("b", "a + 1")], &[]);
    let err = r.as_ref().err().map(|e| e.message()).unwrap_or_default();
    assert!(err.contains("derived channel 'a' reads 'b'"), "{err}");
    assert!(err.contains("makes a cycle impossible to write"), "{err}");
    let (channel, read) = unknown_name(r);
    assert_eq!((channel.as_str(), read.as_str()), ("a", "b"));
    let r = compile_derived(&[d("a", "a * 2")], &[]);
    let err = r.as_ref().err().map(|e| e.message()).unwrap_or_default();
    assert!(err.contains("reads 'a'"), "{err}");
    let (_, read) = unknown_name(r);
    assert_eq!(read, "a");
}

#[test]
fn a_derived_name_cannot_shadow_a_stimulus_channel() {
    match compile_derived(&[d("temp", "temp * 2")], &["temp".to_string()]) {
        Err(e @ DerivedError::ShadowsInput(_)) => {
            let err = e.message();
            assert!(err.contains("same name as a stimulus input channel"), "{err}");
            assert_eq!(err, "derived channel 'temp' has the same name as a stimulus input channel");
        }
        other => panic!("unexpected {other:?}"),
    }
}

#[test]
fn pow_and_exp_are_the_two_functions_the_analog_plants_needed() {
    assert_eq!(eval("pow(10 / 10, -0.7)", &[]), 1.0);
    assert!((eval("10000 * pow(100 / 10, -0.7)", &[]) - 1_995.262_31).abs() < 1e-4);
    assert_eq!(eval("exp(3950 * (1 / 298.15 - 1 / 298.15))", &[]), 1.0);
    let r = eval("10000 * pow(0 / 10, -0.7)", &[]);
    assert!(r.is_infinite(), "R at zero lux must be infinite, got {r}");
    assert_eq!(eval("3300 * 10000 / (10000 * pow(0 / 10, -0.7) + 10000)", &[]), 0.0);
}

#[test]
fn a_when_guard_gates_a_channel_to_zero() {
    let compiled = compile_derived(
        &[d_when("bump", "usb_present >= 0.5", "150")],
        &["usb_present".to_string()],
    )
    .expect("compiles");
    for (usb, want) in [(0.0, 0.0), (0.49, 0.0), (0.5, 150.0), (1.0, 150.0)] {
        let mut slots: HashMap<String, f64> = [("usb_present".to_string(), usb)].into_iter().collect();
        eval_derived(&compiled, &mut slots).unwrap();
        assert_eq!(slots["bump"], want, "usb_present = {usb}");
    }
}

#[test]
fn a_when_guard_reads_only_names_already_in_scope() {
    let r = compile_derived(&[d_when("bump", "charging > 0", "150")], &[]);
    let err = r.as_ref().err().map(|e| e.message()).unwrap_or_default();
    assert!(err.contains("reads 'charging'"), "{err}");
    let (_, read) = unknown_name(r);
    assert_eq!(read, "charging");
}

#[test]
fn a_comparison_is_a_guard_and_never_arithmetic() {
    match compile_derived(&[d("out", "1 > 0")], &[]) {
        Err(DerivedError::Channel {
            error:
                ProducerError::Formula(CompileError::Syntax {
                    error: error @ ParseError::TrailingInput,
                    src,
                    ..
                }),
            ..
        }) => {
            let err = error.message(&src);
            assert!(err.contains("trailing input"), "{err}");
        }
        other => panic!("unexpected {other:?}"),
    }
    match compile_derived(&[d_when("out", "usb_present", "1")], &["usb_present".into()]) {
        Err(DerivedError::Channel {
            error:
                ProducerError::Formula(CompileError::Guard {
                    error: error @ ParseError::OnlyLeftHandSide,
                    ..
                }),
            ..
        }) => {
            let err = error.message("usb_present");
            assert!(err.contains("a `when:` is a COMPARISON"), "{err}");
        }
        other => panic!("unexpected {other:?}"),
    }
    match compile_derived(&[d_when("out", "1 > 0 > 0", "1")], &[]) {
        Err(DerivedError::Channel {
            error:
                ProducerError::Formula(CompileError::Guard {
                    error: error @ ParseError::TrailingAfterComparison,
                    ..
                }),
            ..
        }) => {
            let err = error.message("1 > 0 > 0");
            assert!(err.contains("compound condition"), "{err}");
        }
        other => panic!("unexpected {other:?}"),
    }
}

#[test]
fn every_comparison_operator_means_what_it_says() {
    for (cond, want) in [
        ("x > 1", 0.0),
        ("x >= 1", 150.0),
        ("x < 1", 0.0),
        ("x <= 1", 150.0),
        ("x == 1", 150.0),
        ("x != 1", 0.0),
    ] {
        let compiled = compile_derived(&[d_when("g", cond, "150")], &["x".to_string()]).expect("compiles");
        let mut slots: HashMap<String, f64> = [("x".to_string(), 1.0)].into_iter().collect();
        eval_derived(&compiled, &mut slots).unwrap();
        assert_eq!(slots["g"], want, "`{cond}` with x = 1");
    }
}

#[test]
fn a_malformed_expression_names_the_channel_and_the_text() {
    for bad in ["", "1 +", "2 3", "(1 + 2", "1 $ 2"] {
        match compile_derived(&[d("out", bad)], &[]) {
            Err(e @ DerivedError::Channel { error: ProducerError::Formula(CompileError::Syntax { .. }), .. }) => {
                let err = e.message();
                assert!(
                    err.contains("derived channel 'out'") && err.contains(bad.trim()),
                    "`{bad}` produced an unhelpful error: {err}"
                );
            }
            other => panic!("`{bad}` produced an unhelpful error: {other:?}"),
        }
    }
}

// ─── exact channels ───

#[test]
fn checked_integer_arithmetic_and_lazy_guards() {
    for (expr, expected) in [
        ("-7 / 2", -3.0),
        ("shr(-7, 1)", -4.0),
        ("shl(-3, 2)", -12.0),
        ("abs(-7) + min(4, 2) + max(1, 3)", 12.0),
        ("shr(-9223372036854775808, 63)", -1.0),
    ] {
        assert_eq!(integer(expr).unwrap(), expected, "{expr}");
    }
    for expr in [
        "1 / 0",
        "9223372036854775807 + 1",
        "-9223372036854775808 / -1",
        "abs(-9223372036854775808)",
        "-(-9223372036854775808)",
        "shl(1, 63)",
        "shl(1, -1)",
        "shr(1, 64)",
        "9007199254740993",
        "1.2",
        "1e3",
    ] {
        assert!(integer(expr).is_err(), "must reject {expr}");
    }
    let guarded = DerivedChannel {
        integer: Some(int_program(
            vec![IntegerBinding {
                name: "x".into(),
                expr: "1 / 0".into(),
                when: Some("9007199254740993 == 9007199254740992".into()),
            }],
            "1 / 0",
            Some("x != 0"),
        )),
        ..blank("out")
    };
    assert_eq!(run(vec![guarded], &[]).unwrap(), 0.0);
}

#[test]
fn integer_imports_are_exact_and_quantization_is_explicit() {
    let of_x = || vec![integer_channel("x")];
    for x in [0.5, f64::NAN, f64::INFINITY, 9007199254740994.0] {
        assert!(run(of_x(), &[("x", x)]).is_err(), "{x}");
    }
    for x in [-9007199254740992.0, 9007199254740992.0] {
        assert_eq!(run(of_x(), &[("x", x)]).unwrap(), x);
    }
    for (x, y) in [(-1.5, -2.0), (-0.5, -1.0), (0.5, 1.0), (1.5, 2.0)] {
        assert_eq!(run(vec![quantize("x")], &[("x", x)]).unwrap(), y);
    }
    for x in [f64::NAN, f64::INFINITY, 9007199254740994.0] {
        assert!(run(vec![quantize("x")], &[("x", x)]).is_err());
    }
}

#[test]
fn inverse_uses_lower_bound_and_predecessor_with_inclusive_nonzero_bounds() {
    for (target, expected) in [
        (0.0, 5.0),
        (11.0, 5.0),
        (12.0, 6.0),
        (13.0, 6.0),
        (20.0, 10.0),
        (99.0, 10.0),
    ] {
        assert_eq!(
            run(vec![invert([5, 10], "target", "x * 2")], &[("target", target)]).unwrap(),
            expected
        );
    }
    assert_eq!(
        run(vec![invert([5, 10], "6", "(x / 3) * 3")], &[]).unwrap(),
        6.0,
        "first point in exact plateau"
    );
    assert_eq!(
        run(vec![invert([5, 10], "7", "4")], &[]).unwrap(),
        9.0,
        "upper endpoint's predecessor ties"
    );
}

#[test]
fn singleton_inverse_evaluates_its_forward_program() {
    match run(vec![invert([0, 0], "0", "1 / 0")], &[]) {
        Err(RunError::Exact(
            _,
            ExactError::Program(ProgramEvalError::Output(EvalError::Division)),
        )) => {}
        other => panic!("a singleton forward fault must propagate: {other:?}"),
    }
    assert_eq!(run(vec![invert([7, 7], "0", "x * 2")], &[]).unwrap(), 7.0);
}

#[test]
fn inverse_distances_use_i128_and_single_point_domains_are_valid() {
    assert_eq!(
        run(
            vec![invert([0, 1], "9223372036854775807", "-9223372036854775808 + x")],
            &[]
        )
        .unwrap(),
        1.0
    );
    assert_eq!(run(vec![invert([-7, -7], "-9223372036854775808", "x")], &[]).unwrap(), -7.0);
}

#[test]
fn exact_outer_guards_are_lazy_and_errors_name_binding_and_channel() {
    let gated = DerivedChannel {
        when: Some("flag == 0".into()),
        ..integer_channel("x")
    };
    assert_eq!(run(vec![gated], &[("flag", 1.0), ("x", f64::NAN)]).unwrap(), 0.0);
    let quotient = DerivedChannel {
        integer: Some(int_program(vec![binding("quotient", "1 / 0")], "quotient", None)),
        ..blank("out")
    };
    match run(vec![quotient], &[]) {
        Err(RunError::Exact(channel, e @ ExactError::Program(ProgramEvalError::Binding { .. }))) => {
            let error = channel_failure_message(&channel, &e.message(""));
            assert!(error.contains("derived channel 'out'"), "{error}");
            assert!(error.contains("binding 'quotient'"), "{error}");
            assert!(error.contains("division by zero"), "{error}");
        }
        other => panic!("unexpected {other:?}"),
    }
}

#[test]
fn producers_and_local_scopes_are_validated() {
    let none = blank("out");
    let two = DerivedChannel { expr: Some("1".into()), ..integer_channel("1") };
    let forward = DerivedChannel {
        integer: Some(int_program(vec![binding("x", "y"), binding("y", "1")], "x", None)),
        ..blank("out")
    };
    let twice = DerivedChannel {
        integer: Some(int_program(vec![binding("x", "1"), binding("x", "2")], "x", None)),
        ..blank("out")
    };
    let reversed = invert([10, 5], "1", "x");
    let too_wide = invert([0, 1048576], "1", "x");
    for ds in [none, two, forward, twice, reversed, too_wide] {
        let shown = format!("{ds:?}");
        assert!(run(vec![ds], &[]).is_err(), "{shown}");
    }
    let shadow = DerivedChannel {
        integer: Some(int_program(vec![binding("x", "1")], "x", None)),
        ..blank("out")
    };
    assert!(run(vec![shadow], &[("x", 2.0)]).is_err());
    assert!(integer(&format!("{}1{}", "(".repeat(100), ")".repeat(100))).is_err());
    assert!(integer(&vec!["1"; 1000].join("+")).is_err());
}

#[test]
fn quantize_and_program_resource_limits_are_checked_at_load() {
    let nested = format!("{}1{}", "(".repeat(100), ")".repeat(100));
    assert!(run(vec![quantize(&nested)], &[]).is_err());
    let bindings = (0..129).map(|i| binding(&format!("v{i}"), "1")).collect();
    let many = DerivedChannel { integer: Some(int_program(bindings, "1", None)), ..blank("out") };
    assert!(run(vec![many], &[]).is_err());
}

#[test]
fn integer_locals_retain_bits_above_float_precision() {
    let wide = DerivedChannel {
        integer: Some(int_program(
            vec![binding("wide", "9007199254740993")],
            "wide - 9007199254740992",
            None,
        )),
        ..blank("out")
    };
    assert_eq!(run(vec![wide], &[]).unwrap(), 1.0);
}

// ─── errors named by kind ───

#[test]
fn exact_refusals_name_their_cause() {
    let code = |ds: DerivedChannel| match compile_derived(&[ds], &[]) {
        Err(DerivedError::Channel { error, .. }) => error,
        other => panic!("unexpected {other:?}"),
    };
    assert!(matches!(code(blank("out")), ProducerError::Count));
    assert!(matches!(code(invert([10, 5], "1", "x")), ProducerError::Domain));
    match code(integer_channel("nope")) {
        ProducerError::Program(ProgramError::Syntax(SyntaxError::UnknownName(n))) => assert_eq!(n, "nope"),
        other => panic!("unexpected {other:?}"),
    }
    match code(invert([0, 1], "nope", "x")) {
        ProducerError::Target(SyntaxError::UnknownName(n)) => assert_eq!(n, "nope"),
        other => panic!("unexpected {other:?}"),
    }
    match code(DerivedChannel { when: Some("1".into()), ..integer_channel("1") }) {
        ProducerError::Guard(SyntaxError::NoComparison) => {}
        other => panic!("unexpected {other:?}"),
    }
    let bad_binding = DerivedChannel {
        integer: Some(int_program(vec![binding("x", "1 +")], "x", None)),
        ..blank("out")
    };
    match code(bad_binding) {
        ProducerError::Program(ProgramError::Binding { name, error: SyntaxError::EndedEarly }) => {
            assert_eq!(name, "x")
        }
        other => panic!("unexpected {other:?}"),
    }
    match compile_derived(&[blank("  ")], &[]) {
        Err(DerivedError::EmptyName) => {}
        other => panic!("unexpected {other:?}"),
    }
    match compile_derived(&[d("a", "1"), d("a", "2")], &[]) {
        Err(DerivedError::Duplicate(n)) => assert_eq!(n, "a"),
        other => panic!("unexpected {other:?}"),
    }
}

#[test]
fn an_exact_value_beyond_2_to_53_does_not_leave() {
    match integer("9007199254740993") {
        Err(RunError::Exact(_, ExactError::Export(v))) => assert_eq!(v, 9007199254740993),
        other => panic!("unexpected {other:?}"),
    }
    assert_eq!(integer("9007199254740992").unwrap(), 9007199254740992.0);
    assert_eq!(integer("-9007199254740992").unwrap(), -9007199254740992.0);
}

#[test]
fn compiled_channels_keep_their_order_and_kind() {
    let compiled = compile_derived(
        &[
            d("a", "x * 2"),
            integer_channel("a + 1"),
            DerivedChannel { name: "q".into(), ..quantize("out") },
        ],
        &["x".to_string()],
    );
    // The third channel reads the second, named "out".
    let compiled = match compiled {
        Ok(c) => c,
        Err(e) => panic!("unexpected {e:?}"),
    };
    assert_eq!(compiled.len(), 3);
    assert!(!compiled[0].is_exact());
    assert!(compiled[1].is_exact());
    assert!(compiled[2].is_exact());
}

#[test]
fn a_formula_is_checked_against_the_names_in_scope() {
    let f = compile_formula("analog.formula", "a * 2 + b", &["a".into(), "b".into()]).expect("compiles");
    let slots: HashMap<String, f64> = [("a".to_string(), 3.0), ("b".to_string(), 1.0)]
        .into_iter()
        .collect();
    assert_eq!(feval(&f.expr, &slots), 7.0);
    assert!(f.guard.is_none());
    match compile_formula("analog.formula", "a * nope", &["a".into()]) {
        Err(CompileError::UnknownName { reader, name }) => {
            assert_eq!(reader, "analog.formula");
            assert_eq!(name, "nope");
        }
        other => panic!("unexpected {other:?}"),
    }
}

#[test]
fn a_unicode_blank_name_is_refused() {
    match compile_derived(&[d("\u{3000}\t", "1")], &[]) {
        Err(DerivedError::EmptyName) => {}
        other => panic!("unexpected {other:?}"),
    }
    assert!(compile_derived(&[d("a\u{3000}", "1")], &[]).is_ok());
}

#[test]
fn a_compiled_program_reads_only_what_it_declared() {
    let known = vec!["x".to_string()];
    let p = Program::compile(&[binding("y", "x + v")], "y * 2", Some("y > 0"), Some("v"), &known).unwrap();
    let slots = vec![Slot { name: "x".into(), value: Some(3) }];
    assert_eq!(p.eval(&slots, Some(4)), Ok(14));
    // Without the declared input's slot the miss is reported, and only then.
    assert_eq!(
        p.eval(&[], Some(4)),
        Err(ProgramEvalError::Binding { name: "y".into(), error: EvalError::MissingInput("x".into()) })
    );
    // A guard that does not hold gives 0 without reading the output.
    assert_eq!(p.eval(&slots, Some(-10)), Ok(0));
}

#[test]
fn a_name_of_unicode_white_space_alone_is_blank() {
    let mut checked = 0;
    for cp in 0u32..0x3100 {
        let Some(c) = char::from_u32(cp) else { continue };
        let r = compile_derived(&[d(&c.to_string(), "1")], &[]);
        let empty = matches!(r, Err(DerivedError::EmptyName));
        assert_eq!(empty, c.is_whitespace(), "U+{cp:04X}");
        checked += 1;
    }
    assert!(checked > 10_000);
    assert!(matches!(compile_derived(&[d(" \u{3000}\t", "1")], &[]), Err(DerivedError::EmptyName)));
    assert!(compile_derived(&[d("\u{200b}", "1")], &[]).is_ok());
}

#[test]
fn integer_load_errors_read_as_the_language_words_them() {
    match Program::compile(&[binding("x", "y"), binding("y", "1")], "x", None, None, &[]) {
        Err(e) => assert_eq!(
            e.message(),
            "binding 'x': unknown integer name 'y': names must be declared before use"
        ),
        Ok(_) => panic!("a forward reference compiles"),
    }
    match Program::compile(&[binding("x", "1"), binding("x", "2")], "x", None, None, &[]) {
        Err(e) => assert_eq!(e.message(), "integer binding 'x' shadows an existing name"),
        Ok(_) => panic!("a repeated binding compiles"),
    }
    match Program::compile(&[binding("1x", "1")], "1", None, None, &[]) {
        Err(e) => assert_eq!(e.message(), "invalid integer binding name '1x'"),
        Ok(_) => panic!("a bad name compiles"),
    }
    assert_eq!(SyntaxError::Trailing.message(), "trailing input in integer expression");
}

#[test]
fn exact_failures_read_with_their_numbers() {
    assert_eq!(
        ExactError::Export(9_007_199_254_740_993).message(""),
        "integer export 9007199254740993 is outside [-2^53, 2^53]"
    );
    assert_eq!(
        ExactError::Export(i64::MIN).message(""),
        "integer export -9223372036854775808 is outside [-2^53, 2^53]"
    );
    assert_eq!(EvalError::ShiftCount(-1).message(""), "integer shift count -1 outside [0, 63]");
    assert_eq!(EvalError::ShiftCount(64).message(""), "integer shift count 64 outside [0, 63]");
    assert_eq!(EvalError::MissingLocal(0).message(""), "missing integer local 0");
    assert_eq!(
        EvalError::Import("t".into()).message("0.5"),
        "input 't': integer import must be finite, integral and within [-2^53, 2^53], got 0.5"
    );
    assert_eq!(
        ExactError::Program(ProgramEvalError::Output(EvalError::Overflow)).message(""),
        "integer output: checked integer arithmetic overflow"
    );
    assert_eq!(DerivedError::Duplicate("v".into()).message(), "derived channel 'v' is declared twice");
    assert_eq!(DerivedError::EmptyName.message(), "a derived channel has an empty name");
}
