//! The session's console stream, clock conversions, batch decisions and
//! pattern matching, driven against a scripted machine.

use labwired_core::session::{
    advance_verdict, cycles_needed, expect_after_run, expect_deadline, expect_step, open_clock,
    resolve_cpu_hz, run_step, time_nanos, unread_from, AdvanceReport, AdvanceRequest,
    AdvanceStop, ExpectAfterRun, ExpectStep, OpenError, OpenOptions, Pattern, RunStep, Session,
    SessionError, SessionMachine, StopReason, UartWires,
};
use labwired_core::{SimResult, SimulationError};
use std::collections::VecDeque;
use std::sync::{Arc, Mutex};
use std::time::Duration;

/// A machine that advances by the requested cycle limit and prints a fixed
/// line into the console once a cycle threshold is crossed.
struct Scripted {
    cycles: u64,
    sink: Arc<Mutex<Vec<u8>>>,
    print_at: u64,
    line: Vec<u8>,
    printed: bool,
}

impl SessionMachine for Scripted {
    fn cycles(&self) -> u64 {
        self.cycles
    }

    fn advance(&mut self, req: AdvanceRequest) -> SimResult<AdvanceReport> {
        let step = req.cycle_limit.unwrap_or(1).min(req.fuel.unwrap_or(u64::MAX));
        self.cycles += step;
        if !self.printed && self.cycles >= self.print_at {
            self.sink.lock().unwrap().extend_from_slice(&self.line);
            self.printed = true;
        }
        Ok(AdvanceReport {
            stop: AdvanceStop::Budget,
            primary_steps: step,
            idle_cycles: 0,
        })
    }
}

fn wires() -> (UartWires, Arc<Mutex<Vec<u8>>>, Arc<Mutex<VecDeque<u8>>>) {
    let sink = Arc::new(Mutex::new(Vec::new()));
    let rx = Arc::new(Mutex::new(VecDeque::new()));
    (
        UartWires {
            sink: sink.clone(),
            rx: vec![rx.clone()],
        },
        sink,
        rx,
    )
}

fn session(hz: u64) -> (Session<Scripted>, Arc<Mutex<Vec<u8>>>, Arc<Mutex<VecDeque<u8>>>) {
    let (w, sink, rx) = wires();
    let m = Scripted {
        cycles: 0,
        sink: sink.clone(),
        print_at: 1_000,
        line: b"boot ok 42\r\n".to_vec(),
        printed: false,
    };
    let opts = OpenOptions {
        cpu_hz: Some(hz),
        ..OpenOptions::default()
    };
    let s = match Session::open(m, w, None, 64_000_000, "chip".to_string(), opts) {
        Ok(s) => s,
        Err(_) => panic!("a clocked session opens"),
    };
    (s, sink, rx)
}

#[test]
fn open_options_default_to_a_twenty_thousand_fuel_batch() {
    let o = OpenOptions::default();
    assert_eq!(o.cpu_hz, None);
    assert_eq!(o.batch_fuel, 20_000);
    assert!(!o.echo_uart_stdout);
}

#[test]
fn the_clock_comes_from_options_then_system_then_chip() {
    assert_eq!(resolve_cpu_hz(Some(1), Some(2), 3), 1);
    assert_eq!(resolve_cpu_hz(None, Some(2), 3), 2);
    assert_eq!(resolve_cpu_hz(None, None, 3), 3);
}

#[test]
fn open_refuses_a_missing_clock_and_a_zero_batch() {
    let (w, _, _) = wires();
    let m = Scripted {
        cycles: 0,
        sink: w.sink.clone(),
        print_at: 0,
        line: Vec::new(),
        printed: false,
    };
    let r = Session::open(m, w, None, 0, "bare".to_string(), OpenOptions::default());
    assert!(matches!(r, Err(OpenError::NoClock { ref chip }) if chip == "bare"));

    let (w, _, _) = wires();
    let m = Scripted {
        cycles: 0,
        sink: w.sink.clone(),
        print_at: 0,
        line: Vec::new(),
        printed: false,
    };
    let opts = OpenOptions {
        batch_fuel: 0,
        ..OpenOptions::default()
    };
    let r = Session::open(m, w, Some(8_000_000), 0, "c".to_string(), opts);
    assert!(matches!(r, Err(OpenError::ZeroBatchFuel)));
}

#[test]
fn virtual_time_is_cycles_over_the_clock() {
    assert_eq!(time_nanos(64_000_000, 64_000_000), 1_000_000_000);
    assert_eq!(time_nanos(1, 3), 333_333_333);
    assert_eq!(time_nanos(u64::MAX, 1), u64::MAX);
    let (mut s, _, _) = session(1_000_000);
    assert_eq!(s.time(), Duration::from_nanos(0));
    s.advance(AdvanceRequest::run(Some(10_000)).with_cycle_limit(1_500)).unwrap();
    assert_eq!(s.cycles(), 1_500);
    assert_eq!(s.time(), Duration::from_micros(1_500));
}

#[test]
fn cycles_for_rounds_up_and_is_at_least_one() {
    assert_eq!(cycles_needed(1, 1_000_000_000), 1);
    assert_eq!(cycles_needed(0, 64_000_000), 1);
    assert_eq!(cycles_needed(1_000, 3), 1);
    assert_eq!(cycles_needed(1_000_000_000, 3), 3);
    assert_eq!(cycles_needed(1_000_000_001, 3), 4);
    assert_eq!(cycles_needed(u128::MAX, 2), u64::MAX);
    let (s, _, _) = session(16_000_000);
    assert_eq!(s.cycles_for(Duration::from_millis(1)), 16_000);
    assert_eq!(s.cycles_for(Duration::from_nanos(1)), 1);
}

#[test]
fn batch_outcomes_decide_the_run() {
    let budget = |steps: u64, idle: u64| -> SimResult<AdvanceReport> {
        Ok(AdvanceReport {
            stop: AdvanceStop::Budget,
            primary_steps: steps,
            idle_cycles: idle,
        })
    };
    assert_eq!(advance_verdict(&budget(5, 0)), None);
    assert_eq!(advance_verdict(&budget(0, 9)), None);
    assert_eq!(advance_verdict(&budget(0, 0)), Some(Ok(StopReason::Halted)));
    let stop = |s: AdvanceStop| -> SimResult<AdvanceReport> {
        Ok(AdvanceReport {
            stop: s,
            primary_steps: 1,
            idle_cycles: 0,
        })
    };
    assert_eq!(
        advance_verdict(&stop(AdvanceStop::Breakpoint(0x100))),
        Some(Ok(StopReason::Breakpoint(0x100)))
    );
    assert_eq!(
        advance_verdict(&stop(AdvanceStop::NoProgress)),
        Some(Ok(StopReason::Halted))
    );
    assert_eq!(
        advance_verdict(&stop(AdvanceStop::FirmwareExit { code: 3 })),
        Some(Ok(StopReason::Halted))
    );
    assert_eq!(
        advance_verdict(&Err(SimulationError::Halt)),
        Some(Ok(StopReason::Halted))
    );
    assert_eq!(
        advance_verdict(&Err(SimulationError::BreakpointHit(7))),
        Some(Ok(StopReason::Breakpoint(7)))
    );
    assert_eq!(
        advance_verdict(&Err(SimulationError::MemoryViolation(0xDEAD))),
        Some(Err(SessionError::Sim(SimulationError::MemoryViolation(0xDEAD))))
    );
}

#[test]
fn run_and_expect_steps_never_pass_their_target() {
    assert_eq!(run_step(10, 10, 5), RunStep::Done);
    assert_eq!(run_step(11, 10, 5), RunStep::Done);
    assert_eq!(
        run_step(4, 10, 5),
        RunStep::Advance(AdvanceRequest {
            fuel: Some(5),
            cycle_limit: Some(6)
        })
    );
    assert_eq!(expect_deadline(u64::MAX - 1, 5), u64::MAX);
    assert_eq!(expect_deadline(10, 5), 15);
    assert_eq!(expect_step(15, 15, 100), ExpectStep::TimedOut);
    assert_eq!(expect_step(10, 15, 100), ExpectStep::Run(5));
    assert_eq!(expect_step(10, 1_000, 100), ExpectStep::Run(100));
    assert_eq!(expect_after_run(StopReason::Reached), ExpectAfterRun::Continue);
    assert_eq!(
        expect_after_run(StopReason::Breakpoint(9)),
        ExpectAfterRun::Breakpoint(9)
    );
    assert_eq!(expect_after_run(StopReason::Halted), ExpectAfterRun::Halted);
    assert_eq!(expect_after_run(StopReason::Error), ExpectAfterRun::Halted);
}

#[test]
fn unread_is_the_part_past_the_cursor() {
    let all = b"hello".to_vec();
    assert_eq!(unread_from(&all, 0), b"hello".to_vec());
    assert_eq!(unread_from(&all, 2), b"llo".to_vec());
    assert_eq!(unread_from(&all, 5), Vec::<u8>::new());
    assert_eq!(unread_from(&all, 99), Vec::<u8>::new());
}

#[test]
fn read_uart_drains_and_later_output_stays_unread() {
    let (mut s, sink, _) = session(1_000_000);
    sink.lock().unwrap().extend_from_slice(b"abc");
    assert_eq!(s.read_uart(), b"abc".to_vec());
    assert_eq!(s.read_uart(), Vec::<u8>::new());
    sink.lock().unwrap().extend_from_slice(b"de");
    assert_eq!(s.read_uart(), b"de".to_vec());
    assert_eq!(s.uart_transcript(), "abcde");
}

#[test]
fn the_transcript_is_lossy_utf8() {
    let (s, sink, _) = session(1_000_000);
    sink.lock().unwrap().extend_from_slice(&[b'o', b'k', 0xFF, b'!']);
    assert_eq!(s.uart_transcript(), "ok\u{FFFD}!");
}

#[test]
fn send_queues_on_every_rx_feeder() {
    let (mut s, _, rx) = session(1_000_000);
    s.send(b"hi");
    assert_eq!(rx.lock().unwrap().iter().copied().collect::<Vec<u8>>(), b"hi".to_vec());
}

#[test]
fn a_match_moves_the_cursor_past_it_and_keeps_the_rest() {
    let (mut s, sink, _) = session(1_000_000);
    sink.lock().unwrap().extend_from_slice(b"x=1 y=2 tail");
    let p = Pattern::new(r"y=(\d)( z)?").unwrap();
    let m = s.take_match(&p).unwrap();
    assert_eq!(m.text, "y=2");
    assert_eq!(m.captures, vec![Some("2".to_string()), None]);
    assert_eq!(m.at, Duration::from_nanos(0));
    assert_eq!(s.read_uart(), b" tail".to_vec());
    assert!(s.take_match(&p).is_none());
}

#[test]
fn an_invalid_pattern_is_an_error_naming_it() {
    match Pattern::new("(") {
        Err(SessionError::Other(t)) => {
            assert!(t.starts_with("invalid expect pattern /(/: "), "{t}");
            assert!(t.len() > "invalid expect pattern /(/: ".len());
        }
        _ => panic!("an unclosed group must be refused"),
    }
}

#[test]
fn a_line_printed_later_is_found_after_running() {
    let (mut s, _, _) = session(1_000_000);
    let p = Pattern::new(r"boot ok (\d+)").unwrap();
    assert!(s.take_match(&p).is_none());
    let target = s.cycles() + 2_000;
    while let RunStep::Advance(req) = run_step(s.cycles(), target, s.batch_fuel()) {
        let r = s.advance(req);
        if advance_verdict(&r).is_some() {
            break;
        }
    }
    let m = s.take_match(&p).unwrap();
    assert_eq!(m.captures, vec![Some("42".to_string())]);
    assert_eq!(m.at, Duration::from_micros(2_000));
    assert_eq!(s.read_uart(), b"\r\n".to_vec());
}

#[test]
fn the_clock_and_batch_are_checked_before_anything_is_built() {
    let zero_batch = OpenOptions { batch_fuel: 0, ..OpenOptions::default() };
    assert_eq!(
        open_clock(&OpenOptions::default(), None, 0, "bare".to_string()),
        Err(OpenError::NoClock { chip: "bare".to_string() })
    );
    assert_eq!(
        open_clock(&zero_batch, None, 64_000_000, "chip".to_string()),
        Err(OpenError::ZeroBatchFuel)
    );
    assert_eq!(
        open_clock(&OpenOptions::default(), Some(80_000_000), 64_000_000, "chip".to_string()),
        Ok(80_000_000)
    );
    let opts = OpenOptions { cpu_hz: Some(1_000), ..OpenOptions::default() };
    assert_eq!(open_clock(&opts, Some(80_000_000), 64_000_000, "chip".to_string()), Ok(1_000));
}
