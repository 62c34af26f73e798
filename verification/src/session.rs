//! A scriptable session over one machine, advanced only when asked.
//!
//! Every duration is virtual: simulated time at the session's clock, never
//! host wall time. The UART console is a stream with a read cursor: the sink
//! keeps every byte since the machine was built, and the cursor marks how far
//! `expect` and `read_uart` have consumed, so bytes produced past a match stay
//! unread for the next call.
//!
//! The loops that drive the machine (`run_cycles`, `expect`) alternate calls
//! into the machine with the decisions below: each decision is a function of
//! the clock reading and the machine's report, stated exactly here.

use crate::shared::{queue_extend, sink_contents};
use crate::{SimResult, SimulationError};
use core::time::Duration;
use std::collections::VecDeque;
use std::sync::{Arc, Mutex};
use vstd::prelude::*;

verus! {

/// How a session is opened.
#[derive(Debug, Clone, PartialEq, Eq)]
pub struct OpenOptions {
    /// Clock used to convert cycles to and from seconds; `None` takes the
    /// board's clock.
    pub cpu_hz: Option<u64>,
    /// Fuel per advance batch; bounds how far past a match `expect` may
    /// overshoot.
    pub batch_fuel: u64,
    /// Echo the console to the host's stdout.
    pub echo_uart_stdout: bool,
}

impl Default for OpenOptions {
    fn default() -> (r: Self)
        ensures
            r.cpu_hz is None,
            r.batch_fuel == 20_000,
            !r.echo_uart_stdout,
    {
        OpenOptions { cpu_hz: None, batch_fuel: 20_000, echo_uart_stdout: false }
    }
}

/// Why a run returned.
#[derive(Debug, Clone, Copy, PartialEq, Eq)]
pub enum StopReason {
    /// The requested time elapsed.
    Reached,
    /// The machine stopped making progress.
    Halted,
    /// Execution reached a breakpoint at this PC.
    Breakpoint(u32),
    Error,
}

/// A successful `expect`.
#[derive(Debug, PartialEq)]
pub struct Match {
    /// The matched text (lossy UTF-8).
    pub text: String,
    /// Capture groups 1.., `None` for a group that did not participate.
    pub captures: Vec<Option<String>>,
    /// Virtual time at which the match was observed.
    pub at: Duration,
}

/// Why a session operation did not complete.
#[derive(Debug, PartialEq)]
pub enum SessionError {
    /// The engine cannot do this here; `tracker` names where the gap is
    /// tracked.
    NotSupported { what: String, tracker: String },
    /// `expect` spent its whole virtual-time budget without a match, or the
    /// machine stopped (`halted`) before one could appear.
    ExpectTimeout {
        pattern: String,
        /// The budget that ran out.
        timeout: Duration,
        /// The last 200 characters of the UART transcript.
        tail: String,
        halted: bool,
    },
    UnknownUart(String),
    Sim(SimulationError),
    Other(String),
}

pub type SessionResult<T> = Result<T, SessionError>;

/// Why a session could not be opened.
#[derive(Debug, Clone, PartialEq, Eq)]
pub enum OpenError {
    /// Neither the options, the system nor the chip give a clock.
    NoClock { chip: String },
    /// `OpenOptions::batch_fuel` is zero.
    ZeroBatchFuel,
}

/// What stopped one advance batch.
#[derive(Debug, Clone, Copy, PartialEq, Eq)]
pub enum AdvanceStop {
    /// The batch used up its fuel or cycle limit.
    Budget,
    /// Execution reached a breakpoint at this PC.
    Breakpoint(u32),
    /// The machine made no forward progress.
    NoProgress,
    /// The firmware ended its own run.
    FirmwareExit { code: u32 },
}

/// What one advance batch reports.
#[derive(Debug, Clone, Copy, PartialEq, Eq)]
pub struct AdvanceReport {
    pub stop: AdvanceStop,
    /// Instructions the primary core retired.
    pub primary_steps: u64,
    /// Cycles spent idle (sleeping until an event).
    pub idle_cycles: u64,
}

/// One advance batch: at most `fuel` instructions, at most `cycle_limit`
/// cycles.
#[derive(Debug, Clone, Copy, PartialEq, Eq)]
pub struct AdvanceRequest {
    pub fuel: Option<u64>,
    pub cycle_limit: Option<u64>,
}

impl AdvanceRequest {
    /// Run with `fuel` instructions and no cycle limit.
    pub fn run(fuel: Option<u64>) -> (r: Self)
        ensures
            r == (AdvanceRequest { fuel, cycle_limit: None }),
    {
        AdvanceRequest { fuel, cycle_limit: None }
    }

    /// The same request, stopping after `cycles` cycles.
    pub fn with_cycle_limit(self, cycles: u64) -> (r: Self)
        ensures
            r == (AdvanceRequest { cycle_limit: Some(cycles), ..self }),
    {
        AdvanceRequest { cycle_limit: Some(cycles), ..self }
    }
}

/// The machine a session drives.
pub trait SessionMachine {
    /// Simulated machine cycles since the machine was built.
    fn cycles(&self) -> u64;

    /// Run one batch.
    fn advance(&mut self, req: AdvanceRequest) -> SimResult<AdvanceReport>;
}

/// The console wiring a built machine hands over: the capture sink every
/// console byte lands in, and the RX queues of every UART.
#[derive(Debug, Clone)]
pub struct UartWires {
    pub sink: Arc<Mutex<Vec<u8>>>,
    pub rx: Vec<Arc<Mutex<VecDeque<u8>>>>,
}

/// `all` past a cursor at `cursor`.
pub open spec fn unread_part(all: Seq<u8>, cursor: nat) -> Seq<u8> {
    all.skip(if cursor < all.len() {
        cursor as int
    } else {
        all.len() as int
    })
}

/// `r` is what an unread read can return at `cursor`: the part past the
/// cursor of some transcript.
pub open spec fn is_unread_at(r: Seq<u8>, cursor: nat) -> bool {
    exists|all: Seq<u8>| all.len() <= usize::MAX && #[trigger] unread_part(all, cursor) == r
}

/// The bytes of `all` past a cursor at `cursor`.
pub fn unread_from(all: &Vec<u8>, cursor: usize) -> (r: Vec<u8>)
    ensures
        r@ == unread_part(all@, cursor as nat),
{
    let start = if cursor < all.len() {
        cursor
    } else {
        all.len()
    };
    let mut out: Vec<u8> = Vec::new();
    let mut i = start;
    while i < all.len()
        invariant
            start <= i <= all.len(),
            out@ == all@.subrange(start as int, i as int),
        decreases all.len() - i,
    {
        out.push(all[i]);
        assert(out@ =~= all@.subrange(start as int, (i + 1) as int));
        i = i + 1;
    }
    assert(out@ =~= unread_part(all@, cursor as nat));
    out
}

/// The UART console as a stream with a read cursor.
pub struct UartStream {
    wires: UartWires,
    cursor: usize,
}

impl View for UartStream {
    type V = usize;

    /// The read cursor.
    closed spec fn view(&self) -> usize {
        self.cursor
    }
}

impl UartStream {
    /// The console wiring the stream reads and feeds.
    pub closed spec fn wires(&self) -> UartWires {
        self.wires
    }

    /// A stream over `wires` with nothing read yet.
    pub fn new(wires: UartWires) -> (r: Self)
        ensures
            r@ == 0,
            r.wires() == wires,
    {
        UartStream { wires, cursor: 0 }
    }

    /// Every console byte since construction.
    pub fn all(&self) -> Vec<u8> {
        sink_contents(&self.wires.sink)
    }

    /// The bytes past the cursor.
    pub fn unread(&self) -> (r: Vec<u8>)
        ensures
            is_unread_at(r@, self@ as nat),
            r.len() + self@ <= usize::MAX || r.len() == 0,
    {
        let all = sink_contents(&self.wires.sink);
        let r = unread_from(&all, self.cursor);
        assert(all@.len() == all.len());
        assert(unread_part(all@, self.cursor as nat) == r@);
        if self.cursor < all.len() {
            assert(r@.len() == all.len() - self.cursor);
        } else {
            assert(r@.len() == 0);
        }
        r
    }

    /// Mark `n` more bytes as read.
    pub fn consume(&mut self, n: usize)
        requires
            old(self)@ + n <= usize::MAX,
        ensures
            final(self)@ == old(self)@ + n,
    {
        self.cursor = self.cursor + n;
    }

    /// Queue `bytes` on every UART RX feeder.
    pub fn send(&self, bytes: &[u8]) {
        let mut i: usize = 0;
        while i < self.wires.rx.len()
            invariant
                i <= self.wires.rx.len(),
            decreases self.wires.rx.len() - i,
        {
            queue_extend(&self.wires.rx[i], bytes);
            i = i + 1;
        }
    }
}

/// Nanoseconds per second.
pub const NANOS_PER_SEC: u128 = 1_000_000_000;

/// Virtual time in nanoseconds after `cycles` at `hz`, saturating at the
/// largest `u64`.
pub open spec fn time_nanos_of(cycles: u64, hz: u64) -> u64 {
    let n = cycles * 1_000_000_000 / hz as int;
    if n <= u64::MAX {
        n as u64
    } else {
        u64::MAX
    }
}

/// Cycles covering `nanos` at `hz`: rounded up, saturating at the largest
/// `u64`, and at least one.
pub open spec fn cycles_for_nanos(nanos: u128, hz: u64) -> u64 {
    let c = (nanos * hz + 999_999_999) / 1_000_000_000;
    if c > u64::MAX {
        u64::MAX
    } else if c == 0 {
        1
    } else {
        c as u64
    }
}

/// The `Duration` of `nanos` nanoseconds (`Duration::from_nanos`).
pub uninterp spec fn duration_of_nanos(nanos: u64) -> Duration;

/// `Duration::from_nanos`: the duration of `nanos` nanoseconds; named, since
/// a `Duration` is opaque here.
#[verifier::external_body]
fn duration_from_nanos(nanos: u64) -> (r: Duration)
    ensures
        r == duration_of_nanos(nanos),
{
    Duration::from_nanos(nanos)
}

/// `Duration::as_nanos`: the whole nanoseconds in `d`. A duration made by
/// `Duration::from_nanos(n)` gives back `n`; of any other duration nothing is
/// claimed, since its value is opaque here.
#[verifier::external_body]
fn duration_as_nanos(d: &Duration) -> (r: u128)
    ensures
        forall|n: u64| #[trigger] duration_of_nanos(n) == *d ==> r == n,
{
    d.as_nanos()
}

/// Virtual time in nanoseconds after `cycles` at `hz`.
pub fn time_nanos(cycles: u64, hz: u64) -> (r: u64)
    requires
        hz > 0,
    ensures
        r == time_nanos_of(cycles, hz),
{
    let n: u128 = (cycles as u128) * NANOS_PER_SEC / (hz as u128);
    if n <= u64::MAX as u128 {
        n as u64
    } else {
        u64::MAX
    }
}

/// Cycles covering `nanos` at `hz`, rounded up, at least one; a product
/// beyond the widest integer saturates.
pub fn cycles_needed(nanos: u128, hz: u64) -> (r: u64)
    ensures
        nanos * hz <= u128::MAX - 999_999_999 ==> r == cycles_for_nanos(nanos, hz),
        r >= 1,
{
    let prod = match nanos.checked_mul(hz as u128) {
        Some(p) => p,
        None => {
            return u64::MAX;
        },
    };
    if prod > u128::MAX - 999_999_999 {
        return u64::MAX;
    }
    let c = (prod + 999_999_999) / NANOS_PER_SEC;
    if c > u64::MAX as u128 {
        u64::MAX
    } else if c == 0 {
        1
    } else {
        c as u64
    }
}

/// The next step of a run towards cycle `target`, at cycle `now`.
#[derive(Debug, Clone, Copy, PartialEq, Eq)]
pub enum RunStep {
    /// The target is reached.
    Done,
    /// Advance one batch.
    Advance(AdvanceRequest),
}

/// The step of a run at cycle `now` towards `target`: done once the target
/// is reached, else one batch of `batch_fuel` capped at the remaining cycles.
pub fn run_step(now: u64, target: u64, batch_fuel: u64) -> (r: RunStep)
    ensures
        r == run_step_spec(now, target, batch_fuel),
{
    if now >= target {
        RunStep::Done
    } else {
        RunStep::Advance(AdvanceRequest::run(Some(batch_fuel)).with_cycle_limit(target - now))
    }
}

/// What a run does with one batch's outcome: `None` to keep going, or the
/// run's result.
pub open spec fn batch_verdict(r: SimResult<AdvanceReport>) -> Option<SessionResult<StopReason>> {
    match r {
        Ok(report) => match report.stop {
            AdvanceStop::Breakpoint(pc) => Some(Ok(StopReason::Breakpoint(pc))),
            AdvanceStop::NoProgress => Some(Ok(StopReason::Halted)),
            AdvanceStop::FirmwareExit { .. } => Some(Ok(StopReason::Halted)),
            AdvanceStop::Budget => if report.primary_steps == 0 && report.idle_cycles == 0 {
                Some(Ok(StopReason::Halted))
            } else {
                None
            },
        },
        Err(SimulationError::Halt) => Some(Ok(StopReason::Halted)),
        Err(SimulationError::BreakpointHit(pc)) => Some(Ok(StopReason::Breakpoint(pc))),
        Err(e) => Some(Err(SessionError::Sim(e))),
    }
}

/// The verdict on one batch's outcome: a breakpoint stops the run there; no
/// progress, a firmware exit, a halt or a batch that neither stepped nor
/// idled stops it as halted; another error fails it; else it goes on.
pub fn advance_verdict(r: &SimResult<AdvanceReport>) -> (v: Option<SessionResult<StopReason>>)
    ensures
        v == batch_verdict(*r),
{
    match r {
        Ok(report) => match report.stop {
            AdvanceStop::Breakpoint(pc) => Some(Ok(StopReason::Breakpoint(pc))),
            AdvanceStop::NoProgress => Some(Ok(StopReason::Halted)),
            AdvanceStop::FirmwareExit { .. } => Some(Ok(StopReason::Halted)),
            AdvanceStop::Budget => if report.primary_steps == 0 && report.idle_cycles == 0 {
                Some(Ok(StopReason::Halted))
            } else {
                None
            },
        },
        Err(SimulationError::Halt) => Some(Ok(StopReason::Halted)),
        Err(SimulationError::BreakpointHit(pc)) => Some(Ok(StopReason::Breakpoint(*pc))),
        Err(SimulationError::MemoryViolation(a)) => Some(
            Err(SessionError::Sim(SimulationError::MemoryViolation(*a))),
        ),
    }
}

/// The cycle an `expect` started at `now` with a budget of
/// `timeout_cycles` gives up at (saturating).
pub fn expect_deadline(now: u64, timeout_cycles: u64) -> (r: u64)
    ensures
        now + timeout_cycles <= u64::MAX ==> r == now + timeout_cycles,
        now + timeout_cycles > u64::MAX ==> r == u64::MAX,
{
    now.saturating_add(timeout_cycles)
}

/// The next step of an `expect` at cycle `now` with budget up to `deadline`.
#[derive(Debug, Clone, Copy, PartialEq, Eq)]
pub enum ExpectStep {
    /// The budget is spent.
    TimedOut,
    /// Run this many cycles, then look again.
    Run(u64),
}

/// The step of an `expect` at cycle `now`: out of budget at the deadline,
/// else a run of the remaining cycles capped at one batch.
pub fn expect_step(now: u64, deadline: u64, batch_fuel: u64) -> (r: ExpectStep)
    ensures
        now >= deadline ==> r == ExpectStep::TimedOut,
        now < deadline ==> r == ExpectStep::Run(
            if deadline - now < batch_fuel {
                (deadline - now) as u64
            } else {
                batch_fuel
            },
        ),
{
    if now >= deadline {
        ExpectStep::TimedOut
    } else {
        let left = deadline - now;
        ExpectStep::Run(
            if left < batch_fuel {
                left
            } else {
                batch_fuel
            },
        )
    }
}

/// What an `expect` does when a run stopped with `stop` and the console
/// still holds no match.
#[derive(Debug, Clone, Copy, PartialEq, Eq)]
pub enum ExpectAfterRun {
    /// Keep waiting.
    Continue,
    /// Fail: the machine reached a breakpoint at this PC.
    Breakpoint(u32),
    /// Fail as timed out with the machine halted.
    Halted,
}

/// The `expect` verdict after a run with no match: a reached target keeps
/// waiting, a breakpoint fails with it, anything else fails as halted.
pub fn expect_after_run(stop: StopReason) -> (r: ExpectAfterRun)
    ensures
        stop == StopReason::Reached ==> r == ExpectAfterRun::Continue,
        stop matches StopReason::Breakpoint(pc) ==> r == ExpectAfterRun::Breakpoint(pc),
        (stop == StopReason::Halted || stop == StopReason::Error) ==> r == ExpectAfterRun::Halted,
{
    match stop {
        StopReason::Reached => ExpectAfterRun::Continue,
        StopReason::Breakpoint(pc) => ExpectAfterRun::Breakpoint(pc),
        StopReason::Halted => ExpectAfterRun::Halted,
        StopReason::Error => ExpectAfterRun::Halted,
    }
}

/// The clock a session runs at: the options' clock, else the system's,
/// else the chip's.
pub fn resolve_cpu_hz(opts_hz: Option<u64>, system_hz: Option<u64>, chip_hz: u64) -> (r: u64)
    ensures
        r == (match opts_hz {
            Some(h) => h,
            None => match system_hz {
                Some(h) => h,
                None => chip_hz,
            },
        }),
{
    match opts_hz {
        Some(h) => h,
        None => match system_hz {
            Some(h) => h,
            None => chip_hz,
        },
    }
}

/// The check a session's opening makes before any machine is built: the
/// resolved clock (the options', else the system's, else the chip's) when it
/// is non-zero and the batch is non-empty; `NoClock` naming the chip for a
/// zero clock, else `ZeroBatchFuel` for an empty batch.
pub fn open_clock(opts: &OpenOptions, system_hz: Option<u64>, chip_hz: u64, chip_name: String) -> (r:
    Result<u64, OpenError>)
    ensures
        resolve_cpu_hz_spec(opts.cpu_hz, system_hz, chip_hz) == 0 ==> r == Err::<u64, OpenError>(
            OpenError::NoClock { chip: chip_name },
        ),
        resolve_cpu_hz_spec(opts.cpu_hz, system_hz, chip_hz) != 0 && opts.batch_fuel == 0 ==> r
            == Err::<u64, OpenError>(OpenError::ZeroBatchFuel),
        resolve_cpu_hz_spec(opts.cpu_hz, system_hz, chip_hz) != 0 && opts.batch_fuel != 0 ==> r
            == Ok::<u64, OpenError>(resolve_cpu_hz_spec(opts.cpu_hz, system_hz, chip_hz)),
{
    let cpu_hz = resolve_cpu_hz(opts.cpu_hz, system_hz, chip_hz);
    if cpu_hz == 0 {
        return Err(OpenError::NoClock { chip: chip_name });
    }
    if opts.batch_fuel == 0 {
        return Err(OpenError::ZeroBatchFuel);
    }
    Ok(cpu_hz)
}

/// `regex::bytes::Regex`, a compiled pattern.
#[verifier::external_type_specification]
#[verifier::external_body]
pub struct ExRegex(regex::bytes::Regex);

/// What compiling `pattern` reports: `None` when it compiles, else the
/// error's text.
pub uninterp spec fn regex_compile_error(pattern: Seq<char>) -> Option<Seq<char>>;

/// `regex::bytes::Regex::new`: compile `pattern`, or the text of the error
/// that refuses it. Compiling depends on the pattern alone, so the outcome is
/// named by it.
#[verifier::external_body]
fn compile_regex(pattern: &str) -> (r: Result<regex::bytes::Regex, String>)
    ensures
        match r {
            Ok(_) => regex_compile_error(pattern@) is None,
            Err(m) => regex_compile_error(pattern@) == Some(m@),
        },
{
    regex::bytes::Regex::new(pattern).map_err(|e| e.to_string())
}

/// The byte spans (`start`, `end`) of the leftmost-first match of `pattern`
/// in `hay` and of its capture groups, `None` for a group that did not take
/// part; `None` overall when nothing matches.
pub uninterp spec fn regex_captures_of(pattern: Seq<char>, hay: Seq<u8>) -> Option<
    Seq<Option<(usize, usize)>>,
>;

/// A compiled console pattern, kept with its source text.
pub struct Pattern {
    source: String,
    re: regex::bytes::Regex,
}

impl View for Pattern {
    type V = Seq<char>;

    /// The pattern's source text.
    closed spec fn view(&self) -> Seq<char> {
        self.source@
    }
}

/// `regex::bytes::Regex::captures`: the spans of the match of `p` in `hay`
/// and of its groups. The match is a function of the pattern and the bytes,
/// so it is named by them; as documented, group 0 (the whole match) always
/// takes part and every span lies inside `hay`.
#[verifier::external_body]
fn regex_captures(p: &Pattern, hay: &[u8]) -> (r: Option<Vec<Option<(usize, usize)>>>)
    ensures
        match r {
            None => regex_captures_of(p@, hay@) is None,
            Some(v) => regex_captures_of(p@, hay@) == Some(v@),
        },
        r matches Some(v) ==> v.len() >= 1 && v@[0] is Some,
        r matches Some(v) ==> forall|i: int|
            0 <= i < v.len() ==> (#[trigger] v@[i] matches Some(sp) ==> sp.0 <= sp.1 <= hay.len()),
{
    let caps = p.re.captures(hay)?;
    let mut v = Vec::new();
    for m in caps.iter() {
        v.push(match m {
            Some(m) => Some((m.start(), m.end())),
            None => None,
        });
    }
    Some(v)
}

impl Pattern {
    /// Compile `pattern`; a pattern the regex engine refuses is an error
    /// naming it and the engine's reason.
    pub fn new(pattern: &str) -> (r: SessionResult<Pattern>)
        ensures
            regex_compile_error(pattern@) is None ==> (r matches Ok(p) && p@ == pattern@),
            regex_compile_error(pattern@) matches Some(m) ==> (r matches Err(
                SessionError::Other(t),
            ) && t@ == invalid_pattern_text(pattern@, m)),
    {
        match compile_regex(pattern) {
            Ok(re) => Ok(Pattern { source: pattern.to_owned(), re }),
            Err(m) => {
                let mut text = String::new();
                text.append("invalid expect pattern /");
                text.append(pattern);
                text.append("/: ");
                text.append(m.as_str());
                proof {
                    reveal_strlit("invalid expect pattern /");
                    reveal_strlit("/: ");
                }
                assert(text@ =~= invalid_pattern_text(pattern@, m@));
                Err(SessionError::Other(text))
            },
        }
    }
}

/// The error text for a refused pattern.
pub open spec fn invalid_pattern_text(pattern: Seq<char>, reason: Seq<char>) -> Seq<char> {
    "invalid expect pattern /"@ + pattern + "/: "@ + reason
}

/// The bytes of `v` from `start` to `end`.
pub fn bytes_between(v: &Vec<u8>, start: usize, end: usize) -> (r: Vec<u8>)
    requires
        start <= end <= v.len(),
    ensures
        r@ == v@.subrange(start as int, end as int),
{
    let mut out: Vec<u8> = Vec::new();
    let mut i = start;
    while i < end
        invariant
            start <= i <= end,
            end <= v.len(),
            out@ == v@.subrange(start as int, i as int),
        decreases end - i,
    {
        out.push(v[i]);
        assert(out@ =~= v@.subrange(start as int, (i + 1) as int));
        i = i + 1;
    }
    out
}

/// The text of a capture span of `hay`.
pub open spec fn span_text(hay: Seq<u8>, span: Option<(usize, usize)>) -> Option<Seq<char>> {
    match span {
        Some(sp) => Some(utf8_lossy_of(hay.subrange(sp.0 as int, sp.1 as int))),
        None => None,
    }
}

/// Where the whole match of the spans `caps` ends.
pub open spec fn match_end(caps: Seq<Option<(usize, usize)>>) -> usize {
    match caps[0] {
        Some(sp) => sp.1,
        None => 0,
    }
}

/// A string's text, kept optional.
pub open spec fn opt_text(s: Option<String>) -> Option<Seq<char>> {
    match s {
        Some(t) => Some(t@),
        None => None,
    }
}

/// `m` is the match made of the capture spans `caps` in `hay`: the whole
/// match's text, then the text of each group from 1 on.
pub open spec fn match_made(m: Match, hay: Seq<u8>, caps: Seq<Option<(usize, usize)>>) -> bool {
    &&& Some(m.text@) == span_text(hay, caps[0])
    &&& m.captures@.len() + 1 == caps.len()
    &&& forall|i: int|
        0 <= i < m.captures@.len() ==> #[trigger] opt_text(m.captures@[i]) == span_text(
            hay,
            caps[i + 1],
        )
}

/// Consuming `k` unread bytes leaves exactly the bytes after them unread:
/// bytes produced past a match stay for the next read.
pub proof fn lemma_consume_then_unread(all: Seq<u8>, cursor: nat, k: nat)
    requires
        k <= unread_part(all, cursor).len(),
    ensures
        unread_part(all, cursor + k) == unread_part(all, cursor).skip(k as int),
{
    assert(unread_part(all, cursor + k) =~= unread_part(all, cursor).skip(k as int));
}

/// Output that arrives later is appended to what is unread, never mixed
/// into what was already consumed.
pub proof fn lemma_new_output_appends(all: Seq<u8>, more: Seq<u8>, cursor: nat)
    requires
        cursor <= all.len(),
    ensures
        unread_part(all + more, cursor) == unread_part(all, cursor) + more,
{
    assert(unread_part(all + more, cursor) =~= unread_part(all, cursor) + more);
}

/// The cycles an interval needs cover it, and one cycle fewer would not:
/// `c` cycles of `1 / hz` seconds span at least `nanos` nanoseconds, `c - 1`
/// fall short.
pub proof fn lemma_cycles_cover_interval(nanos: u128, hz: u64)
    requires
        hz > 0,
        nanos > 0,
        (nanos * hz + 999_999_999) / 1_000_000_000 <= u64::MAX,
    ensures
        cycles_for_nanos(nanos, hz) * 1_000_000_000 >= nanos * hz,
        (cycles_for_nanos(nanos, hz) - 1) * 1_000_000_000 < nanos * hz,
{
    let p = nanos * hz;
    assert(p >= 1) by (nonlinear_arith)
        requires
            nanos >= 1,
            hz >= 1,
            p == nanos * hz,
    ;
    let c = (p + 999_999_999) / 1_000_000_000;
    vstd::arithmetic::div_mod::lemma_fundamental_div_mod(p + 999_999_999, 1_000_000_000);
    vstd::arithmetic::div_mod::lemma_mod_bound(p + 999_999_999, 1_000_000_000);
    assert(c >= 1);
}

/// The run ends exactly when the target cycle is reached, and each batch
/// never reaches past it.
pub proof fn lemma_run_step_bounded(now: u64, target: u64, fuel: u64)
    ensures
        (now >= target) == (run_step_spec(now, target, fuel) == RunStep::Done),
        run_step_spec(now, target, fuel) matches RunStep::Advance(req) ==> req.cycle_limit
            matches Some(l) && now + l == target,
{
}

/// `run_step` as a specification.
pub open spec fn run_step_spec(now: u64, target: u64, batch_fuel: u64) -> RunStep {
    if now >= target {
        RunStep::Done
    } else {
        RunStep::Advance(
            AdvanceRequest { fuel: Some(batch_fuel), cycle_limit: Some((target - now) as u64) },
        )
    }
}

/// One machine, driven step by step from a script.
pub struct Session<M: SessionMachine> {
    machine: M,
    uart: UartStream,
    cpu_hz: u64,
    opts: OpenOptions,
}

impl<M: SessionMachine> Session<M> {
    /// A session has a clock and a non-zero batch; `open` establishes it
    /// and nothing changes either.
    pub open spec fn wf(self) -> bool {
        self.clock_hz() > 0 && self.options().batch_fuel > 0
    }

    /// The clock this session converts cycles with.
    pub closed spec fn clock_hz(self) -> u64 {
        self.cpu_hz
    }

    /// The options the session was opened with.
    pub closed spec fn options(self) -> OpenOptions {
        self.opts
    }

    /// The console read cursor.
    pub closed spec fn cursor(self) -> usize {
        self.uart@
    }

    /// Wrap a built machine and its console. The clock is the options',
    /// else the system's, else the chip's; a zero clock or a zero batch
    /// refuses the session. `open_clock` makes the same decision from the
    /// plain values alone, before any machine is built.
    pub fn open(
        machine: M,
        uart: UartWires,
        system_hz: Option<u64>,
        chip_hz: u64,
        chip_name: String,
        opts: OpenOptions,
    ) -> (r: Result<Session<M>, OpenError>)
        ensures
            resolve_cpu_hz_spec(opts.cpu_hz, system_hz, chip_hz) == 0 ==> r == Err::<
                Session<M>,
                OpenError,
            >(OpenError::NoClock { chip: chip_name }),
            resolve_cpu_hz_spec(opts.cpu_hz, system_hz, chip_hz) != 0 && opts.batch_fuel == 0
                ==> r == Err::<Session<M>, OpenError>(OpenError::ZeroBatchFuel),
            resolve_cpu_hz_spec(opts.cpu_hz, system_hz, chip_hz) != 0 && opts.batch_fuel != 0
                ==> (r matches Ok(s) && s.clock_hz() == resolve_cpu_hz_spec(
                opts.cpu_hz,
                system_hz,
                chip_hz,
            ) && s.options() == opts && s.cursor() == 0 && s.wf()),
    {
        match open_clock(&opts, system_hz, chip_hz, chip_name) {
            Ok(cpu_hz) => Ok(Session { machine, uart: UartStream::new(uart), cpu_hz, opts }),
            Err(e) => Err(e),
        }
    }

    /// Look for `p` in the unread console bytes. On a match the cursor moves
    /// to its end and the match's text, groups and the current virtual time
    /// come back; without one nothing changes.
    pub fn take_match(&mut self, p: &Pattern) -> (r: Option<Match>)
        requires
            old(self).wf(),
        ensures
            final(self).clock_hz() == old(self).clock_hz(),
            final(self).options() == old(self).options(),
            exists|un: Seq<u8>|
                #![trigger regex_captures_of(p@, un)]
                is_unread_at(un, old(self).cursor() as nat) && match regex_captures_of(p@, un) {
                    None => r is None && final(self).cursor() == old(self).cursor(),
                    Some(caps) => r matches Some(m) && match_made(m, un, caps)
                        && final(self).cursor() == old(self).cursor() + match_end(caps),
                },
    {
        let unread = self.uart.unread();
        let caps = match regex_captures(p, unread.as_slice()) {
            Some(c) => c,
            None => {
                assert(regex_captures_of(p@, unread@) is None);
                return None;
            },
        };
        let whole = match caps[0] {
            Some(sp) => sp,
            None => {
                return None;
            },
        };
        let text = utf8_lossy(bytes_between(&unread, whole.0, whole.1).as_slice());
        let mut captures: Vec<Option<String>> = Vec::new();
        let mut i: usize = 1;
        while i < caps.len()
            invariant
                1 <= i <= caps.len(),
                captures@.len() + 1 == i,
                forall|k: int|
                    0 <= k < caps.len() ==> (#[trigger] caps@[k] matches Some(sp) ==> sp.0 <= sp.1
                        <= unread.len()),
                forall|k: int|
                    0 <= k < captures@.len() ==> #[trigger] opt_text(captures@[k]) == span_text(
                        unread@,
                        caps@[k + 1],
                    ),
            decreases caps.len() - i,
        {
            let g = match caps[i] {
                Some(sp) => Some(utf8_lossy(bytes_between(&unread, sp.0, sp.1).as_slice())),
                None => None,
            };
            captures.push(g);
            i = i + 1;
        }
        let at = self.time();
        self.uart.consume(whole.1);
        let m = Match { text, captures, at };
        assert(match_made(m, unread@, caps@));
        Some(m)
    }

    /// The machine this session drives.
    pub closed spec fn machine(self) -> M {
        self.machine
    }

    /// Simulated machine cycles since the machine was built: what the
    /// machine's own `cycles` returns.
    pub fn cycles(&self) -> (r: u64)
        ensures
            call_ensures(M::cycles, (&self.machine(),), r),
    {
        self.machine.cycles()
    }

    /// The clock this session converts cycles with, in Hz.
    pub fn cpu_hz(&self) -> (r: u64)
        ensures
            r == self.clock_hz(),
    {
        self.cpu_hz
    }

    /// Fuel per advance batch.
    pub fn batch_fuel(&self) -> (r: u64)
        ensures
            r == self.options().batch_fuel,
    {
        self.opts.batch_fuel
    }

    /// Run one batch on the machine.
    pub fn advance(&mut self, req: AdvanceRequest) -> (r: SimResult<AdvanceReport>)
        ensures
            final(self).clock_hz() == old(self).clock_hz(),
            final(self).options() == old(self).options(),
            final(self).cursor() == old(self).cursor(),
    {
        self.machine.advance(req)
    }

    /// Virtual time: the machine's cycles at the session's clock.
    pub fn time(&self) -> (r: Duration)
        requires
            self.wf(),
        ensures
            exists|c: u64| r == #[trigger] duration_of_nanos(time_nanos_of(c, self.clock_hz())),
    {
        let c = self.machine.cycles();
        let r = duration_from_nanos(time_nanos(c, self.cpu_hz));
        assert(r == duration_of_nanos(time_nanos_of(c, self.clock_hz())));
        r
    }

    /// Cycles covering `d` at this session's clock, rounded up, at least one.
    pub fn cycles_for(&self, d: Duration) -> (r: u64)
        ensures
            r >= 1,
            forall|n: u64|
                #[trigger] duration_of_nanos(n) == d && n * self.clock_hz() <= u128::MAX
                    - 999_999_999 ==> r == cycles_for_nanos(n as u128, self.clock_hz()),
    {
        let n = duration_as_nanos(&d);
        cycles_needed(n, self.cpu_hz)
    }

    /// Queue bytes on every UART RX feeder; firmware sees them as time
    /// advances.
    pub fn send(&mut self, bytes: &[u8])
        ensures
            final(self).cursor() == old(self).cursor(),
            final(self).clock_hz() == old(self).clock_hz(),
            final(self).options() == old(self).options(),
    {
        self.uart.send(bytes);
    }

    /// Drain the console bytes not yet read or matched.
    pub fn read_uart(&mut self) -> (r: Vec<u8>)
        ensures
            is_unread_at(r@, old(self).cursor() as nat),
            final(self).cursor() == old(self).cursor() + r.len(),
            final(self).clock_hz() == old(self).clock_hz(),
            final(self).options() == old(self).options(),
    {
        let unread = self.uart.unread();
        if unread.len() > 0 {
            self.uart.consume(unread.len());
        }
        unread
    }

    /// Everything the console has printed since the session opened (lossy
    /// UTF-8).
    pub fn uart_transcript(&self) -> (r: String)
        ensures
            exists|all: Seq<u8>| r@ == #[trigger] utf8_lossy_of(all),
    {
        utf8_lossy(&self.uart.all())
    }
}

/// `resolve_cpu_hz` as a specification.
pub open spec fn resolve_cpu_hz_spec(opts_hz: Option<u64>, system_hz: Option<u64>, chip_hz: u64) -> u64 {
    match opts_hz {
        Some(h) => h,
        None => match system_hz {
            Some(h) => h,
            None => chip_hz,
        },
    }
}

/// The text `String::from_utf8_lossy` makes of `bytes`.
pub uninterp spec fn utf8_lossy_of(bytes: Seq<u8>) -> Seq<char>;

/// `String::from_utf8_lossy`, owned: `bytes` as text, invalid sequences
/// replaced; named, since the decoding takes pages to state.
#[verifier::external_body]
fn utf8_lossy(bytes: &[u8]) -> (r: String)
    ensures
        r@ == utf8_lossy_of(bytes@),
{
    String::from_utf8_lossy(bytes).into_owned()
}

} // verus!
