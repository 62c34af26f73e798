//! Verified register-level models of microcontroller peripherals, and the
//! languages and schedules that declarative parts are written in.
//!
//! Every model is a plain state machine: MMIO reads and writes, time advances
//! and bus-aware transfers are methods whose contracts state the new state and
//! the returned value over a mathematical view of the peripheral. The
//! expression languages are specified by recursive grammars over their
//! tokens; the compilers and evaluators are proved against them.

use vstd::prelude::*;

pub mod bus;
pub mod c6_uart;
pub mod clock;
pub mod cycle_clock;
pub mod derived;
pub mod derived_text;
pub mod exact;
pub mod exact_text;
pub mod expr;
pub mod flash_u5_regs;
pub mod formula;
pub mod formula_text;
pub mod gdma;
pub mod gpio_device;
pub mod lp_timer;
pub mod pcr;
pub mod regs;
pub mod schedule;
pub mod scs_debug;
pub mod sd_hle;
pub mod session;
pub mod shared;
pub mod timg;
pub mod uarte;
pub mod uicr;

verus! {

/// Why a simulated access did not complete.
#[derive(Debug, Clone, Copy, PartialEq, Eq)]
pub enum SimulationError {
    /// An access landed outside the memory an object backs.
    MemoryViolation(u64),
    /// The machine stopped.
    Halt,
    /// Execution reached a breakpoint at this PC.
    BreakpointHit(u32),
}

/// Result of a simulated access.
pub type SimResult<T> = Result<T, SimulationError>;

/// What one peripheral tick reports to the bus.
#[derive(Debug, Clone, PartialEq, Eq)]
pub struct PeripheralTickResult {
    /// The peripheral's own interrupt line is raised this tick.
    pub irq: bool,
    /// Cycles the tick accounts for.
    pub cycles: u32,
    /// Interrupt-matrix sources asserted this tick, when the peripheral
    /// routes through a matrix instead of its own line.
    pub explicit_irqs: Option<Vec<u32>>,
}

impl PeripheralTickResult {
    /// No line raised, no cycles, no matrix sources.
    pub open spec fn is_quiet(self) -> bool {
        !self.irq && self.cycles == 0 && self.explicit_irqs is None
    }

    /// The quiet result: no line raised, no cycles, no matrix sources.
    pub fn quiet() -> (r: Self)
        ensures
            r.is_quiet(),
    {
        PeripheralTickResult { irq: false, cycles: 0, explicit_irqs: None }
    }
}

/// What delivering a scheduled event to a peripheral reports to the bus.
#[derive(Debug, Clone, Copy, PartialEq, Eq)]
pub struct EventResult {
    /// Pend the peripheral's own interrupt line.
    pub raise_own_irq: bool,
    /// Deliver the same event again after this many cycles.
    pub reschedule_delay: Option<u64>,
}

/// The event scheduler handed to a peripheral while it handles an event.
/// The peripherals in this crate schedule nothing through it.
#[derive(Debug)]
pub struct EventScheduler;

impl EventScheduler {
    /// An empty scheduler.
    pub fn new() -> Self {
        EventScheduler
    }
}

} // verus!
