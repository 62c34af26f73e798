//! Nordic nRF54L CLOCK: XO / PLL / LFCLK oscillator control.
//!
//! A start task reports its oscillator running at once; its STARTED event
//! settles one tick later, through the legacy walk (a pending flag converted
//! by the next `tick`) or, once the bus attaches a cycle clock, through a
//! scheduled event delivered to `on_event`.

use crate::cycle_clock::CycleClock;
use crate::{EventResult, EventScheduler, PeripheralTickResult, SimResult};
use vstd::prelude::*;

verus! {

pub const OFF_TASKS_XOSTART: u64 = 0x000;
pub const OFF_TASKS_XOSTOP: u64 = 0x004;
pub const OFF_TASKS_PLLSTART: u64 = 0x008;
pub const OFF_TASKS_PLLSTOP: u64 = 0x00C;
pub const OFF_TASKS_LFCLKSTART: u64 = 0x010;
pub const OFF_TASKS_LFCLKSTOP: u64 = 0x014;
pub const OFF_TASKS_CAL: u64 = 0x018;
pub const OFF_EVENTS_XOSTARTED: u64 = 0x100;
pub const OFF_EVENTS_PLLSTARTED: u64 = 0x104;
pub const OFF_EVENTS_LFCLKSTARTED: u64 = 0x108;
pub const OFF_EVENTS_DONE: u64 = 0x10C;
pub const OFF_INTEN: u64 = 0x300;
pub const OFF_INTENSET: u64 = 0x304;
pub const OFF_INTENCLR: u64 = 0x308;
pub const OFF_INTPEND: u64 = 0x30C;
pub const OFF_XO_RUN: u64 = 0x408;
pub const OFF_XO_STAT: u64 = 0x40C;
pub const OFF_PLL_RUN: u64 = 0x428;
pub const OFF_PLL_STAT: u64 = 0x42C;
pub const OFF_LFCLK_SRC: u64 = 0x440;
pub const OFF_LFCLK_RUN: u64 = 0x448;
pub const OFF_LFCLK_STAT: u64 = 0x44C;
pub const OFF_LFCLK_SRCCOPY: u64 = 0x450;

/// STATE bit of XO.STAT / PLL.STAT / LFCLK.STAT.
pub const STAT_STATE: u32 = 0x1_0000;
/// SRC field of LFCLK.STAT / LFCLK.SRC.
pub const LFCLK_SRC_MASK: u32 = 0x3;
/// RUN.STATUS "triggered".
pub const RUN_TRIGGERED: u32 = 1;
pub const INTEN_XOSTARTED: u32 = 1;
pub const INTEN_PLLSTARTED: u32 = 2;
pub const INTEN_LFCLKSTARTED: u32 = 4;
pub const INTEN_DONE: u32 = 8;

/// Event tokens, one per deferred STARTED/DONE latch.
pub const EV_XOSTARTED: u32 = 0;
pub const EV_PLLSTARTED: u32 = 1;
pub const EV_LFCLKSTARTED: u32 = 2;
pub const EV_DONE: u32 = 3;
/// A STARTED event settles one cycle after its task.
pub const SETTLE_DELAY: u64 = 1;

/// The mathematical state of the CLOCK block.
pub struct ClockView {
    pub events_xostarted: u32,
    pub events_pllstarted: u32,
    pub events_lfclkstarted: u32,
    pub events_done: u32,
    pub pending_xostarted: bool,
    pub pending_pllstarted: bool,
    pub pending_lfclkstarted: bool,
    pub pending_done: bool,
    pub xo_run: u32,
    pub xo_stat: u32,
    pub pll_run: u32,
    pub pll_stat: u32,
    pub lfclk_src: u32,
    pub lfclk_run: u32,
    pub lfclk_stat: u32,
    pub lfclk_srccopy: u32,
    pub inten: u32,
    /// A cycle clock is attached: events settle through the scheduler.
    pub scheduler: bool,
    /// Events armed for the scheduler, not yet taken.
    pub armed: Seq<(u64, u32)>,
}

impl ClockView {
    pub open spec fn initial() -> Self {
        ClockView {
            events_xostarted: 0,
            events_pllstarted: 0,
            events_lfclkstarted: 0,
            events_done: 0,
            pending_xostarted: false,
            pending_pllstarted: false,
            pending_lfclkstarted: false,
            pending_done: false,
            xo_run: 0,
            xo_stat: 0,
            pll_run: 0,
            pll_stat: 0,
            lfclk_src: 0,
            lfclk_run: 0,
            lfclk_stat: 0,
            lfclk_srccopy: 0,
            inten: 0,
            scheduler: false,
            armed: Seq::empty(),
        }
    }

    /// Latched events, in INTEN bit positions.
    pub open spec fn event_bitmap(self) -> u32 {
        (if self.events_xostarted != 0 {
            INTEN_XOSTARTED
        } else {
            0
        }) | (if self.events_pllstarted != 0 {
            INTEN_PLLSTARTED
        } else {
            0
        }) | (if self.events_lfclkstarted != 0 {
            INTEN_LFCLKSTARTED
        } else {
            0
        }) | (if self.events_done != 0 {
            INTEN_DONE
        } else {
            0
        })
    }

    /// Arm the deferred latch of `token` through the live path.
    pub open spec fn arm(self, token: u32) -> Self {
        if self.scheduler {
            ClockView { armed: self.armed.push((SETTLE_DELAY, token)), ..self }
        } else if token == EV_XOSTARTED {
            ClockView { pending_xostarted: true, ..self }
        } else if token == EV_PLLSTARTED {
            ClockView { pending_pllstarted: true, ..self }
        } else if token == EV_LFCLKSTARTED {
            ClockView { pending_lfclkstarted: true, ..self }
        } else {
            ClockView { pending_done: true, ..self }
        }
    }

    /// Latch the event of `token`; unknown tokens change nothing.
    pub open spec fn settle(self, token: u32) -> Self {
        if token == EV_XOSTARTED {
            ClockView { events_xostarted: 1, ..self }
        } else if token == EV_PLLSTARTED {
            ClockView { events_pllstarted: 1, ..self }
        } else if token == EV_LFCLKSTARTED {
            ClockView { events_lfclkstarted: 1, ..self }
        } else if token == EV_DONE {
            ClockView { events_done: 1, ..self }
        } else {
            self
        }
    }

    /// Whether settling `token` raises the line: a known token and any
    /// enabled event latched.
    pub open spec fn settle_irq(self, token: u32) -> bool {
        token <= EV_DONE && self.inten & self.settle(token).event_bitmap() != 0
    }

    /// The word a 32-bit read at `off` returns.
    pub open spec fn read_word(self, off: u64) -> u32 {
        if off == OFF_EVENTS_XOSTARTED {
            self.events_xostarted
        } else if off == OFF_EVENTS_PLLSTARTED {
            self.events_pllstarted
        } else if off == OFF_EVENTS_LFCLKSTARTED {
            self.events_lfclkstarted
        } else if off == OFF_EVENTS_DONE {
            self.events_done
        } else if off == OFF_INTEN || off == OFF_INTENSET || off == OFF_INTENCLR {
            self.inten
        } else if off == OFF_INTPEND {
            self.inten & self.event_bitmap()
        } else if off == OFF_XO_RUN {
            self.xo_run
        } else if off == OFF_XO_STAT {
            self.xo_stat
        } else if off == OFF_PLL_RUN {
            self.pll_run
        } else if off == OFF_PLL_STAT {
            self.pll_stat
        } else if off == OFF_LFCLK_SRC {
            self.lfclk_src
        } else if off == OFF_LFCLK_RUN {
            self.lfclk_run
        } else if off == OFF_LFCLK_STAT {
            self.lfclk_stat
        } else if off == OFF_LFCLK_SRCCOPY {
            self.lfclk_srccopy
        } else {
            0
        }
    }

    /// A 32-bit write of `value` at `off`. Tasks act on a set bit 0, events
    /// clear on a written zero, status registers ignore writes.
    pub open spec fn write_word(self, off: u64, value: u32) -> Self {
        let go = value & 1 != 0;
        if off == OFF_TASKS_XOSTART {
            if go {
                ClockView { xo_run: RUN_TRIGGERED, xo_stat: STAT_STATE, ..self }.arm(
                    EV_XOSTARTED,
                )
            } else {
                self
            }
        } else if off == OFF_TASKS_XOSTOP {
            if go {
                ClockView { xo_run: 0, xo_stat: 0, ..self }
            } else {
                self
            }
        } else if off == OFF_TASKS_PLLSTART {
            if go {
                ClockView { pll_run: RUN_TRIGGERED, pll_stat: STAT_STATE, ..self }.arm(
                    EV_PLLSTARTED,
                )
            } else {
                self
            }
        } else if off == OFF_TASKS_PLLSTOP {
            if go {
                ClockView { pll_run: 0, pll_stat: 0, ..self }
            } else {
                self
            }
        } else if off == OFF_TASKS_LFCLKSTART {
            if go {
                let src = self.lfclk_src & LFCLK_SRC_MASK;
                ClockView {
                    lfclk_run: RUN_TRIGGERED,
                    lfclk_stat: STAT_STATE | src,
                    lfclk_srccopy: src,
                    ..self
                }.arm(EV_LFCLKSTARTED)
            } else {
                self
            }
        } else if off == OFF_TASKS_LFCLKSTOP {
            if go {
                ClockView { lfclk_run: 0, lfclk_stat: 0, ..self }
            } else {
                self
            }
        } else if off == OFF_TASKS_CAL {
            if go {
                self.arm(EV_DONE)
            } else {
                self
            }
        } else if off == OFF_EVENTS_XOSTARTED {
            if value == 0 {
                ClockView { events_xostarted: 0, ..self }
            } else {
                self
            }
        } else if off == OFF_EVENTS_PLLSTARTED {
            if value == 0 {
                ClockView { events_pllstarted: 0, ..self }
            } else {
                self
            }
        } else if off == OFF_EVENTS_LFCLKSTARTED {
            if value == 0 {
                ClockView { events_lfclkstarted: 0, ..self }
            } else {
                self
            }
        } else if off == OFF_EVENTS_DONE {
            if value == 0 {
                ClockView { events_done: 0, ..self }
            } else {
                self
            }
        } else if off == OFF_INTEN {
            ClockView { inten: value, ..self }
        } else if off == OFF_INTENSET {
            ClockView { inten: self.inten | value, ..self }
        } else if off == OFF_INTENCLR {
            ClockView { inten: self.inten & !value, ..self }
        } else if off == OFF_LFCLK_SRC {
            ClockView { lfclk_src: value & LFCLK_SRC_MASK, ..self }
        } else {
            self
        }
    }

    /// One walk tick: every pending start settles into its event.
    pub open spec fn tick(self) -> Self {
        ClockView {
            pending_xostarted: false,
            pending_pllstarted: false,
            pending_lfclkstarted: false,
            pending_done: false,
            events_xostarted: if self.pending_xostarted {
                1
            } else {
                self.events_xostarted
            },
            events_pllstarted: if self.pending_pllstarted {
                1
            } else {
                self.events_pllstarted
            },
            events_lfclkstarted: if self.pending_lfclkstarted {
                1
            } else {
                self.events_lfclkstarted
            },
            events_done: if self.pending_done {
                1
            } else {
                self.events_done
            },
            ..self
        }
    }
}

/// Events are hardware-owned: a software write of anything but zero to an
/// event register changes nothing, and a zero clears it.
pub proof fn lemma_event_writes(v: ClockView, off: u64, value: u32)
    requires
        off == OFF_EVENTS_XOSTARTED || off == OFF_EVENTS_PLLSTARTED || off
            == OFF_EVENTS_LFCLKSTARTED || off == OFF_EVENTS_DONE,
    ensures
        value != 0 ==> v.write_word(off, value) == v,
        v.write_word(off, 0).read_word(off) == 0,
{
}

/// An LFCLK start latches the running state and the selected source into
/// STAT and SRCCOPY at once; the STARTED event waits for the next tick on
/// the walk (or for delivery on the scheduler).
pub proof fn lemma_lfclk_start(v: ClockView, value: u32)
    requires
        value & 1 != 0,
    ensures
        v.write_word(OFF_TASKS_LFCLKSTART, value).read_word(OFF_LFCLK_STAT) == STAT_STATE | (
        v.lfclk_src & LFCLK_SRC_MASK),
        v.write_word(OFF_TASKS_LFCLKSTART, value).read_word(OFF_LFCLK_SRCCOPY) == v.lfclk_src
            & LFCLK_SRC_MASK,
        v.write_word(OFF_TASKS_LFCLKSTART, value).events_lfclkstarted == v.events_lfclkstarted,
        !v.scheduler ==> v.write_word(OFF_TASKS_LFCLKSTART, value).tick().read_word(
            OFF_EVENTS_LFCLKSTARTED,
        ) == 1,
        v.scheduler ==> v.write_word(OFF_TASKS_LFCLKSTART, value).armed == v.armed.push(
            (SETTLE_DELAY, EV_LFCLKSTARTED),
        ),
{
}

/// A stop task clears the oscillator's status.
pub proof fn lemma_stop_clears_status(v: ClockView, value: u32)
    requires
        value & 1 != 0,
    ensures
        v.write_word(OFF_TASKS_XOSTOP, value).read_word(OFF_XO_STAT) == 0,
        v.write_word(OFF_TASKS_LFCLKSTOP, value).read_word(OFF_LFCLK_STAT) == 0,
        v.write_word(OFF_TASKS_PLLSTOP, value).read_word(OFF_PLL_STAT) == 0,
{
}

/// A PLL start (bit 0 set) latches PLLSTARTED and nothing else: on the walk
/// the next tick reads EVENTS_PLLSTARTED as 1 and EVENTS_XOSTARTED as a tick
/// without the start would; on the scheduler one event is armed, for the PLL,
/// and delivering it latches PLLSTARTED alone. The XO start is the mirror
/// image.
pub proof fn lemma_pll_and_xo_starts_latch_their_own_event(v: ClockView, value: u32)
    requires
        value & 1 != 0,
    ensures
        !v.scheduler ==> v.write_word(OFF_TASKS_PLLSTART, value).tick().read_word(
            OFF_EVENTS_PLLSTARTED,
        ) == 1,
        !v.scheduler ==> v.write_word(OFF_TASKS_PLLSTART, value).tick().read_word(
            OFF_EVENTS_XOSTARTED,
        ) == v.tick().read_word(OFF_EVENTS_XOSTARTED),
        !v.scheduler ==> v.write_word(OFF_TASKS_XOSTART, value).tick().read_word(
            OFF_EVENTS_XOSTARTED,
        ) == 1,
        !v.scheduler ==> v.write_word(OFF_TASKS_XOSTART, value).tick().read_word(
            OFF_EVENTS_PLLSTARTED,
        ) == v.tick().read_word(OFF_EVENTS_PLLSTARTED),
        v.scheduler ==> v.write_word(OFF_TASKS_PLLSTART, value).armed == v.armed.push(
            (SETTLE_DELAY, EV_PLLSTARTED),
        ),
        v.scheduler ==> v.write_word(OFF_TASKS_XOSTART, value).armed == v.armed.push(
            (SETTLE_DELAY, EV_XOSTARTED),
        ),
        v.settle(EV_PLLSTARTED).read_word(OFF_EVENTS_PLLSTARTED) == 1,
        v.settle(EV_PLLSTARTED).read_word(OFF_EVENTS_XOSTARTED) == v.read_word(OFF_EVENTS_XOSTARTED),
        v.settle(EV_XOSTARTED).read_word(OFF_EVENTS_XOSTARTED) == 1,
        v.settle(EV_XOSTARTED).read_word(OFF_EVENTS_PLLSTARTED) == v.read_word(OFF_EVENTS_PLLSTARTED),
{
}

/// The LFCLK start and the calibration task latch their own event and no
/// other: on the walk, after the task and a tick, LFCLKSTARTED (DONE) reads
/// 1 and each other event reads what a tick alone leaves; on the scheduler
/// exactly their own event is armed.
pub proof fn lemma_lfclk_and_cal_latch_their_own_event(v: ClockView, value: u32)
    requires
        value & 1 != 0,
    ensures
        ({
            let w = v.write_word(OFF_TASKS_LFCLKSTART, value).tick();
            !v.scheduler ==> {
                &&& w.read_word(OFF_EVENTS_LFCLKSTARTED) == 1
                &&& w.read_word(OFF_EVENTS_XOSTARTED) == v.tick().read_word(OFF_EVENTS_XOSTARTED)
                &&& w.read_word(OFF_EVENTS_PLLSTARTED) == v.tick().read_word(OFF_EVENTS_PLLSTARTED)
                &&& w.read_word(OFF_EVENTS_DONE) == v.tick().read_word(OFF_EVENTS_DONE)
            }
        }),
        ({
            let w = v.write_word(OFF_TASKS_CAL, value).tick();
            !v.scheduler ==> {
                &&& w.read_word(OFF_EVENTS_DONE) == 1
                &&& w.read_word(OFF_EVENTS_XOSTARTED) == v.tick().read_word(OFF_EVENTS_XOSTARTED)
                &&& w.read_word(OFF_EVENTS_PLLSTARTED) == v.tick().read_word(OFF_EVENTS_PLLSTARTED)
                &&& w.read_word(OFF_EVENTS_LFCLKSTARTED) == v.tick().read_word(OFF_EVENTS_LFCLKSTARTED)
            }
        }),
        v.scheduler ==> v.write_word(OFF_TASKS_CAL, value).armed == v.armed.push(
            (SETTLE_DELAY, EV_DONE),
        ),
        v.scheduler ==> v.write_word(OFF_TASKS_LFCLKSTART, value).armed == v.armed.push(
            (SETTLE_DELAY, EV_LFCLKSTARTED),
        ),
        v.settle(EV_DONE).read_word(OFF_EVENTS_DONE) == 1,
        v.settle(EV_LFCLKSTARTED).read_word(OFF_EVENTS_LFCLKSTARTED) == 1,
{
}

/// INTENSET sets the written bits, INTENCLR clears them, INTEN replaces the
/// mask; all three read the mask back.
pub proof fn lemma_inten_set_and_clear(v: ClockView, value: u32)
    ensures
        v.write_word(OFF_INTENSET, value).read_word(OFF_INTEN) == v.read_word(OFF_INTEN) | value,
        v.write_word(OFF_INTENCLR, value).read_word(OFF_INTEN) == v.read_word(OFF_INTEN) & !value,
        v.write_word(OFF_INTEN, value).read_word(OFF_INTEN) == value,
        v.read_word(OFF_INTENSET) == v.read_word(OFF_INTEN),
        v.read_word(OFF_INTENCLR) == v.read_word(OFF_INTEN),
{
}

/// Settling an event raises the line exactly when INTEN enables some event
/// that is then latched; with INTEN clear it never does.
pub proof fn lemma_settle_irq_gated_by_inten(v: ClockView, token: u32)
    ensures
        v.inten == 0 ==> !v.settle_irq(token),
        v.settle_irq(token) <==> (token <= EV_DONE && v.settle(token).read_word(OFF_INTPEND) != 0),
{
    let b = v.settle(token).event_bitmap();
    assert(0u32 & b == 0) by (bit_vector);
}

/// The register state a CLOCK snapshot records: everything but the
/// attached cycle clock and the armed events.
#[derive(Debug, Clone, Copy, PartialEq, Eq)]
pub struct ClockSnapshot {
    pub events_xostarted: u32,
    pub events_pllstarted: u32,
    pub events_lfclkstarted: u32,
    pub events_done: u32,
    pub pending_xostarted: bool,
    pub pending_pllstarted: bool,
    pub pending_lfclkstarted: bool,
    pub pending_done: bool,
    pub xo_run: u32,
    pub xo_stat: u32,
    pub pll_run: u32,
    pub pll_stat: u32,
    pub lfclk_src: u32,
    pub lfclk_run: u32,
    pub lfclk_stat: u32,
    pub lfclk_srccopy: u32,
    pub inten: u32,
}

/// The nRF54L CLOCK peripheral.
#[derive(Debug)]
pub struct Nrf54lClock {
    events_xostarted: u32,
    events_pllstarted: u32,
    events_lfclkstarted: u32,
    events_done: u32,
    pub pending_xostarted: bool,
    pub pending_pllstarted: bool,
    pub pending_lfclkstarted: bool,
    pub pending_done: bool,
    xo_run: u32,
    xo_stat: u32,
    pll_run: u32,
    pll_stat: u32,
    lfclk_src: u32,
    lfclk_run: u32,
    lfclk_stat: u32,
    lfclk_srccopy: u32,
    inten: u32,
    clock: Option<CycleClock>,
    armed: Vec<(u64, u32)>,
}

impl View for Nrf54lClock {
    type V = ClockView;

    closed spec fn view(&self) -> ClockView {
        ClockView {
            events_xostarted: self.events_xostarted,
            events_pllstarted: self.events_pllstarted,
            events_lfclkstarted: self.events_lfclkstarted,
            events_done: self.events_done,
            pending_xostarted: self.pending_xostarted,
            pending_pllstarted: self.pending_pllstarted,
            pending_lfclkstarted: self.pending_lfclkstarted,
            pending_done: self.pending_done,
            xo_run: self.xo_run,
            xo_stat: self.xo_stat,
            pll_run: self.pll_run,
            pll_stat: self.pll_stat,
            lfclk_src: self.lfclk_src,
            lfclk_run: self.lfclk_run,
            lfclk_stat: self.lfclk_stat,
            lfclk_srccopy: self.lfclk_srccopy,
            inten: self.inten,
            scheduler: self.clock is Some,
            armed: self.armed@,
        }
    }
}

impl Nrf54lClock {
    /// Every oscillator stopped, no event latched, on the legacy walk.
    pub fn new() -> (r: Self)
        ensures
            r@ == ClockView::initial(),
    {
        Nrf54lClock {
            events_xostarted: 0,
            events_pllstarted: 0,
            events_lfclkstarted: 0,
            events_done: 0,
            pending_xostarted: false,
            pending_pllstarted: false,
            pending_lfclkstarted: false,
            pending_done: false,
            xo_run: 0,
            xo_stat: 0,
            pll_run: 0,
            pll_stat: 0,
            lfclk_src: 0,
            lfclk_run: 0,
            lfclk_stat: 0,
            lfclk_srccopy: 0,
            inten: 0,
            clock: None,
            armed: Vec::new(),
        }
    }

    /// Events settle through the scheduler once a cycle clock is attached.
    fn scheduler_mode(&self) -> (r: bool)
        ensures
            r == self@.scheduler,
    {
        self.clock.is_some()
    }

    /// Arm the deferred latch of `token` through whichever path is live.
    fn arm(&mut self, token: u32)
        ensures
            final(self)@ == old(self)@.arm(token),
    {
        if self.scheduler_mode() {
            self.armed.push((SETTLE_DELAY, token));
        } else if token == EV_XOSTARTED {
            self.pending_xostarted = true;
        } else if token == EV_PLLSTARTED {
            self.pending_pllstarted = true;
        } else if token == EV_LFCLKSTARTED {
            self.pending_lfclkstarted = true;
        } else {
            self.pending_done = true;
        }
    }

    /// Latch one settled event; report whether the line should rise. The
    /// line reflects the whole event bitmap, not only this event.
    fn settle(&mut self, token: u32) -> (r: bool)
        ensures
            final(self)@ == old(self)@.settle(token),
            r == old(self)@.settle_irq(token),
    {
        if token == EV_XOSTARTED {
            self.events_xostarted = 1;
        } else if token == EV_PLLSTARTED {
            self.events_pllstarted = 1;
        } else if token == EV_LFCLKSTARTED {
            self.events_lfclkstarted = 1;
        } else if token == EV_DONE {
            self.events_done = 1;
        } else {
            return false;
        }
        self.inten & self.event_bitmap() != 0
    }

    /// Bitmap of latched events, in INTEN bit positions.
    fn event_bitmap(&self) -> (r: u32)
        ensures
            r == self@.event_bitmap(),
    {
        (if self.events_xostarted != 0 {
            INTEN_XOSTARTED
        } else {
            0
        }) | (if self.events_pllstarted != 0 {
            INTEN_PLLSTARTED
        } else {
            0
        }) | (if self.events_lfclkstarted != 0 {
            INTEN_LFCLKSTARTED
        } else {
            0
        }) | (if self.events_done != 0 {
            INTEN_DONE
        } else {
            0
        })
    }

    /// 32-bit register file: byte reads return zero.
    pub fn read(&self, offset: u64) -> (r: SimResult<u8>)
        ensures
            r == Ok::<u8, crate::SimulationError>(0),
    {
        Ok(0)
    }

    /// 32-bit register file: byte writes are ignored.
    pub fn write(&mut self, offset: u64, value: u8) -> (r: SimResult<()>)
        ensures
            r is Ok,
            final(self)@ == old(self)@,
    {
        Ok(())
    }

    /// Word read.
    pub fn read_u32(&self, offset: u64) -> (r: SimResult<u32>)
        ensures
            r == Ok::<u32, crate::SimulationError>(self@.read_word(offset)),
    {
        let v = if offset == OFF_EVENTS_XOSTARTED {
            self.events_xostarted
        } else if offset == OFF_EVENTS_PLLSTARTED {
            self.events_pllstarted
        } else if offset == OFF_EVENTS_LFCLKSTARTED {
            self.events_lfclkstarted
        } else if offset == OFF_EVENTS_DONE {
            self.events_done
        } else if offset == OFF_INTEN || offset == OFF_INTENSET || offset == OFF_INTENCLR {
            self.inten
        } else if offset == OFF_INTPEND {
            self.inten & self.event_bitmap()
        } else if offset == OFF_XO_RUN {
            self.xo_run
        } else if offset == OFF_XO_STAT {
            self.xo_stat
        } else if offset == OFF_PLL_RUN {
            self.pll_run
        } else if offset == OFF_PLL_STAT {
            self.pll_stat
        } else if offset == OFF_LFCLK_SRC {
            self.lfclk_src
        } else if offset == OFF_LFCLK_RUN {
            self.lfclk_run
        } else if offset == OFF_LFCLK_STAT {
            self.lfclk_stat
        } else if offset == OFF_LFCLK_SRCCOPY {
            self.lfclk_srccopy
        } else {
            0
        };
        Ok(v)
    }

    /// Word write.
    pub fn write_u32(&mut self, offset: u64, value: u32) -> (r: SimResult<()>)
        ensures
            r is Ok,
            final(self)@ == old(self)@.write_word(offset, value),
    {
        let go = value & 1 != 0;
        if offset == OFF_TASKS_XOSTART {
            if go {
                self.xo_run = RUN_TRIGGERED;
                self.xo_stat = STAT_STATE;
                self.arm(EV_XOSTARTED);
            }
        } else if offset == OFF_TASKS_XOSTOP {
            if go {
                self.xo_run = 0;
                self.xo_stat = 0;
            }
        } else if offset == OFF_TASKS_PLLSTART {
            if go {
                self.pll_run = RUN_TRIGGERED;
                self.pll_stat = STAT_STATE;
                self.arm(EV_PLLSTARTED);
            }
        } else if offset == OFF_TASKS_PLLSTOP {
            if go {
                self.pll_run = 0;
                self.pll_stat = 0;
            }
        } else if offset == OFF_TASKS_LFCLKSTART {
            if go {
                let src = self.lfclk_src & LFCLK_SRC_MASK;
                self.lfclk_run = RUN_TRIGGERED;
                self.lfclk_stat = STAT_STATE | src;
                self.lfclk_srccopy = src;
                self.arm(EV_LFCLKSTARTED);
            }
        } else if offset == OFF_TASKS_LFCLKSTOP {
            if go {
                self.lfclk_run = 0;
                self.lfclk_stat = 0;
            }
        } else if offset == OFF_TASKS_CAL {
            if go {
                self.arm(EV_DONE);
            }
        } else if offset == OFF_EVENTS_XOSTARTED {
            if value == 0 {
                self.events_xostarted = 0;
            }
        } else if offset == OFF_EVENTS_PLLSTARTED {
            if value == 0 {
                self.events_pllstarted = 0;
            }
        } else if offset == OFF_EVENTS_LFCLKSTARTED {
            if value == 0 {
                self.events_lfclkstarted = 0;
            }
        } else if offset == OFF_EVENTS_DONE {
            if value == 0 {
                self.events_done = 0;
            }
        } else if offset == OFF_INTEN {
            self.inten = value;
        } else if offset == OFF_INTENSET {
            self.inten = self.inten | value;
        } else if offset == OFF_INTENCLR {
            self.inten = self.inten & !value;
        } else if offset == OFF_LFCLK_SRC {
            self.lfclk_src = value & LFCLK_SRC_MASK;
        }
        Ok(())
    }

    /// One walk tick: pending starts settle; the line is the enabled events.
    pub fn tick(&mut self) -> (r: PeripheralTickResult)
        ensures
            final(self)@ == old(self)@.tick(),
            r.irq == (old(self)@.tick().inten & old(self)@.tick().event_bitmap() != 0),
            r.cycles == 1,
            r.explicit_irqs is None,
    {
        if self.pending_xostarted {
            self.pending_xostarted = false;
            self.events_xostarted = 1;
        }
        if self.pending_pllstarted {
            self.pending_pllstarted = false;
            self.events_pllstarted = 1;
        }
        if self.pending_lfclkstarted {
            self.pending_lfclkstarted = false;
            self.events_lfclkstarted = 1;
        }
        if self.pending_done {
            self.pending_done = false;
            self.events_done = 1;
        }
        let irq = self.inten & self.event_bitmap() != 0;
        PeripheralTickResult { irq, cycles: 1, explicit_irqs: None }
    }

    /// The register state, for snapshots.
    pub fn snapshot(&self) -> (r: ClockSnapshot)
        ensures
            r == (ClockSnapshot {
                events_xostarted: self@.events_xostarted,
                events_pllstarted: self@.events_pllstarted,
                events_lfclkstarted: self@.events_lfclkstarted,
                events_done: self@.events_done,
                pending_xostarted: self@.pending_xostarted,
                pending_pllstarted: self@.pending_pllstarted,
                pending_lfclkstarted: self@.pending_lfclkstarted,
                pending_done: self@.pending_done,
                xo_run: self@.xo_run,
                xo_stat: self@.xo_stat,
                pll_run: self@.pll_run,
                pll_stat: self@.pll_stat,
                lfclk_src: self@.lfclk_src,
                lfclk_run: self@.lfclk_run,
                lfclk_stat: self@.lfclk_stat,
                lfclk_srccopy: self@.lfclk_srccopy,
                inten: self@.inten,
            }),
    {
        ClockSnapshot {
            events_xostarted: self.events_xostarted,
            events_pllstarted: self.events_pllstarted,
            events_lfclkstarted: self.events_lfclkstarted,
            events_done: self.events_done,
            pending_xostarted: self.pending_xostarted,
            pending_pllstarted: self.pending_pllstarted,
            pending_lfclkstarted: self.pending_lfclkstarted,
            pending_done: self.pending_done,
            xo_run: self.xo_run,
            xo_stat: self.xo_stat,
            pll_run: self.pll_run,
            pll_stat: self.pll_stat,
            lfclk_src: self.lfclk_src,
            lfclk_run: self.lfclk_run,
            lfclk_stat: self.lfclk_stat,
            lfclk_srccopy: self.lfclk_srccopy,
            inten: self.inten,
        }
    }

    /// Attach the bus's cycle clock: from now on events go to the scheduler.
    pub fn attach_cycle_clock(&mut self, clock: CycleClock)
        ensures
            final(self)@ == (ClockView { scheduler: true, ..old(self)@ }),
    {
        self.clock = Some(clock);
    }

    /// Scheduler-driven once a clock is attached.
    pub fn uses_scheduler(&self) -> (r: bool)
        ensures
            r == self@.scheduler,
    {
        self.scheduler_mode()
    }

    /// The per-cycle walk is needed only without the scheduler.
    pub fn needs_legacy_walk(&self) -> (r: bool)
        ensures
            r == !self@.scheduler,
    {
        !self.scheduler_mode()
    }

    /// Hand the armed events to the scheduler, draining the buffer.
    pub fn take_scheduled_events(&mut self) -> (r: Vec<(u64, u32)>)
        ensures
            r@ == old(self)@.armed,
            final(self)@ == (ClockView { armed: Seq::empty(), ..old(self)@ }),
    {
        let mut out: Vec<(u64, u32)> = Vec::new();
        std::mem::swap(&mut out, &mut self.armed);
        out
    }

    /// Deliver a scheduled event: settle it and raise the line when an
    /// enabled event is latched.
    pub fn on_event(
        &mut self,
        event_token: u32,
        sched: &mut EventScheduler,
        bus: &mut crate::bus::RamBus,
    ) -> (r: EventResult)
        ensures
            final(self)@ == old(self)@.settle(event_token),
            r.raise_own_irq == old(self)@.settle_irq(event_token),
            r.reschedule_delay is None,
    {
        let irq = self.settle(event_token);
        EventResult { raise_own_irq: irq, reschedule_delay: None }
    }

    /// The walk has work while a start is settling.
    pub fn legacy_tick_active(&self) -> (r: bool)
        ensures
            r == (self@.pending_xostarted || self@.pending_pllstarted
                || self@.pending_lfclkstarted || self@.pending_done),
    {
        self.pending_xostarted || self.pending_pllstarted || self.pending_lfclkstarted
            || self.pending_done
    }

    /// Whether the walk activity can change between ticks.
    pub fn legacy_tick_dynamic(&self) -> (r: bool)
        ensures
            r,
    {
        true
    }
}

} // verus!
