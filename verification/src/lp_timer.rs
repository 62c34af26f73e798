//! ESP32-C6 LP_TIMER: the 48-bit RTC main timer behind `rtc_time_get()`.
//!
//! A free-running 48-bit counter advances with elapsed simulated time. A write
//! of `UPDATE.MAIN_TIMER_UPDATE` latches it into MAIN_BUF0 and shifts the
//! previous MAIN_BUF0 into MAIN_BUF1; the buffer reads return the latched
//! snapshots (16-bit high words) and do not move between strobes. With a cycle
//! clock attached the counter advances lazily to the published cycle; without
//! one each walk tick advances it by the elapsed cycles. Every other register
//! of the window is plain storage.

use crate::cycle_clock::CycleClock;
use crate::regs::{byte_of, get_byte, set_byte, with_byte, word_base};
use crate::{PeripheralTickResult, SimResult, SimulationError};
use vstd::prelude::*;

verus! {

/// Size of the LP_TIMER window.
pub const LP_TIMER_SIZE: u64 = 0x400;
/// Number of 32-bit words in the window.
pub const LP_TIMER_WORDS: usize = 0x100;
pub const UPDATE: u64 = 0x10;
pub const MAIN_BUF0_LOW: u64 = 0x14;
pub const MAIN_BUF0_HIGH: u64 = 0x18;
pub const MAIN_BUF1_LOW: u64 = 0x1C;
pub const MAIN_BUF1_HIGH: u64 = 0x20;
/// `UPDATE.MAIN_TIMER_UPDATE`: the snapshot strobe.
pub const MAIN_TIMER_UPDATE_BIT: u32 = 0x1000_0000;
/// The buffers' high words are 16-bit fields.
pub const HIGH_MASK: u32 = 0xFFFF;
/// The main timer is 48 bits wide.
pub const COUNTER_MASK: u64 = 0xFFFF_FFFF_FFFF;

/// `x` reduced to the timer's 48 bits.
pub open spec fn wrap48(x: int) -> u64 {
    (x % 0x1_0000_0000_0000) as u64
}

/// A word write at `offset` is the snapshot strobe.
pub open spec fn is_strobe(offset: u64, value: u32) -> bool {
    offset == UPDATE && value & MAIN_TIMER_UPDATE_BIT != 0
}

/// The mathematical state of the timer.
pub struct LpTimerView {
    /// The window's plain registers, one per word.
    pub regs: Seq<u32>,
    /// The live 48-bit counter.
    pub counter: u64,
    /// MAIN_BUF0: the latest snapshot.
    pub buf0: u64,
    /// MAIN_BUF1: the snapshot before it.
    pub buf1: u64,
    /// The CPU cycle the counter was last advanced to on the lazy path.
    pub anchor: u64,
    /// A cycle clock is attached.
    pub scheduler: bool,
}

impl LpTimerView {
    pub open spec fn initial() -> Self {
        LpTimerView {
            regs: Seq::new(LP_TIMER_WORDS as nat, |i: int| 0u32),
            counter: 0,
            buf0: 0,
            buf1: 0,
            anchor: 0,
            scheduler: false,
        }
    }

    /// Lazy advance to absolute cycle `now`: the counter moves by the cycles
    /// since the anchor; a cycle at or before the anchor changes nothing.
    pub open spec fn advance_to(self, now: u64) -> Self {
        if now <= self.anchor {
            self
        } else {
            LpTimerView { counter: wrap48(self.counter + (now - self.anchor)), anchor: now, ..self }
        }
    }

    /// The walk's advance by `cycles`; inert once a clock is attached.
    pub open spec fn elapse(self, cycles: u64) -> Self {
        if self.scheduler {
            self
        } else {
            LpTimerView { counter: wrap48(self.counter + cycles), ..self }
        }
    }

    /// The strobe: counter into BUF0, old BUF0 into BUF1.
    pub open spec fn latch(self) -> Self {
        LpTimerView { buf1: self.buf0, buf0: self.counter, ..self }
    }

    /// The plain register holding `offset`, zero outside the window.
    pub open spec fn reg(self, offset: u64) -> u32 {
        if offset / 4 < self.regs.len() {
            self.regs[(offset / 4) as int]
        } else {
            0
        }
    }

    /// Store into the plain register holding `offset`; ignored outside.
    pub open spec fn store(self, offset: u64, value: u32) -> Self {
        if offset / 4 < self.regs.len() {
            LpTimerView { regs: self.regs.update((offset / 4) as int, value), ..self }
        } else {
            self
        }
    }

    /// A word read at `offset`.
    pub open spec fn read_word(self, offset: u64) -> u32 {
        if offset == MAIN_BUF0_LOW {
            self.buf0 as u32
        } else if offset == MAIN_BUF0_HIGH {
            ((self.buf0 >> 32u64) as u32) & HIGH_MASK
        } else if offset == MAIN_BUF1_LOW {
            self.buf1 as u32
        } else if offset == MAIN_BUF1_HIGH {
            ((self.buf1 >> 32u64) as u32) & HIGH_MASK
        } else {
            self.reg(offset)
        }
    }

    /// A word write at `offset` once the counter is current: the strobe
    /// latches and stores UPDATE with the strobe bit clear; anything else is
    /// stored as written.
    pub open spec fn write_word(self, offset: u64, value: u32) -> Self {
        if is_strobe(offset, value) {
            self.latch().store(UPDATE, value & !MAIN_TIMER_UPDATE_BIT)
        } else {
            self.store(offset, value)
        }
    }

    /// `next` is a state a word write can leave: with a clock attached the
    /// strobe first brings the counter up to some published cycle.
    pub open spec fn word_write_outcome(self, next: Self, offset: u64, value: u32) -> bool {
        if is_strobe(offset, value) && self.scheduler {
            exists|now: u64| #[trigger] self.advance_to(now).write_word(offset, value) == next
        } else {
            next == self.write_word(offset, value)
        }
    }

    /// A byte read: the addressed lane of the containing word.
    pub open spec fn read_byte(self, offset: u64) -> u8 {
        byte_of(self.read_word(word_base(offset)), offset)
    }
}

/// Syncing twice to the same cycle is syncing once.
pub proof fn lemma_sync_idempotent(v: LpTimerView, now: u64)
    ensures
        v.advance_to(now).advance_to(now) == v.advance_to(now),
{
}

/// Syncing to `m` and then to a later `n` is syncing to `n`: the counter
/// advances by the elapsed cycles however the syncs are split.
pub proof fn lemma_sync_composes(v: LpTimerView, m: u64, n: u64)
    requires
        m <= n,
    ensures
        v.advance_to(m).advance_to(n) == v.advance_to(n),
{
    if m > v.anchor {
        let c = v.counter + (m - v.anchor);
        assert((c % 0x1_0000_0000_0000 + (n - m)) % 0x1_0000_0000_0000 == (c + (n - m))
            % 0x1_0000_0000_0000) by {
            vstd::arithmetic::div_mod::lemma_add_mod_noop(c, (n - m) as int, 0x1_0000_0000_0000);
            vstd::arithmetic::div_mod::lemma_mod_twice(c, 0x1_0000_0000_0000);
            vstd::arithmetic::div_mod::lemma_add_mod_noop(
                c % 0x1_0000_0000_0000,
                (n - m) as int,
                0x1_0000_0000_0000,
            );
        }
    }
}

/// The walk's advances add up modulo 2^48.
pub proof fn lemma_elapse_additive(v: LpTimerView, a: u64, b: u64)
    requires
        a + b <= u64::MAX,
    ensures
        v.elapse(a).elapse(b) == v.elapse((a + b) as u64),
{
    if !v.scheduler {
        let c = v.counter + a;
        vstd::arithmetic::div_mod::lemma_add_mod_noop(c, b as int, 0x1_0000_0000_0000);
        vstd::arithmetic::div_mod::lemma_mod_twice(c, 0x1_0000_0000_0000);
        vstd::arithmetic::div_mod::lemma_add_mod_noop(
            c % 0x1_0000_0000_0000,
            b as int,
            0x1_0000_0000_0000,
        );
    }
}

/// The snapshot readout does not move between strobes: time passing leaves
/// every MAIN_BUF register as it was.
pub proof fn lemma_readout_frozen(v: LpTimerView, cycles: u64, now: u64, offset: u64)
    requires
        offset == MAIN_BUF0_LOW || offset == MAIN_BUF0_HIGH || offset == MAIN_BUF1_LOW || offset
            == MAIN_BUF1_HIGH,
    ensures
        v.elapse(cycles).read_word(offset) == v.read_word(offset),
        v.advance_to(now).read_word(offset) == v.read_word(offset),
{
}

/// The strobe shifts: after it BUF1 reads what BUF0 read before, BUF0
/// holds the counter, and UPDATE reads back with the strobe bit clear.
pub proof fn lemma_strobe_shifts(v: LpTimerView, value: u32)
    requires
        value & MAIN_TIMER_UPDATE_BIT != 0,
        v.regs.len() == LP_TIMER_WORDS,
    ensures
        v.write_word(UPDATE, value).read_word(MAIN_BUF1_LOW) == v.read_word(MAIN_BUF0_LOW),
        v.write_word(UPDATE, value).read_word(MAIN_BUF1_HIGH) == v.read_word(MAIN_BUF0_HIGH),
        v.write_word(UPDATE, value).buf0 == v.counter,
        v.write_word(UPDATE, value).read_word(UPDATE) & MAIN_TIMER_UPDATE_BIT == 0,
        v.write_word(UPDATE, value).read_word(UPDATE) == value & !MAIN_TIMER_UPDATE_BIT,
{
    assert((value & !MAIN_TIMER_UPDATE_BIT) & MAIN_TIMER_UPDATE_BIT == 0) by (bit_vector);
}

/// ESP32-C6 LP_TIMER.
#[derive(Debug)]
pub struct Esp32c6LpTimer {
    regs: Vec<u32>,
    counter: u64,
    buf0: u64,
    buf1: u64,
    anchor_tick: u64,
    clock: Option<CycleClock>,
}

impl View for Esp32c6LpTimer {
    type V = LpTimerView;

    closed spec fn view(&self) -> LpTimerView {
        LpTimerView {
            regs: self.regs@,
            counter: self.counter,
            buf0: self.buf0,
            buf1: self.buf1,
            anchor: self.anchor_tick,
            scheduler: self.clock is Some,
        }
    }
}

proof fn lemma_wrap48(a: u64, b: u64)
    ensures
        a.wrapping_add(b) & COUNTER_MASK == wrap48(a + b),
{
    assert(a.wrapping_add(b) & 0xFFFF_FFFF_FFFFu64 == ((a as int + b as int) % 0x1_0000_0000_0000)
        as u64) by (bit_vector);
}

impl Esp32c6LpTimer {
    /// A timer at zero with every register clear and no clock attached.
    pub fn new() -> (r: Self)
        ensures
            r@ == LpTimerView::initial(),
    {
        let mut regs: Vec<u32> = Vec::new();
        let mut i: usize = 0;
        while i < LP_TIMER_WORDS
            invariant
                i <= LP_TIMER_WORDS,
                regs@.len() == i,
                forall|k: int| 0 <= k < i ==> regs@[k] == 0,
            decreases LP_TIMER_WORDS - i,
        {
            regs.push(0);
            i = i + 1;
        }
        let r = Esp32c6LpTimer {
            regs,
            counter: 0,
            buf0: 0,
            buf1: 0,
            anchor_tick: 0,
            clock: None,
        };
        assert(r@.regs =~= LpTimerView::initial().regs);
        r
    }

    fn scheduler_mode(&self) -> (r: bool)
        ensures
            r == self@.scheduler,
    {
        self.clock.is_some()
    }

    /// Lazy advance to absolute cycle `now`; idempotent and monotonic.
    fn advance_to(&mut self, now: u64)
        ensures
            final(self)@ == old(self)@.advance_to(now),
    {
        let anchor = self.anchor_tick;
        if now <= anchor {
            return ;
        }
        proof {
            lemma_wrap48(self.counter, (now - anchor) as u64);
        }
        self.counter = self.counter.wrapping_add(now - anchor) & COUNTER_MASK;
        self.anchor_tick = now;
    }

    /// Bring the counter up to the published cycle when a clock is attached;
    /// returns the cycle used.
    fn sync_from_clock(&mut self) -> (used: Option<u64>)
        ensures
            match used {
                Some(n) => old(self)@.scheduler && final(self)@ == old(self)@.advance_to(n),
                None => !old(self)@.scheduler && final(self)@ == old(self)@,
            },
    {
        let now = match &self.clock {
            Some(c) => Some(c.now()),
            None => None,
        };
        match now {
            Some(n) => {
                self.advance_to(n);
                Some(n)
            },
            None => None,
        }
    }

    fn latch(&mut self)
        ensures
            final(self)@ == old(self)@.latch(),
    {
        self.buf1 = self.buf0;
        self.buf0 = self.counter;
    }

    fn store(&mut self, offset: u64, value: u32)
        ensures
            final(self)@ == old(self)@.store(offset, value),
    {
        let idx = offset / 4;
        if idx < self.regs.len() as u64 {
            self.regs.set(idx as usize, value);
        }
    }

    /// Detach the cycle clock, pinning the timer to the walk.
    pub fn force_legacy_walk(&mut self)
        ensures
            final(self)@ == (LpTimerView { scheduler: false, ..old(self)@ }),
    {
        self.clock = None;
    }

    /// The live counter.
    pub fn counter(&self) -> (r: u64)
        ensures
            r == self@.counter,
    {
        self.counter
    }

    /// Word read: the latched buffers at MAIN_BUF*, plain storage elsewhere.
    pub fn read_u32(&self, offset: u64) -> (r: SimResult<u32>)
        ensures
            r == Ok::<u32, SimulationError>(self@.read_word(offset)),
    {
        if offset == MAIN_BUF0_LOW {
            return Ok(self.buf0 as u32);
        }
        if offset == MAIN_BUF0_HIGH {
            return Ok(((self.buf0 >> 32u64) as u32) & HIGH_MASK);
        }
        if offset == MAIN_BUF1_LOW {
            return Ok(self.buf1 as u32);
        }
        if offset == MAIN_BUF1_HIGH {
            return Ok(((self.buf1 >> 32u64) as u32) & HIGH_MASK);
        }
        let idx = offset / 4;
        if idx < self.regs.len() as u64 {
            Ok(self.regs[idx as usize])
        } else {
            Ok(0)
        }
    }

    /// Word write. The UPDATE strobe syncs the counter to the clock (when
    /// attached), latches it and stores UPDATE with the strobe bit clear;
    /// other offsets are stored as written.
    pub fn write_u32(&mut self, offset: u64, value: u32) -> (r: SimResult<()>)
        ensures
            r is Ok,
            old(self)@.word_write_outcome(final(self)@, offset, value),
    {
        if offset == UPDATE && value & MAIN_TIMER_UPDATE_BIT != 0 {
            let used = self.sync_from_clock();
            let ghost synced = self@;
            self.latch();
            self.store(UPDATE, value & !MAIN_TIMER_UPDATE_BIT);
            proof {
                if let Some(n) = used {
                    assert(old(self)@.advance_to(n).write_word(offset, value) == self@);
                }
            }
            return Ok(());
        }
        self.store(offset, value);
        Ok(())
    }

    /// Byte read of the addressed lane.
    pub fn read(&self, offset: u64) -> (r: SimResult<u8>)
        ensures
            r == Ok::<u8, SimulationError>(self@.read_byte(offset)),
    {
        let aligned = crate::regs::align_word(offset);
        let w = match self.read_u32(aligned) {
            Ok(w) => w,
            Err(e) => {
                return Err(e);
            },
        };
        Ok(get_byte(w, offset))
    }

    /// Byte write: read-modify-write of the containing word.
    pub fn write(&mut self, offset: u64, value: u8) -> (r: SimResult<()>)
        ensures
            r is Ok,
            old(self)@.word_write_outcome(
                final(self)@,
                word_base(offset),
                with_byte(old(self)@.read_word(word_base(offset)), offset, value),
            ),
    {
        let aligned = crate::regs::align_word(offset);
        let cur = match self.read_u32(aligned) {
            Ok(w) => w,
            Err(e) => {
                return Err(e);
            },
        };
        self.write_u32(aligned, set_byte(cur, offset, value))
    }

    /// Advance the walk by `cycles`; inert once a clock is attached.
    pub fn tick_elapsed(&mut self, cycles: u64) -> (r: PeripheralTickResult)
        ensures
            final(self)@ == old(self)@.elapse(cycles),
            r.is_quiet(),
    {
        if !self.scheduler_mode() {
            proof {
                lemma_wrap48(self.counter, cycles);
            }
            self.counter = self.counter.wrapping_add(cycles) & COUNTER_MASK;
        }
        PeripheralTickResult::quiet()
    }

    /// One walk tick: one elapsed cycle.
    pub fn tick(&mut self) -> (r: PeripheralTickResult)
        ensures
            final(self)@ == old(self)@.elapse(1),
            r.is_quiet(),
    {
        self.tick_elapsed(1)
    }

    /// Scheduler-driven once a clock is attached.
    pub fn uses_scheduler(&self) -> (r: bool)
        ensures
            r == self@.scheduler,
    {
        self.scheduler_mode()
    }

    /// Bring the counter up to absolute cycle `now_cycle`.
    pub fn sync_to(&mut self, now_cycle: u64)
        ensures
            final(self)@ == old(self)@.advance_to(now_cycle),
    {
        self.advance_to(now_cycle);
    }

    /// Attach the bus's cycle clock: the anchor moves to its current cycle
    /// and the counter advances lazily from then on.
    pub fn attach_cycle_clock(&mut self, clock: CycleClock)
        ensures
            final(self)@ == (LpTimerView { scheduler: true, anchor: final(self)@.anchor, ..old(self)@ }),
    {
        self.anchor_tick = clock.now();
        self.clock = Some(clock);
    }
}

impl Default for Esp32c6LpTimer {
    fn default() -> (r: Self)
        ensures
            r@ == LpTimerView::initial(),
    {
        Self::new()
    }
}

} // verus!
