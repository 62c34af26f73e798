//! ESP32 Timer Group (TIMG0 / TIMG1): two 64-bit general-purpose timers, the
//! ESP32-classic LACT timer, RTC_SLOW calibration and, on the C3/C6 layout,
//! the four-stage main watchdog (MWDT).
//!
//! The model is functional, not cycle-accurate. Every register offset the
//! model does not compute falls through to a word store, so read-modify-write
//! sequences see their own writes.

use crate::regs::{
    align_word, byte_of, get_byte, map_word, set_byte, with_byte, word_base, word_in, wrap_add,
    wrapping_add,
};
use crate::PeripheralTickResult;
use crate::SimResult;
use std::collections::HashMap;
use vstd::prelude::*;

verus! {

pub const T0_CONFIG: u64 = 0x00;
pub const T0_LO: u64 = 0x04;
pub const T0_HI: u64 = 0x08;
pub const T0_UPDATE: u64 = 0x0C;
pub const T0_LOADLO: u64 = 0x18;
pub const T0_LOADHI: u64 = 0x1C;
pub const T0_LOAD: u64 = 0x20;
pub const T1_CONFIG: u64 = 0x24;
pub const T1_LO: u64 = 0x28;
pub const T1_HI: u64 = 0x2C;
pub const T1_UPDATE: u64 = 0x30;
pub const T1_LOADLO: u64 = 0x3C;
pub const T1_LOADHI: u64 = 0x40;
pub const T1_LOAD: u64 = 0x44;

pub const LACT_CONFIG: u64 = 0x70;
pub const LACT_LO: u64 = 0x78;
pub const LACT_HI: u64 = 0x7C;
pub const LACT_UPDATE: u64 = 0x80;
pub const LACT_LOADLO: u64 = 0x8C;
pub const LACT_LOADHI: u64 = 0x90;
pub const LACT_LOAD: u64 = 0x94;
/// LACT_CONFIG.LACT_EN.
pub const LACT_EN_BIT: u32 = 0x8000_0000;
/// APB clock in MHz: APB cycles per tick.
pub const APB_MHZ: u64 = 80;

pub const WDT_CONFIG0: u64 = 0x48;
pub const WDT_CONFIG1: u64 = 0x4C;
pub const WDT_CONFIG2: u64 = 0x50;
pub const WDT_CONFIG3: u64 = 0x54;
pub const WDT_CONFIG4: u64 = 0x58;
/// ESP32-classic feed / write-protect pair (storage only).
pub const WDT_FEED: u64 = 0x5C;
pub const WDT_WPROTECT: u64 = 0x60;
/// C3/C6 layout: WDTCONFIG5 (STG3_HOLD), feed, write protect.
pub const WDT_CONFIG5_C3: u64 = 0x5C;
pub const WDT_FEED_C3: u64 = 0x60;
pub const WDT_WPROTECT_C3: u64 = 0x64;
/// C3/C6 INT_ENA/RAW/ST/CLR_TIMERS.
pub const WDT_INT_ENA_C3: u64 = 0x70;
pub const WDT_INT_RAW_C3: u64 = 0x74;
pub const WDT_INT_ST_C3: u64 = 0x78;
pub const WDT_INT_CLR_C3: u64 = 0x7C;
/// WDTWPROTECT reset value and unlock key.
pub const WDT_WKEY_VALUE: u32 = 0x50D8_3AA1;
/// WDTCONFIG0.WDT_EN.
pub const WDT_EN_BIT: u32 = 0x8000_0000;
/// Stage action "interrupt".
pub const WDT_STAGE_ACTION_INT: u32 = 1;
/// INT_RAW_TIMERS.WDT_INT_RAW.
pub const WDT_INT_RAW_BIT: u32 = 2;

pub const RTCCALICFG: u64 = 0x68;
pub const RTCCALICFG1: u64 = 0x6C;
pub const RTC_CALI_START_BIT: u32 = 0x8000_0000;
pub const RTC_CALI_RDY_BIT: u32 = 0x8000;

pub const INT_RAW: u64 = 0x9C;
pub const INT_CLR: u64 = 0xA4;

/// CONFIG.EN of T0/T1.
pub const T_CONFIG_EN_BIT: u32 = 0x8000_0000;

/// Silicon-faithful RTC_SLOW calibration profile for a specific SoC.
///
/// With a profile, a calibration reports the reference-clock cycles counted
/// during the requested RTC_SLOW cycles, so `xtal_hz * cycles / value`
/// recovers `slow_hz`.
#[derive(Debug, Clone, Copy, PartialEq, Eq)]
pub struct RtcCalProfile {
    /// Reference clock the calibration counts against.
    pub xtal_hz: u64,
    /// The modelled RTC_SLOW frequency the result must recover.
    pub slow_hz: u64,
}

/// A profile the calibration arithmetic can use: a non-zero slow clock and
/// no overflow at the widest calibration window.
pub open spec fn profile_ok(p: RtcCalProfile) -> bool {
    &&& p.slow_hz > 0
    &&& p.xtal_hz * 0x7FFF + p.slow_hz / 2 <= u64::MAX
}

/// The mathematical state of a timer group.
pub struct TimgView {
    pub base: u32,
    pub regs: Map<u64, u32>,
    pub counter_t0: u64,
    pub counter_t1: u64,
    pub counter_lact: u64,
    pub lact_rem: u32,
    pub lact_enabled: bool,
    pub anchor_tick: u64,
    pub rtc_cal: Option<RtcCalProfile>,
    pub mwdt: bool,
    pub wdt_countdown: u64,
    pub wdt_stage: u8,
    pub wdt_armed: bool,
    pub wdt_pending: bool,
    pub wdt_enabled: bool,
}

/// The hold register of an MWDT stage: WDTCONFIG2..5.
pub open spec fn stage_hold_reg(stage: u8) -> u64 {
    if stage == 0 {
        WDT_CONFIG2
    } else if stage == 1 {
        WDT_CONFIG3
    } else if stage == 2 {
        WDT_CONFIG4
    } else {
        WDT_CONFIG5_C3
    }
}

/// The bit position of an MWDT stage's 2-bit action field in WDTCONFIG0.
pub open spec fn stage_shift(stage: u8) -> u32 {
    if stage == 0 {
        29
    } else if stage == 1 {
        27
    } else if stage == 2 {
        25
    } else {
        23
    }
}

/// The offsets the C3/C6 write lock guards.
pub open spec fn is_wdt_config(off: u64) -> bool {
    off == WDT_CONFIG0 || off == WDT_CONFIG1 || off == WDT_CONFIG2 || off == WDT_CONFIG3
        || off == WDT_CONFIG4 || off == WDT_CONFIG5_C3
}

impl TimgView {
    /// A freshly constructed timer group at `base`.
    pub open spec fn initial(base: u32) -> Self {
        TimgView {
            base,
            regs: Map::empty(),
            counter_t0: 0,
            counter_t1: 0,
            counter_lact: 0,
            lact_rem: 0,
            lact_enabled: false,
            anchor_tick: 0,
            rtc_cal: None,
            mwdt: false,
            wdt_countdown: 0,
            wdt_stage: 0,
            wdt_armed: false,
            wdt_pending: false,
            wdt_enabled: false,
        }
    }

    /// The calibration profile, if any, is one the arithmetic can use.
    pub open spec fn cal_ok(self) -> bool {
        match self.rtc_cal {
            Some(p) => profile_ok(p),
            None => true,
        }
    }

    /// The stored word at `off`, zero when never written.
    pub open spec fn word(self, off: u64) -> u32 {
        word_in(self.regs, off)
    }

    pub open spec fn t0_enabled(self) -> bool {
        self.word(T0_CONFIG) & T_CONFIG_EN_BIT != 0
    }

    pub open spec fn t1_enabled(self) -> bool {
        self.word(T1_CONFIG) & T_CONFIG_EN_BIT != 0
    }

    /// The programmed LACT divider; zero means the counter holds still
    /// (no LACT, LACT disabled, or divider not yet programmed).
    pub open spec fn lact_divider(self) -> u32 {
        if !self.lact_enabled || self.word(LACT_CONFIG) & LACT_EN_BIT == 0 {
            0
        } else {
            (self.word(LACT_CONFIG) >> 13u32) & 0xFFFF
        }
    }

    /// Advance LACT by `ticks` microseconds of APB cycles, carrying the
    /// remainder of the division (the APB product saturates).
    pub open spec fn advance_lact(self, ticks: u64) -> Self {
        let div = self.lact_divider();
        if div == 0 {
            self
        } else {
            let apb = if ticks * APB_MHZ > u64::MAX {
                u64::MAX as int
            } else {
                ticks * APB_MHZ
            };
            let cycles = if apb + self.lact_rem > u64::MAX {
                u64::MAX as int
            } else {
                apb + self.lact_rem
            };
            TimgView {
                counter_lact: wrap_add(self.counter_lact, (cycles / (div as int)) as u64),
                lact_rem: (cycles % (div as int)) as u32,
                ..self
            }
        }
    }

    pub open spec fn latch_lact(self) -> Self {
        TimgView {
            regs: self.regs.insert(LACT_LO, self.counter_lact as u32).insert(
                LACT_HI,
                (self.counter_lact >> 32u64) as u32,
            ),
            ..self
        }
    }

    pub open spec fn preload_lact(self) -> Self {
        let c = ((self.word(LACT_LOADHI) as u64) << 32u64) | (self.word(LACT_LOADLO) as u64);
        TimgView { counter_lact: c, lact_rem: 0, ..self }.latch_lact()
    }

    pub open spec fn latch_t0(self) -> Self {
        TimgView {
            regs: self.regs.insert(T0_LO, self.counter_t0 as u32).insert(
                T0_HI,
                (self.counter_t0 >> 32u64) as u32,
            ),
            ..self
        }
    }

    pub open spec fn latch_t1(self) -> Self {
        TimgView {
            regs: self.regs.insert(T1_LO, self.counter_t1 as u32).insert(
                T1_HI,
                (self.counter_t1 >> 32u64) as u32,
            ),
            ..self
        }
    }

    pub open spec fn preload_t0(self) -> Self {
        let c = ((self.word(T0_LOADHI) as u64) << 32u64) | (self.word(T0_LOADLO) as u64);
        TimgView { counter_t0: c, ..self }.latch_t0()
    }

    pub open spec fn preload_t1(self) -> Self {
        let c = ((self.word(T1_LOADHI) as u64) << 32u64) | (self.word(T1_LOADLO) as u64);
        TimgView { counter_t1: c, ..self }.latch_t1()
    }

    /// A write to `off` is dropped by the MWDT write lock.
    pub open spec fn config_write_blocked(self, off: u64) -> bool {
        self.mwdt && is_wdt_config(off) && self.word(WDT_WPROTECT_C3) != WDT_WKEY_VALUE
    }

    /// The configured action of an MWDT stage: 0 off, 1 interrupt,
    /// 2 reset CPU, 3 reset system.
    pub open spec fn stage_action(self, stage: u8) -> u32 {
        (self.word(WDT_CONFIG0) >> stage_shift(stage)) & 3
    }

    /// Return to stage 0 with its hold loaded and the chain armed.
    pub open spec fn mwdt_reload(self) -> Self {
        TimgView {
            wdt_stage: 0,
            wdt_countdown: self.word(WDT_CONFIG2) as u64,
            wdt_armed: true,
            ..self
        }
    }

    /// WDTCONFIG0 write: arm on the 0 to 1 EN edge, stop when EN is clear.
    pub open spec fn on_config0_write(self) -> Self {
        let enabled = self.word(WDT_CONFIG0) & WDT_EN_BIT != 0;
        let s1 = if enabled && !self.wdt_enabled {
            self.mwdt_reload()
        } else {
            self
        };
        let s2 = if !enabled {
            TimgView { wdt_countdown: 0, wdt_armed: false, ..s1 }
        } else {
            s1
        };
        TimgView { wdt_enabled: enabled, ..s2 }
    }

    /// WDTFEED write: return to stage 0 while enabled.
    pub open spec fn mwdt_feed(self) -> Self {
        if self.wdt_enabled {
            self.mwdt_reload()
        } else {
            self
        }
    }

    /// Expire the active stage: latch the interrupt for an interrupt-action
    /// stage, advance 0, 1, 2, 3, 0 and load the next stage's hold.
    pub open spec fn expire_stage(self) -> Self {
        let pending = self.wdt_pending || self.stage_action(self.wdt_stage)
            == WDT_STAGE_ACTION_INT;
        let stage: u8 = if self.wdt_stage >= 3 {
            0
        } else {
            (self.wdt_stage + 1) as u8
        };
        TimgView {
            wdt_pending: pending,
            wdt_stage: stage,
            wdt_countdown: self.word(stage_hold_reg(stage)) as u64,
            ..self
        }
    }

    /// Run the armed stage chain for `ticks` model ticks. A stage's hold is
    /// counted down; the tick that reaches zero expires it, and a zero hold
    /// consumes one tick of its own.
    pub open spec fn mwdt_run(self, ticks: nat) -> Self
        decreases ticks,
    {
        if ticks == 0 {
            self
        } else if self.wdt_countdown > ticks {
            TimgView { wdt_countdown: (self.wdt_countdown - ticks) as u64, ..self }
        } else {
            let used: nat = if self.wdt_countdown > 0 {
                self.wdt_countdown as nat
            } else {
                1
            };
            TimgView { wdt_countdown: 0, ..self }.expire_stage().mwdt_run((ticks - used) as nat)
        }
    }

    pub open spec fn advance_mwdt(self, ticks: u64) -> Self {
        if !self.mwdt || !self.wdt_armed {
            self
        } else {
            self.mwdt_run(ticks as nat)
        }
    }

    /// INT_RAW_TIMERS as the watchdog latch reports it.
    pub open spec fn mwdt_int_raw(self) -> u32 {
        if self.wdt_pending {
            WDT_INT_RAW_BIT
        } else {
            0
        }
    }

    /// INT_ST_TIMERS: raw AND enable.
    pub open spec fn mwdt_int_st(self) -> u32 {
        self.mwdt_int_raw() & self.word(WDT_INT_ENA_C3)
    }

    /// Calibration completion on a write of RTCCALICFG with START set.
    pub open spec fn rtc_calibrate(self) -> Self {
        let cfg = self.word(RTCCALICFG);
        if cfg & RTC_CALI_START_BIT == 0 {
            self
        } else {
            match self.rtc_cal {
                Some(p) => {
                    let field = ((cfg >> 16u32) & 0x7FFF) as int;
                    let slow_cycles = if field == 0 {
                        1
                    } else {
                        field
                    };
                    let xtal_cycles = (p.xtal_hz * slow_cycles + p.slow_hz / 2) / (
                    p.slow_hz as int);
                    let value = (xtal_cycles as u32) & 0x01FF_FFFF;
                    TimgView {
                        regs: self.regs.insert(RTCCALICFG, cfg | RTC_CALI_RDY_BIT).insert(
                            RTCCALICFG1,
                            value << 7u32,
                        ),
                        ..self
                    }
                },
                None => {
                    let field = (cfg >> 13u32) & 0x1FFFF;
                    let max = if field == 0 {
                        1
                    } else {
                        field
                    };
                    let value = ((max * 533) as u32) & 0x01FF_FFFF;
                    TimgView {
                        regs: self.regs.insert(RTCCALICFG, cfg | RTC_CALI_RDY_BIT).insert(
                            RTCCALICFG1,
                            (value << 7u32) | 1,
                        ),
                        ..self
                    }
                },
            }
        }
    }

    /// The side effects of storing a word at `off`.
    pub open spec fn side_effects(self, off: u64) -> Self {
        if off == T0_UPDATE {
            self.latch_t0()
        } else if off == T1_UPDATE {
            self.latch_t1()
        } else if off == T0_LOAD {
            self.preload_t0()
        } else if off == T1_LOAD {
            self.preload_t1()
        } else if off == LACT_UPDATE && self.lact_enabled {
            self.latch_lact()
        } else if off == LACT_LOAD && self.lact_enabled {
            self.preload_lact()
        } else if off == WDT_CONFIG0 && self.mwdt {
            self.on_config0_write()
        } else if off == WDT_FEED_C3 && self.mwdt {
            self.mwdt_feed()
        } else if off == WDT_INT_CLR_C3 && self.mwdt {
            if self.word(WDT_INT_CLR_C3) & WDT_INT_RAW_BIT != 0 {
                TimgView { wdt_pending: false, ..self }
            } else {
                self
            }
        } else if off == INT_CLR {
            TimgView {
                regs: self.regs.insert(INT_RAW, self.word(INT_RAW) & !self.word(INT_CLR)),
                ..self
            }
        } else if off == RTCCALICFG {
            self.rtc_calibrate()
        } else {
            self
        }
    }

    /// The word a 32-bit read at the aligned offset `off` returns.
    pub open spec fn read_word(self, off: u64) -> u32 {
        if off == T0_LO {
            if self.regs.contains_key(T0_LO) {
                self.regs[T0_LO]
            } else {
                self.counter_t0 as u32
            }
        } else if off == T0_HI {
            if self.regs.contains_key(T0_HI) {
                self.regs[T0_HI]
            } else {
                (self.counter_t0 >> 32u64) as u32
            }
        } else if off == T1_LO {
            if self.regs.contains_key(T1_LO) {
                self.regs[T1_LO]
            } else {
                self.counter_t1 as u32
            }
        } else if off == T1_HI {
            if self.regs.contains_key(T1_HI) {
                self.regs[T1_HI]
            } else {
                (self.counter_t1 >> 32u64) as u32
            }
        } else if off == LACT_LO && self.lact_enabled {
            if self.regs.contains_key(LACT_LO) {
                self.regs[LACT_LO]
            } else {
                self.counter_lact as u32
            }
        } else if off == LACT_HI && self.lact_enabled {
            if self.regs.contains_key(LACT_HI) {
                self.regs[LACT_HI]
            } else {
                (self.counter_lact >> 32u64) as u32
            }
        } else if off == WDT_INT_RAW_C3 && self.mwdt {
            self.mwdt_int_raw()
        } else if off == WDT_INT_ST_C3 && self.mwdt {
            self.mwdt_int_st()
        } else {
            self.word(off)
        }
    }

    /// A 32-bit write of `value` at the aligned offset `off`.
    pub open spec fn write_word(self, off: u64, value: u32) -> Self {
        if self.config_write_blocked(off) {
            self
        } else {
            TimgView { regs: self.regs.insert(off, value), ..self }.side_effects(off)
        }
    }

    /// A byte write of `value` at `offset`.
    pub open spec fn write_byte(self, offset: u64, value: u8) -> Self {
        let off = word_base(offset);
        if self.config_write_blocked(off) {
            self
        } else {
            TimgView {
                regs: self.regs.insert(off, with_byte(self.word(off), offset, value)),
                ..self
            }.side_effects(off)
        }
    }

    /// Advance every enabled counter by `delta` ticks.
    pub open spec fn advance(self, delta: u64) -> Self {
        let t0 = if self.t0_enabled() {
            wrap_add(self.counter_t0, delta)
        } else {
            self.counter_t0
        };
        let t1 = if self.t1_enabled() {
            wrap_add(self.counter_t1, delta)
        } else {
            self.counter_t1
        };
        TimgView { counter_t0: t0, counter_t1: t1, ..self }.advance_lact(delta).advance_mwdt(
            delta,
        )
    }

    /// Lazy advance to peripheral tick `now`; inert on the MWDT variant and
    /// for a tick that does not move forward.
    pub open spec fn sync_to(self, now: u64) -> Self {
        if self.mwdt || now <= self.anchor_tick {
            self
        } else {
            TimgView {
                anchor_tick: now,
                ..self.advance((now - self.anchor_tick) as u64)
            }
        }
    }
}

proof fn lemma_wrap_add_assoc(c: u64, a: u64, b: u64)
    requires
        a + b <= u64::MAX,
    ensures
        wrap_add(wrap_add(c, a), b) == wrap_add(c, (a + b) as u64),
{
}

/// Syncing twice to the same tick is syncing once, and a tick that does
/// not move past the anchor changes nothing.
pub proof fn lemma_sync_idempotent(v: TimgView, now: u64)
    ensures
        v.sync_to(now).sync_to(now) == v.sync_to(now),
        now <= v.anchor_tick ==> v.sync_to(now) == v,
{
}

/// The general-purpose timers count exactly the elapsed ticks, however the
/// syncs are split: syncing to `m` and then to a later `n` leaves T0 and T1
/// where one sync to `n` does.
pub proof fn lemma_sync_counts_elapsed(v: TimgView, m: u64, n: u64)
    requires
        v.anchor_tick <= m <= n,
        !v.mwdt,
    ensures
        v.sync_to(m).sync_to(n).counter_t0 == v.sync_to(n).counter_t0,
        v.sync_to(m).sync_to(n).counter_t1 == v.sync_to(n).counter_t1,
{
    if m > v.anchor_tick && n > m {
        lemma_wrap_add_assoc(v.counter_t0, (m - v.anchor_tick) as u64, (n - m) as u64);
        lemma_wrap_add_assoc(v.counter_t1, (m - v.anchor_tick) as u64, (n - m) as u64);
    }
}

proof fn lemma_mwdt_run_frame(v: TimgView, k: nat)
    ensures
        v.mwdt_run(k).counter_t0 == v.counter_t0,
        v.mwdt_run(k).counter_t1 == v.counter_t1,
        v.mwdt_run(k).counter_lact == v.counter_lact,
        v.mwdt_run(k).regs == v.regs,
    decreases k,
{
    if k > 0 && v.wdt_countdown <= k {
        let used: nat = if v.wdt_countdown > 0 {
            v.wdt_countdown as nat
        } else {
            1
        };
        lemma_mwdt_run_frame((TimgView { wdt_countdown: 0, ..v }).expire_stage(), (k - used) as nat);
    }
}

/// A disabled timer holds still while time passes; an enabled one counts
/// every tick (modulo 2^64).
pub proof fn lemma_disabled_timer_holds(v: TimgView, delta: u64)
    ensures
        !v.t0_enabled() ==> v.advance(delta).counter_t0 == v.counter_t0,
        !v.t1_enabled() ==> v.advance(delta).counter_t1 == v.counter_t1,
        v.t0_enabled() ==> v.advance(delta).counter_t0 == wrap_add(v.counter_t0, delta),
{
    let t0 = if v.t0_enabled() {
        wrap_add(v.counter_t0, delta)
    } else {
        v.counter_t0
    };
    let t1 = if v.t1_enabled() {
        wrap_add(v.counter_t1, delta)
    } else {
        v.counter_t1
    };
    let w = (TimgView { counter_t0: t0, counter_t1: t1, ..v }).advance_lact(delta);
    lemma_mwdt_run_frame(w, delta as nat);
}

/// The state after `k` single ticks from `v`.
pub open spec fn ticked(v: TimgView, k: nat) -> TimgView
    decreases k,
{
    if k == 0 {
        v
    } else {
        ticked(v, (k - 1) as nat).advance(1)
    }
}

/// Ticks keep the configuration, and `k` ticks with T0 enabled add exactly
/// `k` to T0, modulo 2^64 (a disabled T0 holds still).
pub proof fn lemma_ticks_add_up(v: TimgView, k: nat)
    ensures
        ticked(v, k).regs == v.regs,
        v.t0_enabled() ==> ticked(v, k).counter_t0 as int == (v.counter_t0 + k)
            % 0x1_0000_0000_0000_0000,
        !v.t0_enabled() ==> ticked(v, k).counter_t0 == v.counter_t0,
    decreases k,
{
    if k > 0 {
        let p = ticked(v, (k - 1) as nat);
        lemma_ticks_add_up(v, (k - 1) as nat);
        lemma_disabled_timer_holds(p, 1);
        let t0 = if p.t0_enabled() {
            wrap_add(p.counter_t0, 1)
        } else {
            p.counter_t0
        };
        let t1 = if p.t1_enabled() {
            wrap_add(p.counter_t1, 1)
        } else {
            p.counter_t1
        };
        let w = (TimgView { counter_t0: t0, counter_t1: t1, ..p }).advance_lact(1);
        lemma_mwdt_run_frame(w, 1);
        assert(p.advance(1).regs == p.regs);
        assert(p.word(T0_CONFIG) == v.word(T0_CONFIG));
    }
}

/// A lazy sync to tick `n` moves T0 as the `n - anchor` single ticks it
/// stands for would, and a sync to a tick at or before the anchor (the
/// largest tick synced to so far) moves nothing.
pub proof fn lemma_sync_is_ticks(v: TimgView, n: u64)
    requires
        !v.mwdt,
    ensures
        n <= v.anchor_tick ==> v.sync_to(n) == v,
        n > v.anchor_tick ==> v.sync_to(n).counter_t0 == ticked(v, (n - v.anchor_tick) as nat).counter_t0,
        n > v.anchor_tick ==> v.sync_to(n).anchor_tick == n,
{
    if n > v.anchor_tick {
        let d = (n - v.anchor_tick) as u64;
        lemma_ticks_add_up(v, d as nat);
        lemma_disabled_timer_holds(v, d);
    }
}

/// A word write to T0UPDATE (T1UPDATE) latches timer 0's (timer 1's) own
/// counter: T0LO/T0HI (T1LO/T1HI) then read the low and high 32 bits of
/// `counter_t0` (`counter_t1`), and the counters themselves do not move.
pub proof fn lemma_update_latches_its_own_counter(v: TimgView, value: u32)
    ensures
        v.write_word(T0_UPDATE, value).read_word(T0_LO) == v.counter_t0 as u32,
        v.write_word(T0_UPDATE, value).read_word(T0_HI) == (v.counter_t0 >> 32u64) as u32,
        v.write_word(T1_UPDATE, value).read_word(T1_LO) == v.counter_t1 as u32,
        v.write_word(T1_UPDATE, value).read_word(T1_HI) == (v.counter_t1 >> 32u64) as u32,
        v.write_word(T0_UPDATE, value).counter_t0 == v.counter_t0,
        v.write_word(T0_UPDATE, value).counter_t1 == v.counter_t1,
        v.write_word(T1_UPDATE, value).counter_t0 == v.counter_t0,
        v.write_word(T1_UPDATE, value).counter_t1 == v.counter_t1,
{
}

/// Loading a timer: after LOADLO = `lo` and LOADHI = `hi`, a write to
/// T0LOAD (T1LOAD) sets that timer's counter to `hi * 2^32 + lo`, leaves the
/// other timer's counter alone, and its LO/HI registers read `lo` and `hi`.
pub proof fn lemma_load_sets_its_own_counter(v: TimgView, lo: u32, hi: u32, value: u32)
    ensures
        ({
            let w = v.write_word(T0_LOADLO, lo).write_word(T0_LOADHI, hi).write_word(T0_LOAD, value);
            &&& w.counter_t0 == hi * 0x1_0000_0000 + lo
            &&& w.counter_t1 == v.counter_t1
            &&& w.read_word(T0_LO) == lo
            &&& w.read_word(T0_HI) == hi
        }),
        ({
            let w = v.write_word(T1_LOADLO, lo).write_word(T1_LOADHI, hi).write_word(T1_LOAD, value);
            &&& w.counter_t1 == hi * 0x1_0000_0000 + lo
            &&& w.counter_t0 == v.counter_t0
            &&& w.read_word(T1_LO) == lo
            &&& w.read_word(T1_HI) == hi
        }),
{
    let c = ((hi as u64) << 32u64) | (lo as u64);
    assert(c == hi * 0x1_0000_0000 + lo && c as u32 == lo && (c >> 32u64) as u32 == hi) by (bit_vector)
        requires
            c == ((hi as u64) << 32u64) | (lo as u64),
    ;
}

/// While WDTWPROTECT holds anything but the key, a write to WDTCONFIG0..5
/// changes nothing at all.
pub proof fn lemma_locked_config_write_dropped(v: TimgView, off: u64, value: u32, offset: u64, byte: u8)
    requires
        v.mwdt,
        is_wdt_config(off),
        is_wdt_config(word_base(offset)),
        v.word(WDT_WPROTECT_C3) != WDT_WKEY_VALUE,
    ensures
        v.write_word(off, value) == v,
        v.write_byte(offset, byte) == v,
{
}

/// INT_CLR is write-1-to-clear over INT_RAW.
pub proof fn lemma_int_clr_is_w1c(v: TimgView, value: u32)
    ensures
        v.write_word(INT_CLR, value).word(INT_RAW) == v.word(INT_RAW) & !value,
{
}

/// A feed of an enabled watchdog restarts the chain at stage 0 with stage
/// 0's full hold.
pub proof fn lemma_feed_returns_to_stage_zero(v: TimgView)
    requires
        v.wdt_enabled,
    ensures
        v.mwdt_feed().wdt_stage == 0,
        v.mwdt_feed().wdt_countdown == v.word(WDT_CONFIG2) as u64,
        v.mwdt_feed().wdt_armed,
        v.mwdt_feed().wdt_pending == v.wdt_pending,
{
}

/// A stage expires exactly when its hold runs out: fewer ticks only count
/// down, and the tick that reaches zero expires it.
pub proof fn lemma_stage_expires_at_hold(v: TimgView, k: nat)
    requires
        0 < k,
    ensures
        v.wdt_countdown > k ==> v.mwdt_run(k) == (TimgView {
            wdt_countdown: (v.wdt_countdown - k) as u64,
            ..v
        }),
        v.wdt_countdown == k ==> v.mwdt_run(k) == (TimgView { wdt_countdown: 0, ..v }).expire_stage(),
{
    if v.wdt_countdown == k {
        assert((TimgView { wdt_countdown: 0, ..v }).expire_stage().mwdt_run(0) == (TimgView {
            wdt_countdown: 0,
            ..v
        }).expire_stage());
    }
}

/// Only an interrupt-action stage latches the watchdog interrupt, and the
/// chain walks 0, 1, 2, 3 and back to 0.
pub proof fn lemma_expiry_latches_only_interrupt_stages(v: TimgView)
    requires
        !v.wdt_pending,
        v.wdt_stage <= 3,
    ensures
        v.expire_stage().wdt_pending <==> v.stage_action(v.wdt_stage) == WDT_STAGE_ACTION_INT,
        v.expire_stage().wdt_stage == (if v.wdt_stage == 3 {
            0
        } else {
            v.wdt_stage + 1
        }),
{
}

/// With a calibration profile the reported count is the nearest whole
/// number of reference cycles in the requested slow cycles: `value * slow`
/// is within half a slow period of `xtal * cycles`.
pub proof fn lemma_calibration_rounds_to_nearest(xtal: u64, slow: u64, cycles: int)
    requires
        slow > 0,
        0 < cycles,
    ensures
        ({
            let value = (xtal * cycles + slow / 2) / (slow as int);
            value * slow <= xtal * cycles + slow / 2 < value * slow + slow
        }),
{
    let x = xtal * cycles + slow / 2;
    let s = slow as int;
    assert(x >= 0) by (nonlinear_arith)
        requires
            xtal >= 0,
            cycles > 0,
            x == xtal * cycles + slow / 2,
            slow > 0,
    ;
    vstd::arithmetic::div_mod::lemma_fundamental_div_mod(x, s);
    vstd::arithmetic::div_mod::lemma_mod_bound(x, s);
    assert((x / s) * s == s * (x / s)) by (nonlinear_arith);
}

/// Without `with_lact` the LACT window is plain storage: time never moves a
/// LACT counter and a write there latches nothing over the stored words.
pub proof fn lemma_lact_inert_without_lact(v: TimgView, delta: u64, off: u64, value: u32)
    requires
        !v.lact_enabled,
        !v.mwdt,
        off == LACT_UPDATE || off == LACT_LOAD,
    ensures
        v.advance(delta).counter_lact == v.counter_lact,
        v.write_word(off, value).regs == v.regs.insert(off, value),
        v.read_word(LACT_LO) == v.word(LACT_LO),
        v.read_word(LACT_HI) == v.word(LACT_HI),
{
}

/// Timer Group (TIMG0 or TIMG1) peripheral model.
#[derive(Debug)]
pub struct Timg {
    base: u32,
    regs: HashMap<u64, u32>,
    counter_t0: u64,
    counter_t1: u64,
    counter_lact: u64,
    lact_rem: u32,
    lact_enabled: bool,
    anchor_tick: u64,
    rtc_cal: Option<RtcCalProfile>,
    mwdt: bool,
    wdt_countdown: u64,
    wdt_stage: u8,
    wdt_armed: bool,
    wdt_pending: bool,
    wdt_enabled: bool,
}

impl View for Timg {
    type V = TimgView;

    closed spec fn view(&self) -> TimgView {
        TimgView {
            base: self.base,
            regs: self.regs@,
            counter_t0: self.counter_t0,
            counter_t1: self.counter_t1,
            counter_lact: self.counter_lact,
            lact_rem: self.lact_rem,
            lact_enabled: self.lact_enabled,
            anchor_tick: self.anchor_tick,
            rtc_cal: self.rtc_cal,
            mwdt: self.mwdt,
            wdt_countdown: self.wdt_countdown,
            wdt_stage: self.wdt_stage,
            wdt_armed: self.wdt_armed,
            wdt_pending: self.wdt_pending,
            wdt_enabled: self.wdt_enabled,
        }
    }
}

impl Timg {
    /// Create a new TIMG instance for the given base address.
    pub fn new(base: u32) -> (r: Self)
        ensures
            r@ == TimgView::initial(base),
    {
        Timg {
            base,
            regs: HashMap::new(),
            counter_t0: 0,
            counter_t1: 0,
            counter_lact: 0,
            lact_rem: 0,
            lact_enabled: false,
            anchor_tick: 0,
            rtc_cal: None,
            mwdt: false,
            wdt_countdown: 0,
            wdt_stage: 0,
            wdt_armed: false,
            wdt_pending: false,
            wdt_enabled: false,
        }
    }

    /// Attach a silicon-faithful RTC_SLOW calibration profile.
    pub fn with_rtc_cal(self, profile: RtcCalProfile) -> (r: Self)
        requires
            profile_ok(profile),
        ensures
            r@ == (TimgView { rtc_cal: Some(profile), ..self@ }),
    {
        let mut s = self;
        s.rtc_cal = Some(profile);
        s
    }

    /// Declare that this TIMG has a LACT timer (ESP32-classic only).
    pub fn with_lact(self) -> (r: Self)
        ensures
            r@ == (TimgView { lact_enabled: true, ..self@ }),
    {
        let mut s = self;
        s.lact_enabled = true;
        s
    }

    /// Opt into the C3/C6 MWDT layout and behaviour, seeding the SVD reset
    /// values of WDTCONFIG0..5 and the unlock key in WDTWPROTECT.
    pub fn with_mwdt(self) -> (r: Self)
        ensures
            r@ == (TimgView {
                mwdt: true,
                regs: self@.regs.insert(WDT_CONFIG0, 0x0004_C000).insert(
                    WDT_CONFIG1,
                    0x0001_0000,
                ).insert(WDT_CONFIG2, 0x018C_BA80).insert(WDT_CONFIG3, 0x07FF_FFFF).insert(
                    WDT_CONFIG4,
                    0x000F_FFFF,
                ).insert(WDT_CONFIG5_C3, 0x000F_FFFF).insert(WDT_WPROTECT_C3, WDT_WKEY_VALUE),
                ..self@
            }),
    {
        let mut s = self;
        s.mwdt = true;
        s.regs.insert(WDT_CONFIG0, 0x0004_C000);
        s.regs.insert(WDT_CONFIG1, 0x0001_0000);
        s.regs.insert(WDT_CONFIG2, 0x018C_BA80);
        s.regs.insert(WDT_CONFIG3, 0x07FF_FFFF);
        s.regs.insert(WDT_CONFIG4, 0x000F_FFFF);
        s.regs.insert(WDT_CONFIG5_C3, 0x000F_FFFF);
        s.regs.insert(WDT_WPROTECT_C3, WDT_WKEY_VALUE);
        s
    }

    /// Base address this instance is registered at.
    pub fn base(&self) -> (r: u32)
        ensures
            r == self@.base,
    {
        self.base
    }

    /// Live T0 counter.
    pub fn counter_t0(&self) -> (r: u64)
        ensures
            r == self@.counter_t0,
    {
        self.counter_t0
    }

    /// Live T1 counter.
    pub fn counter_t1(&self) -> (r: u64)
        ensures
            r == self@.counter_t1,
    {
        self.counter_t1
    }

    /// Live LACT counter.
    pub fn counter_lact(&self) -> (r: u64)
        ensures
            r == self@.counter_lact,
    {
        self.counter_lact
    }

    fn word(&self, off: u64) -> (r: u32)
        ensures
            r == self@.word(off),
    {
        map_word(&self.regs, off)
    }

    fn is_t0_enabled(&self) -> (r: bool)
        ensures
            r == self@.t0_enabled(),
    {
        self.word(T0_CONFIG) & T_CONFIG_EN_BIT != 0
    }

    fn is_t1_enabled(&self) -> (r: bool)
        ensures
            r == self@.t1_enabled(),
    {
        self.word(T1_CONFIG) & T_CONFIG_EN_BIT != 0
    }

    /// Programmed LACT prescaler, or `None` when LACT is absent, disabled or
    /// the divider is still zero.
    fn lact_divider(&self) -> (r: Option<u32>)
        ensures
            r == (if self@.lact_divider() == 0 {
                None
            } else {
                Some(self@.lact_divider())
            }),
    {
        if !self.lact_enabled {
            return None;
        }
        let cfg = self.word(LACT_CONFIG);
        if cfg & LACT_EN_BIT == 0 {
            return None;
        }
        let mask: u32 = 0xFFFF;
        let d = (cfg >> 13u32) & mask;
        if d == 0 {
            None
        } else {
            Some(d)
        }
    }

    fn advance_lact(&mut self, ticks: u64)
        ensures
            final(self)@ == old(self)@.advance_lact(ticks),
    {
        let div = match self.lact_divider() {
            Some(d) => d,
            None => return ,
        };
        let apb: u64 = if ticks > u64::MAX / APB_MHZ {
            u64::MAX
        } else {
            ticks * APB_MHZ
        };
        let rem = self.lact_rem as u64;
        let cycles: u64 = if apb > u64::MAX - rem {
            u64::MAX
        } else {
            apb + rem
        };
        let d = div as u64;
        let q = cycles / d;
        let r = cycles % d;
        self.counter_lact = wrapping_add(self.counter_lact, q);
        assert(r < d);
        self.lact_rem = r as u32;
    }

    fn latch_lact(&mut self)
        ensures
            final(self)@ == old(self)@.latch_lact(),
    {
        self.regs.insert(LACT_LO, self.counter_lact as u32);
        self.regs.insert(LACT_HI, (self.counter_lact >> 32u64) as u32);
    }

    fn preload_lact(&mut self)
        ensures
            final(self)@ == old(self)@.preload_lact(),
    {
        let lo = self.word(LACT_LOADLO) as u64;
        let hi = self.word(LACT_LOADHI) as u64;
        self.counter_lact = (hi << 32u64) | lo;
        self.lact_rem = 0;
        self.latch_lact();
    }

    fn latch_t0(&mut self)
        ensures
            final(self)@ == old(self)@.latch_t0(),
    {
        self.regs.insert(T0_LO, self.counter_t0 as u32);
        self.regs.insert(T0_HI, (self.counter_t0 >> 32u64) as u32);
    }

    fn latch_t1(&mut self)
        ensures
            final(self)@ == old(self)@.latch_t1(),
    {
        self.regs.insert(T1_LO, self.counter_t1 as u32);
        self.regs.insert(T1_HI, (self.counter_t1 >> 32u64) as u32);
    }

    fn preload_t0(&mut self)
        ensures
            final(self)@ == old(self)@.preload_t0(),
    {
        let lo = self.word(T0_LOADLO) as u64;
        let hi = self.word(T0_LOADHI) as u64;
        self.counter_t0 = (hi << 32u64) | lo;
        self.latch_t0();
    }

    fn preload_t1(&mut self)
        ensures
            final(self)@ == old(self)@.preload_t1(),
    {
        let lo = self.word(T1_LOADLO) as u64;
        let hi = self.word(T1_LOADHI) as u64;
        self.counter_t1 = (hi << 32u64) | lo;
        self.latch_t1();
    }

    fn mwdt_config_write_blocked(&self, word_off: u64) -> (r: bool)
        ensures
            r == self@.config_write_blocked(word_off),
    {
        self.mwdt && (word_off == WDT_CONFIG0 || word_off == WDT_CONFIG1 || word_off
            == WDT_CONFIG2 || word_off == WDT_CONFIG3 || word_off == WDT_CONFIG4 || word_off
            == WDT_CONFIG5_C3) && self.word(WDT_WPROTECT_C3) != WDT_WKEY_VALUE
    }

    fn mwdt_stage_action(&self, stage: u8) -> (r: u32)
        ensures
            r == self@.stage_action(stage),
    {
        let shift: u32 = if stage == 0 {
            29
        } else if stage == 1 {
            27
        } else if stage == 2 {
            25
        } else {
            23
        };
        (self.word(WDT_CONFIG0) >> shift) & 3
    }

    fn mwdt_reload(&mut self)
        ensures
            final(self)@ == old(self)@.mwdt_reload(),
    {
        self.wdt_stage = 0;
        self.wdt_countdown = self.word(WDT_CONFIG2) as u64;
        self.wdt_armed = true;
    }

    fn on_mwdt_config0_write(&mut self)
        ensures
            final(self)@ == old(self)@.on_config0_write(),
    {
        let enabled = self.word(WDT_CONFIG0) & WDT_EN_BIT != 0;
        if enabled && !self.wdt_enabled {
            self.mwdt_reload();
        }
        if !enabled {
            self.wdt_countdown = 0;
            self.wdt_armed = false;
        }
        self.wdt_enabled = enabled;
    }

    fn mwdt_feed(&mut self)
        ensures
            final(self)@ == old(self)@.mwdt_feed(),
    {
        if self.wdt_enabled {
            self.mwdt_reload();
        }
    }

    fn mwdt_expire_stage(&mut self)
        ensures
            final(self)@ == old(self)@.expire_stage(),
    {
        if self.mwdt_stage_action(self.wdt_stage) == WDT_STAGE_ACTION_INT {
            self.wdt_pending = true;
        }
        self.wdt_stage = if self.wdt_stage >= 3 {
            0
        } else {
            self.wdt_stage + 1
        };
        let hold_reg = if self.wdt_stage == 0 {
            WDT_CONFIG2
        } else if self.wdt_stage == 1 {
            WDT_CONFIG3
        } else if self.wdt_stage == 2 {
            WDT_CONFIG4
        } else {
            WDT_CONFIG5_C3
        };
        self.wdt_countdown = self.word(hold_reg) as u64;
    }

    fn advance_mwdt(&mut self, ticks: u64)
        ensures
            final(self)@ == old(self)@.advance_mwdt(ticks),
    {
        if !self.mwdt || !self.wdt_armed {
            return ;
        }
        let mut remaining = ticks;
        while remaining > 0
            invariant
                self@.mwdt_run(remaining as nat) == old(self)@.mwdt_run(ticks as nat),
                old(self)@.advance_mwdt(ticks) == old(self)@.mwdt_run(ticks as nat),
            decreases remaining,
        {
            if self.wdt_countdown > remaining {
                self.wdt_countdown = self.wdt_countdown - remaining;
                return ;
            }
            if self.wdt_countdown > 0 {
                remaining = remaining - self.wdt_countdown;
            } else {
                remaining = remaining - 1;
            }
            self.wdt_countdown = 0;
            self.mwdt_expire_stage();
        }
    }

    fn mwdt_int_raw(&self) -> (r: u32)
        ensures
            r == self@.mwdt_int_raw(),
    {
        if self.wdt_pending {
            WDT_INT_RAW_BIT
        } else {
            0
        }
    }

    fn mwdt_int_st(&self) -> (r: u32)
        ensures
            r == self@.mwdt_int_st(),
    {
        self.mwdt_int_raw() & self.word(WDT_INT_ENA_C3)
    }

    fn apply_write_side_effects(&mut self, word_off: u64)
        requires
            old(self)@.cal_ok(),
        ensures
            final(self)@ == old(self)@.side_effects(word_off),
    {
        if word_off == T0_UPDATE {
            self.latch_t0();
        } else if word_off == T1_UPDATE {
            self.latch_t1();
        } else if word_off == T0_LOAD {
            self.preload_t0();
        } else if word_off == T1_LOAD {
            self.preload_t1();
        } else if word_off == LACT_UPDATE && self.lact_enabled {
            self.latch_lact();
        } else if word_off == LACT_LOAD && self.lact_enabled {
            self.preload_lact();
        } else if word_off == WDT_CONFIG0 && self.mwdt {
            self.on_mwdt_config0_write();
        } else if word_off == WDT_FEED_C3 && self.mwdt {
            self.mwdt_feed();
        } else if word_off == WDT_INT_CLR_C3 && self.mwdt {
            if self.word(WDT_INT_CLR_C3) & WDT_INT_RAW_BIT != 0 {
                self.wdt_pending = false;
            }
        } else if word_off == INT_CLR {
            let mask = self.word(INT_CLR);
            let raw = self.word(INT_RAW);
            self.regs.insert(INT_RAW, raw & !mask);
        } else if word_off == RTCCALICFG {
            self.maybe_complete_rtc_calibration();
        }
    }

    fn maybe_complete_rtc_calibration(&mut self)
        requires
            old(self)@.cal_ok(),
        ensures
            final(self)@ == old(self)@.rtc_calibrate(),
    {
        let cfg = self.word(RTCCALICFG);
        if cfg & RTC_CALI_START_BIT == 0 {
            return ;
        }
        match self.rtc_cal {
            Some(profile) => {
                let field = ((cfg >> 16u32) & 0x7FFF) as u64;
                let slowclk_cycles: u64 = if field == 0 {
                    1
                } else {
                    field
                };
                assert(field <= 0x7FFF) by (bit_vector)
                    requires
                        field == ((cfg >> 16u32) & 0x7FFF) as u64,
                ;
                proof {
                    vstd::arithmetic::mul::lemma_mul_inequality(
                        slowclk_cycles as int,
                        0x7FFF,
                        profile.xtal_hz as int,
                    );
                    vstd::arithmetic::mul::lemma_mul_is_commutative(
                        slowclk_cycles as int,
                        profile.xtal_hz as int,
                    );
                }
                let xtal_cycles = (profile.xtal_hz * slowclk_cycles + profile.slow_hz / 2)
                    / profile.slow_hz;
                let value = (xtal_cycles as u32) & 0x01FF_FFFF;
                self.regs.insert(RTCCALICFG, cfg | RTC_CALI_RDY_BIT);
                self.regs.insert(RTCCALICFG1, value << 7u32);
            },
            None => {
                let field = (cfg >> 13u32) & 0x1FFFF;
                let max: u32 = if field == 0 {
                    1
                } else {
                    field
                };
                assert(field <= 0x1FFFF) by (bit_vector)
                    requires
                        field == (cfg >> 13u32) & 0x1FFFF,
                ;
                let value = (max * 533) & 0x01FF_FFFF;
                self.regs.insert(RTCCALICFG, cfg | RTC_CALI_RDY_BIT);
                self.regs.insert(RTCCALICFG1, (value << 7u32) | 1);
            },
        }
    }

    /// Word-granular read. Counter words fall back to the live counter until
    /// a latch stores them; the MWDT status words are computed.
    pub fn read_u32(&self, offset: u64) -> (r: SimResult<u32>)
        ensures
            r == Ok::<u32, crate::SimulationError>(self@.read_word(word_base(offset))),
    {
        let word_off = align_word(offset);
        Ok(self.read_word_at(word_off))
    }

    fn read_word_at(&self, word_off: u64) -> (r: u32)
        ensures
            r == self@.read_word(word_off),
    {
        if word_off == T0_LO {
            match self.regs.get(&T0_LO) {
                Some(v) => *v,
                None => self.counter_t0 as u32,
            }
        } else if word_off == T0_HI {
            match self.regs.get(&T0_HI) {
                Some(v) => *v,
                None => (self.counter_t0 >> 32u64) as u32,
            }
        } else if word_off == T1_LO {
            match self.regs.get(&T1_LO) {
                Some(v) => *v,
                None => self.counter_t1 as u32,
            }
        } else if word_off == T1_HI {
            match self.regs.get(&T1_HI) {
                Some(v) => *v,
                None => (self.counter_t1 >> 32u64) as u32,
            }
        } else if word_off == LACT_LO && self.lact_enabled {
            match self.regs.get(&LACT_LO) {
                Some(v) => *v,
                None => self.counter_lact as u32,
            }
        } else if word_off == LACT_HI && self.lact_enabled {
            match self.regs.get(&LACT_HI) {
                Some(v) => *v,
                None => (self.counter_lact >> 32u64) as u32,
            }
        } else if word_off == WDT_INT_RAW_C3 && self.mwdt {
            self.mwdt_int_raw()
        } else if word_off == WDT_INT_ST_C3 && self.mwdt {
            self.mwdt_int_st()
        } else {
            self.word(word_off)
        }
    }

    /// Byte read: the addressed lane of the word read.
    pub fn read(&self, offset: u64) -> (r: SimResult<u8>)
        ensures
            r == Ok::<u8, crate::SimulationError>(
                byte_of(self@.read_word(word_base(offset)), offset),
            ),
    {
        let word_off = align_word(offset);
        Ok(get_byte(self.read_word_at(word_off), offset))
    }

    /// Side-effect-free probe: the byte a read would return.
    pub fn peek(&self, offset: u64) -> (r: Option<u8>)
        ensures
            r == Some(byte_of(self@.read_word(word_base(offset)), offset)),
    {
        Some(get_byte(self.read_word_at(align_word(offset)), offset))
    }

    /// Word write: dropped by the MWDT write lock, else stored and its side
    /// effects applied.
    pub fn write_u32(&mut self, offset: u64, value: u32) -> (r: SimResult<()>)
        requires
            old(self)@.cal_ok(),
        ensures
            r is Ok,
            final(self)@ == old(self)@.write_word(word_base(offset), value),
    {
        let word_off = align_word(offset);
        if self.mwdt_config_write_blocked(word_off) {
            return Ok(());
        }
        self.regs.insert(word_off, value);
        self.apply_write_side_effects(word_off);
        Ok(())
    }

    /// Byte write into the addressed lane of the stored word, with the same
    /// lock and side effects as a word write.
    pub fn write(&mut self, offset: u64, value: u8) -> (r: SimResult<()>)
        requires
            old(self)@.cal_ok(),
        ensures
            r is Ok,
            final(self)@ == old(self)@.write_byte(offset, value),
    {
        let word_off = align_word(offset);
        if self.mwdt_config_write_blocked(word_off) {
            return Ok(());
        }
        let cur = self.word(word_off);
        self.regs.insert(word_off, set_byte(cur, offset, value));
        self.apply_write_side_effects(word_off);
        Ok(())
    }

    fn advance_counters(&mut self, delta: u64)
        ensures
            final(self)@ == old(self)@.advance(delta),
    {
        if self.is_t0_enabled() {
            self.counter_t0 = wrapping_add(self.counter_t0, delta);
        }
        if self.is_t1_enabled() {
            self.counter_t1 = wrapping_add(self.counter_t1, delta);
        }
        self.advance_lact(delta);
        self.advance_mwdt(delta);
    }

    /// One walk tick: every enabled counter advances by one.
    pub fn tick(&mut self) -> (r: PeripheralTickResult)
        ensures
            final(self)@ == old(self)@.advance(1),
            !r.irq && r.cycles == 0 && r.explicit_irqs is None,
    {
        self.advance_counters(1);
        PeripheralTickResult::quiet()
    }

    /// Scheduler-driven unless the MWDT variant needs the walk.
    pub fn uses_scheduler(&self) -> (r: bool)
        ensures
            r == !self@.mwdt,
    {
        !self.mwdt
    }

    /// Advance the enabled counters to peripheral tick `tick_now`.
    pub fn sync_to(&mut self, tick_now: u64)
        ensures
            final(self)@ == old(self)@.sync_to(tick_now),
    {
        if self.mwdt {
            return ;
        }
        if tick_now <= self.anchor_tick {
            return ;
        }
        let delta = tick_now - self.anchor_tick;
        self.advance_counters(delta);
        self.anchor_tick = tick_now;
    }
}

} // verus!
