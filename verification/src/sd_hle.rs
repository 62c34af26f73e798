//! The decisions of the SoftDevice high-level emulation: running an
//! application built for a Nordic SoftDevice with the SoftDevice absent.
//!
//! At an instruction boundary where the core is in the SVCall handler (IPSR
//! 11, PC at the application's SVCall vector) the exception frame's r0-r3 and
//! the SVC number go to the SoftDevice, its result is written to the stacked
//! r0, the SVC is counted and the exception returns; after that, the
//! SoftDevice is polled every millisecond of emulated time. A bus access
//! that fails on the way ends the boundary: the SVC is not counted and no
//! poll is made. The host performs the accesses and asks these decisions
//! in that order. The SoftDevice may touch only memory at or above the
//! application base.

use vstd::prelude::*;

verus! {

/// The exception number of SVCall.
pub const SVCALL_EXCEPTION: u32 = 11;

/// Emulated microseconds between two polls.
pub const POLL_PERIOD_US: u64 = 1000;

/// The first address of the System Control Space words a host write reaches
/// as one 32-bit store.
pub const SCS_START: u32 = 0xE000_E000;

/// One past the last address of that range.
pub const SCS_END: u32 = 0xE000_F000;

/// What the step looks at of the core.
#[derive(Debug, Clone, Copy, PartialEq, Eq)]
pub struct CoreView {
    pub active_exception: u32,
    pub pc: u32,
    /// The link register: on exception entry, the EXC_RETURN value.
    pub lr: u32,
    pub psp: u32,
    pub sp: u32,
}

/// The emulation's state across steps.
#[derive(Debug, Clone, Copy, PartialEq, Eq)]
pub struct SdHleState {
    /// Application base (vector table).
    pub app_base: u32,
    /// The application's SVCall handler, resolved at attach.
    pub svc_handler: u32,
    pub svc_count: u64,
    pub last_poll_us: u64,
}

/// Whether the core sits at the entry of the application's SVCall handler.
pub open spec fn at_svc_entry(core: CoreView, handler: u32) -> bool {
    core.active_exception == SVCALL_EXCEPTION && (core.pc & !1u32) == handler
}

/// The stack the SVC was issued from: the process stack when EXC_RETURN's
/// bit 2 is set, else the main stack.
pub open spec fn frame_of(core: CoreView) -> u32 {
    if core.lr & 4 != 0 {
        core.psp
    } else {
        core.sp
    }
}

/// Whether a poll is due at `now_us`.
pub open spec fn poll_due(now_us: u64, last_poll_us: u64) -> bool {
    now_us >= last_poll_us + POLL_PERIOD_US
}

impl SdHleState {
    /// The state just after attach.
    pub fn new(app_base: u32, svc_handler: u32) -> (r: SdHleState)
        ensures
            r == (SdHleState { app_base, svc_handler, svc_count: 0, last_poll_us: 0 }),
    {
        SdHleState { app_base, svc_handler, svc_count: 0, last_poll_us: 0 }
    }

    /// The exception frame to serve an SVC from: the stack it was issued on,
    /// when the core sits at the entry of the SVCall handler; none
    /// otherwise.
    pub fn svc_frame(&self, core: CoreView) -> (r: Option<u32>)
        ensures
            r == (if at_svc_entry(core, self.svc_handler) {
                Some(frame_of(core))
            } else {
                None::<u32>
            }),
    {
        if core.active_exception == SVCALL_EXCEPTION && (core.pc & !1u32) == self.svc_handler {
            Some(
                if core.lr & 4 != 0 {
                    core.psp
                } else {
                    core.sp
                },
            )
        } else {
            None
        }
    }

    /// Counts an SVC once it was served and its result stored.
    pub fn svc_served(&mut self)
        requires
            old(self).svc_count < u64::MAX,
        ensures
            *final(self) == (SdHleState { svc_count: (old(self).svc_count + 1) as u64, ..*old(self) }),
    {
        self.svc_count = self.svc_count + 1;
    }

    /// Whether the SoftDevice is polled at `now_us`: when a millisecond has
    /// passed since the last poll, which is then recorded as at `now_us`.
    pub fn poll(&mut self, now_us: u64) -> (r: bool)
        ensures
            r == poll_due(now_us, old(self).last_poll_us),
            *final(self) == (SdHleState {
                last_poll_us: if r {
                    now_us
                } else {
                    old(self).last_poll_us
                },
                ..*old(self)
            }),
    {
        let due = now_us >= POLL_PERIOD_US && now_us - POLL_PERIOD_US >= self.last_poll_us;
        if due {
            self.last_poll_us = now_us;
        }
        due
    }
}

/// Emulated microseconds after `total_cycles` at `cpu_hz`, the clock taken
/// as at least 1 MHz and in whole MHz.
pub fn now_us(cpu_hz: u64, total_cycles: u64) -> (r: u64)
    ensures
        r == total_cycles / ((if cpu_hz >= 1_000_000 {
            cpu_hz
        } else {
            1_000_000
        }) / 1_000_000),
{
    let hz = if cpu_hz >= 1_000_000 {
        cpu_hz
    } else {
        1_000_000
    };
    total_cycles / (hz / 1_000_000)
}

/// Whether the SoftDevice may read or write at `addr`: only at or above the
/// application base, so nothing below it is ever Nordic code or data.
pub fn host_may_touch(addr: u32, app_base: u32) -> (r: bool)
    ensures
        r == (addr >= app_base),
{
    addr >= app_base
}

/// Whether a host write of `len` bytes at `addr` goes to the System Control
/// Space as one 32-bit store rather than byte by byte.
pub fn is_scs_word_write(addr: u32, len: usize) -> (r: bool)
    ensures
        r == (SCS_START <= addr < SCS_END && len == 4),
{
    SCS_START <= addr && addr < SCS_END && len == 4
}

} // verus!
