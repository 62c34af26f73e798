//! Pin-only devices: the pads they are bound to and their derived clock.
//!
//! Pin-only parts are not on a data bus, so nothing hands them microseconds.
//! They get device time from the simulated cycle count and the system's
//! `cpu_hz`, converted at each serviced tick and carried with a remainder so
//! a slow tick rate does not quietly lose time.

use vstd::prelude::*;

verus! {

/// One pad a pin-only device watches or drives, resolved to `(address, bit)`
/// at attach. The role name is what a rule says; the address is what the bus
/// needs.
#[derive(Debug, Clone, PartialEq, Eq)]
pub struct BoundPin {
    /// Descriptor role name (`SCK`, `DOUT`).
    pub role: String,
    /// Resolved register address: ODR for an observed pin, IDR for a driven one.
    pub addr: u64,
    pub bit: u8,
}

/// Cycles to microseconds, with the fractional part carried.
#[derive(Debug, Clone, Copy, PartialEq, Eq)]
pub struct DeviceClock {
    /// The CPU clock, in Hz.
    pub cpu_hz: u64,
    /// The cycle of the last serviced tick, if any.
    pub last_cycle: Option<u64>,
    pub elapsed_cycles: u64,
    /// Cycle-microseconds not yet worth a whole microsecond, below `cpu_hz`.
    pub cycle_remainder: u64,
    pub elapsed_us: u64,
}

pub open spec fn sat_add(a: u64, b: u64) -> u64 {
    if a + b > u64::MAX {
        u64::MAX
    } else {
        (a + b) as u64
    }
}

pub open spec fn sat_sub(a: u64, b: u64) -> u64 {
    if a >= b {
        (a - b) as u64
    } else {
        0
    }
}

/// The cycles since the last serviced tick; none at the first.
pub open spec fn delta_of(c: DeviceClock, now: u64) -> u64 {
    match c.last_cycle {
        None => 0,
        Some(p) => sat_sub(now, p),
    }
}

/// The cycle-microseconds a tick converts: the remainder carried in and
/// the new cycles times a million.
pub open spec fn total_of(c: DeviceClock, now: u64) -> int {
    c.cycle_remainder + delta_of(c, now) * 1_000_000
}

/// The whole microseconds a tick at `now` adds, saturating at `u64::MAX`.
pub open spec fn tick_us(c: DeviceClock, now: u64) -> u64 {
    let q = total_of(c, now) / (c.cpu_hz as int);
    if q > u64::MAX {
        u64::MAX
    } else {
        q as u64
    }
}

/// The clock after a tick at `now`.
pub open spec fn ticked(c: DeviceClock, now: u64) -> DeviceClock {
    DeviceClock {
        cpu_hz: c.cpu_hz,
        last_cycle: Some(now),
        elapsed_cycles: sat_add(c.elapsed_cycles, delta_of(c, now)),
        cycle_remainder: (total_of(c, now) % (c.cpu_hz as int)) as u64,
        elapsed_us: sat_add(c.elapsed_us, tick_us(c, now)),
    }
}

impl DeviceClock {
    pub open spec fn wf(&self) -> bool {
        self.cpu_hz > 0 && self.cycle_remainder < self.cpu_hz
    }

    /// A clock at `cpu_hz` that has seen no tick; a zero clock counts as
    /// 1 Hz.
    pub fn new(cpu_hz: u64) -> (r: DeviceClock)
        ensures
            r == (DeviceClock {
                cpu_hz: if cpu_hz == 0 {
                    1
                } else {
                    cpu_hz
                },
                last_cycle: None,
                elapsed_cycles: 0,
                cycle_remainder: 0,
                elapsed_us: 0,
            }),
            r.wf(),
    {
        let hz = if cpu_hz == 0 {
            1
        } else {
            cpu_hz
        };
        DeviceClock { cpu_hz: hz, last_cycle: None, elapsed_cycles: 0, cycle_remainder: 0, elapsed_us: 0 }
    }

    /// Advances to the serviced cycle `now`: derives the rational
    /// microseconds since the last tick without truncating fractional MHz
    /// clocks, and returns the whole microseconds added.
    pub fn advance(&mut self, now: u64) -> (us: u64)
        requires
            old(self).wf(),
        ensures
            *final(self) == ticked(*old(self), now),
            us == tick_us(*old(self), now),
            final(self).wf(),
    {
        let delta = match self.last_cycle {
            None => 0,
            Some(previous) => now.saturating_sub(previous),
        };
        self.last_cycle = Some(now);
        self.elapsed_cycles = self.elapsed_cycles.saturating_add(delta);
        let total = self.cycle_remainder as u128 + delta as u128 * 1_000_000;
        let q = total / self.cpu_hz as u128;
        let us = if q > u64::MAX as u128 {
            u64::MAX
        } else {
            q as u64
        };
        self.cycle_remainder = (total % self.cpu_hz as u128) as u64;
        self.elapsed_us = self.elapsed_us.saturating_add(us);
        us
    }
}

/// No time is lost: while nothing saturates, the microseconds counted and
/// the carried remainder account for every cycle since the first tick,
/// `elapsed_us * cpu_hz + remainder == elapsed_cycles * 1_000_000`, tick
/// after tick, however slow the tick rate.
pub proof fn lemma_no_time_lost(c: DeviceClock, now: u64)
    requires
        c.wf(),
        c.elapsed_us * c.cpu_hz + c.cycle_remainder == c.elapsed_cycles * 1_000_000,
        c.elapsed_cycles + delta_of(c, now) <= u64::MAX,
        c.elapsed_us + total_of(c, now) / (c.cpu_hz as int) <= u64::MAX,
    ensures
        ticked(c, now).elapsed_us * c.cpu_hz + ticked(c, now).cycle_remainder
            == ticked(c, now).elapsed_cycles * 1_000_000,
        ticked(c, now).wf(),
{
    let hz = c.cpu_hz as int;
    let total = total_of(c, now);
    let q = total / hz;
    let r = total % hz;
    vstd::arithmetic::div_mod::lemma_fundamental_div_mod(total, hz);
    assert(q >= 0) by {
        vstd::arithmetic::div_mod::lemma_div_pos_is_pos(total, hz);
    }
    let t = ticked(c, now);
    assert(t.elapsed_us == c.elapsed_us + q);
    assert(t.elapsed_cycles == c.elapsed_cycles + delta_of(c, now));
    assert(t.cycle_remainder == r);
    assert((c.elapsed_us + q) * hz + r == c.elapsed_us * hz + (hz * q + r)) by (nonlinear_arith);
    assert((c.elapsed_cycles + delta_of(c, now)) * 1_000_000 == c.elapsed_cycles * 1_000_000
        + delta_of(c, now) * 1_000_000) by (nonlinear_arith);
}

} // verus!
