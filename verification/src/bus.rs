//! A bus with one flat RAM window: the memory DMA-capable peripherals read
//! descriptors and buffers from and write results back to.

use crate::{SimResult, SimulationError};
use vstd::prelude::*;

verus! {

/// Bus-wide configuration a peripheral may consult.
#[derive(Debug, Clone, Copy, PartialEq, Eq)]
pub struct BusConfig {
    /// Peripheral tick interval in CPU cycles.
    pub peripheral_tick_interval: u32,
}

/// The mathematical state of a RAM bus: the window's base and its bytes.
pub struct RamView {
    pub base: u64,
    pub mem: Seq<u8>,
    /// Peripheral tick interval in CPU cycles.
    pub interval: u32,
}

impl RamView {
    /// `addr` falls inside the RAM window.
    pub open spec fn holds(self, addr: u64) -> bool {
        self.base <= addr && addr - self.base < self.mem.len()
    }

    /// The byte at `addr` (meaningful when `holds(addr)`).
    pub open spec fn byte(self, addr: int) -> u8 {
        self.mem[addr - self.base]
    }

    /// `addr..addr + 4` falls inside the RAM window.
    pub open spec fn holds_word(self, addr: u64) -> bool {
        self.base <= addr && addr - self.base + 4 <= self.mem.len()
    }

    /// The little-endian word at `addr`.
    pub open spec fn word(self, addr: u64) -> u32 {
        le_word(self.byte(addr as int), self.byte(addr + 1), self.byte(addr + 2), self.byte(addr + 3))
    }

    /// The RAM after storing `value` at `addr`.
    pub open spec fn store(self, addr: int, value: u8) -> Self {
        RamView { mem: self.mem.update(addr - self.base, value), ..self }
    }

    /// The RAM after storing the little-endian word `value` at `addr`.
    pub open spec fn store_word(self, addr: u64, value: u32) -> Self {
        self.store(addr as int, value as u8).store(addr + 1, (value >> 8u32) as u8).store(
            addr + 2,
            (value >> 16u32) as u8,
        ).store(addr + 3, (value >> 24u32) as u8)
    }
}

/// Four bytes as a little-endian word.
pub open spec fn le_word(b0: u8, b1: u8, b2: u8, b3: u8) -> u32 {
    (b0 as u32) | ((b1 as u32) << 8u32) | ((b2 as u32) << 16u32) | ((b3 as u32) << 24u32)
}

/// A bus backed by one flat RAM window.
#[derive(Debug)]
pub struct RamBus {
    base: u64,
    bytes: Vec<u8>,
    /// Bus-wide configuration.
    pub config: BusConfig,
}

impl View for RamBus {
    type V = RamView;

    closed spec fn view(&self) -> RamView {
        RamView { base: self.base, mem: self.bytes@, interval: self.config.peripheral_tick_interval }
    }
}

impl RamBus {
    /// `size` zeroed bytes at `base`, ticking peripherals every cycle.
    pub fn new(base: u64, size: usize) -> (r: Self)
        ensures
            r@.base == base,
            r@.mem.len() == size,
            forall|i: int| 0 <= i < size ==> r@.mem[i] == 0,
            r@.interval == 1,
    {
        let mut bytes: Vec<u8> = Vec::new();
        let mut i: usize = 0;
        while i < size
            invariant
                i <= size,
                bytes@.len() == i,
                forall|k: int| 0 <= k < i ==> bytes@[k] == 0,
            decreases size - i,
        {
            bytes.push(0);
            i = i + 1;
        }
        RamBus { base, bytes, config: BusConfig { peripheral_tick_interval: 1 } }
    }

    /// The peripheral tick interval in CPU cycles.
    pub fn peripheral_tick_interval(&self) -> (r: u32)
        ensures
            r == self@.interval,
    {
        self.config.peripheral_tick_interval
    }

    fn index_of(&self, addr: u64) -> (r: Option<usize>)
        ensures
            match r {
                Some(i) => self@.holds(addr) && i == addr - self@.base,
                None => !self@.holds(addr),
            },
    {
        if addr < self.base {
            return None;
        }
        let d = addr - self.base;
        if d < self.bytes.len() as u64 {
            Some(d as usize)
        } else {
            None
        }
    }

    /// Byte read; outside the window it is a memory violation.
    pub fn read_u8(&self, addr: u64) -> (r: SimResult<u8>)
        ensures
            self@.holds(addr) ==> r == Ok::<u8, SimulationError>(self@.byte(addr as int)),
            !self@.holds(addr) ==> r == Err::<u8, SimulationError>(
                SimulationError::MemoryViolation(addr),
            ),
    {
        match self.index_of(addr) {
            Some(i) => Ok(self.bytes[i]),
            None => Err(SimulationError::MemoryViolation(addr)),
        }
    }

    /// Byte write; outside the window it is a memory violation and nothing
    /// is stored.
    pub fn write_u8(&mut self, addr: u64, value: u8) -> (r: SimResult<()>)
        ensures
            old(self)@.holds(addr) ==> r is Ok && final(self)@ == old(self)@.store(addr as int, value),
            !old(self)@.holds(addr) ==> r == Err::<(), SimulationError>(
                SimulationError::MemoryViolation(addr),
            ) && final(self)@ == old(self)@,
    {
        match self.index_of(addr) {
            Some(i) => {
                self.bytes.set(i, value);
                Ok(())
            },
            None => Err(SimulationError::MemoryViolation(addr)),
        }
    }

    /// Little-endian word read of four bytes inside the window.
    pub fn read_u32(&self, addr: u64) -> (r: SimResult<u32>)
        ensures
            self@.holds_word(addr) ==> r == Ok::<u32, SimulationError>(self@.word(addr)),
            !self@.holds_word(addr) ==> r is Err,
    {
        if addr < self.base || addr - self.base > self.bytes.len() as u64 || self.bytes.len()
            as u64 - (addr - self.base) < 4 {
            return Err(SimulationError::MemoryViolation(addr));
        }
        let i = (addr - self.base) as usize;
        let b0 = self.bytes[i];
        let b1 = self.bytes[i + 1];
        let b2 = self.bytes[i + 2];
        let b3 = self.bytes[i + 3];
        Ok((b0 as u32) | ((b1 as u32) << 8u32) | ((b2 as u32) << 16u32) | ((b3 as u32) << 24u32))
    }

    /// Little-endian word write of four bytes inside the window; anything
    /// reaching outside stores nothing.
    pub fn write_u32(&mut self, addr: u64, value: u32) -> (r: SimResult<()>)
        ensures
            old(self)@.holds_word(addr) ==> r is Ok && final(self)@ == old(self)@.store_word(
                addr,
                value,
            ),
            !old(self)@.holds_word(addr) ==> r is Err && final(self)@ == old(self)@,
    {
        if addr < self.base || addr - self.base > self.bytes.len() as u64 || self.bytes.len()
            as u64 - (addr - self.base) < 4 {
            return Err(SimulationError::MemoryViolation(addr));
        }
        let i = (addr - self.base) as usize;
        self.bytes.set(i, value as u8);
        self.bytes.set(i + 1, (value >> 8u32) as u8);
        self.bytes.set(i + 2, (value >> 16u32) as u8);
        self.bytes.set(i + 3, (value >> 24u32) as u8);
        Ok(())
    }
}

} // verus!
