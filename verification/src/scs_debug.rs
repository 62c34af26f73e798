//! The Cortex-M debug halting control and status register (`DHCSR`).
//!
//! Only `C_DEBUGEN` and `C_HALT` are stored; `C_STEP` and `C_MASKINTS` are
//! dropped. A write takes effect only with the debug key in the upper half.
//! The CPU shares the control state, so a read sees whatever was stored last
//! by any holder: the contracts of the shared accessors state what holds of
//! every stored value, and the pure functions below fix what a given stored
//! value reads as and what a given write stores.

use crate::regs::byte_of;
use crate::{SimResult, SimulationError};
use std::sync::atomic::AtomicU32;
use std::sync::atomic::Ordering;
use std::sync::Arc;
use vstd::prelude::*;

verus! {

/// The debug key `DBGKEY` expected in bits 31..16 of a write.
pub const DBGKEY: u32 = 0xA05F;
/// `S_REGRDY`: always reads set.
pub const S_REGRDY: u32 = 0x1_0000;
/// `S_HALT`: the core is halted.
pub const S_HALT: u32 = 0x2_0000;

/// The register word for stored controls `c` (bit 0 `C_DEBUGEN`, bit 1
/// `C_HALT`): the two control bits, `S_REGRDY`, and `S_HALT` when both are
/// set.
pub open spec fn dhcsr_of(c: u32) -> u32 {
    let k = c & 3;
    k | S_REGRDY | (if k == 3 {
        S_HALT
    } else {
        0
    })
}

/// What a write of `value` stores: the two control bits when the key
/// matches, nothing otherwise.
pub open spec fn controls_for(value: u32) -> Option<u32> {
    if value >> 16u32 == DBGKEY {
        Some(value & 3)
    } else {
        None
    }
}

/// `r` is a word the register can read as.
pub open spec fn is_dhcsr_word(r: u32) -> bool {
    exists|c: u32| c < 4 && #[trigger] dhcsr_of(c) == r
}

/// The byte at `offset` of a register reading `w`: its lane within the
/// word, zero past it.
pub open spec fn lane_or_zero(w: u32, offset: u64) -> u8 {
    if offset < 4 {
        byte_of(w, offset)
    } else {
        0
    }
}

/// The half-word of two bytes, `lo` in the low lane.
pub open spec fn half_of(lo: u8, hi: u8) -> u16 {
    (lo as u16) | ((hi as u16) << 8u16)
}

/// The register word for stored controls `controls`.
pub fn dhcsr_value(controls: u32) -> (r: u32)
    ensures
        r == dhcsr_of(controls),
{
    let c = controls & 3;
    let halt = if c == 3 {
        S_HALT
    } else {
        0
    };
    c | S_REGRDY | halt
}

/// Whether stored controls `controls` halt the core: both `C_DEBUGEN` and
/// `C_HALT` set, which is exactly when their register word reads `S_HALT`.
pub fn halted_of(controls: u32) -> (r: bool)
    ensures
        r == (controls & 3 == 3),
        r == (dhcsr_of(controls) & S_HALT != 0),
{
    proof {
        lemma_dhcsr_status_bits(controls);
    }
    controls & 3 == 3
}

/// The controls a write of `value` stores, if the key matches.
pub fn dhcsr_controls_for(value: u32) -> (r: Option<u32>)
    ensures
        r == controls_for(value),
{
    if (value >> 16u32) != DBGKEY {
        None
    } else {
        Some(value & 3)
    }
}

/// The halt and debug-enable controls, shared between the debug port and
/// the CPU.
#[derive(Debug)]
pub struct DebugHaltState {
    controls: AtomicU32,
}

impl DebugHaltState {
    /// Fresh controls: not enabled, not halted.
    pub fn new() -> (r: Arc<Self>) {
        Arc::new(DebugHaltState { controls: AtomicU32::new(0) })
    }

    /// The register word for the controls stored last.
    pub fn read_dhcsr(&self) -> (r: u32)
        ensures
            is_dhcsr_word(r),
    {
        let raw = self.controls.load(Ordering::Relaxed);
        let c = raw & 3;
        assert(raw & 3 < 4) by (bit_vector);
        let r = dhcsr_value(c);
        assert(dhcsr_of(c) == r);
        r
    }

    /// A keyed write stores the two control bits; an unkeyed one is dropped.
    pub fn write_dhcsr(&self, value: u32) {
        match dhcsr_controls_for(value) {
            Some(c) => self.controls.store(c, Ordering::Relaxed),
            None => {},
        }
    }

    /// Both `C_DEBUGEN` and `C_HALT` are stored: the `S_HALT` bit of the
    /// register word for the controls stored last.
    pub fn halted(&self) -> (r: bool)
        ensures
            exists|c: u32| c < 4 && r == (#[trigger] dhcsr_of(c) & S_HALT != 0) && r == (c == 3),
    {
        let raw = self.controls.load(Ordering::Relaxed);
        let c = raw & 3;
        assert(raw & 3 < 4 && (raw & 3) & 3 == raw & 3) by (bit_vector);
        halted_of(c)
    }

    /// Clear both controls.
    pub fn clear(&self) {
        self.controls.store(0, Ordering::Relaxed);
    }
}

/// The DHCSR as a memory-mapped peripheral: the word at offset 0.
#[derive(Debug)]
pub struct ScsDebug {
    pub state: Arc<DebugHaltState>,
}

impl ScsDebug {
    pub fn new(state: Arc<DebugHaltState>) -> (r: Self)
        ensures
            r.state == state,
    {
        ScsDebug { state }
    }

    /// The register is reached by the bus on access, never by the walk.
    pub fn needs_legacy_walk(&self) -> (r: bool)
        ensures
            !r,
    {
        false
    }

    /// Byte read: a lane of DHCSR for offsets 0..4, zero past it.
    pub fn read(&self, offset: u64) -> (r: SimResult<u8>)
        ensures
            offset >= 4 ==> r == Ok::<u8, SimulationError>(0),
            offset < 4 ==> exists|w: u32| #[trigger]
                is_dhcsr_word(w) && r == Ok::<u8, SimulationError>(byte_of(w, offset)),
    {
        if offset >= 4 {
            return Ok(0);
        }
        let word = self.state.read_dhcsr();
        let shift = (offset as u32) * 8;
        let b = ((word >> shift) & 0xFF) as u8;
        assert(offset % 4 == offset);
        assert(b == byte_of(word, offset));
        Ok(b)
    }

    /// Byte writes are dropped: a byte cannot carry the key.
    pub fn write(&mut self, offset: u64, value: u8) -> (r: SimResult<()>)
        ensures
            r is Ok,
            final(self).state == old(self).state,
    {
        Ok(())
    }

    /// Word read: DHCSR at offset 0, zero elsewhere.
    pub fn read_u32(&self, offset: u64) -> (r: SimResult<u32>)
        ensures
            offset != 0 ==> r == Ok::<u32, SimulationError>(0),
            offset == 0 ==> (r matches Ok(w) && is_dhcsr_word(w)),
    {
        if offset == 0 {
            Ok(self.state.read_dhcsr())
        } else {
            Ok(0)
        }
    }

    /// Word write: a keyed write at offset 0 stores the controls.
    pub fn write_u32(&mut self, offset: u64, value: u32) -> (r: SimResult<()>)
        ensures
            r is Ok,
            final(self).state == old(self).state,
    {
        if offset == 0 {
            self.state.write_dhcsr(value);
        }
        Ok(())
    }

    /// Half-word read composed of two byte reads, low lane first.
    pub fn read_u16(&self, offset: u64) -> (r: SimResult<u16>)
        requires
            offset < u64::MAX,
        ensures
            offset >= 4 ==> r == Ok::<u16, SimulationError>(0),
            exists|lo_word: u32, hi_word: u32|
                #![trigger is_dhcsr_word(lo_word), is_dhcsr_word(hi_word)]
                is_dhcsr_word(lo_word) && is_dhcsr_word(hi_word) && r == Ok::<u16, SimulationError>(
                    half_of(lane_or_zero(lo_word, offset), lane_or_zero(hi_word, (offset + 1) as u64)),
                ),
    {
        let lo = match self.read(offset) {
            Ok(b) => b,
            Err(e) => {
                return Err(e);
            },
        };
        let hi = match self.read(offset + 1) {
            Ok(b) => b,
            Err(e) => {
                return Err(e);
            },
        };
        let r = (lo as u16) | ((hi as u16) << 8u16);
        proof {
            let w0 = dhcsr_of(0);
            assert(is_dhcsr_word(w0));
            let lw = if offset < 4 {
                choose|w: u32| #[trigger] is_dhcsr_word(w) && lo == byte_of(w, offset)
            } else {
                w0
            };
            let hw = if offset + 1 < 4 {
                choose|w: u32| #[trigger] is_dhcsr_word(w) && hi == byte_of(w, (offset + 1) as u64)
            } else {
                w0
            };
            assert(lo == lane_or_zero(lw, offset));
            assert(hi == lane_or_zero(hw, (offset + 1) as u64));
            assert(r == half_of(lo, hi));
            if offset >= 4 {
                assert(lo == 0 && hi == 0 ==> (lo as u16) | ((hi as u16) << 8u16) == 0)
                    by (bit_vector);
            }
        }
        Ok(r)
    }

    /// Side-effect-free read of one byte.
    pub fn peek(&self, offset: u64) -> (r: Option<u8>)
        ensures
            offset >= 4 ==> r == Some(0u8),
            offset < 4 ==> exists|w: u32| #[trigger] is_dhcsr_word(w) && r == Some(byte_of(w, offset)),
    {
        match self.read(offset) {
            Ok(b) => Some(b),
            Err(_) => None,
        }
    }
}

/// `S_REGRDY` always reads set, and `S_HALT` reads set exactly when both
/// `C_DEBUGEN` and `C_HALT` are stored.
pub proof fn lemma_dhcsr_status_bits(c: u32)
    ensures
        dhcsr_of(c) & S_REGRDY != 0,
        (dhcsr_of(c) & S_HALT != 0) <==> (c & 3 == 3),
        dhcsr_of(c) & 3 == c & 3,
{
    let k = c & 3;
    assert(k <= 3) by (bit_vector)
        requires
            k == c & 3,
    ;
    if k == 3 {
        assert((3u32 | 0x1_0000u32 | 0x2_0000u32) & 0x1_0000 != 0 && (3u32 | 0x1_0000u32
            | 0x2_0000u32) & 0x2_0000 != 0 && (3u32 | 0x1_0000u32 | 0x2_0000u32) & 3 == 3)
            by (bit_vector);
    } else {
        assert(k <= 2 ==> (k | 0x1_0000u32 | 0u32) & 0x1_0000 != 0 && (k | 0x1_0000u32 | 0u32)
            & 0x2_0000 == 0 && (k | 0x1_0000u32 | 0u32) & 3 == k) by (bit_vector);
    }
}

/// A write stores something exactly when it carries the debug key, and what
/// it stores never holds `C_STEP`, `C_MASKINTS` or any other bit.
pub proof fn lemma_keyed_writes_only(value: u32)
    ensures
        controls_for(value) is Some <==> value >> 16u32 == DBGKEY,
        controls_for(value) matches Some(c) ==> c < 4 && c == value & 3,
        controls_for(value) matches Some(c) ==> dhcsr_of(c) & 0xFFFC == 0,
{
    assert(value & 3 < 4) by (bit_vector);
    let c = value & 3;
    assert(((c & 3) | 0x1_0000u32 | (if c & 3 == 3 {
        0x2_0000u32
    } else {
        0u32
    })) & 0xFFFC == 0) by (bit_vector);
}

} // verus!
