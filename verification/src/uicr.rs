//! Nordic nRF52 UICR (User Information Configuration Registers).
//!
//! One-time-programmable configuration words. Every field erases to
//! 0xFFFF_FFFF (NFCPINS to 0xFFFF_FFFE on the bench board) and is programmed
//! with flash semantics: a write can only clear bits, so it ANDs the new value
//! into the stored word.

use crate::regs::{byte_of, get_byte, lane_of, lane_shift, word_base};
use crate::SimResult;
use vstd::prelude::*;

verus! {

pub const OFF_NRFFW_FIRST: u64 = 0x014;
pub const OFF_NRFFW_LAST: u64 = 0x050;
pub const OFF_NRFHW_FIRST: u64 = 0x050;
pub const OFF_NRFHW_LAST: u64 = 0x07C;
pub const OFF_CUSTOMER_FIRST: u64 = 0x080;
pub const OFF_CUSTOMER_LAST: u64 = 0x0FC;
pub const OFF_PSELRESET0: u64 = 0x200;
pub const OFF_PSELRESET1: u64 = 0x204;
pub const OFF_APPROTECT: u64 = 0x208;
pub const OFF_NFCPINS: u64 = 0x20C;
pub const OFF_DEBUGCTRL: u64 = 0x210;
pub const OFF_REGOUT0: u64 = 0x304;

/// The erased value of a UICR word.
pub const ERASED: u32 = 0xFFFF_FFFF;

/// The word offsets that hold a programmable UICR field.
pub open spec fn is_uicr_reg(off: u64) -> bool {
    ||| (OFF_NRFFW_FIRST <= off < OFF_NRFHW_LAST && off % 4 == 0)
    ||| (OFF_CUSTOMER_FIRST <= off <= OFF_CUSTOMER_LAST && off % 4 == 0)
    ||| off == OFF_PSELRESET0
    ||| off == OFF_PSELRESET1
    ||| off == OFF_APPROTECT
    ||| off == OFF_NFCPINS
    ||| off == OFF_DEBUGCTRL
    ||| off == OFF_REGOUT0
}

/// The erased UICR: every field 0xFFFF_FFFF but NFCPINS.
pub open spec fn erased_uicr() -> Map<u64, u32> {
    Map::new(
        |o: u64| is_uicr_reg(o),
        |o: u64|
            if o == OFF_NFCPINS {
                0xFFFF_FFFEu32
            } else {
                ERASED
            },
    )
}

/// The word a 32-bit read at `off` returns: the field, or erased flash.
pub open spec fn uicr_read(m: Map<u64, u32>, off: u64) -> u32 {
    if m.contains_key(off) {
        m[off]
    } else {
        ERASED
    }
}

/// A 32-bit program of `value` at `off`: bits can only go from 1 to 0.
pub open spec fn uicr_program(m: Map<u64, u32>, off: u64, value: u32) -> Map<u64, u32> {
    if m.contains_key(off) {
        m.insert(off, m[off] & value)
    } else {
        m
    }
}

/// The 32-bit program a byte write at `offset` issues: the byte in its lane,
/// ones in the other three.
pub open spec fn lane_mask(offset: u64, value: u8) -> u32 {
    !(0xFFu32 << lane_shift(offset)) | ((value as u32) << lane_shift(offset))
}

/// Programming never sets a bit: every field after a word program is the
/// old field with some bits cleared, and a program of all ones changes
/// nothing.
pub proof fn lemma_program_only_clears(m: Map<u64, u32>, off: u64, value: u32, o: u64)
    requires
        m.contains_key(o),
    ensures
        uicr_program(m, off, value).contains_key(o),
        uicr_program(m, off, value)[o] & m[o] == uicr_program(m, off, value)[o],
        uicr_program(m, off, 0xFFFF_FFFF) == m,
{
    let x = m[o];
    assert((x & value) & x == x & value) by (bit_vector);
    assert(x & x == x) by (bit_vector);
    assert(x & 0xFFFF_FFFFu32 == x) by (bit_vector);
    if m.contains_key(off) {
        let y = m[off];
        assert(y & 0xFFFF_FFFFu32 == y) by (bit_vector);
        assert(m.insert(off, y & 0xFFFF_FFFF) =~= m);
    }
}

/// A byte program leaves the other three lanes of its word as they were,
/// and programs its own lane with the AND of old and new.
pub proof fn lemma_byte_program_lanes(m: Map<u64, u32>, offset: u64, value: u8, other: u64)
    requires
        m.contains_key(word_base(offset)),
        word_base(other) == word_base(offset),
    ensures
        byte_of(uicr_read(uicr_program(m, word_base(offset), lane_mask(offset, value)), word_base(offset)), other)
            == if other % 4 == offset % 4 {
            byte_of(uicr_read(m, word_base(offset)), other) & value
        } else {
            byte_of(uicr_read(m, word_base(offset)), other)
        },
{
    let w = m[word_base(offset)];
    let a = lane_shift(offset);
    let b = lane_shift(other);
    assert(a == 0 || a == 8 || a == 16 || a == 24);
    assert(b == 0 || b == 8 || b == 16 || b == 24);
    if other % 4 == offset % 4 {
        assert(a == b);
        assert((((w & (!(0xFFu32 << a) | ((value as u32) << a))) >> a) & 0xFF) as u8 == (((w >> a)
            & 0xFF) as u8) & value) by (bit_vector)
            requires
                a == 0 || a == 8 || a == 16 || a == 24,
        ;
    } else {
        assert(a != b);
        assert((((w & (!(0xFFu32 << a) | ((value as u32) << a))) >> b) & 0xFF) as u8 == ((w >> b)
            & 0xFF) as u8) by (bit_vector)
            requires
                a == 0 || a == 8 || a == 16 || a == 24,
                b == 0 || b == 8 || b == 16 || b == 24,
                a != b,
        ;
    }
}

#[derive(Debug)]
pub struct Nrf52Uicr {
    customer: [u32; 32],
    nrffw: [u32; 16],
    nrfhw: [u32; 12],
    pselreset: [u32; 2],
    approtect: u32,
    nfcpins: u32,
    debugctrl: u32,
    regout0: u32,
}

impl View for Nrf52Uicr {
    type V = Map<u64, u32>;

    closed spec fn view(&self) -> Map<u64, u32> {
        Map::new(|o: u64| is_uicr_reg(o), |o: u64| self.field(o))
    }
}

/// Every UICR instance holds exactly the modelled words. So on any
/// instance a word write at a modelled offset reads back as the old word
/// ANDed with the value and leaves every other word as it was, and a write
/// anywhere else changes nothing.
pub proof fn lemma_uicr_write_reads_back(u: &Nrf52Uicr, off: u64, value: u32, other: u64)
    ensures
        forall|o: u64| #[trigger] u@.contains_key(o) <==> is_uicr_reg(o),
        is_uicr_reg(off) ==> uicr_read(uicr_program(u@, off, value), off) == uicr_read(u@, off)
            & value,
        other != off ==> uicr_read(uicr_program(u@, off, value), other) == uicr_read(u@, other),
        !is_uicr_reg(off) ==> uicr_program(u@, off, value) == u@,
{
}

impl Nrf52Uicr {
    spec fn field(&self, o: u64) -> u32 {
        if OFF_NRFFW_FIRST <= o < OFF_NRFFW_LAST {
            self.nrffw@[(o - OFF_NRFFW_FIRST) / 4]
        } else if OFF_NRFHW_FIRST <= o < OFF_NRFHW_LAST {
            self.nrfhw@[(o - OFF_NRFHW_FIRST) / 4]
        } else if OFF_CUSTOMER_FIRST <= o <= OFF_CUSTOMER_LAST {
            self.customer@[(o - OFF_CUSTOMER_FIRST) / 4]
        } else if o == OFF_PSELRESET0 {
            self.pselreset@[0]
        } else if o == OFF_PSELRESET1 {
            self.pselreset@[1]
        } else if o == OFF_APPROTECT {
            self.approtect
        } else if o == OFF_NFCPINS {
            self.nfcpins
        } else if o == OFF_DEBUGCTRL {
            self.debugctrl
        } else {
            self.regout0
        }
    }

    /// The erased UICR.
    pub fn new() -> (r: Self)
        ensures
            r@ == erased_uicr(),
    {
        let r = Nrf52Uicr {
            customer: [ERASED; 32],
            nrffw: [ERASED; 16],
            nrfhw: [ERASED; 12],
            pselreset: [ERASED; 2],
            approtect: ERASED,
            nfcpins: 0xFFFF_FFFE,
            debugctrl: ERASED,
            regout0: ERASED,
        };
        assert(r@ =~= erased_uicr());
        r
    }

    /// Flash-write semantics: a write ANDs the new value into the slot.
    fn flash_write(slot: u32, value: u32) -> (r: u32)
        ensures
            r == slot & value,
    {
        slot & value
    }

    /// ERASEUICR: back to the all-erased state.
    pub fn erase(&mut self)
        ensures
            final(self)@ == erased_uicr(),
    {
        *self = Self::new();
    }

    /// Word read of a field; any other offset reads erased flash.
    pub fn read_u32(&self, offset: u64) -> (r: SimResult<u32>)
        ensures
            r == Ok::<u32, crate::SimulationError>(uicr_read(self@, offset)),
    {
        let aligned = offset % 4 == 0;
        let v = if OFF_NRFFW_FIRST <= offset && offset < OFF_NRFFW_LAST && aligned {
            self.nrffw[((offset - OFF_NRFFW_FIRST) / 4) as usize]
        } else if OFF_NRFHW_FIRST <= offset && offset < OFF_NRFHW_LAST && aligned {
            self.nrfhw[((offset - OFF_NRFHW_FIRST) / 4) as usize]
        } else if OFF_CUSTOMER_FIRST <= offset && offset <= OFF_CUSTOMER_LAST && aligned {
            self.customer[((offset - OFF_CUSTOMER_FIRST) / 4) as usize]
        } else if offset == OFF_PSELRESET0 {
            self.pselreset[0]
        } else if offset == OFF_PSELRESET1 {
            self.pselreset[1]
        } else if offset == OFF_APPROTECT {
            self.approtect
        } else if offset == OFF_NFCPINS {
            self.nfcpins
        } else if offset == OFF_DEBUGCTRL {
            self.debugctrl
        } else if offset == OFF_REGOUT0 {
            self.regout0
        } else {
            ERASED
        };
        Ok(v)
    }

    /// Word program of a field (bits only clear); other offsets are ignored.
    pub fn write_u32(&mut self, offset: u64, value: u32) -> (r: SimResult<()>)
        ensures
            r is Ok,
            final(self)@ == uicr_program(old(self)@, offset, value),
    {
        let aligned = offset % 4 == 0;
        if OFF_NRFFW_FIRST <= offset && offset < OFF_NRFFW_LAST && aligned {
            let i = ((offset - OFF_NRFFW_FIRST) / 4) as usize;
            self.nrffw[i] = Self::flash_write(self.nrffw[i], value);
        } else if OFF_NRFHW_FIRST <= offset && offset < OFF_NRFHW_LAST && aligned {
            let i = ((offset - OFF_NRFHW_FIRST) / 4) as usize;
            self.nrfhw[i] = Self::flash_write(self.nrfhw[i], value);
        } else if OFF_CUSTOMER_FIRST <= offset && offset <= OFF_CUSTOMER_LAST && aligned {
            let i = ((offset - OFF_CUSTOMER_FIRST) / 4) as usize;
            self.customer[i] = Self::flash_write(self.customer[i], value);
        } else if offset == OFF_PSELRESET0 {
            self.pselreset[0] = Self::flash_write(self.pselreset[0], value);
        } else if offset == OFF_PSELRESET1 {
            self.pselreset[1] = Self::flash_write(self.pselreset[1], value);
        } else if offset == OFF_APPROTECT {
            self.approtect = Self::flash_write(self.approtect, value);
        } else if offset == OFF_NFCPINS {
            self.nfcpins = Self::flash_write(self.nfcpins, value);
        } else if offset == OFF_DEBUGCTRL {
            self.debugctrl = Self::flash_write(self.debugctrl, value);
        } else if offset == OFF_REGOUT0 {
            self.regout0 = Self::flash_write(self.regout0, value);
        }
        assert(self@ =~= uicr_program(old(self)@, offset, value));
        Ok(())
    }

    /// Byte read: the addressed lane of the containing word.
    pub fn read(&self, offset: u64) -> (r: SimResult<u8>)
        ensures
            r == Ok::<u8, crate::SimulationError>(
                byte_of(uicr_read(self@, word_base(offset)), offset),
            ),
    {
        let w = match self.read_u32(crate::regs::align_word(offset)) {
            Ok(w) => w,
            Err(e) => return Err(e),
        };
        Ok(get_byte(w, offset))
    }

    /// Byte program of the containing word's lane; the other lanes are left
    /// as they are.
    pub fn write(&mut self, offset: u64, value: u8) -> (r: SimResult<()>)
        ensures
            r is Ok,
            final(self)@ == uicr_program(old(self)@, word_base(offset), lane_mask(offset, value)),
    {
        let shift = lane_of(offset);
        let lane = !(0xFFu32 << shift) | ((value as u32) << shift);
        self.write_u32(crate::regs::align_word(offset), lane)
    }

    /// UICR needs no per-cycle walk.
    pub fn needs_legacy_walk(&self) -> (r: bool)
        ensures
            !r,
    {
        false
    }
}

} // verus!
