//! ESP32-C6 GDMA: three channel pairs (IN/RX and OUT/TX) with the C6
//! register layout, memory-to-memory descriptor walks, and the stall-versus-
//! fallback policy for peripheral-coupled starts.
//!
//! Setting `IN_CONF0.MEM_TRANS_EN` and starting both links of one channel
//! arms a walk, run by `tick_with_bus`: the OUT chain's buffers are read and
//! their bytes written into the IN chain's buffers, completion flags latch and
//! the last descriptor addresses are recorded. A start with a real peripheral
//! bound and no memory-to-memory mode stalls visibly; a Dummy or unbound
//! start completes at once with zero bytes moved.

use crate::bus::{RamBus, RamView};
use crate::regs::{byte_of, get_byte, set_byte, with_byte, word_base};
use crate::{PeripheralTickResult, SimResult};
use vstd::prelude::*;

verus! {

/// Interrupt-matrix source of DMA IN channel 0 on the C6.
pub const DMA_IN_CH0_INTR_SOURCE_ID: u32 = 66;
/// Number of channel pairs.
pub const NUM_CHANNELS: usize = 3;
/// Per-channel config-block stride.
pub const CHANNEL_STRIDE: u64 = 0xC0;
/// Base of the per-channel IN block (`IN_CONF0_CH0`).
pub const IN_BLOCK_BASE: u64 = 0x70;
/// Base of `OUT_CONF1_CHn`.
pub const OUT_CONF1_BASE: u64 = 0xD4;
/// Base of `OUT_CONF0_CHn`, outside the channel stride.
pub const OUT_CONF0_BASE: u64 = 0x190;
pub const AHB_TEST_OFFSET: u64 = 0x60;
pub const MISC_CONF_OFFSET: u64 = 0x64;
pub const DATE_OFFSET: u64 = 0x68;
pub const IN_INT_BASE: u64 = 0x00;
pub const OUT_INT_BASE: u64 = 0x30;
pub const INT_CHANNEL_STRIDE: u64 = 0x10;
pub const INT_RAW: u64 = 0x0;
pub const INT_ST: u64 = 0x4;
pub const INT_ENA: u64 = 0x8;
pub const INT_CLR: u64 = 0xC;

pub const LINK_ADDR_MASK: u32 = 0x000F_FFFF;
pub const IN_LINK_AUTO_RET_BIT: u32 = 0x0010_0000;
pub const IN_LINK_START_BIT: u32 = 0x0040_0000;
pub const IN_LINK_RESTART_BIT: u32 = 0x0080_0000;
pub const IN_LINK_PARK_BIT: u32 = 0x0100_0000;
pub const OUT_LINK_START_BIT: u32 = 0x0020_0000;
pub const OUT_LINK_RESTART_BIT: u32 = 0x0040_0000;
pub const OUT_LINK_PARK_BIT: u32 = 0x0080_0000;

/// `IN_CONF0.MEM_TRANS_EN`.
pub const MEM_TRANS_EN_BIT: u32 = 0x10;
/// `OUT_CONF0.OUT_AUTO_WRBACK`.
pub const OUT_AUTO_WRBACK_BIT: u32 = 0x4;
/// `IN_CONF1.IN_CHECK_OWNER` / `OUT_CONF1.OUT_CHECK_OWNER`.
pub const CHECK_OWNER_BIT: u32 = 0x1000;

pub const IN_DONE_BIT: u32 = 0x1;
pub const IN_SUC_EOF_BIT: u32 = 0x2;
pub const OUT_DONE_BIT: u32 = 0x1;
pub const OUT_EOF_BIT: u32 = 0x2;
pub const OUT_TOTAL_EOF_BIT: u32 = 0x8;

/// `*FIFO_STATUS` EMPTY bit.
pub const FIFO_EMPTY_BIT: u32 = 0x2;
/// 6-bit PERI_SEL mask and its unbound reset value.
pub const PERI_SEL_MASK: u32 = 0x3F;
pub const PERI_SEL_RESET: u32 = 0x3F;

/// HP-SRAM prefix of reconstructed descriptor addresses.
pub const DESC_ADDR_PREFIX: u32 = 0x4080_0000;
/// Maximum descriptor hops per chain.
pub const MAX_DESC_CHAIN: u64 = 4096;
pub const DESC_OWNER_BIT: u32 = 0x8000_0000;
pub const DESC_SUC_EOF_BIT: u32 = 0x4000_0000;
pub const DESC_LEN_MASK: u32 = 0x00FF_F000;

/// One direction (IN or OUT) of one channel.
#[derive(Debug, Clone, Copy, PartialEq, Eq)]
pub struct DmaDir {
    pub conf0: u32,
    pub conf1: u32,
    /// 20-bit descriptor-list address.
    pub link_addr: u32,
    /// `INLINK_AUTO_RET`, stored only.
    pub link_auto_ret: bool,
    /// Sticky interrupt-pending bits.
    pub int_raw: u32,
    pub int_ena: u32,
    /// 6-bit peripheral binding; `0x3F` is unbound.
    pub peri_sel: u32,
}

/// One channel pair's transfer state.
#[derive(Debug, Clone, Copy, PartialEq, Eq)]
pub struct Channel {
    pub rx: DmaDir,
    pub tx: DmaDir,
    pub in_started: bool,
    pub out_started: bool,
    /// Both directions started: the next bus tick runs the walk.
    pub pending_m2m: bool,
    /// A start with a real peripheral bound and no pump: visible stall.
    pub in_coupled_pending: bool,
    pub out_coupled_pending: bool,
    pub in_suc_eof_des_addr: u32,
    pub out_eof_des_addr: u32,
}

/// The reset state of a channel: IN_LINK with AUTO_RET, OUT_CONF0 = 0x8,
/// both PERI_SEL unbound.
pub open spec fn channel_reset() -> Channel {
    Channel {
        rx: DmaDir {
            conf0: 0,
            conf1: 0,
            link_addr: 0,
            link_auto_ret: true,
            int_raw: 0,
            int_ena: 0,
            peri_sel: PERI_SEL_RESET,
        },
        tx: DmaDir {
            conf0: 0x8,
            conf1: 0,
            link_addr: 0,
            link_auto_ret: false,
            int_raw: 0,
            int_ena: 0,
            peri_sel: PERI_SEL_RESET,
        },
        in_started: false,
        out_started: false,
        pending_m2m: false,
        in_coupled_pending: false,
        out_coupled_pending: false,
        in_suc_eof_des_addr: 0,
        out_eof_des_addr: 0,
    }
}

fn new_channel() -> (r: Channel)
    ensures
        r == channel_reset(),
{
    Channel {
        rx: DmaDir {
            conf0: 0,
            conf1: 0,
            link_addr: 0,
            link_auto_ret: true,
            int_raw: 0,
            int_ena: 0,
            peri_sel: PERI_SEL_RESET,
        },
        tx: DmaDir {
            conf0: 0x8,
            conf1: 0,
            link_addr: 0,
            link_auto_ret: false,
            int_raw: 0,
            int_ena: 0,
            peri_sel: PERI_SEL_RESET,
        },
        in_started: false,
        out_started: false,
        pending_m2m: false,
        in_coupled_pending: false,
        out_coupled_pending: false,
        in_suc_eof_des_addr: 0,
        out_eof_des_addr: 0,
    }
}

/// Register kind within a channel's IN block.
#[derive(Debug, Clone, Copy, PartialEq, Eq)]
pub enum InReg {
    Conf0,
    Conf1,
    FifoStatus,
    Pop,
    Link,
    State,
    SucEofDesAddr,
    ErrEofDesAddr,
    Dscr,
    DscrBf0,
    DscrBf1,
    Pri,
    PeriSel,
}

/// Register kind within a channel's OUT groups.
#[derive(Debug, Clone, Copy, PartialEq, Eq)]
pub enum OutReg {
    Conf1,
    FifoStatus,
    Push,
    Link,
    State,
    EofDesAddr,
    EofBfrDesAddr,
    Dscr,
    DscrBf0,
    DscrBf1,
    Pri,
    PeriSel,
    Conf0,
}

/// The IN register at byte `rel` of a channel's IN block.
pub open spec fn in_reg_at(rel: u64) -> Option<InReg> {
    if rel == 0x00 {
        Some(InReg::Conf0)
    } else if rel == 0x04 {
        Some(InReg::Conf1)
    } else if rel == 0x08 {
        Some(InReg::FifoStatus)
    } else if rel == 0x0C {
        Some(InReg::Pop)
    } else if rel == 0x10 {
        Some(InReg::Link)
    } else if rel == 0x14 {
        Some(InReg::State)
    } else if rel == 0x18 {
        Some(InReg::SucEofDesAddr)
    } else if rel == 0x1C {
        Some(InReg::ErrEofDesAddr)
    } else if rel == 0x20 {
        Some(InReg::Dscr)
    } else if rel == 0x24 {
        Some(InReg::DscrBf0)
    } else if rel == 0x28 {
        Some(InReg::DscrBf1)
    } else if rel == 0x2C {
        Some(InReg::Pri)
    } else if rel == 0x30 {
        Some(InReg::PeriSel)
    } else {
        None
    }
}

/// The OUT register at byte `rel` of a channel's `OUT_CONF1` group.
pub open spec fn out_reg_at(rel: u64) -> Option<OutReg> {
    if rel == 0x00 {
        Some(OutReg::Conf1)
    } else if rel == 0x04 {
        Some(OutReg::FifoStatus)
    } else if rel == 0x08 {
        Some(OutReg::Push)
    } else if rel == 0x0C {
        Some(OutReg::Link)
    } else if rel == 0x10 {
        Some(OutReg::State)
    } else if rel == 0x14 {
        Some(OutReg::EofDesAddr)
    } else if rel == 0x18 {
        Some(OutReg::EofBfrDesAddr)
    } else if rel == 0x1C {
        Some(OutReg::Dscr)
    } else if rel == 0x20 {
        Some(OutReg::DscrBf0)
    } else if rel == 0x24 {
        Some(OutReg::DscrBf1)
    } else if rel == 0x28 {
        Some(OutReg::Pri)
    } else if rel == 0x2C {
        Some(OutReg::PeriSel)
    } else {
        None
    }
}

/// The IN register `offset` names in channel `ch`'s block.
pub open spec fn in_reg_of(offset: u64, ch: int) -> Option<InReg> {
    let base = IN_BLOCK_BASE + ch * CHANNEL_STRIDE;
    if offset < base {
        None
    } else {
        in_reg_at((offset - base) as u64)
    }
}

/// The OUT register `offset` names in channel `ch`'s two groups.
pub open spec fn out_reg_of(offset: u64, ch: int) -> Option<OutReg> {
    let b1 = OUT_CONF1_BASE + ch * CHANNEL_STRIDE;
    let b0 = OUT_CONF0_BASE + ch * CHANNEL_STRIDE;
    if b1 <= offset < b1 + 0x30 {
        out_reg_at((offset - b1) as u64)
    } else if offset == b0 {
        Some(OutReg::Conf0)
    } else {
        None
    }
}

/// The first channel whose IN block holds `offset`, with the register.
pub open spec fn decode_in(offset: u64) -> Option<(usize, InReg)> {
    if in_reg_of(offset, 0) is Some {
        Some((0usize, in_reg_of(offset, 0)->0))
    } else if in_reg_of(offset, 1) is Some {
        Some((1usize, in_reg_of(offset, 1)->0))
    } else if in_reg_of(offset, 2) is Some {
        Some((2usize, in_reg_of(offset, 2)->0))
    } else {
        None
    }
}

/// The first channel whose OUT groups hold `offset`, with the register.
pub open spec fn decode_out(offset: u64) -> Option<(usize, OutReg)> {
    if out_reg_of(offset, 0) is Some {
        Some((0usize, out_reg_of(offset, 0)->0))
    } else if out_reg_of(offset, 1) is Some {
        Some((1usize, out_reg_of(offset, 1)->0))
    } else if out_reg_of(offset, 2) is Some {
        Some((2usize, out_reg_of(offset, 2)->0))
    } else {
        None
    }
}

/// A flat `{IN,OUT}_INT_{RAW,ST,ENA,CLR}` offset: direction (true for IN),
/// channel and register within the channel's four.
pub open spec fn decode_flat_int(offset: u64) -> Option<(bool, usize, u64)> {
    if offset < OUT_INT_BASE {
        if offset / INT_CHANNEL_STRIDE < 3 {
            Some((true, (offset / INT_CHANNEL_STRIDE) as usize, offset % INT_CHANNEL_STRIDE))
        } else {
            None
        }
    } else if offset < 0x60 {
        let rel = (offset - OUT_INT_BASE) as u64;
        if rel / INT_CHANNEL_STRIDE < 3 {
            Some((false, (rel / INT_CHANNEL_STRIDE) as usize, rel % INT_CHANNEL_STRIDE))
        } else {
            None
        }
    } else {
        None
    }
}

/// `PERI_SEL` names a real peripheral (SPI2, UHCI0, I2S0, AES, SHA, ADC,
/// PARLIO), not a Dummy value and not unbound.
pub open spec fn bound_peripheral(sel: u32) -> bool {
    let s = sel & PERI_SEL_MASK;
    s == 0 || s == 2 || s == 3 || s == 6 || s == 7 || s == 8 || s == 9
}

/// The bus address a 20-bit link field reconstructs to.
pub open spec fn full_desc_addr(link_addr: u32) -> u64 {
    (DESC_ADDR_PREFIX | (link_addr & LINK_ADDR_MASK)) as u64
}

/// The mathematical state of the controller.
pub struct GdmaView {
    pub channels: Seq<Channel>,
    pub ahb_test: u32,
    pub misc_conf: u32,
    pub date: u32,
    pub source: u32,
}

impl GdmaView {
    pub open spec fn initial(source: u32) -> Self {
        GdmaView {
            channels: seq![channel_reset(), channel_reset(), channel_reset()],
            ahb_test: 0,
            misc_conf: 0,
            date: 0,
            source,
        }
    }

    pub open spec fn ch(self, c: usize) -> Channel {
        self.channels[c as int]
    }

    pub open spec fn with_ch(self, c: usize, v: Channel) -> Self {
        GdmaView { channels: self.channels.update(c as int, v), ..self }
    }

    /// The word a read at the aligned offset returns.
    pub open spec fn read_word(self, offset: u64) -> u32 {
        if offset == AHB_TEST_OFFSET {
            self.ahb_test
        } else if offset == MISC_CONF_OFFSET {
            self.misc_conf
        } else if offset == DATE_OFFSET {
            self.date
        } else if decode_flat_int(offset) is Some {
            let (is_in, c, blk) = decode_flat_int(offset)->0;
            let dir = if is_in {
                self.ch(c).rx
            } else {
                self.ch(c).tx
            };
            if blk == INT_RAW {
                dir.int_raw
            } else if blk == INT_ST {
                dir.int_raw & dir.int_ena
            } else if blk == INT_ENA {
                dir.int_ena
            } else {
                0
            }
        } else if decode_in(offset) is Some {
            let (c, reg) = decode_in(offset)->0;
            let chn = self.ch(c);
            match reg {
                InReg::Conf0 => chn.rx.conf0,
                InReg::Conf1 => chn.rx.conf1,
                InReg::FifoStatus => FIFO_EMPTY_BIT,
                InReg::Link => (chn.rx.link_addr & LINK_ADDR_MASK) | (if chn.rx.link_auto_ret {
                    IN_LINK_AUTO_RET_BIT
                } else {
                    0
                }) | IN_LINK_PARK_BIT,
                InReg::SucEofDesAddr => chn.in_suc_eof_des_addr,
                InReg::PeriSel => chn.rx.peri_sel & PERI_SEL_MASK,
                _ => 0,
            }
        } else if decode_out(offset) is Some {
            let (c, reg) = decode_out(offset)->0;
            let chn = self.ch(c);
            match reg {
                OutReg::Conf0 => chn.tx.conf0,
                OutReg::Conf1 => chn.tx.conf1,
                OutReg::FifoStatus => FIFO_EMPTY_BIT,
                OutReg::Link => (chn.tx.link_addr & LINK_ADDR_MASK) | OUT_LINK_PARK_BIT,
                OutReg::EofDesAddr => chn.out_eof_des_addr,
                OutReg::PeriSel => chn.tx.peri_sel & PERI_SEL_MASK,
                _ => 0,
            }
        } else {
            0
        }
    }

    /// A start on channel `c`'s IN link.
    pub open spec fn kick_in(self, c: usize) -> Self {
        let chn = self.ch(c);
        if chn.rx.conf0 & MEM_TRANS_EN_BIT != 0 {
            self.with_ch(
                c,
                Channel { in_started: true, pending_m2m: chn.pending_m2m || chn.out_started, ..chn },
            )
        } else if bound_peripheral(chn.rx.peri_sel) {
            self.with_ch(c, Channel { in_coupled_pending: true, ..chn })
        } else {
            self.with_ch(
                c,
                Channel {
                    rx: DmaDir { int_raw: chn.rx.int_raw | IN_SUC_EOF_BIT | IN_DONE_BIT, ..chn.rx },
                    ..chn
                },
            )
        }
    }

    /// A start on channel `c`'s OUT link (memory-to-memory mode is the IN
    /// direction's `MEM_TRANS_EN`).
    pub open spec fn kick_out(self, c: usize) -> Self {
        let chn = self.ch(c);
        if chn.rx.conf0 & MEM_TRANS_EN_BIT != 0 {
            self.with_ch(
                c,
                Channel { out_started: true, pending_m2m: chn.pending_m2m || chn.in_started, ..chn },
            )
        } else if bound_peripheral(chn.tx.peri_sel) {
            self.with_ch(c, Channel { out_coupled_pending: true, ..chn })
        } else {
            self.with_ch(
                c,
                Channel {
                    tx: DmaDir {
                        int_raw: chn.tx.int_raw | OUT_EOF_BIT | OUT_TOTAL_EOF_BIT | OUT_DONE_BIT,
                        ..chn.tx
                    },
                    ..chn
                },
            )
        }
    }

    pub open spec fn write_in_reg(self, c: usize, reg: InReg, value: u32) -> Self {
        let chn = self.ch(c);
        match reg {
            InReg::Conf0 => self.with_ch(c, Channel { rx: DmaDir { conf0: value, ..chn.rx }, ..chn }),
            InReg::Conf1 => self.with_ch(c, Channel { rx: DmaDir { conf1: value, ..chn.rx }, ..chn }),
            InReg::Link => {
                let s = self.with_ch(
                    c,
                    Channel {
                        rx: DmaDir {
                            link_addr: value & LINK_ADDR_MASK,
                            link_auto_ret: value & IN_LINK_AUTO_RET_BIT != 0,
                            ..chn.rx
                        },
                        ..chn
                    },
                );
                if value & (IN_LINK_START_BIT | IN_LINK_RESTART_BIT) != 0 {
                    s.kick_in(c)
                } else {
                    s
                }
            },
            InReg::PeriSel => self.with_ch(
                c,
                Channel { rx: DmaDir { peri_sel: value & PERI_SEL_MASK, ..chn.rx }, ..chn },
            ),
            _ => self,
        }
    }

    pub open spec fn write_out_reg(self, c: usize, reg: OutReg, value: u32) -> Self {
        let chn = self.ch(c);
        match reg {
            OutReg::Conf0 => self.with_ch(c, Channel { tx: DmaDir { conf0: value, ..chn.tx }, ..chn }),
            OutReg::Conf1 => self.with_ch(c, Channel { tx: DmaDir { conf1: value, ..chn.tx }, ..chn }),
            OutReg::Link => {
                let s = self.with_ch(
                    c,
                    Channel { tx: DmaDir { link_addr: value & LINK_ADDR_MASK, ..chn.tx }, ..chn },
                );
                if value & (OUT_LINK_START_BIT | OUT_LINK_RESTART_BIT) != 0 {
                    s.kick_out(c)
                } else {
                    s
                }
            },
            OutReg::PeriSel => self.with_ch(
                c,
                Channel { tx: DmaDir { peri_sel: value & PERI_SEL_MASK, ..chn.tx }, ..chn },
            ),
            _ => self,
        }
    }

    /// A word write at the aligned offset.
    pub open spec fn write_word(self, offset: u64, value: u32) -> Self {
        if offset == AHB_TEST_OFFSET {
            GdmaView { ahb_test: value, ..self }
        } else if offset == MISC_CONF_OFFSET {
            GdmaView { misc_conf: value, ..self }
        } else if offset == DATE_OFFSET {
            GdmaView { date: value, ..self }
        } else if decode_flat_int(offset) is Some {
            let (is_in, c, blk) = decode_flat_int(offset)->0;
            let chn = self.ch(c);
            if blk == INT_ENA {
                if is_in {
                    self.with_ch(c, Channel { rx: DmaDir { int_ena: value, ..chn.rx }, ..chn })
                } else {
                    self.with_ch(c, Channel { tx: DmaDir { int_ena: value, ..chn.tx }, ..chn })
                }
            } else if blk == INT_CLR {
                if is_in {
                    self.with_ch(
                        c,
                        Channel { rx: DmaDir { int_raw: chn.rx.int_raw & !value, ..chn.rx }, ..chn },
                    )
                } else {
                    self.with_ch(
                        c,
                        Channel { tx: DmaDir { int_raw: chn.tx.int_raw & !value, ..chn.tx }, ..chn },
                    )
                }
            } else {
                self
            }
        } else if decode_in(offset) is Some {
            let (c, reg) = decode_in(offset)->0;
            self.write_in_reg(c, reg, value)
        } else if decode_out(offset) is Some {
            let (c, reg) = decode_out(offset)->0;
            self.write_out_reg(c, reg, value)
        } else {
            self
        }
    }

    /// A byte write: read-modify-write of the containing word.
    pub open spec fn write_byte(self, offset: u64, value: u8) -> Self {
        let w = word_base(offset);
        self.write_word(w, with_byte(self.read_word(w), offset, value))
    }

    /// A byte read.
    pub open spec fn read_byte(self, offset: u64) -> u8 {
        byte_of(self.read_word(word_base(offset)), offset)
    }

    /// The bus is asked to tick while a walk is armed or a coupled start is
    /// stalled.
    pub open spec fn needs_bus_tick(self) -> bool {
        exists|c: int|
            0 <= c < 3 && (self.channels[c].pending_m2m || self.channels[c].in_coupled_pending
                || self.channels[c].out_coupled_pending)
    }

    /// Asserted matrix sources in order: IN then OUT of channel 0, 1, 2.
    pub open spec fn sources(self) -> Seq<u32> {
        self.sources_from(0)
    }

    pub open spec fn sources_from(self, c: nat) -> Seq<u32>
        decreases 3 - c,
    {
        if c >= 3 {
            Seq::empty()
        } else {
            let chn = self.channels[c as int];
            let a: Seq<u32> = if chn.rx.int_raw & chn.rx.int_ena != 0 {
                seq![(self.source + c) as u32]
            } else {
                Seq::empty()
            };
            let b: Seq<u32> = if chn.tx.int_raw & chn.tx.int_ena != 0 {
                seq![(self.source + 3 + c) as u32]
            } else {
                Seq::empty()
            };
            a + b + self.sources_from(c + 1)
        }
    }
}

/// The word a descriptor fetch reads at `addr`: the RAM word, or zero where
/// the read fails.
pub open spec fn word_or0(m: RamView, addr: u64) -> u32 {
    if m.holds_word(addr) {
        m.word(addr)
    } else {
        0
    }
}

/// The byte a buffer read gets at `addr`: the RAM byte, or zero.
pub open spec fn byte_or0(m: RamView, addr: u64) -> u8 {
    if m.holds(addr) {
        m.byte(addr as int)
    } else {
        0
    }
}

/// A byte store that lands only inside the RAM window.
pub open spec fn store_or_skip(m: RamView, addr: u64, value: u8) -> RamView {
    if m.holds(addr) {
        m.store(addr as int, value)
    } else {
        m
    }
}

/// A word store that lands only when all four bytes are inside the window.
pub open spec fn store_word_or_skip(m: RamView, addr: u64, value: u32) -> RamView {
    if m.holds_word(addr) {
        m.store_word(addr, value)
    } else {
        m
    }
}

/// The `len` bytes a buffer read collects from `buf` on.
pub open spec fn read_span(m: RamView, buf: u64, len: nat) -> Seq<u8> {
    Seq::new(len, |i: int| byte_or0(m, (buf + i) as u64))
}

/// The RAM after writing `data[pos..pos + n]` to `buf..buf + n`, in order.
pub open spec fn write_span(m: RamView, buf: u64, data: Seq<u8>, pos: nat, n: nat) -> RamView
    decreases n,
{
    if n == 0 {
        m
    } else {
        store_or_skip(
            write_span(m, buf, data, pos, (n - 1) as nat),
            (buf + n - 1) as u64,
            data[pos + n - 1],
        )
    }
}

/// A descriptor's dw0 with the owner bit cleared (returned to the CPU).
pub open spec fn released(dw0: u32) -> u32 {
    dw0 & !DESC_OWNER_BIT
}

/// An IN descriptor's dw0 after receiving `n` bytes: owner cleared, the
/// length field set to `n`.
pub open spec fn received(dw0: u32, n: u32) -> u32 {
    (dw0 & !(DESC_OWNER_BIT | DESC_LEN_MASK)) | (n << 12u32)
}

/// The OUT chain walk from the descriptor at `addr` with `fuel` hops left:
/// the RAM after it, the bytes collected (after `acc`), and the last
/// descriptor consumed (`last` if none). It stops at a null address, at a
/// CPU-owned descriptor when `check` is set, after a descriptor whose next
/// link is null, or when the hops run out.
pub open spec fn out_walk(
    m: RamView,
    addr: u64,
    wrback: bool,
    check: bool,
    fuel: nat,
    acc: Seq<u8>,
    last: u32,
) -> (RamView, Seq<u8>, u32)
    decreases fuel,
{
    if fuel == 0 || addr == 0 {
        (m, acc, last)
    } else {
        let dw0 = word_or0(m, addr);
        if check && dw0 & DESC_OWNER_BIT == 0 {
            (m, acc, last)
        } else {
            let len = (dw0 >> 12u32) & 0xFFF;
            let buf = word_or0(m, (addr + 4) as u64) as u64;
            let next = word_or0(m, (addr + 8) as u64) as u64;
            let acc2 = acc + read_span(m, buf, len as nat);
            let m2 = if wrback {
                store_word_or_skip(m, addr, released(dw0))
            } else {
                m
            };
            if next == 0 {
                (m2, acc2, addr as u32)
            } else {
                out_walk(m2, next, wrback, check, (fuel - 1) as nat, acc2, addr as u32)
            }
        }
    }
}

/// How many of the bytes left fit into a descriptor of `size`.
pub open spec fn fill_count(left: int, size: u32) -> nat {
    if left < size {
        left as nat
    } else {
        size as nat
    }
}

/// The IN chain walk that writes `data[pos..]` into the chain at `addr`
/// with `fuel` hops left: the RAM after it and the last descriptor filled.
/// Each descriptor takes up to its size, is returned to the CPU with the
/// count in its length field; the walk ends at a null address, when the
/// data runs out, at a CPU-owned descriptor when `check` is set, after a
/// descriptor with SUC_EOF or a null next link, or when the hops run out.
pub open spec fn in_walk(
    m: RamView,
    addr: u64,
    data: Seq<u8>,
    pos: nat,
    check: bool,
    fuel: nat,
    last: u32,
) -> (RamView, u32)
    decreases fuel,
{
    if fuel == 0 || addr == 0 || pos >= data.len() {
        (m, last)
    } else {
        let dw0 = word_or0(m, addr);
        if check && dw0 & DESC_OWNER_BIT == 0 {
            (m, last)
        } else {
            let n = fill_count(data.len() - pos, dw0 & 0xFFF);
            let buf = word_or0(m, (addr + 4) as u64) as u64;
            let next = word_or0(m, (addr + 8) as u64) as u64;
            let m2 = write_span(m, buf, data, pos, n);
            let m3 = store_word_or_skip(m2, addr, received(dw0, n as u32));
            let pos2 = pos + n;
            if next == 0 || dw0 & DESC_SUC_EOF_BIT != 0 || pos2 >= data.len() {
                (m3, addr as u32)
            } else {
                in_walk(m3, next, data, pos2, check, (fuel - 1) as nat, addr as u32)
            }
        }
    }
}

/// The state of the controller and the RAM after channel `c` runs its
/// armed memory-to-memory walk (if any).
pub open spec fn bus_tick_channel(g: GdmaView, m: RamView, c: usize) -> (GdmaView, RamView) {
    let chn = g.ch(c);
    if !chn.pending_m2m {
        (g, m)
    } else {
        let out_addr = full_desc_addr(chn.tx.link_addr);
        let in_addr = full_desc_addr(chn.rx.link_addr);
        let wrback = chn.tx.conf0 & OUT_AUTO_WRBACK_BIT != 0;
        let out_check = chn.tx.conf1 & CHECK_OWNER_BIT != 0;
        let in_check = chn.rx.conf1 & CHECK_OWNER_BIT != 0;
        let ow = out_walk(m, out_addr, wrback, out_check, MAX_DESC_CHAIN as nat, Seq::empty(), 0);
        let iw = if ow.1.len() == 0 {
            (ow.0, 0u32)
        } else {
            in_walk(ow.0, in_addr, ow.1, 0, in_check, MAX_DESC_CHAIN as nat, 0)
        };
        (
            g.with_ch(
                c,
                Channel {
                    pending_m2m: false,
                    in_started: false,
                    out_started: false,
                    out_eof_des_addr: ow.2,
                    in_suc_eof_des_addr: iw.1,
                    rx: DmaDir { int_raw: chn.rx.int_raw | IN_SUC_EOF_BIT | IN_DONE_BIT, ..chn.rx },
                    tx: DmaDir {
                        int_raw: chn.tx.int_raw | OUT_EOF_BIT | OUT_TOTAL_EOF_BIT | OUT_DONE_BIT,
                        ..chn.tx
                    },
                    ..chn
                },
            ),
            iw.0,
        )
    }
}

proof fn lemma_store_frame(m: RamView, addr: int, v: u8, a: int)
    requires
        m.base <= addr < m.base + m.mem.len(),
        m.base <= a < m.base + m.mem.len(),
    ensures
        m.store(addr, v).base == m.base,
        m.store(addr, v).mem.len() == m.mem.len(),
        m.store(addr, v).byte(a) == if a == addr {
            v
        } else {
            m.byte(a)
        },
{
}

proof fn lemma_store_word_frame(m: RamView, addr: u64, v: u32, a: int)
    requires
        m.holds_word(addr),
        a < addr || a >= addr + 4,
        m.base <= a < m.base + m.mem.len(),
    ensures
        m.store_word(addr, v).base == m.base,
        m.store_word(addr, v).mem.len() == m.mem.len(),
        m.store_word(addr, v).byte(a) == m.byte(a),
{
    let s1 = m.store(addr as int, v as u8);
    let s2 = s1.store(addr + 1, (v >> 8u32) as u8);
    let s3 = s2.store(addr + 2, (v >> 16u32) as u8);
    lemma_store_frame(m, addr as int, v as u8, a);
    lemma_store_frame(s1, addr + 1, (v >> 8u32) as u8, a);
    lemma_store_frame(s2, addr + 2, (v >> 16u32) as u8, a);
    lemma_store_frame(s3, addr + 3, (v >> 24u32) as u8, a);
}

proof fn lemma_store_word_or_skip_frame(m: RamView, addr: u64, v: u32, a: int)
    requires
        a < addr || a >= addr + 4,
        m.base <= a < m.base + m.mem.len(),
    ensures
        store_word_or_skip(m, addr, v).base == m.base,
        store_word_or_skip(m, addr, v).mem.len() == m.mem.len(),
        store_word_or_skip(m, addr, v).byte(a) == m.byte(a),
{
    if m.holds_word(addr) {
        lemma_store_word_frame(m, addr, v, a);
    }
}

/// What a buffer write leaves at `a`: the data byte where the write landed,
/// the old byte anywhere else.
proof fn lemma_write_span(m: RamView, buf: u64, data: Seq<u8>, pos: nat, n: nat, a: int)
    requires
        buf + n <= u64::MAX,
        pos + n <= data.len(),
        m.base <= a < m.base + m.mem.len(),
    ensures
        write_span(m, buf, data, pos, n).base == m.base,
        write_span(m, buf, data, pos, n).mem.len() == m.mem.len(),
        write_span(m, buf, data, pos, n).byte(a) == if buf <= a < buf + n && m.holds(a as u64) {
            data[pos + (a - buf)]
        } else {
            m.byte(a)
        },
    decreases n,
{
    if n > 0 {
        let prev = write_span(m, buf, data, pos, (n - 1) as nat);
        lemma_write_span(m, buf, data, pos, (n - 1) as nat, a);
        let at = (buf + n - 1) as u64;
        if prev.holds(at) {
            lemma_store_frame(prev, at as int, data[pos + n - 1], a);
        }
    }
}

/// A word stored in RAM reads back whole.
proof fn lemma_store_word_reads_back(m: RamView, addr: u64, v: u32)
    requires
        m.holds_word(addr),
    ensures
        m.store_word(addr, v).holds_word(addr),
        m.store_word(addr, v).word(addr) == v,
{
    let s1 = m.store(addr as int, v as u8);
    let s2 = s1.store(addr + 1, (v >> 8u32) as u8);
    let s3 = s2.store(addr + 2, (v >> 16u32) as u8);
    let s4 = s3.store(addr + 3, (v >> 24u32) as u8);
    lemma_store_frame(m, addr as int, v as u8, addr as int);
    lemma_store_frame(s1, addr + 1, (v >> 8u32) as u8, addr as int);
    lemma_store_frame(s2, addr + 2, (v >> 16u32) as u8, addr as int);
    lemma_store_frame(s3, addr + 3, (v >> 24u32) as u8, addr as int);
    lemma_store_frame(s1, addr + 1, (v >> 8u32) as u8, addr + 1);
    lemma_store_frame(s2, addr + 2, (v >> 16u32) as u8, addr + 1);
    lemma_store_frame(s3, addr + 3, (v >> 24u32) as u8, addr + 1);
    lemma_store_frame(s2, addr + 2, (v >> 16u32) as u8, addr + 2);
    lemma_store_frame(s3, addr + 3, (v >> 24u32) as u8, addr + 2);
    lemma_store_frame(s3, addr + 3, (v >> 24u32) as u8, addr + 3);
    assert(crate::bus::le_word(v as u8, (v >> 8u32) as u8, (v >> 16u32) as u8, (v >> 24u32) as u8)
        == v) by (bit_vector);
}

/// One step of an OUT walk: the descriptor at `addr` contributes exactly
/// the bytes of its buffer its length field counts, in order, after what was
/// collected before; with write-back it is handed back to the CPU (owner bit
/// clear, length kept), and without it the RAM is untouched. The walk then
/// ends there when the next link is null, and goes on to the next
/// descriptor otherwise.
pub proof fn lemma_out_walk_step(
    m: RamView,
    addr: u64,
    wrback: bool,
    check: bool,
    fuel: nat,
    acc: Seq<u8>,
    last: u32,
)
    requires
        fuel > 0,
        addr != 0,
        m.holds_word(addr),
        !(check && m.word(addr) & DESC_OWNER_BIT == 0),
    ensures
        ({
            let dw0 = m.word(addr);
            let len = (dw0 >> 12u32) & 0xFFF;
            let buf = word_or0(m, (addr + 4) as u64) as u64;
            let next = word_or0(m, (addr + 8) as u64) as u64;
            let got = acc + Seq::new(len as nat, |i: int| byte_or0(m, (buf + i) as u64));
            exists|m2: RamView|
                {
                    &&& (wrback ==> #[trigger] m2.holds_word(addr) && m2.word(addr) & DESC_OWNER_BIT == 0
                        && (m2.word(addr) >> 12u32) & 0xFFF == len)
                    &&& (!wrback ==> m2 == m)
                    &&& next == 0 ==> out_walk(m, addr, wrback, check, fuel, acc, last) == (
                        m2,
                        got,
                        addr as u32,
                    )
                    &&& next != 0 ==> out_walk(m, addr, wrback, check, fuel, acc, last) == out_walk(
                        m2,
                        next,
                        wrback,
                        check,
                        (fuel - 1) as nat,
                        got,
                        addr as u32,
                    )
                }
        }),
{
    let dw0 = m.word(addr);
    let len = (dw0 >> 12u32) & 0xFFF;
    let buf = word_or0(m, (addr + 4) as u64) as u64;
    assert(read_span(m, buf, len as nat) =~= Seq::new(len as nat, |i: int| byte_or0(m, (buf + i) as u64)));
    if wrback {
        lemma_store_word_reads_back(m, addr, released(dw0));
        assert((dw0 & !0x8000_0000u32) & 0x8000_0000 == 0 && ((dw0 & !0x8000_0000u32) >> 12u32)
            & 0xFFF == (dw0 >> 12u32) & 0xFFF) by (bit_vector);
        let m2 = store_word_or_skip(m, addr, released(dw0));
        assert(m2.holds_word(addr));
    }
}

/// One step of an IN walk: the descriptor at `addr`, reached with `pos`
/// bytes already moved, takes `n` bytes (no more than its size nor than what
/// is left) and is handed back to the CPU with its length field reading
/// `n`, before the walk ends there or goes on to the next descriptor with
/// `pos + n` bytes moved. So every descriptor the walk fills records its own
/// count, and the counts add up along the chain to the bytes moved.
pub proof fn lemma_in_walk_step(
    m: RamView,
    addr: u64,
    data: Seq<u8>,
    pos: nat,
    check: bool,
    fuel: nat,
    last: u32,
)
    requires
        fuel > 0,
        addr != 0,
        pos < data.len(),
        m.holds_word(addr),
        !(check && m.word(addr) & DESC_OWNER_BIT == 0),
        word_or0(m, (addr + 4) as u64) + (m.word(addr) & 0xFFF) <= u64::MAX,
    ensures
        ({
            let dw0 = m.word(addr);
            let n = fill_count(data.len() - pos, dw0 & 0xFFF);
            let next = word_or0(m, (addr + 8) as u64) as u64;
            let ends = next == 0 || dw0 & DESC_SUC_EOF_BIT != 0 || pos + n >= data.len();
            &&& n <= dw0 & 0xFFF
            &&& n <= data.len() - pos
            &&& exists|m3: RamView|
                {
                    &&& #[trigger] m3.holds_word(addr)
                    &&& (m3.word(addr) >> 12u32) & 0xFFF == n
                    &&& m3.word(addr) & DESC_OWNER_BIT == 0
                    &&& ends ==> in_walk(m, addr, data, pos, check, fuel, last) == (m3, addr as u32)
                    &&& !ends ==> in_walk(m, addr, data, pos, check, fuel, last) == in_walk(
                        m3,
                        next,
                        data,
                        pos + n,
                        check,
                        (fuel - 1) as nat,
                        addr as u32,
                    )
                }
        }),
{
    let dw0 = m.word(addr);
    let size = dw0 & 0xFFF;
    assert(size <= 0xFFF) by (bit_vector)
        requires
            size == dw0 & 0xFFF,
    ;
    let n = fill_count(data.len() - pos, size);
    let buf = word_or0(m, (addr + 4) as u64) as u64;
    let m2 = write_span(m, buf, data, pos, n);
    assert(m2.base == m.base && m2.mem.len() == m.mem.len()) by {
        lemma_write_span(m, buf, data, pos, n, m.base as int);
    }
    assert(m2.holds_word(addr));
    let v = received(dw0, n as u32);
    lemma_store_word_reads_back(m2, addr, v);
    let m3 = store_word_or_skip(m2, addr, v);
    let nn = n as u32;
    assert(((dw0 & !(0x8000_0000u32 | 0x00FF_F000u32)) | (nn << 12u32)) >> 12u32 & 0xFFF == nn && ((
    dw0 & !(0x8000_0000u32 | 0x00FF_F000u32)) | (nn << 12u32)) & 0x8000_0000 == 0) by (bit_vector)
        requires
            nn <= 0xFFF,
    ;
    assert(m3.holds_word(addr));
}

/// A memory-to-memory transfer through one OUT descriptor and one IN
/// descriptor with room for it copies the OUT buffer into the IN buffer,
/// byte for byte. The descriptors and buffers lie in RAM, the OUT chain ends
/// after its descriptor, and the IN descriptor's first word does not overlap
/// the destination (nor the OUT descriptor's first word any IN word).
pub proof fn lemma_m2m_single_descriptor_copies(g: GdmaView, m: RamView, c: usize, i: int)
    requires
        c < 3,
        g.channels.len() == 3,
        g.ch(c).pending_m2m,
        ({
            let t = full_desc_addr(g.ch(c).tx.link_addr);
            let r = full_desc_addr(g.ch(c).rx.link_addr);
            let dw0 = m.word(t);
            let len = (dw0 >> 12u32) & 0xFFF;
            let src = m.word((t + 4) as u64) as u64;
            let dst = m.word((r + 4) as u64) as u64;
            &&& m.holds_word(t) && m.holds_word((t + 4) as u64) && m.holds_word((t + 8) as u64)
            &&& m.holds_word(r) && m.holds_word((r + 4) as u64) && m.holds_word((r + 8) as u64)
            &&& dw0 & DESC_OWNER_BIT != 0
            &&& m.word(r) & DESC_OWNER_BIT != 0
            &&& m.word((t + 8) as u64) == 0
            &&& len > 0
            &&& (m.word(r) & 0xFFF) >= len
            &&& forall|k: int| 0 <= k < len ==> #[trigger] m.holds((src + k) as u64) && m.holds(
                (dst + k) as u64,
            )
            &&& (t + 4 <= r || r + 12 <= t)
            &&& (dst + len <= r || r + 4 <= dst)
            &&& 0 <= i < len
        }),
    ensures
        ({
            let t = full_desc_addr(g.ch(c).tx.link_addr);
            let r = full_desc_addr(g.ch(c).rx.link_addr);
            let src = m.word((t + 4) as u64) as u64;
            let dst = m.word((r + 4) as u64) as u64;
            bus_tick_channel(g, m, c).1.byte(dst + i) == m.byte(src + i)
        }),
{
    let chn = g.ch(c);
    let t = full_desc_addr(chn.tx.link_addr);
    let r = full_desc_addr(chn.rx.link_addr);
    let dw0 = m.word(t);
    let len = (dw0 >> 12u32) & 0xFFF;
    let src = m.word((t + 4) as u64) as u64;
    let dst = m.word((r + 4) as u64) as u64;
    let wrback = chn.tx.conf0 & OUT_AUTO_WRBACK_BIT != 0;
    let out_check = chn.tx.conf1 & CHECK_OWNER_BIT != 0;
    let in_check = chn.rx.conf1 & CHECK_OWNER_BIT != 0;
    let tl = chn.tx.link_addr;
    let rl = chn.rx.link_addr;
    assert(0x4080_0000u32 | (tl & 0x000F_FFFFu32) >= 0x4080_0000) by (bit_vector);
    assert(0x4080_0000u32 | (rl & 0x000F_FFFFu32) >= 0x4080_0000) by (bit_vector);
    assert(t != 0 && r != 0);
    assert(len <= 0xFFF) by (bit_vector)
        requires
            len == (dw0 >> 12u32) & 0xFFF,
    ;
    let bytes = read_span(m, src, len as nat);
    let m2 = if wrback {
        store_word_or_skip(m, t, released(dw0))
    } else {
        m
    };
    assert(out_walk(m, t, wrback, out_check, MAX_DESC_CHAIN as nat, Seq::empty(), 0) == (
        m2,
        Seq::<u8>::empty() + bytes,
        t as u32,
    ));
    assert(Seq::<u8>::empty() + bytes =~= bytes);
    // The IN descriptor's words are untouched by the OUT writeback.
    assert forall|a: int| r <= a < r + 12 implies #[trigger] m2.byte(a) == m.byte(a) by {
        if wrback {
            lemma_store_word_or_skip_frame(m, t, released(dw0), a);
        }
    }
    if wrback {
        lemma_store_word_or_skip_frame(m, t, released(dw0), r as int);
    }
    assert(m2.base == m.base && m2.mem.len() == m.mem.len());
    assert(m2.word(r) == m.word(r));
    assert(m2.word((r + 4) as u64) == m.word((r + 4) as u64));
    assert(m2.word((r + 8) as u64) == m.word((r + 8) as u64));
    assert(m2.holds_word(r) && m2.holds_word((r + 4) as u64) && m2.holds_word((r + 8) as u64));
    let rdw0 = m.word(r);
    let n = fill_count(bytes.len() as int, rdw0 & 0xFFF);
    assert(n == len);
    let m3 = write_span(m2, dst, bytes, 0, n);
    let m4 = store_word_or_skip(m3, r, received(rdw0, n as u32));
    assert(in_walk(m2, r, bytes, 0, in_check, MAX_DESC_CHAIN as nat, 0) == (m4, r as u32));
    assert(bus_tick_channel(g, m, c).1 == m4);
    assert(m.holds((src + i) as u64));
    assert(m.holds((dst + i) as u64));
    lemma_write_span(m2, dst, bytes, 0, n, dst + i);
    lemma_store_word_or_skip_frame(m3, r, received(rdw0, n as u32), dst + i);
    assert(bytes[i] == m.byte(src + i));
}

/// The IN interrupt registers of channel `c`: ST reads RAW AND ENA, a write
/// to RAW changes nothing, and CLR clears exactly the written bits.
pub proof fn lemma_in_int_registers(g: GdmaView, c: u64, value: u32)
    requires
        c < 3,
        g.channels.len() == 3,
    ensures
        g.read_word((IN_INT_BASE + c * INT_CHANNEL_STRIDE + INT_ST) as u64) == g.ch(c as usize).rx.int_raw
            & g.ch(c as usize).rx.int_ena,
        g.read_word((IN_INT_BASE + c * INT_CHANNEL_STRIDE + INT_RAW) as u64) == g.ch(c as usize).rx.int_raw,
        g.write_word((IN_INT_BASE + c * INT_CHANNEL_STRIDE + INT_RAW) as u64, value) == g,
        g.write_word((IN_INT_BASE + c * INT_CHANNEL_STRIDE + INT_CLR) as u64, value).ch(
            c as usize,
        ).rx.int_raw == g.ch(c as usize).rx.int_raw & !value,
{
}

/// The OUT interrupt registers of channel `c` behave the same way.
pub proof fn lemma_out_int_registers(g: GdmaView, c: u64, value: u32)
    requires
        c < 3,
        g.channels.len() == 3,
    ensures
        g.read_word((OUT_INT_BASE + c * INT_CHANNEL_STRIDE + INT_ST) as u64) == g.ch(c as usize).tx.int_raw
            & g.ch(c as usize).tx.int_ena,
        g.write_word((OUT_INT_BASE + c * INT_CHANNEL_STRIDE + INT_RAW) as u64, value) == g,
        g.write_word((OUT_INT_BASE + c * INT_CHANNEL_STRIDE + INT_CLR) as u64, value).ch(
            c as usize,
        ).tx.int_raw == g.ch(c as usize).tx.int_raw & !value,
{
}

/// A start with a real peripheral bound and no memory-to-memory mode
/// stalls visibly: no completion flag latches and the bus keeps visiting.
/// A start with a Dummy or unbound PERI_SEL completes at once with zero
/// bytes moved and leaves nothing pending.
pub proof fn lemma_coupled_start_policy(g: GdmaView, c: usize)
    requires
        c < 3,
        g.channels.len() == 3,
        g.ch(c).rx.conf0 & MEM_TRANS_EN_BIT == 0,
    ensures
        bound_peripheral(g.ch(c).rx.peri_sel) ==> g.kick_in(c).ch(c).rx.int_raw == g.ch(c).rx.int_raw
            && g.kick_in(c).needs_bus_tick(),
        !bound_peripheral(g.ch(c).rx.peri_sel) ==> g.kick_in(c).ch(c).rx.int_raw == g.ch(
            c,
        ).rx.int_raw | IN_SUC_EOF_BIT | IN_DONE_BIT && g.kick_in(c).ch(c).in_coupled_pending
            == g.ch(c).in_coupled_pending,
        bound_peripheral(g.ch(c).tx.peri_sel) ==> g.kick_out(c).ch(c).tx.int_raw == g.ch(c).tx.int_raw
            && g.kick_out(c).needs_bus_tick(),
        !bound_peripheral(g.ch(c).tx.peri_sel) ==> g.kick_out(c).ch(c).tx.int_raw == g.ch(
            c,
        ).tx.int_raw | OUT_EOF_BIT | OUT_TOTAL_EOF_BIT | OUT_DONE_BIT,
{
    if bound_peripheral(g.ch(c).rx.peri_sel) {
        assert(g.kick_in(c).channels[c as int].in_coupled_pending);
    }
    if bound_peripheral(g.ch(c).tx.peri_sel) {
        assert(g.kick_out(c).channels[c as int].out_coupled_pending);
    }
}

/// A memory-to-memory walk arms only once both links of the channel have
/// started, in either order.
pub proof fn lemma_m2m_arms_on_both_starts(g: GdmaView, c: usize)
    requires
        c < 3,
        g.channels.len() == 3,
        g.ch(c).rx.conf0 & MEM_TRANS_EN_BIT != 0,
        !g.ch(c).in_started,
        !g.ch(c).out_started,
        !g.ch(c).pending_m2m,
    ensures
        !g.kick_in(c).ch(c).pending_m2m,
        !g.kick_out(c).ch(c).pending_m2m,
        g.kick_in(c).kick_out(c).ch(c).pending_m2m,
        g.kick_out(c).kick_in(c).ch(c).pending_m2m,
{
}

/// A bus tick runs every armed walk and disarms it, latching IN_SUC_EOF and
/// IN_DONE and OUT_EOF, OUT_TOTAL_EOF and OUT_DONE.
pub proof fn lemma_walk_completes(g: GdmaView, m: RamView, c: usize)
    requires
        c < 3,
        g.channels.len() == 3,
        g.ch(c).pending_m2m,
    ensures
        !bus_tick_channel(g, m, c).0.ch(c).pending_m2m,
        bus_tick_channel(g, m, c).0.ch(c).rx.int_raw & (IN_SUC_EOF_BIT | IN_DONE_BIT) == IN_SUC_EOF_BIT
            | IN_DONE_BIT,
        bus_tick_channel(g, m, c).0.ch(c).tx.int_raw & (OUT_EOF_BIT | OUT_TOTAL_EOF_BIT
            | OUT_DONE_BIT) == OUT_EOF_BIT | OUT_TOTAL_EOF_BIT | OUT_DONE_BIT,
{
    let a = g.ch(c).rx.int_raw;
    let b = g.ch(c).tx.int_raw;
    assert((a | 2u32 | 1u32) & (2u32 | 1u32) == 2u32 | 1u32) by (bit_vector);
    assert((b | 2u32 | 8u32 | 1u32) & (2u32 | 8u32 | 1u32) == 2u32 | 8u32 | 1u32) by (bit_vector);
}

/// The state after a bus tick: channels 0, 1 and 2 run their walks in turn.
pub open spec fn bus_tick(g: GdmaView, m: RamView) -> (GdmaView, RamView) {
    let s0 = bus_tick_channel(g, m, 0);
    let s1 = bus_tick_channel(s0.0, s0.1, 1);
    bus_tick_channel(s1.0, s1.1, 2)
}

/// ESP32-C6 GDMA controller: three channels of IN and OUT.
#[derive(Debug)]
pub struct Esp32c6Gdma {
    channels: [Channel; 3],
    ahb_test: u32,
    misc_conf: u32,
    date: u32,
    dma_in_ch0_source: u32,
}

/// Every GDMA instance has its three channels.
pub proof fn lemma_gdma_has_three_channels(g: &Esp32c6Gdma)
    ensures
        g@.channels.len() == 3,
{
}

/// A word read at an aligned offset gives the register word whole.
proof fn lemma_aligned_word_bytes(w: u32)
    ensures
        crate::bus::le_word(byte_of(w, 0), byte_of(w, 1), byte_of(w, 2), byte_of(w, 3)) == w,
{
    assert(((w >> 0u64) & 0xFF) as u8 as u32 | ((((w >> 8u64) & 0xFF) as u8 as u32) << 8u32) | ((((w
        >> 16u64) & 0xFF) as u8 as u32) << 16u32) | ((((w >> 24u64) & 0xFF) as u8 as u32) << 24u32)
        == w) by (bit_vector);
}

/// A word read at an aligned offset (`read_u32`) gives the register word
/// `read_word` whole.
pub proof fn lemma_aligned_read_is_word(g: GdmaView, o: u64)
    requires
        o % 4 == 0,
        o <= u64::MAX - 3,
    ensures
        crate::bus::le_word(
            g.read_byte(o),
            g.read_byte((o + 1) as u64),
            g.read_byte((o + 2) as u64),
            g.read_byte((o + 3) as u64),
        ) == g.read_word(o),
{
    let w = g.read_word(o);
    assert(word_base(o) == o && word_base((o + 1) as u64) == o && word_base((o + 2) as u64) == o
        && word_base((o + 3) as u64) == o);
    assert(byte_of(w, o) == byte_of(w, 0) && byte_of(w, (o + 1) as u64) == byte_of(w, 1) && byte_of(
        w,
        (o + 2) as u64,
    ) == byte_of(w, 2) && byte_of(w, (o + 3) as u64) == byte_of(w, 3));
    lemma_aligned_word_bytes(w);
}

/// The interrupt and FIFO registers of every channel as a word read sees
/// them, on any GDMA: INT_ST is INT_RAW AND INT_ENA, INT_CLR reads zero,
/// and both FIFO_STATUS registers report EMPTY.
pub proof fn lemma_int_st_is_raw_and_ena(g: &Esp32c6Gdma, c: u64)
    requires
        c < 3,
    ensures
        ({
            let i = (IN_INT_BASE + c * INT_CHANNEL_STRIDE) as u64;
            let o = (OUT_INT_BASE + c * INT_CHANNEL_STRIDE) as u64;
            &&& g@.read_word((i + INT_ST) as u64) == g@.read_word((i + INT_RAW) as u64) & g@.read_word(
                (i + INT_ENA) as u64,
            )
            &&& g@.read_word((o + INT_ST) as u64) == g@.read_word((o + INT_RAW) as u64) & g@.read_word(
                (o + INT_ENA) as u64,
            )
            &&& g@.read_word((i + INT_CLR) as u64) == 0
            &&& g@.read_word((o + INT_CLR) as u64) == 0
        }),
        g@.read_word((0x78 + c * CHANNEL_STRIDE) as u64) == FIFO_EMPTY_BIT,
        g@.read_word((0xD8 + c * CHANNEL_STRIDE) as u64) == FIFO_EMPTY_BIT,
{
    if c == 0 {
    } else if c == 1 {
    } else {
    }
}

impl View for Esp32c6Gdma {
    type V = GdmaView;

    closed spec fn view(&self) -> GdmaView {
        GdmaView {
            channels: self.channels@,
            ahb_test: self.ahb_test,
            misc_conf: self.misc_conf,
            date: self.date,
            source: self.dma_in_ch0_source,
        }
    }
}

impl Esp32c6Gdma {
    /// A controller at its reset values, reporting IN channel 0 as matrix
    /// source `dma_in_ch0_source`.
    pub fn new(dma_in_ch0_source: u32) -> (r: Self)
        ensures
            r@ == GdmaView::initial(dma_in_ch0_source),
    {
        let r = Esp32c6Gdma {
            channels: [new_channel(), new_channel(), new_channel()],
            ahb_test: 0,
            misc_conf: 0,
            date: 0,
            dma_in_ch0_source,
        };
        assert(r@.channels =~= seq![channel_reset(), channel_reset(), channel_reset()]);
        r
    }

    fn is_bound_peripheral(sel: u32) -> (r: bool)
        ensures
            r == bound_peripheral(sel),
    {
        let s = sel & PERI_SEL_MASK;
        s == 0 || s == 2 || s == 3 || s == 6 || s == 7 || s == 8 || s == 9
    }

    /// Reconstruct the full bus address of a 20-bit link field.
    pub fn full_desc_addr(link_addr: u32) -> (r: u64)
        ensures
            r == full_desc_addr(link_addr),
            r < 0x1_0000_0000,
    {
        (DESC_ADDR_PREFIX | (link_addr & LINK_ADDR_MASK)) as u64
    }

    fn in_reg_at(rel: u64) -> (r: Option<InReg>)
        ensures
            r == in_reg_at(rel),
    {
        if rel == 0x00 {
            Some(InReg::Conf0)
        } else if rel == 0x04 {
            Some(InReg::Conf1)
        } else if rel == 0x08 {
            Some(InReg::FifoStatus)
        } else if rel == 0x0C {
            Some(InReg::Pop)
        } else if rel == 0x10 {
            Some(InReg::Link)
        } else if rel == 0x14 {
            Some(InReg::State)
        } else if rel == 0x18 {
            Some(InReg::SucEofDesAddr)
        } else if rel == 0x1C {
            Some(InReg::ErrEofDesAddr)
        } else if rel == 0x20 {
            Some(InReg::Dscr)
        } else if rel == 0x24 {
            Some(InReg::DscrBf0)
        } else if rel == 0x28 {
            Some(InReg::DscrBf1)
        } else if rel == 0x2C {
            Some(InReg::Pri)
        } else if rel == 0x30 {
            Some(InReg::PeriSel)
        } else {
            None
        }
    }

    fn out_reg_at(rel: u64) -> (r: Option<OutReg>)
        ensures
            r == out_reg_at(rel),
    {
        if rel == 0x00 {
            Some(OutReg::Conf1)
        } else if rel == 0x04 {
            Some(OutReg::FifoStatus)
        } else if rel == 0x08 {
            Some(OutReg::Push)
        } else if rel == 0x0C {
            Some(OutReg::Link)
        } else if rel == 0x10 {
            Some(OutReg::State)
        } else if rel == 0x14 {
            Some(OutReg::EofDesAddr)
        } else if rel == 0x18 {
            Some(OutReg::EofBfrDesAddr)
        } else if rel == 0x1C {
            Some(OutReg::Dscr)
        } else if rel == 0x20 {
            Some(OutReg::DscrBf0)
        } else if rel == 0x24 {
            Some(OutReg::DscrBf1)
        } else if rel == 0x28 {
            Some(OutReg::Pri)
        } else if rel == 0x2C {
            Some(OutReg::PeriSel)
        } else {
            None
        }
    }

    /// Decode an offset inside channel `ch`'s IN block.
    fn in_reg_of(offset: u64, ch: u64) -> (r: Option<InReg>)
        requires
            ch < 3,
        ensures
            r == in_reg_of(offset, ch as int),
    {
        let base = IN_BLOCK_BASE + ch * CHANNEL_STRIDE;
        if offset < base {
            None
        } else {
            Self::in_reg_at(offset - base)
        }
    }

    /// Decode an offset inside channel `ch`'s OUT groups.
    fn out_reg_of(offset: u64, ch: u64) -> (r: Option<OutReg>)
        requires
            ch < 3,
        ensures
            r == out_reg_of(offset, ch as int),
    {
        let b1 = OUT_CONF1_BASE + ch * CHANNEL_STRIDE;
        if offset >= b1 && offset < b1 + 0x30 {
            return Self::out_reg_at(offset - b1);
        }
        let b0 = OUT_CONF0_BASE + ch * CHANNEL_STRIDE;
        if offset == b0 {
            return Some(OutReg::Conf0);
        }
        None
    }

    fn decode_in(offset: u64) -> (r: Option<(usize, InReg)>)
        ensures
            r == decode_in(offset),
    {
        let mut ch: u64 = 0;
        while ch < 3
            invariant
                ch <= 3,
                forall|k: int| 0 <= k < ch ==> in_reg_of(offset, k) is None,
            decreases 3 - ch,
        {
            match Self::in_reg_of(offset, ch) {
                Some(reg) => {
                    return Some((ch as usize, reg));
                },
                None => {},
            }
            ch = ch + 1;
        }
        None
    }

    fn decode_out(offset: u64) -> (r: Option<(usize, OutReg)>)
        ensures
            r == decode_out(offset),
    {
        let mut ch: u64 = 0;
        while ch < 3
            invariant
                ch <= 3,
                forall|k: int| 0 <= k < ch ==> out_reg_of(offset, k) is None,
            decreases 3 - ch,
        {
            match Self::out_reg_of(offset, ch) {
                Some(reg) => {
                    return Some((ch as usize, reg));
                },
                None => {},
            }
            ch = ch + 1;
        }
        None
    }

    fn decode_flat_int(offset: u64) -> (r: Option<(bool, usize, u64)>)
        ensures
            r == decode_flat_int(offset),
            r matches Some((_, c, blk)) ==> c < 3 && blk < 16,
    {
        let (is_in, rel) = if offset < OUT_INT_BASE {
            (true, offset - IN_INT_BASE)
        } else if offset < 0x60 {
            (false, offset - OUT_INT_BASE)
        } else {
            return None;
        };
        let ch = rel / INT_CHANNEL_STRIDE;
        if ch >= 3 {
            return None;
        }
        Some((is_in, ch as usize, rel % INT_CHANNEL_STRIDE))
    }

    fn read_word(&self, offset: u64) -> (r: u32)
        ensures
            r == self@.read_word(offset),
    {
        if offset == AHB_TEST_OFFSET {
            return self.ahb_test;
        }
        if offset == MISC_CONF_OFFSET {
            return self.misc_conf;
        }
        if offset == DATE_OFFSET {
            return self.date;
        }
        match Self::decode_flat_int(offset) {
            Some((is_in, ch, blk)) => {
                let dir = if is_in {
                    self.channels[ch].rx
                } else {
                    self.channels[ch].tx
                };
                return if blk == INT_RAW {
                    dir.int_raw
                } else if blk == INT_ST {
                    dir.int_raw & dir.int_ena
                } else if blk == INT_ENA {
                    dir.int_ena
                } else {
                    0
                };
            },
            None => {},
        }
        match Self::decode_in(offset) {
            Some((ch, reg)) => {
                let c = self.channels[ch];
                return match reg {
                    InReg::Conf0 => c.rx.conf0,
                    InReg::Conf1 => c.rx.conf1,
                    InReg::FifoStatus => FIFO_EMPTY_BIT,
                    InReg::Link => (c.rx.link_addr & LINK_ADDR_MASK) | (if c.rx.link_auto_ret {
                        IN_LINK_AUTO_RET_BIT
                    } else {
                        0
                    }) | IN_LINK_PARK_BIT,
                    InReg::SucEofDesAddr => c.in_suc_eof_des_addr,
                    InReg::PeriSel => c.rx.peri_sel & PERI_SEL_MASK,
                    _ => 0,
                };
            },
            None => {},
        }
        match Self::decode_out(offset) {
            Some((ch, reg)) => {
                let c = self.channels[ch];
                return match reg {
                    OutReg::Conf0 => c.tx.conf0,
                    OutReg::Conf1 => c.tx.conf1,
                    OutReg::FifoStatus => FIFO_EMPTY_BIT,
                    OutReg::Link => (c.tx.link_addr & LINK_ADDR_MASK) | OUT_LINK_PARK_BIT,
                    OutReg::EofDesAddr => c.out_eof_des_addr,
                    OutReg::PeriSel => c.tx.peri_sel & PERI_SEL_MASK,
                    _ => 0,
                };
            },
            None => {},
        }
        0
    }

    fn kick_in(&mut self, ch: usize)
        requires
            ch < 3,
        ensures
            final(self)@ == old(self)@.kick_in(ch),
    {
        let mut c = self.channels[ch];
        if c.rx.conf0 & MEM_TRANS_EN_BIT != 0 {
            c.in_started = true;
            if c.out_started {
                c.pending_m2m = true;
            }
        } else if Self::is_bound_peripheral(c.rx.peri_sel) {
            c.in_coupled_pending = true;
        } else {
            c.rx.int_raw = c.rx.int_raw | IN_SUC_EOF_BIT | IN_DONE_BIT;
        }
        self.channels[ch] = c;
    }

    fn kick_out(&mut self, ch: usize)
        requires
            ch < 3,
        ensures
            final(self)@ == old(self)@.kick_out(ch),
    {
        let mut c = self.channels[ch];
        if c.rx.conf0 & MEM_TRANS_EN_BIT != 0 {
            c.out_started = true;
            if c.in_started {
                c.pending_m2m = true;
            }
        } else if Self::is_bound_peripheral(c.tx.peri_sel) {
            c.out_coupled_pending = true;
        } else {
            c.tx.int_raw = c.tx.int_raw | OUT_EOF_BIT | OUT_TOTAL_EOF_BIT | OUT_DONE_BIT;
        }
        self.channels[ch] = c;
    }

    fn write_in_reg(&mut self, ch: usize, reg: InReg, value: u32)
        requires
            ch < 3,
        ensures
            final(self)@ == old(self)@.write_in_reg(ch, reg, value),
    {
        let mut c = self.channels[ch];
        match reg {
            InReg::Conf0 => {
                c.rx.conf0 = value;
                self.channels[ch] = c;
            },
            InReg::Conf1 => {
                c.rx.conf1 = value;
                self.channels[ch] = c;
            },
            InReg::Link => {
                c.rx.link_addr = value & LINK_ADDR_MASK;
                c.rx.link_auto_ret = value & IN_LINK_AUTO_RET_BIT != 0;
                self.channels[ch] = c;
                if value & (IN_LINK_START_BIT | IN_LINK_RESTART_BIT) != 0 {
                    self.kick_in(ch);
                }
            },
            InReg::PeriSel => {
                c.rx.peri_sel = value & PERI_SEL_MASK;
                self.channels[ch] = c;
            },
            _ => {},
        }
    }

    fn write_out_reg(&mut self, ch: usize, reg: OutReg, value: u32)
        requires
            ch < 3,
        ensures
            final(self)@ == old(self)@.write_out_reg(ch, reg, value),
    {
        let mut c = self.channels[ch];
        match reg {
            OutReg::Conf0 => {
                c.tx.conf0 = value;
                self.channels[ch] = c;
            },
            OutReg::Conf1 => {
                c.tx.conf1 = value;
                self.channels[ch] = c;
            },
            OutReg::Link => {
                c.tx.link_addr = value & LINK_ADDR_MASK;
                self.channels[ch] = c;
                if value & (OUT_LINK_START_BIT | OUT_LINK_RESTART_BIT) != 0 {
                    self.kick_out(ch);
                }
            },
            OutReg::PeriSel => {
                c.tx.peri_sel = value & PERI_SEL_MASK;
                self.channels[ch] = c;
            },
            _ => {},
        }
    }

    fn write_word(&mut self, offset: u64, value: u32)
        ensures
            final(self)@ == old(self)@.write_word(offset, value),
    {
        if offset == AHB_TEST_OFFSET {
            self.ahb_test = value;
            return ;
        }
        if offset == MISC_CONF_OFFSET {
            self.misc_conf = value;
            return ;
        }
        if offset == DATE_OFFSET {
            self.date = value;
            return ;
        }
        match Self::decode_flat_int(offset) {
            Some((is_in, ch, blk)) => {
                let mut c = self.channels[ch];
                if blk == INT_ENA {
                    if is_in {
                        c.rx.int_ena = value;
                    } else {
                        c.tx.int_ena = value;
                    }
                    self.channels[ch] = c;
                } else if blk == INT_CLR {
                    if is_in {
                        c.rx.int_raw = c.rx.int_raw & !value;
                    } else {
                        c.tx.int_raw = c.tx.int_raw & !value;
                    }
                    self.channels[ch] = c;
                }
                return ;
            },
            None => {},
        }
        match Self::decode_in(offset) {
            Some((ch, reg)) => {
                self.write_in_reg(ch, reg, value);
                return ;
            },
            None => {},
        }
        match Self::decode_out(offset) {
            Some((ch, reg)) => {
                self.write_out_reg(ch, reg, value);
                return ;
            },
            None => {},
        }
    }

    /// Byte read of the addressed lane.
    pub fn read(&self, offset: u64) -> (r: SimResult<u8>)
        ensures
            r == Ok::<u8, crate::SimulationError>(self@.read_byte(offset)),
    {
        Ok(get_byte(self.read_word(crate::regs::align_word(offset)), offset))
    }

    /// Byte write: read-modify-write of the containing word.
    pub fn write(&mut self, offset: u64, value: u8) -> (r: SimResult<()>)
        ensures
            r is Ok,
            final(self)@ == old(self)@.write_byte(offset, value),
    {
        let w = crate::regs::align_word(offset);
        let cur = self.read_word(w);
        self.write_word(w, set_byte(cur, offset, value));
        Ok(())
    }

    /// Word read composed of four byte reads, least significant first.
    pub fn read_u32(&self, offset: u64) -> (r: SimResult<u32>)
        requires
            offset <= u64::MAX - 3,
        ensures
            r == Ok::<u32, crate::SimulationError>(
                crate::bus::le_word(
                    self@.read_byte(offset),
                    self@.read_byte((offset + 1) as u64),
                    self@.read_byte((offset + 2) as u64),
                    self@.read_byte((offset + 3) as u64),
                ),
            ),
    {
        let b0 = get_byte(self.read_word(crate::regs::align_word(offset)), offset);
        let b1 = get_byte(self.read_word(crate::regs::align_word(offset + 1)), offset + 1);
        let b2 = get_byte(self.read_word(crate::regs::align_word(offset + 2)), offset + 2);
        let b3 = get_byte(self.read_word(crate::regs::align_word(offset + 3)), offset + 3);
        Ok((b0 as u32) | ((b1 as u32) << 8u32) | ((b2 as u32) << 16u32) | ((b3 as u32) << 24u32))
    }

    /// Word write composed of four byte writes, least significant first.
    pub fn write_u32(&mut self, offset: u64, value: u32) -> (r: SimResult<()>)
        requires
            offset <= u64::MAX - 3,
        ensures
            r is Ok,
            final(self)@ == old(self)@.write_byte(offset, value as u8).write_byte(
                (offset + 1) as u64,
                (value >> 8u32) as u8,
            ).write_byte((offset + 2) as u64, (value >> 16u32) as u8).write_byte(
                (offset + 3) as u64,
                (value >> 24u32) as u8,
            ),
    {
        let _ = self.write(offset, value as u8);
        let _ = self.write(offset + 1, (value >> 8u32) as u8);
        let _ = self.write(offset + 2, (value >> 16u32) as u8);
        let _ = self.write(offset + 3, (value >> 24u32) as u8);
        Ok(())
    }

    /// True while a walk is armed or a coupled direction is stalled.
    pub fn needs_bus_tick(&self) -> (r: bool)
        ensures
            r == self@.needs_bus_tick(),
    {
        let mut i: usize = 0;
        while i < 3
            invariant
                i <= 3,
                forall|k: int|
                    0 <= k < i ==> !(self@.channels[k].pending_m2m
                        || self@.channels[k].in_coupled_pending
                        || self@.channels[k].out_coupled_pending),
            decreases 3 - i,
        {
            let c = self.channels[i];
            if c.pending_m2m || c.in_coupled_pending || c.out_coupled_pending {
                assert(self@.channels[i as int] == c);
                return true;
            }
            i = i + 1;
        }
        false
    }

    /// Append the asserted interrupt-matrix sources (raw AND enable):
    /// IN channel n is `source + n`, OUT channel n is `source + 3 + n`.
    pub fn matrix_irq_sources_into(&self, out: &mut Vec<u32>)
        requires
            self@.source <= u32::MAX - 5,
        ensures
            final(out)@ == old(out)@ + self@.sources(),
    {
        let mut n: usize = 0;
        while n < 3
            invariant
                n <= 3,
                self@.source <= u32::MAX - 5,
                out@ + self@.sources_from(n as nat) == old(out)@ + self@.sources(),
            decreases 3 - n,
        {
            let c = self.channels[n];
            let ghost before = out@;
            if c.rx.int_raw & c.rx.int_ena != 0 {
                out.push(self.dma_in_ch0_source + n as u32);
            }
            if c.tx.int_raw & c.tx.int_ena != 0 {
                out.push(self.dma_in_ch0_source + 3 + n as u32);
            }
            proof {
                let a: Seq<u32> = if c.rx.int_raw & c.rx.int_ena != 0 {
                    seq![(self@.source + n) as u32]
                } else {
                    Seq::empty()
                };
                let b: Seq<u32> = if c.tx.int_raw & c.tx.int_ena != 0 {
                    seq![(self@.source + 3 + n) as u32]
                } else {
                    Seq::empty()
                };
                assert(out@ =~= before + a + b);
                assert(self@.sources_from(n as nat) == a + b + self@.sources_from(
                    (n + 1) as nat,
                ));
                assert(before + (a + b + self@.sources_from((n + 1) as nat)) =~= out@
                    + self@.sources_from((n + 1) as nat));
            }
            n = n + 1;
        }
        assert(out@ =~= old(out)@ + self@.sources());
    }

    /// The asserted interrupt-matrix sources.
    pub fn matrix_irq_sources(&self) -> (r: Vec<u32>)
        requires
            self@.source <= u32::MAX - 5,
        ensures
            r@ == self@.sources(),
    {
        let mut out: Vec<u32> = Vec::new();
        self.matrix_irq_sources_into(&mut out);
        assert(out@ =~= self@.sources());
        out
    }

    /// One walk tick: reports the asserted sources through the matrix.
    pub fn tick(&mut self) -> (r: PeripheralTickResult)
        requires
            old(self)@.source <= u32::MAX - 5,
        ensures
            final(self)@ == old(self)@,
            !r.irq,
            r.cycles == 0,
            old(self)@.sources().len() == 0 ==> r.explicit_irqs is None,
            old(self)@.sources().len() != 0 ==> (r.explicit_irqs matches Some(v) && v@
                == old(self)@.sources()),
    {
        let v = self.matrix_irq_sources();
        let explicit_irqs = if v.len() == 0 {
            None
        } else {
            Some(v)
        };
        PeripheralTickResult { irq: false, cycles: 0, explicit_irqs }
    }
    fn read32_or0(bus: &RamBus, addr: u64) -> (r: u32)
        ensures
            r == word_or0(bus@, addr),
    {
        match bus.read_u32(addr) {
            Ok(v) => v,
            Err(_) => 0,
        }
    }

    fn read8_or0(bus: &RamBus, addr: u64) -> (r: u8)
        ensures
            r == byte_or0(bus@, addr),
    {
        match bus.read_u8(addr) {
            Ok(v) => v,
            Err(_) => 0,
        }
    }

    /// Append the `len` bytes at `buf` to `out`.
    fn read_bytes_into(bus: &RamBus, buf: u64, len: u32, out: &mut Vec<u8>)
        requires
            buf < 0x1_0000_0000,
            len <= 0xFFF,
        ensures
            final(out)@ == old(out)@ + read_span(bus@, buf, len as nat),
    {
        let mut i: u32 = 0;
        while i < len
            invariant
                i <= len,
                len <= 0xFFF,
                buf < 0x1_0000_0000,
                out@ == old(out)@ + read_span(bus@, buf, i as nat),
            decreases len - i,
        {
            let b = Self::read8_or0(bus, buf + i as u64);
            out.push(b);
            assert(read_span(bus@, buf, (i + 1) as nat) =~= read_span(bus@, buf, i as nat).push(b));
            i = i + 1;
        }
    }

    /// Write `data[pos..pos + n]` to `buf..buf + n`.
    fn write_bytes(bus: &mut RamBus, buf: u64, data: &Vec<u8>, pos: usize, n: usize)
        requires
            buf < 0x1_0000_0000,
            n <= 0xFFF,
            pos + n <= data.len(),
        ensures
            final(bus)@ == write_span(old(bus)@, buf, data@, pos as nat, n as nat),
    {
        let mut i: usize = 0;
        while i < n
            invariant
                i <= n,
                n <= 0xFFF,
                buf < 0x1_0000_0000,
                pos + n <= data.len(),
                bus@ == write_span(old(bus)@, buf, data@, pos as nat, i as nat),
            decreases n - i,
        {
            let _ = bus.write_u8(buf + i as u64, data[pos + i]);
            i = i + 1;
        }
    }

    /// Walk the OUT chain from `desc_addr`, collecting its bytes; returns
    /// them and the last descriptor consumed.
    fn walk_out_chain(bus: &mut RamBus, desc_addr: u64, auto_wrback: bool, check_owner: bool) -> (r: (
        Vec<u8>,
        u32,
    ))
        requires
            desc_addr < 0x1_0000_0000,
        ensures
            (final(bus)@, r.0@, r.1) == out_walk(
                old(bus)@,
                desc_addr,
                auto_wrback,
                check_owner,
                MAX_DESC_CHAIN as nat,
                Seq::empty(),
                0,
            ),
    {
        let mut bytes: Vec<u8> = Vec::new();
        let mut addr = desc_addr;
        let mut last: u32 = 0;
        let mut hops: u64 = 0;
        while hops < MAX_DESC_CHAIN
            invariant
                hops <= MAX_DESC_CHAIN,
                addr < 0x1_0000_0000,
                out_walk(
                    bus@,
                    addr,
                    auto_wrback,
                    check_owner,
                    (MAX_DESC_CHAIN - hops) as nat,
                    bytes@,
                    last,
                ) == out_walk(
                    old(bus)@,
                    desc_addr,
                    auto_wrback,
                    check_owner,
                    MAX_DESC_CHAIN as nat,
                    Seq::empty(),
                    0,
                ),
            decreases MAX_DESC_CHAIN - hops,
        {
            if addr == 0 {
                return (bytes, last);
            }
            let dw0 = Self::read32_or0(bus, addr);
            if check_owner && dw0 & DESC_OWNER_BIT == 0 {
                return (bytes, last);
            }
            let len = (dw0 >> 12u32) & 0xFFF;
            assert(((dw0 >> 12u32) & 0xFFF) <= 0xFFF) by (bit_vector);
            let buf = Self::read32_or0(bus, addr + 4) as u64;
            let next = Self::read32_or0(bus, addr + 8) as u64;
            Self::read_bytes_into(bus, buf, len, &mut bytes);
            last = addr as u32;
            if auto_wrback {
                let _ = bus.write_u32(addr, dw0 & !DESC_OWNER_BIT);
            }
            if next == 0 {
                return (bytes, last);
            }
            addr = next;
            hops = hops + 1;
        }
        (bytes, last)
    }

    /// Write `bytes` into the IN chain from `desc_addr`; returns the last
    /// descriptor filled.
    fn walk_in_chain(bus: &mut RamBus, desc_addr: u64, bytes: &Vec<u8>, check_owner: bool) -> (r: u32)
        requires
            desc_addr < 0x1_0000_0000,
        ensures
            (final(bus)@, r) == in_walk(
                old(bus)@,
                desc_addr,
                bytes@,
                0,
                check_owner,
                MAX_DESC_CHAIN as nat,
                0,
            ),
    {
        let mut pos: usize = 0;
        let mut addr = desc_addr;
        let mut last: u32 = 0;
        let mut hops: u64 = 0;
        while hops < MAX_DESC_CHAIN
            invariant
                hops <= MAX_DESC_CHAIN,
                addr < 0x1_0000_0000,
                pos <= bytes.len(),
                in_walk(
                    bus@,
                    addr,
                    bytes@,
                    pos as nat,
                    check_owner,
                    (MAX_DESC_CHAIN - hops) as nat,
                    last,
                ) == in_walk(
                    old(bus)@,
                    desc_addr,
                    bytes@,
                    0,
                    check_owner,
                    MAX_DESC_CHAIN as nat,
                    0,
                ),
            decreases MAX_DESC_CHAIN - hops,
        {
            if addr == 0 || pos >= bytes.len() {
                return last;
            }
            let dw0 = Self::read32_or0(bus, addr);
            if check_owner && dw0 & DESC_OWNER_BIT == 0 {
                return last;
            }
            let size = (dw0 & 0xFFF) as usize;
            assert(dw0 & 0xFFF <= 0xFFF) by (bit_vector);
            let left = bytes.len() - pos;
            let n = if left < size {
                left
            } else {
                size
            };
            let buf = Self::read32_or0(bus, addr + 4) as u64;
            let next = Self::read32_or0(bus, addr + 8) as u64;
            Self::write_bytes(bus, buf, bytes, pos, n);
            let _ = bus.write_u32(addr, (dw0 & !(DESC_OWNER_BIT | DESC_LEN_MASK)) | ((n as u32) << 12u32));
            last = addr as u32;
            pos = pos + n;
            if next == 0 || dw0 & DESC_SUC_EOF_BIT != 0 || pos >= bytes.len() {
                return last;
            }
            addr = next;
            hops = hops + 1;
        }
        last
    }

    fn bus_tick_channel(&mut self, bus: &mut RamBus, ch: usize)
        requires
            ch < 3,
        ensures
            (final(self)@, final(bus)@) == bus_tick_channel(old(self)@, old(bus)@, ch),
    {
        let c = self.channels[ch];
        if !c.pending_m2m {
            return ;
        }
        let out_addr = Self::full_desc_addr(c.tx.link_addr);
        let in_addr = Self::full_desc_addr(c.rx.link_addr);
        let auto_wrback = c.tx.conf0 & OUT_AUTO_WRBACK_BIT != 0;
        let out_check = c.tx.conf1 & CHECK_OWNER_BIT != 0;
        let in_check = c.rx.conf1 & CHECK_OWNER_BIT != 0;
        let (bytes, out_last) = Self::walk_out_chain(bus, out_addr, auto_wrback, out_check);
        let in_last = if bytes.len() == 0 {
            0
        } else {
            Self::walk_in_chain(bus, in_addr, &bytes, in_check)
        };
        let mut c2 = c;
        c2.pending_m2m = false;
        c2.in_started = false;
        c2.out_started = false;
        c2.out_eof_des_addr = out_last;
        c2.in_suc_eof_des_addr = in_last;
        c2.rx.int_raw = c.rx.int_raw | IN_SUC_EOF_BIT | IN_DONE_BIT;
        c2.tx.int_raw = c.tx.int_raw | OUT_EOF_BIT | OUT_TOTAL_EOF_BIT | OUT_DONE_BIT;
        self.channels[ch] = c2;
    }

    /// Run every armed memory-to-memory walk against `bus`, channel 0 first.
    pub fn tick_with_bus(&mut self, bus: &mut RamBus)
        ensures
            (final(self)@, final(bus)@) == bus_tick(old(self)@, old(bus)@),
    {
        self.bus_tick_channel(bus, 0);
        self.bus_tick_channel(bus, 1);
        self.bus_tick_channel(bus, 2);
    }
}

} // verus!
