//! Nordic nRF54L UARTE (UART with EasyDMA), nRF54L-generation layout.
//!
//! EasyDMA lives in a `DMA.{RX,TX}` register cluster and the task/event
//! surface is renumbered against the nRF52. Events are hardware-generated:
//! a software write of 1 is ignored and a write of 0 clears; the event at
//! `0x100 + 4n` is gated by INTEN bit `n`. `TASKS_DMA.TX.START` arms a
//! transfer that the next bus-aware tick performs: MAXCNT bytes are read from
//! RAM at DMA.TX.PTR and emitted, DMA.TX.AMOUNT is set and the whole
//! completion set fires (also for a zero-length transfer). `TASKS_DMA.RX.START`
//! arms a drain of the host-injected RX queue into RAM at DMA.RX.PTR.
//!
//! The interrupt line is level-derived (INTEN AND pending events) and raised
//! on its rising edge. With a cycle clock attached the UARTE is driven by a
//! single self-perpetuating wake event instead of the per-cycle walk.
//!
//! The RX queue and the TX capture sink are shared with the host, so what a
//! queue read returns is not a function of this model's state: the contracts
//! below state what holds for every queue content. They fix which sink is
//! attached (the view's `sink`, set only by `set_sink`) and which bytes are
//! sent, in order (the view's `tx_log`); each sent byte is pushed onto the
//! sink attached at the time. What the sink holds afterwards is the host's.

use crate::bus::{RamBus, RamView};
use crate::cycle_clock::CycleClock;
use crate::regs::word_in;
use crate::shared::{new_queue, queue_len, queue_pop, share_queue, sink_push};
use crate::{EventResult, EventScheduler, PeripheralTickResult, SimResult, SimulationError};
use std::collections::BTreeMap;
use std::collections::VecDeque;
use std::sync::{Arc, Mutex};
use vstd::prelude::*;

verus! {

pub const OFF_TASKS_FLUSHRX: u64 = 0x01C;
pub const OFF_TASKS_DMA_RX_START: u64 = 0x028;
pub const OFF_TASKS_DMA_RX_STOP: u64 = 0x02C;
pub const OFF_TASKS_DMA_TX_START: u64 = 0x050;
pub const OFF_TASKS_DMA_TX_STOP: u64 = 0x054;
pub const EVENTS_BASE: u64 = 0x100;
pub const EVENTS_END: u64 = 0x17C;
pub const NUM_EVENTS: usize = 32;
pub const OFF_EVENTS_CTS: u64 = 0x100;
pub const OFF_EVENTS_NCTS: u64 = 0x104;
pub const OFF_EVENTS_TXDRDY: u64 = 0x10C;
pub const OFF_EVENTS_RXDRDY: u64 = 0x110;
pub const OFF_EVENTS_ERROR: u64 = 0x114;
pub const OFF_EVENTS_RXTO: u64 = 0x124;
pub const OFF_EVENTS_TXSTOPPED: u64 = 0x130;
pub const OFF_EVENTS_DMA_RX_END: u64 = 0x14C;
pub const OFF_EVENTS_DMA_TX_END: u64 = 0x168;
pub const OFF_EVENTS_DMA_TX_READY: u64 = 0x16C;
pub const OFF_EVENTS_FRAMETIMEOUT: u64 = 0x174;
/// The UARTE's single scheduler event.
pub const UARTE_WAKE_TOKEN: u32 = 0;
pub const OFF_SHORTS: u64 = 0x200;
pub const OFF_INTEN: u64 = 0x300;
pub const OFF_INTENSET: u64 = 0x304;
pub const OFF_INTENCLR: u64 = 0x308;
pub const OFF_ERRORSRC: u64 = 0x480;
pub const OFF_ENABLE: u64 = 0x500;
pub const OFF_BAUDRATE: u64 = 0x524;
pub const OFF_CONFIG: u64 = 0x56C;
pub const OFF_ADDRESS: u64 = 0x574;
pub const OFF_FRAMETIMEOUT: u64 = 0x578;
pub const OFF_PSEL_TXD: u64 = 0x604;
pub const OFF_PSEL_CTS: u64 = 0x608;
pub const OFF_PSEL_RXD: u64 = 0x60C;
pub const OFF_PSEL_RTS: u64 = 0x610;
pub const OFF_DMA_RX_PTR: u64 = 0x704;
pub const OFF_DMA_RX_MAXCNT: u64 = 0x708;
pub const OFF_DMA_RX_AMOUNT: u64 = 0x70C;
pub const OFF_DMA_RX_LIST: u64 = 0x714;
pub const OFF_DMA_RX_TERMINATEONBUSERROR: u64 = 0x71C;
pub const OFF_DMA_RX_BUSERRORADDRESS: u64 = 0x720;
pub const OFF_DMA_TX_PTR: u64 = 0x73C;
pub const OFF_DMA_TX_MAXCNT: u64 = 0x740;
pub const OFF_DMA_TX_AMOUNT: u64 = 0x744;
pub const OFF_DMA_TX_LIST: u64 = 0x74C;
pub const OFF_DMA_TX_TERMINATEONBUSERROR: u64 = 0x754;
pub const OFF_DMA_TX_BUSERRORADDRESS: u64 = 0x758;

/// The event index (and INTEN bit) of an offset in the event window.
pub open spec fn event_slot(offset: u64) -> Option<usize> {
    if EVENTS_BASE <= offset <= EVENTS_END && offset % 4 == 0 {
        Some(((offset - EVENTS_BASE) / 4) as usize)
    } else {
        None
    }
}

/// Event index (== INTEN bit) for an event offset, or `None` outside the
/// event window.
pub fn event_index(offset: u64) -> (r: Option<usize>)
    ensures
        r == event_slot(offset),
        r matches Some(i) ==> i < NUM_EVENTS,
{
    if EVENTS_BASE <= offset && offset <= EVENTS_END && offset % 4 == 0 {
        Some(((offset - EVENTS_BASE) / 4) as usize)
    } else {
        None
    }
}

/// The plain configuration and DMA registers.
#[derive(Debug, Clone, Copy, PartialEq, Eq)]
pub struct UarteRegs {
    pub shorts: u32,
    pub inten: u32,
    pub enable: u32,
    pub baudrate: u32,
    pub config: u32,
    pub address: u32,
    pub frametimeout: u32,
    pub psel_txd: u32,
    pub psel_cts: u32,
    pub psel_rxd: u32,
    pub psel_rts: u32,
    pub dma_rx_ptr: u32,
    pub dma_rx_maxcnt: u32,
    pub dma_rx_amount: u32,
    pub dma_rx_list: u32,
    pub dma_rx_terminate_on_buserror: u32,
    pub dma_rx_buserroraddress: u32,
    pub dma_tx_ptr: u32,
    pub dma_tx_maxcnt: u32,
    pub dma_tx_amount: u32,
    pub dma_tx_list: u32,
    pub dma_tx_terminate_on_buserror: u32,
    pub dma_tx_buserroraddress: u32,
}

/// Reset values: pins disconnected, 115200 baud, everything else zero.
pub open spec fn regs_reset() -> UarteRegs {
    UarteRegs {
        shorts: 0,
        inten: 0,
        enable: 0,
        baudrate: 0x01D7_E000,
        config: 0,
        address: 0,
        frametimeout: 0,
        psel_txd: 0xFFFF_FFFF,
        psel_cts: 0xFFFF_FFFF,
        psel_rxd: 0xFFFF_FFFF,
        psel_rts: 0xFFFF_FFFF,
        dma_rx_ptr: 0,
        dma_rx_maxcnt: 0,
        dma_rx_amount: 0,
        dma_rx_list: 0,
        dma_rx_terminate_on_buserror: 0,
        dma_rx_buserroraddress: 0,
        dma_tx_ptr: 0,
        dma_tx_maxcnt: 0,
        dma_tx_amount: 0,
        dma_tx_list: 0,
        dma_tx_terminate_on_buserror: 0,
        dma_tx_buserroraddress: 0,
    }
}

/// The modelled register an offset reads, or `None` for the storage bucket.
pub open spec fn reg_read(r: UarteRegs, errorsrc: u32, offset: u64) -> Option<u32> {
    if offset == OFF_TASKS_FLUSHRX || offset == OFF_TASKS_DMA_RX_START || offset
        == OFF_TASKS_DMA_RX_STOP || offset == OFF_TASKS_DMA_TX_START || offset
        == OFF_TASKS_DMA_TX_STOP {
        Some(0)
    } else if offset == OFF_SHORTS {
        Some(r.shorts)
    } else if offset == OFF_INTEN || offset == OFF_INTENSET || offset == OFF_INTENCLR {
        Some(r.inten)
    } else if offset == OFF_ERRORSRC {
        Some(errorsrc)
    } else if offset == OFF_ENABLE {
        Some(r.enable & 0xF)
    } else if offset == OFF_BAUDRATE {
        Some(r.baudrate)
    } else if offset == OFF_CONFIG {
        Some(r.config)
    } else if offset == OFF_ADDRESS {
        Some(r.address)
    } else if offset == OFF_FRAMETIMEOUT {
        Some(r.frametimeout)
    } else if offset == OFF_PSEL_TXD {
        Some(r.psel_txd)
    } else if offset == OFF_PSEL_CTS {
        Some(r.psel_cts)
    } else if offset == OFF_PSEL_RXD {
        Some(r.psel_rxd)
    } else if offset == OFF_PSEL_RTS {
        Some(r.psel_rts)
    } else if offset == OFF_DMA_RX_PTR {
        Some(r.dma_rx_ptr)
    } else if offset == OFF_DMA_RX_MAXCNT {
        Some(r.dma_rx_maxcnt & 0xFFFF)
    } else if offset == OFF_DMA_RX_AMOUNT {
        Some(r.dma_rx_amount & 0xFFFF)
    } else if offset == OFF_DMA_RX_LIST {
        Some(r.dma_rx_list)
    } else if offset == OFF_DMA_RX_TERMINATEONBUSERROR {
        Some(r.dma_rx_terminate_on_buserror & 1)
    } else if offset == OFF_DMA_RX_BUSERRORADDRESS {
        Some(r.dma_rx_buserroraddress)
    } else if offset == OFF_DMA_TX_PTR {
        Some(r.dma_tx_ptr)
    } else if offset == OFF_DMA_TX_MAXCNT {
        Some(r.dma_tx_maxcnt & 0xFFFF)
    } else if offset == OFF_DMA_TX_AMOUNT {
        Some(r.dma_tx_amount & 0xFFFF)
    } else if offset == OFF_DMA_TX_LIST {
        Some(r.dma_tx_list)
    } else if offset == OFF_DMA_TX_TERMINATEONBUSERROR {
        Some(r.dma_tx_terminate_on_buserror & 1)
    } else if offset == OFF_DMA_TX_BUSERRORADDRESS {
        Some(r.dma_tx_buserroraddress)
    } else {
        None
    }
}

/// The registers after a word write at a modelled offset, or `None` when
/// the offset goes to the storage bucket. Tasks, ERRORSRC and the DMA
/// status words are handled by the caller or ignored here.
pub open spec fn reg_write(r: UarteRegs, offset: u64, value: u32) -> Option<UarteRegs> {
    if offset == OFF_TASKS_FLUSHRX || offset == OFF_TASKS_DMA_RX_START || offset
        == OFF_TASKS_DMA_RX_STOP || offset == OFF_TASKS_DMA_TX_START || offset
        == OFF_TASKS_DMA_TX_STOP || offset == OFF_ERRORSRC || offset == OFF_DMA_RX_AMOUNT
        || offset == OFF_DMA_RX_BUSERRORADDRESS || offset == OFF_DMA_TX_AMOUNT || offset
        == OFF_DMA_TX_BUSERRORADDRESS {
        Some(r)
    } else if offset == OFF_SHORTS {
        Some(UarteRegs { shorts: value, ..r })
    } else if offset == OFF_INTEN {
        Some(UarteRegs { inten: value, ..r })
    } else if offset == OFF_INTENSET {
        Some(UarteRegs { inten: r.inten | value, ..r })
    } else if offset == OFF_INTENCLR {
        Some(UarteRegs { inten: r.inten & !value, ..r })
    } else if offset == OFF_ENABLE {
        Some(UarteRegs { enable: value & 0xF, ..r })
    } else if offset == OFF_BAUDRATE {
        Some(UarteRegs { baudrate: value, ..r })
    } else if offset == OFF_CONFIG {
        Some(UarteRegs { config: value, ..r })
    } else if offset == OFF_ADDRESS {
        Some(UarteRegs { address: value, ..r })
    } else if offset == OFF_FRAMETIMEOUT {
        Some(UarteRegs { frametimeout: value, ..r })
    } else if offset == OFF_PSEL_TXD {
        Some(UarteRegs { psel_txd: value, ..r })
    } else if offset == OFF_PSEL_CTS {
        Some(UarteRegs { psel_cts: value, ..r })
    } else if offset == OFF_PSEL_RXD {
        Some(UarteRegs { psel_rxd: value, ..r })
    } else if offset == OFF_PSEL_RTS {
        Some(UarteRegs { psel_rts: value, ..r })
    } else if offset == OFF_DMA_RX_PTR {
        Some(UarteRegs { dma_rx_ptr: value, ..r })
    } else if offset == OFF_DMA_RX_MAXCNT {
        Some(UarteRegs { dma_rx_maxcnt: value & 0xFFFF, ..r })
    } else if offset == OFF_DMA_RX_LIST {
        Some(UarteRegs { dma_rx_list: value, ..r })
    } else if offset == OFF_DMA_RX_TERMINATEONBUSERROR {
        Some(UarteRegs { dma_rx_terminate_on_buserror: value & 1, ..r })
    } else if offset == OFF_DMA_TX_PTR {
        Some(UarteRegs { dma_tx_ptr: value, ..r })
    } else if offset == OFF_DMA_TX_MAXCNT {
        Some(UarteRegs { dma_tx_maxcnt: value & 0xFFFF, ..r })
    } else if offset == OFF_DMA_TX_LIST {
        Some(UarteRegs { dma_tx_list: value, ..r })
    } else if offset == OFF_DMA_TX_TERMINATEONBUSERROR {
        Some(UarteRegs { dma_tx_terminate_on_buserror: value & 1, ..r })
    } else {
        None
    }
}

/// Bit `k - 1 .. 0` of the pending-event mask: bit `i` set when event `i`
/// is pending.
pub open spec fn mask_upto(events: Seq<u32>, k: nat) -> u32
    decreases k,
{
    if k == 0 {
        0
    } else {
        mask_upto(events, (k - 1) as nat) | (if events[k - 1] != 0 {
            1u32 << ((k - 1) as u32)
        } else {
            0u32
        })
    }
}

/// The bytes a TX transfer of `len` bytes from `ptr` emits: each readable
/// byte, in address order.
pub open spec fn tx_bytes(m: RamView, ptr: u32, len: nat) -> Seq<u8>
    decreases len,
{
    if len == 0 {
        Seq::empty()
    } else {
        let addr = (ptr + len - 1) as u64;
        tx_bytes(m, ptr, (len - 1) as nat) + if m.holds(addr) {
            seq![m.byte(addr as int)]
        } else {
            Seq::empty()
        }
    }
}

/// The RX drain of the `popped` queue bytes: each lands at `ptr + n` when
/// that address is RAM and is dropped otherwise; `n` counts the landed
/// bytes.
pub open spec fn rx_land(m: RamView, ptr: u32, popped: Seq<u8>) -> (RamView, nat)
    decreases popped.len(),
{
    if popped.len() == 0 {
        (m, 0)
    } else {
        let prev = rx_land(m, ptr, popped.drop_last());
        let addr = (ptr + prev.1) as u64;
        if prev.0.holds(addr) {
            (prev.0.store(addr as int, popped.last()), prev.1 + 1)
        } else {
            prev
        }
    }
}

/// `popped` is a sequence the drain can have taken with room for `max`
/// bytes: it stops popping once `max` bytes have landed.
pub open spec fn rx_drain_fits(m: RamView, ptr: u32, max: nat, popped: Seq<u8>) -> bool {
    &&& rx_land(m, ptr, popped).1 <= max
    &&& forall|k: int| 0 <= k < popped.len() ==> #[trigger] rx_land(m, ptr, popped.take(k)).1 < max
}

/// The mathematical state of the UARTE.
pub struct UarteView {
    /// EVENTS_*, indexed by INTEN bit.
    pub events: Seq<u32>,
    pub regs: UarteRegs,
    pub errorsrc: u32,
    /// Storage for unmodelled offsets.
    pub extra: Map<u64, u32>,
    pub tx_pending: bool,
    pub rx_pending: bool,
    pub irq_level: bool,
    /// A cycle clock is attached.
    pub clocked: bool,
    pub legacy_forced: bool,
    /// A wake event is in flight.
    pub scheduled: bool,
    /// Transmitted bytes are also queued for the console.
    pub echo_stdout: bool,
    /// Bytes queued for the console and not yet taken.
    pub echo: Seq<u8>,
    /// Every byte emitted so far, in order; each one was handed to the
    /// capture sink attached at the time, if any.
    pub tx_log: Seq<u8>,
    /// The capture sink that emitted bytes are handed to, if one is
    /// attached.
    pub sink: Option<Arc<Mutex<Vec<u8>>>>,
}

impl UarteView {
    pub open spec fn initial() -> Self {
        UarteView {
            events: Seq::new(32, |i: int| 0u32),
            regs: regs_reset(),
            errorsrc: 0,
            extra: Map::empty(),
            tx_pending: false,
            rx_pending: false,
            irq_level: false,
            clocked: false,
            legacy_forced: false,
            scheduled: false,
            echo_stdout: true,
            echo: Seq::empty(),
            tx_log: Seq::empty(),
            sink: None,
        }
    }

    /// Driven by the wake event rather than the walk.
    pub open spec fn scheduler(self) -> bool {
        self.clocked && !self.legacy_forced
    }

    pub open spec fn pending_mask(self) -> u32 {
        mask_upto(self.events, 32)
    }

    /// The interrupt level: an INTEN-enabled event is pending.
    pub open spec fn level(self) -> bool {
        self.pending_mask() & self.regs.inten != 0
    }

    /// Raise event `i` (hardware side).
    pub open spec fn raise(self, i: int) -> Self {
        UarteView { events: self.events.update(i, 1), ..self }
    }

    /// The word a read at `offset` returns when the RX queue is
    /// (`queued`) or is not holding bytes.
    pub open spec fn read_word(self, offset: u64, queued: bool) -> u32 {
        if offset == OFF_EVENTS_RXDRDY {
            self.events[4] | (if queued {
                1u32
            } else {
                0u32
            })
        } else if event_slot(offset) is Some {
            self.events[event_slot(offset)->0 as int]
        } else if reg_read(self.regs, self.errorsrc, offset) is Some {
            reg_read(self.regs, self.errorsrc, offset)->0
        } else {
            word_in(self.extra, offset)
        }
    }

    /// The state after a word write.
    pub open spec fn write_word(self, offset: u64, value: u32) -> Self {
        if event_slot(offset) is Some {
            if value == 0 {
                UarteView { events: self.events.update(event_slot(offset)->0 as int, 0), ..self }
            } else {
                self
            }
        } else if offset == OFF_TASKS_DMA_TX_START {
            UarteView { tx_pending: true, ..self }
        } else if offset == OFF_TASKS_DMA_TX_STOP {
            self.raise(12)
        } else if offset == OFF_TASKS_DMA_RX_START {
            UarteView { rx_pending: true, ..self }
        } else if offset == OFF_ERRORSRC {
            UarteView { errorsrc: self.errorsrc & !value, ..self }
        } else if reg_write(self.regs, offset, value) is Some {
            UarteView { regs: reg_write(self.regs, offset, value)->0, ..self }
        } else {
            UarteView { extra: self.extra.insert(offset, value), ..self }
        }
    }

    /// The IRQ edge observation: the new level is latched and a rising edge
    /// is reported.
    pub open spec fn observe_level(self) -> (Self, bool) {
        (UarteView { irq_level: self.level(), ..self }, self.level() && !self.irq_level)
    }

    /// Work the wake event must keep polling for: an armed transfer, or an
    /// interrupt level that moved since it was last observed.
    pub open spec fn active_work(self) -> bool {
        self.tx_pending || self.rx_pending || self.level() != self.irq_level
    }

    /// The bus-aware tick has a transfer to run (walk mode only).
    pub open spec fn bus_work(self, queued: bool) -> bool {
        !self.scheduler() && self.transfer_work(queued)
    }

    /// A transfer could move bytes now (`queued`: the RX queue holds bytes).
    pub open spec fn transfer_work(self, queued: bool) -> bool {
        self.tx_pending || (self.rx_pending && queued)
    }

    /// Emit `bytes`: handed to the attached sink (`sink`) and logged, and
    /// queued for the console when echo is on.
    pub open spec fn emit(self, bytes: Seq<u8>) -> Self {
        UarteView {
            tx_log: self.tx_log + bytes,
            echo: if self.echo_stdout {
                self.echo + bytes
            } else {
                self.echo
            },
            ..self
        }
    }

    /// The TX transfer against RAM `m`: MAXCNT bytes read and emitted,
    /// AMOUNT set, and TXDRDY, DMA.TX.END, DMA.TX.READY and TXSTOPPED
    /// raised. Nothing happens without an armed transfer.
    pub open spec fn tx_service(self, m: RamView) -> Self {
        if !self.tx_pending {
            self
        } else {
            let len = self.regs.dma_tx_maxcnt & 0xFFFF;
            UarteView {
                tx_pending: false,
                regs: UarteRegs { dma_tx_amount: len, ..self.regs },
                ..self
            }.emit(tx_bytes(m, self.regs.dma_tx_ptr, len as nat)).raise(3).raise(26).raise(
                27,
            ).raise(12)
        }
    }

    /// The state after an RX drain that landed `n` bytes: the arm is
    /// consumed, AMOUNT is `n`, RXDRDY rises when a byte landed and
    /// DMA.RX.END always.
    pub open spec fn rx_done(self, n: nat) -> Self {
        let s = UarteView {
            rx_pending: false,
            regs: UarteRegs { dma_rx_amount: n as u32, ..self.regs },
            ..self
        };
        let s2 = if n > 0 {
            s.raise(4)
        } else {
            s
        };
        s2.raise(19)
    }

    /// `(next, m2)` is what an RX drain can leave from RAM `m`.
    pub open spec fn rx_drain_outcome(self, m: RamView, next: Self, m2: RamView) -> bool {
        exists|popped: Seq<u8>|
            #![trigger rx_land(m, self.regs.dma_rx_ptr, popped)]
            rx_drain_fits(m, self.regs.dma_rx_ptr, (self.regs.dma_rx_maxcnt & 0xFFFF) as nat, popped)
                && m2 == rx_land(m, self.regs.dma_rx_ptr, popped).0 && next == self.rx_done(
                rx_land(m, self.regs.dma_rx_ptr, popped).1,
            )
    }

    /// `(next, m2)` is what one service step can leave: an armed RX may
    /// drain (when the queue holds bytes), then an armed TX runs.
    pub open spec fn service_outcome(self, m: RamView, next: Self, m2: RamView) -> bool {
        ||| next == self.tx_service(m) && m2 == m
        ||| self.rx_pending && exists|mid: Self|
            #[trigger] self.rx_drain_outcome(m, mid, m2) && next == mid.tx_service(m2)
    }
}

proof fn lemma_emit_append(v: UarteView, a: Seq<u8>, b: Seq<u8>)
    ensures
        v.emit(a).emit(b) == v.emit(a + b),
{
    assert((v.tx_log + a) + b =~= v.tx_log + (a + b));
    assert((v.echo + a) + b =~= v.echo + (a + b));
}

proof fn lemma_or_bit(m: u32, a: u32, b: u32)
    requires
        a < 32,
        b < 32,
    ensures
        a != b ==> (((m | (1u32 << a)) & (1u32 << b)) != 0) == ((m & (1u32 << b)) != 0),
        ((m | (1u32 << a)) & (1u32 << a)) != 0,
        m | 0u32 == m,
{
    assert(a < 32 && b < 32 && a != b ==> (((m | (1u32 << a)) & (1u32 << b)) != 0) == ((m & (1u32
        << b)) != 0)) by (bit_vector);
    assert(a < 32 ==> ((m | (1u32 << a)) & (1u32 << a)) != 0) by (bit_vector);
    assert(m | 0u32 == m) by (bit_vector);
}

/// Bit `j` of the pending mask over the first `k` events is set exactly
/// when event `j` is pending (and is clear for `j >= k`).
proof fn lemma_mask_upto_bits(events: Seq<u32>, k: nat, j: u32)
    requires
        k <= 32,
        j < 32,
        events.len() >= k,
    ensures
        j < k ==> ((mask_upto(events, k) & (1u32 << j)) != 0) == (events[j as int] != 0),
        j >= k ==> (mask_upto(events, k) & (1u32 << j)) == 0,
    decreases k,
{
    if k == 0 {
        assert(0u32 & (1u32 << j) == 0) by (bit_vector);
    } else {
        let p = (k - 1) as nat;
        lemma_mask_upto_bits(events, p, j);
        let m = mask_upto(events, p);
        lemma_or_bit(m, p as u32, j);
        if j == p {
            lemma_mask_upto_bits(events, p, j);
        }
    }
}

/// The pending mask has bit `i` set exactly when event `i` is pending:
/// the event at `0x100 + 4i` is gated by INTEN bit `i`.
pub proof fn lemma_pending_mask_bits(v: UarteView, i: u32)
    requires
        v.events.len() == 32,
        i < 32,
    ensures
        ((v.pending_mask() & (1u32 << i)) != 0) == (v.events[i as int] != 0),
{
    lemma_mask_upto_bits(v.events, 32, i);
}

proof fn lemma_nonzero_low_bits(z: u32, k: u32)
    requires
        k <= 32,
        forall|i: u32| i < k ==> #[trigger] (z & (1u32 << i)) == 0,
    ensures
        (z as u64) & (((1u64 << (k as u64)) - 1) as u64) == 0,
    decreases k,
{
    if k == 0 {
        assert((z as u64) & (((1u64 << 0u64) - 1) as u64) == 0) by (bit_vector);
    } else {
        let p = (k - 1) as u32;
        lemma_nonzero_low_bits(z, p);
        assert(z & (1u32 << p) == 0);
        assert(p < 32 && (z as u64) & (((1u64 << (p as u64)) - 1) as u64) == 0 && z & (1u32 << p)
            == 0 ==> (z as u64) & (((1u64 << ((p + 1) as u64)) - 1) as u64) == 0) by (bit_vector);
    }
}

/// The interrupt level is up exactly when some pending event has its INTEN
/// bit set.
pub proof fn lemma_level_is_enabled_pending(v: UarteView)
    requires
        v.events.len() == 32,
    ensures
        v.level() <==> exists|i: u32|
            i < 32 && #[trigger] v.events[i as int] != 0 && v.regs.inten & (1u32 << i) != 0,
{
    let m = v.pending_mask();
    let inten = v.regs.inten;
    if v.level() {
        let z = m & inten;
        if forall|i: u32| i < 32 ==> #[trigger] (z & (1u32 << i)) == 0 {
            lemma_nonzero_low_bits(z, 32);
            assert((z as u64) & (((1u64 << 32u64) - 1) as u64) == 0 ==> z == 0) by (bit_vector);
        }
        let i = choose|i: u32| i < 32 && #[trigger] (z & (1u32 << i)) != 0;
        lemma_pending_mask_bits(v, i);
        assert(z == m & inten ==> (z & (1u32 << i) != 0 ==> (m & (1u32 << i) != 0 && inten & (1u32
            << i) != 0))) by (bit_vector);
        assert(v.events[i as int] != 0);
    }
    assert forall|i: u32|
        i < 32 && #[trigger] v.events[i as int] != 0 && v.regs.inten & (1u32 << i) != 0 implies v.level() by {
        lemma_pending_mask_bits(v, i);
        assert((m & (1u32 << i)) != 0 && (inten & (1u32 << i)) != 0 ==> m & inten != 0)
            by (bit_vector);
    }
}

/// Events are hardware-generated: a software write of anything but 0
/// leaves the state unchanged, and a write of 0 clears the event.
pub proof fn lemma_event_writes(v: UarteView, offset: u64, value: u32)
    requires
        event_slot(offset) is Some,
        v.events.len() == 32,
    ensures
        value != 0 ==> v.write_word(offset, value) == v,
        offset != OFF_EVENTS_RXDRDY ==> v.write_word(offset, 0).read_word(offset, false) == 0,
        offset == OFF_EVENTS_RXDRDY ==> v.write_word(offset, 0).events[4] == 0,
{
}

/// The edge detector reports a rising edge once: observing the level again
/// without a change reports nothing.
pub proof fn lemma_edge_reported_once(v: UarteView)
    ensures
        !v.observe_level().0.observe_level().1,
        v.observe_level().0.observe_level().0 == v.observe_level().0,
{
}

/// A transfer of MAXCNT = 0 still completes: nothing is emitted, AMOUNT
/// reads 0 and TXSTOPPED and DMA.TX.END are raised.
pub proof fn lemma_zero_length_tx_completes(v: UarteView, m: RamView)
    requires
        v.tx_pending,
        v.regs.dma_tx_maxcnt & 0xFFFF == 0,
        v.events.len() == 32,
    ensures
        v.tx_service(m).tx_log == v.tx_log,
        v.tx_service(m).regs.dma_tx_amount == 0,
        v.tx_service(m).events[12] == 1,
        v.tx_service(m).events[26] == 1,
        !v.tx_service(m).tx_pending,
{
    assert(tx_bytes(m, v.regs.dma_tx_ptr, 0) =~= Seq::<u8>::empty());
    assert(v.tx_log + Seq::<u8>::empty() =~= v.tx_log);
}

/// A transfer whose whole buffer lies in RAM emits exactly the buffer.
pub proof fn lemma_tx_emits_buffer(m: RamView, ptr: u32, len: nat)
    requires
        len <= 0xFFFF,
        forall|i: int| 0 <= i < len ==> #[trigger] m.holds((ptr + i) as u64),
    ensures
        tx_bytes(m, ptr, len) == Seq::new(len, |i: int| m.byte(ptr + i)),
    decreases len,
{
    if len > 0 {
        lemma_tx_emits_buffer(m, ptr, (len - 1) as nat);
        assert(m.holds((ptr + (len - 1)) as u64));
        let prev = Seq::new((len - 1) as nat, |i: int| m.byte(ptr + i));
        assert(Seq::new(len, |i: int| m.byte(ptr + i)) =~= prev + seq![m.byte(ptr + len - 1)]);
    } else {
        assert(tx_bytes(m, ptr, len) =~= Seq::new(len, |i: int| m.byte(ptr + i)));
    }
}

/// An RX drain never lands more than MAXCNT bytes, and AMOUNT reads back
/// the count that landed.
pub proof fn lemma_rx_drain_bounded(v: UarteView, m: RamView, next: UarteView, m2: RamView)
    requires
        v.rx_drain_outcome(m, next, m2),
        v.events.len() == 32,
    ensures
        next.regs.dma_rx_amount <= v.regs.dma_rx_maxcnt & 0xFFFF,
        !next.rx_pending,
        next.events[19] == 1,
{
    let popped = choose|popped: Seq<u8>|
        #![trigger rx_land(m, v.regs.dma_rx_ptr, popped)]
        rx_drain_fits(m, v.regs.dma_rx_ptr, (v.regs.dma_rx_maxcnt & 0xFFFF) as nat, popped) && m2
            == rx_land(m, v.regs.dma_rx_ptr, popped).0 && next == v.rx_done(
            rx_land(m, v.regs.dma_rx_ptr, popped).1,
        );
    let x = v.regs.dma_rx_maxcnt;
    assert(x & 0xFFFF <= 0xFFFF) by (bit_vector);
}

/// The plain registers read back what was written; MAXCNT keeps 16 bits,
/// ENABLE 4 bits, and unmodelled offsets are storage.
pub proof fn lemma_register_roundtrip(v: UarteView, offset: u64, value: u32)
    requires
        offset == OFF_SHORTS || offset == OFF_INTEN || offset == OFF_BAUDRATE || offset
            == OFF_CONFIG || offset == OFF_ADDRESS || offset == OFF_FRAMETIMEOUT || offset
            == OFF_PSEL_TXD || offset == OFF_PSEL_CTS || offset == OFF_PSEL_RXD || offset
            == OFF_PSEL_RTS || offset == OFF_DMA_RX_PTR || offset == OFF_DMA_TX_PTR || offset
            == OFF_DMA_RX_LIST || offset == OFF_DMA_TX_LIST || (event_slot(offset) is None
            && reg_read(v.regs, v.errorsrc, offset) is None),
    ensures
        v.write_word(offset, value).read_word(offset, false) == value,
{
}

/// Only one wake is ever in flight: right after a wake was handed out,
/// asking again hands out nothing.
pub proof fn lemma_single_wake(v: UarteView)
    requires
        v.scheduled,
    ensures
        !(v.active_work() && !v.scheduled),
{
}

/// Nordic nRF54L UARTE.
pub struct Nrf54lUarte {
    events: [u32; 32],
    regs: UarteRegs,
    /// ERRORSRC (write-1-clear).
    pub errorsrc: u32,
    extra: BTreeMap<u64, u32>,
    /// A TX transfer is armed for the next bus-aware tick.
    pub tx_pending: bool,
    /// An RX drain is armed for when the queue holds bytes.
    pub rx_pending: bool,
    rx_source: Arc<Mutex<VecDeque<u8>>>,
    /// The interrupt level at the last observation.
    pub irq_level: bool,
    clock: Option<CycleClock>,
    /// A wake event is in flight.
    pub scheduled: bool,
    legacy_walk_forced: bool,
    sink: Option<Arc<Mutex<Vec<u8>>>>,
    echo_stdout: bool,
    echo: Vec<u8>,
    tx_log: Ghost<Seq<u8>>,
}

impl View for Nrf54lUarte {
    type V = UarteView;

    closed spec fn view(&self) -> UarteView {
        UarteView {
            events: self.events@,
            regs: self.regs,
            errorsrc: self.errorsrc,
            extra: self.extra@,
            tx_pending: self.tx_pending,
            rx_pending: self.rx_pending,
            irq_level: self.irq_level,
            clocked: self.clock is Some,
            legacy_forced: self.legacy_walk_forced,
            scheduled: self.scheduled,
            echo_stdout: self.echo_stdout,
            echo: self.echo@,
            tx_log: self.tx_log@,
            sink: self.sink,
        }
    }
}

/// Every UARTE instance has its 32 event words, so the event-register laws
/// above apply to any instance.
pub proof fn lemma_uarte_has_all_events(u: &Nrf54lUarte)
    ensures
        u@.events.len() == 32,
{
}

impl Nrf54lUarte {
    /// A UARTE at reset: pins disconnected, 115200 baud, console echo on.
    pub fn new() -> (r: Self)
        ensures
            r@ == UarteView::initial(),
    {
        let r = Nrf54lUarte {
            events: [0u32; 32],
            regs: UarteRegs {
                shorts: 0,
                inten: 0,
                enable: 0,
                baudrate: 0x01D7_E000,
                config: 0,
                address: 0,
                frametimeout: 0,
                psel_txd: 0xFFFF_FFFF,
                psel_cts: 0xFFFF_FFFF,
                psel_rxd: 0xFFFF_FFFF,
                psel_rts: 0xFFFF_FFFF,
                dma_rx_ptr: 0,
                dma_rx_maxcnt: 0,
                dma_rx_amount: 0,
                dma_rx_list: 0,
                dma_rx_terminate_on_buserror: 0,
                dma_rx_buserroraddress: 0,
                dma_tx_ptr: 0,
                dma_tx_maxcnt: 0,
                dma_tx_amount: 0,
                dma_tx_list: 0,
                dma_tx_terminate_on_buserror: 0,
                dma_tx_buserroraddress: 0,
            },
            errorsrc: 0,
            extra: BTreeMap::new(),
            tx_pending: false,
            rx_pending: false,
            rx_source: new_queue(),
            irq_level: false,
            clock: None,
            scheduled: false,
            legacy_walk_forced: false,
            sink: None,
            echo_stdout: true,
            echo: Vec::new(),
            tx_log: Ghost(Seq::empty()),
        };
        assert(r@.events =~= UarteView::initial().events);
        r
    }

    /// Attach a capture sink and choose whether bytes are also queued for
    /// the console.
    pub fn set_sink(&mut self, sink: Option<Arc<Mutex<Vec<u8>>>>, echo_stdout: bool)
        ensures
            final(self)@ == (UarteView { echo_stdout, sink, ..old(self)@ }),
    {
        self.sink = sink;
        self.echo_stdout = echo_stdout;
    }

    /// The RX injection queue this UART receives from: the host pushes
    /// bytes into it and reception takes them from its front.
    pub closed spec fn rx_queue(&self) -> Arc<Mutex<VecDeque<u8>>> {
        self.rx_source
    }

    /// The shared RX injection queue: a handle to this UART's own queue.
    pub fn rx_buffer(&self) -> (r: Arc<Mutex<VecDeque<u8>>>)
        ensures
            r == self.rx_queue(),
    {
        share_queue(&self.rx_source)
    }

    /// Bytes waiting in the RX queue.
    pub fn rx_queued(&self) -> usize {
        queue_len(&self.rx_source)
    }

    /// Take the bytes queued for the console.
    pub fn take_echo(&mut self) -> (r: Vec<u8>)
        ensures
            r@ == old(self)@.echo,
            final(self)@ == (UarteView { echo: Seq::empty(), ..old(self)@ }),
    {
        let mut out: Vec<u8> = Vec::new();
        std::mem::swap(&mut out, &mut self.echo);
        out
    }

    /// Hand `byte` to the attached sink `self@.sink` (pushed at its end) and
    /// to the console echo.
    fn emit_byte(&mut self, byte: u8)
        ensures
            final(self)@ == old(self)@.emit(seq![byte]),
    {
        match &self.sink {
            Some(s) => sink_push(s, byte),
            None => {},
        }
        let ghost echo0 = self.echo@;
        if self.echo_stdout {
            self.echo.push(byte);
            assert(self.echo@ =~= echo0 + seq![byte]);
        }
        proof {
            self.tx_log@ = self.tx_log@ + seq![byte];
        }
    }

    /// Raise an event by offset (hardware side).
    pub fn set_event(&mut self, offset: u64)
        ensures
            event_slot(offset) matches Some(i) ==> final(self)@ == old(self)@.raise(i as int),
            event_slot(offset) is None ==> final(self)@ == old(self)@,
    {
        match event_index(offset) {
            Some(i) => {
                self.events[i] = 1;
            },
            None => {},
        }
    }

    /// Bitmask of pending events in INTEN bit order.
    fn pending_mask(&self) -> (r: u32)
        ensures
            r == self@.pending_mask(),
    {
        let mut mask: u32 = 0;
        let mut i: usize = 0;
        while i < 32
            invariant
                i <= 32,
                mask == mask_upto(self.events@, i as nat),
            decreases 32 - i,
        {
            if self.events[i] != 0 {
                mask = mask | (1u32 << (i as u32));
            } else {
                mask = mask | 0u32;
            }
            i = i + 1;
        }
        mask
    }

    /// Pin this UARTE onto the per-cycle walk.
    pub fn force_legacy_walk(&mut self)
        ensures
            final(self)@ == (UarteView { legacy_forced: true, ..old(self)@ }),
    {
        self.legacy_walk_forced = true;
    }

    fn scheduler_mode(&self) -> (r: bool)
        ensures
            r == self@.scheduler(),
    {
        self.clock.is_some() && !self.legacy_walk_forced
    }

    fn has_transfer_work(&self) -> (r: bool)
        ensures
            exists|q: bool| r == #[trigger] self@.transfer_work(q),
            self@.tx_pending ==> r,
            !self@.tx_pending && !self@.rx_pending ==> !r,
    {
        if self.tx_pending {
            assert(self@.transfer_work(false));
            return true;
        }
        let r = self.rx_pending && self.rx_queued() > 0;
        assert(r == self@.transfer_work(r));
        r
    }

    fn irq_edge(&mut self) -> (r: bool)
        ensures
            (final(self)@, r) == old(self)@.observe_level(),
    {
        let level = self.pending_mask() & self.regs.inten != 0;
        let irq = level && !self.irq_level;
        self.irq_level = level;
        irq
    }

    fn has_active_work(&self) -> (r: bool)
        ensures
            r == self@.active_work(),
    {
        self.tx_pending || self.rx_pending || (self.pending_mask() & self.regs.inten != 0)
            != self.irq_level
    }

    /// Word read. RXDRDY also reflects bytes waiting in the RX queue.
    pub fn read_u32(&self, offset: u64) -> (r: SimResult<u32>)
        ensures
            exists|q: bool| r == Ok::<u32, SimulationError>(#[trigger] self@.read_word(offset, q)),
            offset != OFF_EVENTS_RXDRDY ==> r == Ok::<u32, SimulationError>(
                self@.read_word(offset, false),
            ),
    {
        if offset == OFF_EVENTS_RXDRDY {
            let q = self.rx_queued() > 0;
            let bit: u32 = if q {
                1
            } else {
                0
            };
            let r = self.events[4] | bit;
            assert(r == self@.read_word(offset, q));
            return Ok(r);
        }
        match event_index(offset) {
            Some(i) => {
                assert(self@.read_word(offset, false) == self.events[i as int]);
                return Ok(self.events[i]);
            },
            None => {},
        }
        let r = self.read_reg(offset);
        let v = match r {
            Some(v) => v,
            None => match self.extra.get(&offset) {
                Some(v) => *v,
                None => 0,
            },
        };
        assert(v == self@.read_word(offset, false));
        Ok(v)
    }

    fn read_reg(&self, offset: u64) -> (r: Option<u32>)
        ensures
            r == reg_read(self.regs, self.errorsrc, offset),
    {
        let r = &self.regs;
        if offset == OFF_TASKS_FLUSHRX || offset == OFF_TASKS_DMA_RX_START || offset
            == OFF_TASKS_DMA_RX_STOP || offset == OFF_TASKS_DMA_TX_START || offset
            == OFF_TASKS_DMA_TX_STOP {
            Some(0)
        } else if offset == OFF_SHORTS {
            Some(r.shorts)
        } else if offset == OFF_INTEN || offset == OFF_INTENSET || offset == OFF_INTENCLR {
            Some(r.inten)
        } else if offset == OFF_ERRORSRC {
            Some(self.errorsrc)
        } else if offset == OFF_ENABLE {
            Some(r.enable & 0xF)
        } else if offset == OFF_BAUDRATE {
            Some(r.baudrate)
        } else if offset == OFF_CONFIG {
            Some(r.config)
        } else if offset == OFF_ADDRESS {
            Some(r.address)
        } else if offset == OFF_FRAMETIMEOUT {
            Some(r.frametimeout)
        } else if offset == OFF_PSEL_TXD {
            Some(r.psel_txd)
        } else if offset == OFF_PSEL_CTS {
            Some(r.psel_cts)
        } else if offset == OFF_PSEL_RXD {
            Some(r.psel_rxd)
        } else if offset == OFF_PSEL_RTS {
            Some(r.psel_rts)
        } else if offset == OFF_DMA_RX_PTR {
            Some(r.dma_rx_ptr)
        } else if offset == OFF_DMA_RX_MAXCNT {
            Some(r.dma_rx_maxcnt & 0xFFFF)
        } else if offset == OFF_DMA_RX_AMOUNT {
            Some(r.dma_rx_amount & 0xFFFF)
        } else if offset == OFF_DMA_RX_LIST {
            Some(r.dma_rx_list)
        } else if offset == OFF_DMA_RX_TERMINATEONBUSERROR {
            Some(r.dma_rx_terminate_on_buserror & 1)
        } else if offset == OFF_DMA_RX_BUSERRORADDRESS {
            Some(r.dma_rx_buserroraddress)
        } else if offset == OFF_DMA_TX_PTR {
            Some(r.dma_tx_ptr)
        } else if offset == OFF_DMA_TX_MAXCNT {
            Some(r.dma_tx_maxcnt & 0xFFFF)
        } else if offset == OFF_DMA_TX_AMOUNT {
            Some(r.dma_tx_amount & 0xFFFF)
        } else if offset == OFF_DMA_TX_LIST {
            Some(r.dma_tx_list)
        } else if offset == OFF_DMA_TX_TERMINATEONBUSERROR {
            Some(r.dma_tx_terminate_on_buserror & 1)
        } else if offset == OFF_DMA_TX_BUSERRORADDRESS {
            Some(r.dma_tx_buserroraddress)
        } else {
            None
        }
    }

    fn write_reg(&mut self, offset: u64, value: u32) -> (handled: bool)
        ensures
            handled == reg_write(old(self).regs, offset, value) is Some,
            handled ==> final(self)@ == (UarteView {
                regs: reg_write(old(self).regs, offset, value)->0,
                ..old(self)@
            }),
            !handled ==> final(self)@ == old(self)@,
    {
        let r = &mut self.regs;
        if offset == OFF_TASKS_FLUSHRX || offset == OFF_TASKS_DMA_RX_START || offset
            == OFF_TASKS_DMA_RX_STOP || offset == OFF_TASKS_DMA_TX_START || offset
            == OFF_TASKS_DMA_TX_STOP || offset == OFF_ERRORSRC || offset == OFF_DMA_RX_AMOUNT
            || offset == OFF_DMA_RX_BUSERRORADDRESS || offset == OFF_DMA_TX_AMOUNT || offset
            == OFF_DMA_TX_BUSERRORADDRESS {
        } else if offset == OFF_SHORTS {
            r.shorts = value;
        } else if offset == OFF_INTEN {
            r.inten = value;
        } else if offset == OFF_INTENSET {
            r.inten = r.inten | value;
        } else if offset == OFF_INTENCLR {
            r.inten = r.inten & !value;
        } else if offset == OFF_ENABLE {
            r.enable = value & 0xF;
        } else if offset == OFF_BAUDRATE {
            r.baudrate = value;
        } else if offset == OFF_CONFIG {
            r.config = value;
        } else if offset == OFF_ADDRESS {
            r.address = value;
        } else if offset == OFF_FRAMETIMEOUT {
            r.frametimeout = value;
        } else if offset == OFF_PSEL_TXD {
            r.psel_txd = value;
        } else if offset == OFF_PSEL_CTS {
            r.psel_cts = value;
        } else if offset == OFF_PSEL_RXD {
            r.psel_rxd = value;
        } else if offset == OFF_PSEL_RTS {
            r.psel_rts = value;
        } else if offset == OFF_DMA_RX_PTR {
            r.dma_rx_ptr = value;
        } else if offset == OFF_DMA_RX_MAXCNT {
            r.dma_rx_maxcnt = value & 0xFFFF;
        } else if offset == OFF_DMA_RX_LIST {
            r.dma_rx_list = value;
        } else if offset == OFF_DMA_RX_TERMINATEONBUSERROR {
            r.dma_rx_terminate_on_buserror = value & 1;
        } else if offset == OFF_DMA_TX_PTR {
            r.dma_tx_ptr = value;
        } else if offset == OFF_DMA_TX_MAXCNT {
            r.dma_tx_maxcnt = value & 0xFFFF;
        } else if offset == OFF_DMA_TX_LIST {
            r.dma_tx_list = value;
        } else if offset == OFF_DMA_TX_TERMINATEONBUSERROR {
            r.dma_tx_terminate_on_buserror = value & 1;
        } else {
            return false;
        }
        true
    }

    /// Word write. Events clear on a write of 0 and ignore a write of 1;
    /// TX.START and RX.START arm a transfer, TX.STOP raises TXSTOPPED;
    /// ERRORSRC is write-1-clear; unmodelled offsets are stored.
    pub fn write_u32(&mut self, offset: u64, value: u32) -> (r: SimResult<()>)
        ensures
            r is Ok,
            final(self)@ == old(self)@.write_word(offset, value),
    {
        broadcast use vstd::laws_cmp::group_laws_cmp;

        match event_index(offset) {
            Some(i) => {
                if value == 0 {
                    self.events[i] = 0;
                }
                return Ok(());
            },
            None => {},
        }
        if offset == OFF_TASKS_DMA_TX_START {
            self.tx_pending = true;
        } else if offset == OFF_TASKS_DMA_TX_STOP {
            self.set_event(OFF_EVENTS_TXSTOPPED);
        } else if offset == OFF_TASKS_DMA_RX_START {
            self.rx_pending = true;
        } else if offset == OFF_ERRORSRC {
            self.errorsrc = self.errorsrc & !value;
        } else if !self.write_reg(offset, value) {
            self.extra.insert(offset, value);
        }
        Ok(())
    }

    /// Byte reads are not modelled and read zero.
    pub fn read(&self, offset: u64) -> (r: SimResult<u8>)
        ensures
            r == Ok::<u8, SimulationError>(0),
    {
        Ok(0)
    }

    /// Byte writes are not modelled and change nothing.
    pub fn write(&mut self, offset: u64, value: u8) -> (r: SimResult<()>)
        ensures
            r is Ok,
            final(self)@ == old(self)@,
    {
        Ok(())
    }
    /// The RX drain: pops queue bytes (at most the bytes queued when it
    /// starts) and lands each at `ptr + n` until MAXCNT bytes have landed or
    /// the queue runs dry.
    fn do_dma_rx(&mut self, bus: &mut RamBus)
        ensures
            old(self)@.rx_drain_outcome(old(bus)@, final(self)@, final(bus)@),
    {
        self.rx_pending = false;
        let raw_max = self.regs.dma_rx_maxcnt;
        let max = raw_max & 0xFFFF;
        assert(raw_max & 0xFFFF <= 0xFFFF) by (bit_vector);
        let ptr = self.regs.dma_rx_ptr;
        let avail = queue_len(&self.rx_source);
        let mut n: u32 = 0;
        let mut taken: usize = 0;
        let ghost popped: Seq<u8> = Seq::empty();
        let ghost m0 = bus@;
        while n < max && taken < avail
            invariant
                n <= max,
                max <= 0xFFFF,
                max == old(self)@.regs.dma_rx_maxcnt & 0xFFFF,
                ptr == old(self)@.regs.dma_rx_ptr,
                m0 == old(bus)@,
                self@ == (UarteView { rx_pending: false, ..old(self)@ }),
                rx_land(m0, ptr, popped) == (bus@, n as nat),
                forall|k: int| 0 <= k < popped.len() ==> #[trigger] rx_land(m0, ptr, popped.take(k)).1 < max,
            decreases avail - taken,
        {
            match queue_pop(&self.rx_source) {
                None => {
                    taken = avail;
                },
                Some(b) => {
                    let ghost before = popped;
                    let addr = ptr as u64 + n as u64;
                    match bus.write_u8(addr, b) {
                        Ok(_) => {
                            n = n + 1;
                        },
                        Err(_) => {},
                    }
                    proof {
                        popped = popped.push(b);
                        assert(popped.drop_last() =~= before);
                        assert(popped.take(before.len() as int) =~= before);
                        assert forall|k: int| 0 <= k < popped.len() implies #[trigger] rx_land(
                            m0,
                            ptr,
                            popped.take(k),
                        ).1 < max by {
                            if k < before.len() {
                                assert(popped.take(k) =~= before.take(k));
                            }
                        }
                    }
                    taken = taken + 1;
                },
            }
        }
        self.regs.dma_rx_amount = n;
        if n > 0 {
            self.set_event(OFF_EVENTS_RXDRDY);
        }
        self.set_event(OFF_EVENTS_DMA_RX_END);
        assert(rx_drain_fits(m0, ptr, max as nat, popped));
        assert(self@ == old(self)@.rx_done(n as nat));
    }

    /// The TX transfer: MAXCNT bytes from DMA.TX.PTR are emitted, AMOUNT is
    /// set and the completion events fire.
    fn tx_service(&mut self, bus: &RamBus)
        ensures
            final(self)@ == old(self)@.tx_service(bus@),
    {
        if !self.tx_pending {
            return ;
        }
        self.tx_pending = false;
        let raw_len = self.regs.dma_tx_maxcnt;
        let len = raw_len & 0xFFFF;
        assert(raw_len & 0xFFFF <= 0xFFFF) by (bit_vector);
        let ptr = self.regs.dma_tx_ptr;
        let ghost base = self@;
        let mut i: u32 = 0;
        assert(tx_bytes(bus@, ptr, 0) =~= Seq::<u8>::empty());
        assert(base.emit(Seq::empty()) =~= base);
        while i < len
            invariant
                i <= len,
                len <= 0xFFFF,
                ptr == base.regs.dma_tx_ptr,
                self@ == base.emit(tx_bytes(bus@, ptr, i as nat)),
            decreases len - i,
        {
            let addr = ptr as u64 + i as u64;
            let ghost prev = tx_bytes(bus@, ptr, i as nat);
            match bus.read_u8(addr) {
                Ok(b) => {
                    self.emit_byte(b);
                    assert(prev + seq![b] =~= tx_bytes(bus@, ptr, (i + 1) as nat));
                    proof {
                        lemma_emit_append(base, prev, seq![b]);
                    }
                },
                Err(_) => {
                    assert(prev =~= tx_bytes(bus@, ptr, (i + 1) as nat));
                },
            }
            i = i + 1;
        }
        self.regs.dma_tx_amount = len;
        self.set_event(OFF_EVENTS_TXDRDY);
        self.set_event(OFF_EVENTS_DMA_TX_END);
        self.set_event(OFF_EVENTS_DMA_TX_READY);
        self.set_event(OFF_EVENTS_TXSTOPPED);
    }

    /// One step of EasyDMA work: an armed RX drains when the queue holds
    /// bytes, then an armed TX runs.
    fn service(&mut self, bus: &mut RamBus)
        ensures
            old(self)@.service_outcome(old(bus)@, final(self)@, final(bus)@),
    {
        if self.rx_pending && self.rx_queued() > 0 {
            self.do_dma_rx(bus);
            let ghost mid = self@;
            self.tx_service(bus);
            assert(old(self)@.rx_drain_outcome(old(bus)@, mid, bus@));
        } else {
            self.tx_service(bus);
        }
    }

    /// Whether the bus-aware tick has a transfer to run (walk mode only).
    pub fn needs_bus_tick(&self) -> (r: bool)
        ensures
            exists|q: bool| r == #[trigger] self@.bus_work(q),
            !self@.scheduler() && self@.tx_pending ==> r,
            !self@.tx_pending && !self@.rx_pending ==> !r,
    {
        if self.scheduler_mode() {
            assert(!self@.bus_work(false));
            return false;
        }
        let r = self.has_transfer_work();
        proof {
            let q = choose|q: bool| r == #[trigger] self@.transfer_work(q);
            assert(r == self@.bus_work(q));
        }
        r
    }

    /// The bus-aware tick: runs the transfer step in walk mode; inert with the
    /// scheduler, which moves the bytes through `on_event` instead.
    pub fn tick_with_bus(&mut self, bus: &mut RamBus)
        ensures
            old(self)@.scheduler() ==> final(self)@ == old(self)@ && final(bus)@ == old(bus)@,
            !old(self)@.scheduler() ==> old(self)@.service_outcome(
                old(bus)@,
                final(self)@,
                final(bus)@,
            ),
    {
        if self.scheduler_mode() {
            return ;
        }
        self.service(bus);
    }

    /// The transfer check for the forced walk, whatever the mode.
    pub fn needs_bus_tick_forced(&self) -> (r: bool)
        ensures
            exists|q: bool| r == #[trigger] self@.transfer_work(q),
            self@.tx_pending ==> r,
            !self@.tx_pending && !self@.rx_pending ==> !r,
    {
        self.has_transfer_work()
    }

    /// The transfer step for the forced walk, whatever the mode.
    pub fn tick_with_bus_forced(&mut self, bus: &mut RamBus)
        ensures
            old(self)@.service_outcome(old(bus)@, final(self)@, final(bus)@),
    {
        self.service(bus);
    }

    /// The walk tick: reports the interrupt's rising edge; inert with the
    /// scheduler.
    pub fn tick(&mut self) -> (r: PeripheralTickResult)
        ensures
            old(self)@.scheduler() ==> final(self)@ == old(self)@ && r.is_quiet(),
            !old(self)@.scheduler() ==> (final(self)@, r.irq) == old(self)@.observe_level()
                && r.cycles == 0 && r.explicit_irqs is None,
    {
        if self.scheduler_mode() {
            return PeripheralTickResult::quiet();
        }
        let irq = self.irq_edge();
        PeripheralTickResult { irq, cycles: 0, explicit_irqs: None }
    }

    /// The forced walk's tick: the edge observation, whatever the mode.
    pub fn tick_elapsed_forced(&mut self, cycles: u64) -> (r: PeripheralTickResult)
        ensures
            (final(self)@, r.irq) == old(self)@.observe_level(),
            r.cycles == 0,
            r.explicit_irqs is None,
    {
        let irq = self.irq_edge();
        PeripheralTickResult { irq, cycles: 0, explicit_irqs: None }
    }

    /// Attach the bus's cycle clock.
    pub fn attach_cycle_clock(&mut self, clock: CycleClock)
        ensures
            final(self)@ == (UarteView { clocked: true, ..old(self)@ }),
    {
        self.clock = Some(clock);
    }

    /// Driven by the wake event: a clock is attached and the walk is not
    /// forced.
    pub fn uses_scheduler(&self) -> (r: bool)
        ensures
            r == self@.scheduler(),
    {
        self.scheduler_mode()
    }

    /// The per-cycle walk is needed only without the scheduler.
    pub fn needs_legacy_walk(&self) -> (r: bool)
        ensures
            r == !self@.scheduler(),
    {
        !self.scheduler_mode()
    }

    /// Hand the scheduler one wake when there is work and none is in flight.
    pub fn take_scheduled_events(&mut self) -> (r: Vec<(u64, u32)>)
        ensures
            old(self)@.active_work() && !old(self)@.scheduled ==> r@ == seq![(0u64, UARTE_WAKE_TOKEN)]
                && final(self)@ == (UarteView { scheduled: true, ..old(self)@ }),
            !(old(self)@.active_work() && !old(self)@.scheduled) ==> r@.len() == 0 && final(self)@
                == old(self)@,
    {
        if self.has_active_work() && !self.scheduled {
            self.scheduled = true;
            let mut v: Vec<(u64, u32)> = Vec::new();
            v.push((0, UARTE_WAKE_TOKEN));
            v
        } else {
            Vec::new()
        }
    }

    /// The wake event: one transfer step, the edge observation, and a
    /// re-arm at the bus tick interval (at least one cycle) while work
    /// remains.
    pub fn on_event(&mut self, event_token: u32, sched: &mut EventScheduler, bus: &mut RamBus) -> (r:
        EventResult)
        ensures
            exists|mid: UarteView|
                #[trigger] old(self)@.service_outcome(old(bus)@, mid, final(bus)@) && final(self)@
                    == (UarteView {
                    scheduled: mid.observe_level().0.active_work(),
                    ..mid.observe_level().0
                }) && r.raise_own_irq == mid.observe_level().1 && r.reschedule_delay == (if mid.observe_level().0.active_work() {
                    Some(if old(bus)@.interval == 0 {
                        1u64
                    } else {
                        old(bus)@.interval as u64
                    })
                } else {
                    None
                }),
    {
        let interval = bus.peripheral_tick_interval();
        self.service(bus);
        let ghost mid = self@;
        let irq = self.irq_edge();
        let keep_going = self.has_active_work();
        self.scheduled = keep_going;
        let delay: u64 = if interval == 0 {
            1
        } else {
            interval as u64
        };
        EventResult {
            raise_own_irq: irq,
            reschedule_delay: if keep_going {
                Some(delay)
            } else {
                None
            },
        }
    }

    /// The walk tick has something to do: walk mode and a moved level.
    pub fn legacy_tick_active(&self) -> (r: bool)
        ensures
            r == (!self@.scheduler() && self@.level() != self@.irq_level),
    {
        !self.scheduler_mode() && (self.pending_mask() & self.regs.inten != 0) != self.irq_level
    }

    /// Whether the walk tick may be skipped depends on `legacy_tick_active`.
    pub fn legacy_tick_dynamic(&self) -> (r: bool)
        ensures
            r,
    {
        true
    }
}

} // verus!
