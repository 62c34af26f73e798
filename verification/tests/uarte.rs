//! The nRF54L UARTE: register surface, EasyDMA TX and RX, the level-derived
//! interrupt edge, and the scheduler-driven wake.

use labwired_core::bus::RamBus;
use labwired_core::cycle_clock::CycleClock;
use labwired_core::uarte::{
    event_index, Nrf54lUarte, OFF_ADDRESS, OFF_BAUDRATE, OFF_CONFIG, OFF_DMA_RX_AMOUNT,
    OFF_DMA_RX_MAXCNT, OFF_DMA_RX_PTR, OFF_DMA_TX_AMOUNT, OFF_DMA_TX_MAXCNT, OFF_DMA_TX_PTR,
    OFF_ENABLE, OFF_ERRORSRC, OFF_EVENTS_CTS, OFF_EVENTS_DMA_RX_END, OFF_EVENTS_DMA_TX_END,
    OFF_EVENTS_DMA_TX_READY, OFF_EVENTS_ERROR, OFF_EVENTS_FRAMETIMEOUT, OFF_EVENTS_NCTS,
    OFF_EVENTS_RXDRDY, OFF_EVENTS_RXTO, OFF_EVENTS_TXDRDY, OFF_EVENTS_TXSTOPPED,
    OFF_FRAMETIMEOUT, OFF_INTEN, OFF_INTENCLR, OFF_INTENSET, OFF_PSEL_CTS, OFF_PSEL_RTS,
    OFF_PSEL_RXD, OFF_PSEL_TXD, OFF_SHORTS, OFF_TASKS_DMA_RX_START, OFF_TASKS_DMA_RX_STOP,
    OFF_TASKS_DMA_TX_START, OFF_TASKS_DMA_TX_STOP, OFF_TASKS_FLUSHRX, UARTE_WAKE_TOKEN,
};
use labwired_core::EventScheduler;

/// A UARTE with a capture sink (no console echo) plus a RAM bus holding
/// `bytes` at `addr`.
fn fixture(
    addr: u64,
    bytes: &[u8],
) -> (
    Nrf54lUarte,
    RamBus,
    std::sync::Arc<std::sync::Mutex<Vec<u8>>>,
) {
    let mut bus = RamBus::new(0x2000_0000, 256);
    for (i, b) in bytes.iter().enumerate() {
        bus.write_u8(addr + i as u64, *b).unwrap();
    }
    let mut u = Nrf54lUarte::new();
    let sink = std::sync::Arc::new(std::sync::Mutex::new(Vec::new()));
    u.set_sink(Some(sink.clone()), false);
    u.write_u32(OFF_ENABLE, 8).unwrap();
    (u, bus, sink)
}

fn armed(
    addr: u64,
    bytes: &[u8],
) -> (
    Nrf54lUarte,
    RamBus,
    std::sync::Arc<std::sync::Mutex<Vec<u8>>>,
) {
    let (mut u, bus, sink) = fixture(addr, bytes);
    u.attach_cycle_clock(CycleClock::default());
    (u, bus, sink)
}

#[test]
fn dma_rx_writes_queued_bytes_to_ram() {
    let (mut u, mut bus, _sink) = fixture(0x2000_0010, b"");
    u.rx_buffer()
        .lock()
        .unwrap()
        .extend([0xDE, 0xAD, 0xBE, 0xEF]);

    u.write_u32(OFF_DMA_RX_PTR, 0x2000_0020).unwrap();
    u.write_u32(OFF_DMA_RX_MAXCNT, 3).unwrap(); // MAXCNT < queued: drains 3
    u.write_u32(OFF_TASKS_DMA_RX_START, 1).unwrap();
    assert!(u.needs_bus_tick(), "RX.START with queued bytes arms RX DMA");

    u.tick_with_bus(&mut bus);

    assert_eq!(bus.read_u8(0x2000_0020).unwrap(), 0xDE);
    assert_eq!(bus.read_u8(0x2000_0021).unwrap(), 0xAD);
    assert_eq!(bus.read_u8(0x2000_0022).unwrap(), 0xBE);
    assert_eq!(u.read_u32(OFF_DMA_RX_AMOUNT).unwrap(), 3);
    assert_eq!(u.read_u32(OFF_EVENTS_DMA_RX_END).unwrap(), 1);
    assert_eq!(u.rx_queued(), 1, "one byte beyond MAXCNT stays queued");
    assert!(!u.rx_pending, "drain consumes pending");
}

#[test]
fn dma_rx_empty_queue_stays_armed_without_bus_work() {
    let (mut u, _bus, _sink) = fixture(0x2000_0010, b"");
    u.write_u32(OFF_TASKS_DMA_RX_START, 1).unwrap();
    // Bare-bus path: no work until bytes exist (no busy-spin).
    assert!(!u.needs_bus_tick());
    // RXDRDY reads 0 while the queue is empty, 1 once a byte lands.
    assert_eq!(u.read_u32(OFF_EVENTS_RXDRDY).unwrap(), 0);
    u.rx_buffer().lock().unwrap().push_back(0x42);
    assert!(u.needs_bus_tick());
    assert_eq!(u.read_u32(OFF_EVENTS_RXDRDY).unwrap(), 1);
}

#[test]
fn easydma_tx_emits_buffer_and_raises_completion_events() {
    let (mut u, mut bus, sink) = fixture(0x2000_0010, b"Hi");

    u.write_u32(OFF_DMA_TX_PTR, 0x2000_0010).unwrap();
    u.write_u32(OFF_DMA_TX_MAXCNT, 2).unwrap();
    assert!(!u.needs_bus_tick(), "no DMA armed before TX.START");

    u.write_u32(OFF_TASKS_DMA_TX_START, 1).unwrap();
    assert!(u.needs_bus_tick(), "TX.START (0x050) arms the EasyDMA");
    u.tick_with_bus(&mut bus);

    assert_eq!(&*sink.lock().unwrap(), b"Hi", "buffer DMAed out of RAM");
    assert_eq!(u.read_u32(OFF_DMA_TX_AMOUNT).unwrap(), 2);
    assert_eq!(u.read_u32(OFF_EVENTS_DMA_TX_END).unwrap(), 1);
    assert_eq!(u.read_u32(OFF_EVENTS_DMA_TX_READY).unwrap(), 1);
    assert_eq!(u.read_u32(OFF_EVENTS_TXSTOPPED).unwrap(), 1);
    assert!(!u.needs_bus_tick(), "transfer consumes the pending flag");
}

/// Regression: Zephyr's `uarte_tx_path_init()` arms MAXCNT = 0 and then
/// spins on EVENTS_TXSTOPPED. If a zero-length transfer does not complete,
/// unmodified `hello_world` never prints its banner.
#[test]
fn zero_length_tx_still_completes_and_raises_txstopped() {
    let (mut u, mut bus, sink) = fixture(0x2000_0010, b"");

    u.write_u32(OFF_DMA_TX_PTR, 0x2000_0010).unwrap();
    u.write_u32(OFF_DMA_TX_MAXCNT, 0).unwrap();
    u.write_u32(OFF_TASKS_DMA_TX_START, 1).unwrap();
    u.tick_with_bus(&mut bus);

    assert!(sink.lock().unwrap().is_empty(), "no bytes for a 0-byte DMA");
    assert_eq!(u.read_u32(OFF_DMA_TX_AMOUNT).unwrap(), 0);
    assert_eq!(
        u.read_u32(OFF_EVENTS_DMA_TX_END).unwrap(),
        1,
        "DMA.TX.END must fire for a zero-length transfer"
    );
    assert_eq!(
        u.read_u32(OFF_EVENTS_TXSTOPPED).unwrap(),
        1,
        "TXSTOPPED must fire or uarte_tx_path_init() spins forever"
    );
}

#[test]
fn tasks_dma_tx_stop_raises_txstopped() {
    let mut u = Nrf54lUarte::new();
    assert_eq!(u.read_u32(OFF_EVENTS_TXSTOPPED).unwrap(), 0);
    u.write_u32(OFF_TASKS_DMA_TX_STOP, 1).unwrap();
    assert_eq!(u.read_u32(OFF_EVENTS_TXSTOPPED).unwrap(), 1);
}

#[test]
fn events_write_1_ignored_write_0_clears() {
    let mut u = Nrf54lUarte::new();
    // SW cannot set an event.
    u.write_u32(OFF_EVENTS_TXDRDY, 1).unwrap();
    assert_eq!(u.read_u32(OFF_EVENTS_TXDRDY).unwrap(), 0);
    // Hardware sets it; SW clears with a write of 0.
    u.set_event(OFF_EVENTS_TXDRDY);
    assert_eq!(u.read_u32(OFF_EVENTS_TXDRDY).unwrap(), 1);
    u.write_u32(OFF_EVENTS_TXDRDY, 0).unwrap();
    assert_eq!(u.read_u32(OFF_EVENTS_TXDRDY).unwrap(), 0);
}

/// The event window is one contiguous block whose index is the INTEN bit;
/// pin the offsets the SVD gives so a future edit cannot silently shift
/// them back onto the nRF52 numbering.
#[test]
fn event_offsets_map_to_their_inten_bits() {
    for (off, bit) in [
        (OFF_EVENTS_CTS, 0),
        (OFF_EVENTS_NCTS, 1),
        (OFF_EVENTS_TXDRDY, 3),
        (OFF_EVENTS_RXDRDY, 4),
        (OFF_EVENTS_ERROR, 5),
        (OFF_EVENTS_RXTO, 9),
        (OFF_EVENTS_TXSTOPPED, 12),
        (OFF_EVENTS_DMA_RX_END, 19),
        (OFF_EVENTS_DMA_TX_END, 26),
        (OFF_EVENTS_DMA_TX_READY, 27),
        (OFF_EVENTS_FRAMETIMEOUT, 29),
    ] {
        assert_eq!(event_index(off), Some(bit), "offset {off:#x}");
    }
}

#[test]
fn irq_raised_only_when_event_is_enabled() {
    let mut u = Nrf54lUarte::new();
    // Disabled: TXSTOPPED pends but the line stays low.
    u.write_u32(OFF_TASKS_DMA_TX_STOP, 1).unwrap();
    assert!(!u.tick().irq, "masked event must not raise the IRQ");

    // Enable TXSTOPPED (bit 12) via INTENSET → IRQ on the 0→1 edge, once.
    u.write_u32(OFF_INTENSET, 1 << 12).unwrap();
    assert_eq!(u.read_u32(OFF_INTEN).unwrap(), 1 << 12);
    assert!(u.tick().irq, "enabled pending event raises the IRQ");
    assert!(!u.tick().irq, "level stays high — no repeated pend");

    // Clearing the event drops the line; INTENCLR then masks it again.
    u.write_u32(OFF_EVENTS_TXSTOPPED, 0).unwrap();
    assert!(!u.tick().irq);
    u.write_u32(OFF_INTENCLR, 1 << 12).unwrap();
    assert_eq!(u.read_u32(OFF_INTEN).unwrap(), 0);
    u.write_u32(OFF_TASKS_DMA_TX_STOP, 1).unwrap();
    assert!(!u.tick().irq, "INTENCLR masks the event again");
}

#[test]
fn config_registers_roundtrip() {
    let mut u = Nrf54lUarte::new();
    for (off, val) in [
        (OFF_PSEL_TXD, 0x0000_0106),
        (OFF_PSEL_RXD, 0x0000_0104),
        (OFF_PSEL_CTS, 0x8000_0000),
        (OFF_PSEL_RTS, 0x0000_0105),
        (OFF_BAUDRATE, 0x0EBE_DFA4),
        (OFF_CONFIG, 0x0000_000E),
        (OFF_SHORTS, 0x0000_0020),
        (OFF_ADDRESS, 0x0000_00AA),
        (OFF_FRAMETIMEOUT, 0x0000_1234),
        (OFF_DMA_TX_PTR, 0x2000_1234),
        (OFF_DMA_RX_PTR, 0x2000_5678),
    ] {
        u.write_u32(off, val).unwrap();
        assert_eq!(u.read_u32(off).unwrap(), val, "offset {off:#x}");
    }
    // MAXCNT registers are 16-bit on this family.
    u.write_u32(OFF_DMA_TX_MAXCNT, 0x1234).unwrap();
    assert_eq!(u.read_u32(OFF_DMA_TX_MAXCNT).unwrap(), 0x1234);
    u.write_u32(OFF_DMA_RX_MAXCNT, 0x0042).unwrap();
    assert_eq!(u.read_u32(OFF_DMA_RX_MAXCNT).unwrap(), 0x0042);
}

#[test]
fn psel_defaults_to_disconnected_and_baudrate_to_115200() {
    let u = Nrf54lUarte::new();
    assert_eq!(u.read_u32(OFF_PSEL_TXD).unwrap(), 0xFFFF_FFFF);
    assert_eq!(u.read_u32(OFF_PSEL_RXD).unwrap(), 0xFFFF_FFFF);
    assert_eq!(u.read_u32(OFF_BAUDRATE).unwrap(), 0x01D7_E000);
}

#[test]
fn unimplemented_offsets_read_zero_and_do_not_panic() {
    let mut u = Nrf54lUarte::new();
    // Reserved word, a DPPI SUBSCRIBE slot, a PUBLISH slot, and the very
    // top of the 4 KB window.
    for off in [0x008u64, 0x09C, 0x180, 0x1F4, 0xFFC, 0x400] {
        assert_eq!(u.read_u32(off).unwrap(), 0, "offset {off:#x} reads 0");
    }
    // DPPI windows accept writes and read back (no routing behaviour).
    u.write_u32(0x09C, 0x8000_0003).unwrap();
    assert_eq!(u.read_u32(0x09C).unwrap(), 0x8000_0003);
    u.write_u32(0x1F4, 0x8000_0005).unwrap();
    assert_eq!(u.read_u32(0x1F4).unwrap(), 0x8000_0005);
}

#[test]
fn rx_tasks_are_accepted_and_leave_rx_events_clear() {
    let mut u = Nrf54lUarte::new();
    u.write_u32(OFF_DMA_RX_PTR, 0x2000_0000).unwrap();
    u.write_u32(OFF_DMA_RX_MAXCNT, 16).unwrap();
    u.write_u32(OFF_TASKS_DMA_RX_START, 1).unwrap();
    u.write_u32(OFF_TASKS_DMA_RX_STOP, 1).unwrap();
    u.write_u32(OFF_TASKS_FLUSHRX, 1).unwrap();
    assert_eq!(u.read_u32(OFF_EVENTS_DMA_RX_END).unwrap(), 0);
    assert_eq!(u.read_u32(OFF_EVENTS_RXDRDY).unwrap(), 0);
    assert!(!u.needs_bus_tick(), "RX tasks must not arm the TX EasyDMA");
}

#[test]
fn errorsrc_is_write_1_clear() {
    let mut u = Nrf54lUarte::new();
    u.errorsrc = 0b1111;
    u.write_u32(OFF_ERRORSRC, 0b0101).unwrap();
    assert_eq!(u.read_u32(OFF_ERRORSRC).unwrap(), 0b1010);
}

#[test]
fn uarte_attaching_a_clock_leaves_the_walk() {
    let (u, _bus, _sink) = armed(0x2000_0010, b"hi");
    assert!(u.uses_scheduler());
    assert!(
        !u.needs_legacy_walk(),
        "and the per-cycle walk is deletable — `derive_walk_deletable` is \
         an ALL, so one holdout pins the whole board to \
         max_safe_tick_interval() == 1"
    );
}

#[test]
fn uarte_no_clock_stays_on_the_legacy_walk() {
    let (u, _bus, _sink) = fixture(0x2000_0010, b"hi");
    assert!(!u.uses_scheduler());
    assert!(
        u.needs_legacy_walk(),
        "a hand-built bus never wired the scheduler, so a UARTE that \
         stopped ticking would never complete a transfer at all"
    );
}

/// The double-transfer guard. In scheduler mode the walk must not ALSO
/// move the bytes, or every console byte appears twice.
#[test]
fn the_walk_hook_is_inert_in_scheduler_mode() {
    let (mut u, mut bus, sink) = armed(0x2000_0010, b"AB");
    u.write_u32(OFF_DMA_TX_PTR, 0x2000_0010).unwrap();
    u.write_u32(OFF_DMA_TX_MAXCNT, 2).unwrap();
    u.write_u32(OFF_TASKS_DMA_TX_START, 1).unwrap();

    assert!(
        !u.needs_bus_tick(),
        "the bus-tick pass must not select a scheduler-driven UARTE"
    );
    u.tick_with_bus(&mut bus);
    assert!(
        sink.lock().unwrap().is_empty(),
        "the walk moved bytes the scheduler is also going to move"
    );
    assert!(u.tx_pending, "and the transfer is still armed for on_event");
}

/// ...but the bare-CPU oracle, which freezes the CPU and settles
/// peripherals through their historical path, must still see the transfer.
/// Without the `_forced` twins it would see nothing at all.
#[test]
fn the_forced_walk_still_reaches_the_transfer() {
    let (mut u, mut bus, sink) = armed(0x2000_0010, b"AB");
    u.write_u32(OFF_DMA_TX_PTR, 0x2000_0010).unwrap();
    u.write_u32(OFF_DMA_TX_MAXCNT, 2).unwrap();
    u.write_u32(OFF_TASKS_DMA_TX_START, 1).unwrap();

    assert!(u.needs_bus_tick_forced());
    u.tick_with_bus_forced(&mut bus);
    assert_eq!(&*sink.lock().unwrap(), b"AB");
}

#[test]
fn a_tx_start_arms_exactly_one_wake() {
    let (mut u, _bus, _sink) = armed(0x2000_0010, b"AB");
    u.write_u32(OFF_TASKS_DMA_TX_START, 1).unwrap();

    assert_eq!(u.take_scheduled_events(), vec![(0, UARTE_WAKE_TOKEN)]);
    assert!(
        u.take_scheduled_events().is_empty(),
        "a second MMIO write before the wake fires must not stack a \
         duplicate transfer"
    );
}

/// The end-to-end scheduler transfer: same bytes, same order, same
/// completion events, plus the own-IRQ the legacy `tick()` used to raise.
#[test]
fn on_event_transfers_and_raises_the_own_irq() {
    let (mut u, mut bus, sink) = armed(0x2000_0010, b"Hi!");
    u.write_u32(OFF_INTEN, 1 << event_index(OFF_EVENTS_DMA_TX_END).unwrap())
        .unwrap();
    u.write_u32(OFF_DMA_TX_PTR, 0x2000_0010).unwrap();
    u.write_u32(OFF_DMA_TX_MAXCNT, 3).unwrap();
    u.write_u32(OFF_TASKS_DMA_TX_START, 1).unwrap();
    let token = u.take_scheduled_events()[0].1;

    let mut sched = EventScheduler::new();
    let r = u.on_event(token, &mut sched, &mut bus);

    assert_eq!(&*sink.lock().unwrap(), b"Hi!");
    assert_eq!(u.read_u32(OFF_EVENTS_DMA_TX_END).unwrap(), 1);
    assert_eq!(u.read_u32(OFF_DMA_TX_AMOUNT).unwrap(), 3);
    assert!(
        r.raise_own_irq,
        "INTEN-enabled event → 0→1 edge → NVIC pend"
    );
    assert_eq!(
        r.reschedule_delay, None,
        "nothing left to do: the transfer is done and the level is latched"
    );
    assert!(!u.scheduled);
}

/// The falling edge. Firmware clearing EVENTS_* drops the level, and the
/// model must observe that — otherwise `irq_level` stays true and the NEXT
/// transfer's 0→1 edge is swallowed, hanging the driver.
#[test]
fn clearing_the_event_rearms_the_edge_detector() {
    let (mut u, mut bus, _sink) = armed(0x2000_0010, b"A");
    u.write_u32(OFF_INTEN, 1 << event_index(OFF_EVENTS_DMA_TX_END).unwrap())
        .unwrap();
    u.write_u32(OFF_DMA_TX_PTR, 0x2000_0010).unwrap();
    u.write_u32(OFF_DMA_TX_MAXCNT, 1).unwrap();
    u.write_u32(OFF_TASKS_DMA_TX_START, 1).unwrap();
    let token = u.take_scheduled_events()[0].1;
    let mut sched = EventScheduler::new();
    assert!(u.on_event(token, &mut sched, &mut bus).raise_own_irq);
    assert!(u.irq_level);

    // ISR clears the completion events (write-0 clears on this family).
    for off in [
        OFF_EVENTS_TXDRDY,
        OFF_EVENTS_DMA_TX_END,
        OFF_EVENTS_DMA_TX_READY,
        OFF_EVENTS_TXSTOPPED,
    ] {
        u.write_u32(off, 0).unwrap();
    }
    assert_eq!(
        u.take_scheduled_events(),
        vec![(0, UARTE_WAKE_TOKEN)],
        "the level fell, so the walk's job (observe it) needs a wake"
    );
    let r = u.on_event(token, &mut sched, &mut bus);
    assert!(!r.raise_own_irq);
    assert!(!u.irq_level, "edge detector re-armed for the next transfer");
    assert_eq!(r.reschedule_delay, None);
}

/// An armed RX with an empty queue is the one case that MUST keep waking:
/// bytes arrive from the host on another thread, and nothing on the bus
/// fires when one lands. The per-cycle walk polled for free; the scheduler
/// has to ask.
#[test]
fn an_armed_rx_keeps_polling_until_a_byte_lands() {
    let (mut u, mut bus, _sink) = armed(0x2000_0010, b"");
    u.write_u32(OFF_DMA_RX_PTR, 0x2000_0020).unwrap();
    u.write_u32(OFF_DMA_RX_MAXCNT, 4).unwrap();
    u.write_u32(OFF_TASKS_DMA_RX_START, 1).unwrap();
    assert_eq!(u.take_scheduled_events(), vec![(0, UARTE_WAKE_TOKEN)]);

    let mut sched = EventScheduler::new();
    let r = u.on_event(UARTE_WAKE_TOKEN, &mut sched, &mut bus);
    assert!(
        r.reschedule_delay.is_some(),
        "an empty queue must re-arm the poll, not give up — giving up \
         strands every RX-driven driver on this family"
    );

    // Host types.
    u.rx_buffer().lock().unwrap().extend(*b"hey");
    u.on_event(UARTE_WAKE_TOKEN, &mut sched, &mut bus);
    assert_eq!(bus.read_u8(0x2000_0020).unwrap(), b'h');
    assert_eq!(bus.read_u8(0x2000_0022).unwrap(), b'y');
    assert_eq!(u.read_u32(OFF_DMA_RX_AMOUNT).unwrap(), 3);
    assert!(!u.rx_pending, "the drain consumed the arm");
}

/// The poll must not be the thing that re-imposes the clamp it lifted.
/// A delay of 1 would hold the next-event deadline one cycle ahead of the
/// CPU forever, pinning `plan_cpu_window` back to a one-instruction
/// quantum — a walk deletion that bought nothing.
#[test]
fn the_idle_rx_poll_is_paced_at_the_tick_interval() {
    let (mut u, mut bus, _sink) = armed(0x2000_0010, b"");
    bus.config.peripheral_tick_interval = 64;
    u.write_u32(OFF_TASKS_DMA_RX_START, 1).unwrap();
    let mut sched = EventScheduler::new();

    let r = u.on_event(UARTE_WAKE_TOKEN, &mut sched, &mut bus);
    assert_eq!(r.reschedule_delay, Some(64));
}
