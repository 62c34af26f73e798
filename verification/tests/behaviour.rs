//! Concrete instances of the properties the models are proved to keep.

use labwired_core::bus::RamBus;
use labwired_core::clock::{Nrf54lClock, OFF_EVENTS_DONE, OFF_INTPEND};
use labwired_core::gdma::{Esp32c6Gdma, IN_LINK_START_BIT, MEM_TRANS_EN_BIT, OUT_LINK_START_BIT};
use labwired_core::lp_timer::{
    Esp32c6LpTimer, LP_TIMER_SIZE, MAIN_BUF0_HIGH, MAIN_BUF0_LOW, MAIN_BUF1_LOW,
    MAIN_TIMER_UPDATE_BIT, UPDATE,
};
use labwired_core::pcr::{str_eq_ignore_ascii_case, Esp32c6Pcr};
use labwired_core::scs_debug::{dhcsr_controls_for, dhcsr_value, ScsDebug, DebugHaltState};
use labwired_core::timg::{
    RtcCalProfile, Timg, RTCCALICFG, RTCCALICFG1, RTC_CALI_START_BIT, T0_CONFIG, T0_HI, T0_LO,
    T0_UPDATE, T_CONFIG_EN_BIT, WDT_CONFIG2, WDT_WPROTECT_C3,
};
use labwired_core::uarte::{
    Nrf54lUarte, OFF_DMA_RX_AMOUNT, OFF_DMA_RX_MAXCNT, OFF_DMA_RX_PTR, OFF_DMA_TX_MAXCNT,
    OFF_DMA_TX_PTR, OFF_EVENTS_DMA_RX_END, OFF_EVENTS_RXDRDY, OFF_EVENTS_TXSTOPPED, OFF_INTEN,
    OFF_TASKS_DMA_RX_START, OFF_TASKS_DMA_TX_START, OFF_TASKS_DMA_TX_STOP,
};
use labwired_core::uicr::{Nrf52Uicr, OFF_CUSTOMER_FIRST};

fn timg_write(t: &mut Timg, off: u64, val: u32) {
    for i in 0..4 {
        t.write(off + i, ((val >> (i * 8)) & 0xFF) as u8).unwrap();
    }
}

fn timg_read(t: &Timg, off: u64) -> u32 {
    let mut v = 0u32;
    for i in 0..4 {
        v |= (t.read(off + i).unwrap() as u32) << (i * 8);
    }
    v
}

#[test]
fn timg_split_syncs_count_like_one_sync() {
    let mut a = Timg::new(0x6001_F000);
    let mut b = Timg::new(0x6001_F000);
    timg_write(&mut a, T0_CONFIG, T_CONFIG_EN_BIT);
    timg_write(&mut b, T0_CONFIG, T_CONFIG_EN_BIT);
    a.sync_to(30);
    a.sync_to(30);
    a.sync_to(77);
    b.sync_to(77);
    assert_eq!(a.counter_t0(), b.counter_t0());
    assert_eq!(a.counter_t0(), 77);
}

#[test]
fn timg_counter_wraps_at_64_bits_through_preload() {
    let mut t = Timg::new(0x3FF5_F000);
    timg_write(&mut t, 0x18, 0xFFFF_FFFF);
    timg_write(&mut t, 0x1C, 0xFFFF_FFFF);
    timg_write(&mut t, 0x20, 1);
    timg_write(&mut t, T0_CONFIG, T_CONFIG_EN_BIT);
    t.tick();
    t.tick();
    timg_write(&mut t, T0_UPDATE, 1);
    assert_eq!(timg_read(&t, T0_LO), 1);
    assert_eq!(timg_read(&t, T0_HI), 0);
}

#[test]
fn timg_locked_hold_write_is_dropped_byte_by_byte() {
    let mut t = Timg::new(0x6000_8000).with_mwdt();
    timg_write(&mut t, WDT_CONFIG2, 10);
    timg_write(&mut t, WDT_WPROTECT_C3, 1);
    t.write(WDT_CONFIG2, 0x55).unwrap();
    assert_eq!(timg_read(&t, WDT_CONFIG2), 10);
}

#[test]
fn timg_calibration_rounds_to_the_nearest_count() {
    // 40 MHz against 150 kHz over 1000 slow cycles: 266_666.67 rounds up.
    let mut t = Timg::new(0x6001_F000).with_rtc_cal(RtcCalProfile {
        xtal_hz: 40_000_000,
        slow_hz: 150_000,
    });
    timg_write(&mut t, RTCCALICFG, RTC_CALI_START_BIT | (1000 << 16));
    assert_eq!(timg_read(&t, RTCCALICFG1) >> 7, 266_667);
    // A zero MAX counts one slow cycle: 266.67 rounds up to 267.
    timg_write(&mut t, RTCCALICFG, RTC_CALI_START_BIT);
    assert_eq!(timg_read(&t, RTCCALICFG1) >> 7, 267);
}

#[test]
fn lp_timer_split_syncs_compose() {
    let mut a = Esp32c6LpTimer::new();
    let mut b = Esp32c6LpTimer::new();
    a.sync_to(10);
    a.sync_to(5);
    a.sync_to(10);
    a.sync_to(25);
    b.sync_to(25);
    assert_eq!(a.counter(), b.counter());
    assert_eq!(a.counter(), 25);
}

#[test]
fn lp_timer_strobe_by_byte_write_latches() {
    let mut t = Esp32c6LpTimer::new();
    t.tick_elapsed(0x1_0000_0005);
    // Byte 3 of UPDATE carries bit 28.
    t.write(UPDATE + 3, 0x10).unwrap();
    assert_eq!(t.read_u32(MAIN_BUF0_LOW).unwrap(), 5);
    assert_eq!(t.read_u32(MAIN_BUF0_HIGH).unwrap(), 1);
    assert_eq!(t.read(MAIN_BUF0_HIGH).unwrap(), 1);
    assert_eq!(t.read_u32(UPDATE).unwrap() & MAIN_TIMER_UPDATE_BIT, 0);
    t.write_u32(UPDATE, MAIN_TIMER_UPDATE_BIT).unwrap();
    assert_eq!(t.read_u32(MAIN_BUF1_LOW).unwrap(), 5);
}

#[test]
fn lp_timer_window_edges() {
    let mut t = Esp32c6LpTimer::new();
    t.write_u32(LP_TIMER_SIZE, 0x1234).unwrap();
    assert_eq!(t.read_u32(LP_TIMER_SIZE).unwrap(), 0);
    t.write_u32(LP_TIMER_SIZE - 4, 0x1234).unwrap();
    assert_eq!(t.read_u32(LP_TIMER_SIZE - 4).unwrap(), 0x1234);
}

#[test]
fn lp_timer_walk_is_inert_with_a_clock() {
    let clock = labwired_core::cycle_clock::CycleClock::default();
    let mut t = Esp32c6LpTimer::new();
    t.attach_cycle_clock(clock.clone());
    t.tick_elapsed(1_000);
    assert_eq!(t.counter(), 0);
    t.force_legacy_walk();
    assert!(!t.uses_scheduler());
    t.tick_elapsed(1_000);
    assert_eq!(t.counter(), 1_000);
}

#[test]
fn gdma_m2m_copy_lands_in_the_destination() {
    let base = 0x4080_0000u64;
    let mut bus = RamBus::new(base, 0x1_0000);
    let mut g = Esp32c6Gdma::new(66);
    let (src, dst, tx, rx) = (base + 0x100, base + 0x800, base + 0x40, base + 0x80);
    for (i, b) in b"copy!".iter().enumerate() {
        bus.write_u8(src + i as u64, *b).unwrap();
    }
    bus.write_u32(tx, (1 << 31) | (5 << 12) | 5).unwrap();
    bus.write_u32(tx + 4, src as u32).unwrap();
    bus.write_u32(tx + 8, 0).unwrap();
    bus.write_u32(rx, (1 << 31) | 16).unwrap();
    bus.write_u32(rx + 4, dst as u32).unwrap();
    bus.write_u32(rx + 8, 0).unwrap();
    g.write_u32(0x70, MEM_TRANS_EN_BIT).unwrap();
    g.write_u32(0x70 + 0x30, 1).unwrap();
    g.write_u32(0xD4 + 0x2C, 1).unwrap();
    g.write_u32(0x70 + 0x10, ((rx as u32) & 0xF_FFFF) | IN_LINK_START_BIT).unwrap();
    assert!(!g.needs_bus_tick(), "one started link does not arm the walk");
    g.write_u32(0xD4 + 0x0C, ((tx as u32) & 0xF_FFFF) | OUT_LINK_START_BIT).unwrap();
    assert!(g.needs_bus_tick());
    g.tick_with_bus(&mut bus);
    let got: Vec<u8> = (0..5).map(|i| bus.read_u8(dst + i).unwrap()).collect();
    assert_eq!(got, b"copy!".to_vec());
    assert_eq!((bus.read_u32(rx).unwrap() >> 12) & 0xFFF, 5);
}

#[test]
fn gdma_byte_writes_merge_into_the_word() {
    let mut g = Esp32c6Gdma::new(66);
    g.write_u32(0x60, 0x1122_3344).unwrap();
    g.write(0x61, 0xAA).unwrap();
    assert_eq!(g.read_u32(0x60).unwrap(), 0x1122_AA44);
    assert_eq!(g.read(0x63).unwrap(), 0x11);
    assert_eq!(g.read_u32(0x3FC).unwrap(), 0);
}

#[test]
fn gdma_tick_reports_no_sources_when_quiet() {
    let mut g = Esp32c6Gdma::new(66);
    let r = g.tick();
    assert!(!r.irq);
    assert_eq!(r.explicit_irqs, None);
    g.write_u32(0x08, 1).unwrap();
    g.write_u32(0x70 + 0x10, IN_LINK_START_BIT).unwrap();
    assert_eq!(g.tick().explicit_irqs, Some(vec![66]));
}

fn uarte_with_ram() -> (Nrf54lUarte, RamBus) {
    let mut u = Nrf54lUarte::new();
    u.set_sink(None, true);
    (u, RamBus::new(0x2000_0000, 64))
}

#[test]
fn uarte_line_follows_only_enabled_events() {
    let mut u = Nrf54lUarte::new();
    u.write_u32(OFF_TASKS_DMA_TX_STOP, 1).unwrap();
    u.write_u32(OFF_INTEN, 1 << 3).unwrap();
    assert!(!u.tick().irq, "TXSTOPPED (bit 12) is not enabled");
    u.write_u32(OFF_INTEN, 1 << 12).unwrap();
    assert!(u.tick().irq);
}

#[test]
fn uarte_echo_carries_the_transmitted_bytes() {
    let (mut u, mut bus) = uarte_with_ram();
    for (i, b) in b"ok".iter().enumerate() {
        bus.write_u8(0x2000_0000 + i as u64, *b).unwrap();
    }
    u.write_u32(OFF_DMA_TX_PTR, 0x2000_0000).unwrap();
    u.write_u32(OFF_DMA_TX_MAXCNT, 2).unwrap();
    u.write_u32(OFF_TASKS_DMA_TX_START, 1).unwrap();
    u.tick_with_bus(&mut bus);
    assert_eq!(u.take_echo(), b"ok".to_vec());
    assert!(u.take_echo().is_empty());
    assert_eq!(u.read_u32(OFF_EVENTS_TXSTOPPED).unwrap(), 1);
}

#[test]
fn uarte_tx_outside_ram_emits_only_readable_bytes() {
    let (mut u, mut bus) = uarte_with_ram();
    bus.write_u8(0x2000_003F, b'z').unwrap();
    u.write_u32(OFF_DMA_TX_PTR, 0x2000_003F).unwrap();
    u.write_u32(OFF_DMA_TX_MAXCNT, 4).unwrap();
    u.write_u32(OFF_TASKS_DMA_TX_START, 1).unwrap();
    u.tick_with_bus(&mut bus);
    assert_eq!(u.take_echo(), b"z".to_vec());
}

#[test]
fn uarte_rx_into_a_bad_pointer_lands_nothing() {
    let (mut u, mut bus) = uarte_with_ram();
    u.rx_buffer().lock().unwrap().extend([1u8, 2, 3]);
    u.write_u32(OFF_DMA_RX_PTR, 0x1000_0000).unwrap();
    u.write_u32(OFF_DMA_RX_MAXCNT, 2).unwrap();
    u.write_u32(OFF_TASKS_DMA_RX_START, 1).unwrap();
    u.tick_with_bus(&mut bus);
    assert_eq!(u.read_u32(OFF_DMA_RX_AMOUNT).unwrap(), 0);
    assert_eq!(u.read_u32(OFF_EVENTS_DMA_RX_END).unwrap(), 1);
    assert_eq!(u.read_u32(OFF_EVENTS_RXDRDY).unwrap(), 0);
    assert!(!u.rx_pending);
}

#[test]
fn uarte_rx_amount_never_exceeds_maxcnt() {
    let (mut u, mut bus) = uarte_with_ram();
    u.rx_buffer().lock().unwrap().extend([9u8; 10]);
    u.write_u32(OFF_DMA_RX_PTR, 0x2000_0000).unwrap();
    u.write_u32(OFF_DMA_RX_MAXCNT, 4).unwrap();
    u.write_u32(OFF_TASKS_DMA_RX_START, 1).unwrap();
    u.tick_with_bus(&mut bus);
    assert_eq!(u.read_u32(OFF_DMA_RX_AMOUNT).unwrap(), 4);
    assert_eq!(u.rx_queued(), 6);
    assert_eq!(bus.read_u8(0x2000_0004).unwrap(), 0);
}

#[test]
fn dhcsr_words_and_keyed_controls() {
    assert_eq!(dhcsr_value(0), 0x0001_0000);
    assert_eq!(dhcsr_value(1), 0x0001_0001);
    assert_eq!(dhcsr_value(2), 0x0001_0002);
    assert_eq!(dhcsr_value(3), 0x0003_0003);
    assert_eq!(dhcsr_value(0xFFFF_FFFF), 0x0003_0003);
    assert_eq!(dhcsr_controls_for(0xA05F_0007), Some(3));
    assert_eq!(dhcsr_controls_for(0xA05E_0003), None);
    assert_eq!(dhcsr_controls_for(0x0000_0003), None);
}

#[test]
fn dhcsr_clear_and_read_u16() {
    let s = DebugHaltState::new();
    s.write_dhcsr(0xA05F_0003);
    let dev = ScsDebug::new(s.clone());
    assert_eq!(dev.read_u16(0).unwrap(), 0x0003);
    assert_eq!(dev.read_u16(2).unwrap(), 0x0003);
    s.clear();
    assert!(!s.halted());
    assert_eq!(dev.read_u32(0).unwrap(), 0x0001_0000);
}

#[test]
fn uicr_byte_program_clears_only_its_lane() {
    let mut u = Nrf52Uicr::new();
    u.write(OFF_CUSTOMER_FIRST + 2, 0x0F).unwrap();
    assert_eq!(u.read_u32(OFF_CUSTOMER_FIRST).unwrap(), 0xFF0F_FFFF);
    u.write_u32(OFF_CUSTOMER_FIRST, 0xFFFF_FFFF).unwrap();
    assert_eq!(u.read_u32(OFF_CUSTOMER_FIRST).unwrap(), 0xFF0F_FFFF);
    u.erase();
    assert_eq!(u.read_u32(OFF_CUSTOMER_FIRST).unwrap(), 0xFFFF_FFFF);
}

#[test]
fn pcr_lookup_ignores_ascii_case_only() {
    assert!(str_eq_ignore_ascii_case("GdMa_CoNf", "gdma_conf"));
    assert!(!str_eq_ignore_ascii_case("gdma_conf", "gdma_con"));
    assert_eq!(Esp32c6Pcr::gate_reg_offset("gDmA_cOnF"), Some(0xBC));
    assert_eq!(Esp32c6Pcr::register_name(0xBC), Some("GDMA_CONF"));
    assert_eq!(Esp32c6Pcr::register_name(0x2), None);
    let p = Esp32c6Pcr::new();
    assert_eq!(p.clock_gate_reg_offset("uart1_conf"), Some(0x0C));
}

#[test]
fn clock_cal_task_settles_done_on_the_walk() {
    let mut c = Nrf54lClock::new();
    c.write_u32(0x018, 1).unwrap();
    assert_eq!(c.read_u32(OFF_EVENTS_DONE).unwrap(), 0);
    c.write_u32(0x300, 8).unwrap();
    assert!(c.tick().irq);
    assert_eq!(c.read_u32(OFF_EVENTS_DONE).unwrap(), 1);
    assert_eq!(c.read_u32(OFF_INTPEND).unwrap(), 8);
}
