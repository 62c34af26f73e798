//! Register-level behaviour of the TIMG model: counters, lazy sync, LACT,
//! RTC calibration and the C3/C6 main watchdog.

use labwired_core::timg::{
    RtcCalProfile, Timg, INT_CLR, INT_RAW, RTCCALICFG, RTCCALICFG1, RTC_CALI_RDY_BIT,
    RTC_CALI_START_BIT, T0_CONFIG, T0_HI, T0_LO, T0_LOAD, T0_LOADHI, T0_LOADLO, T0_UPDATE,
    T_CONFIG_EN_BIT, WDT_CONFIG0, WDT_CONFIG1, WDT_CONFIG2, WDT_CONFIG3, WDT_CONFIG4,
    WDT_CONFIG5_C3, WDT_EN_BIT, WDT_FEED, WDT_FEED_C3, WDT_INT_CLR_C3, WDT_INT_ENA_C3,
    WDT_INT_RAW_BIT, WDT_INT_RAW_C3, WDT_INT_ST_C3, WDT_WKEY_VALUE, WDT_WPROTECT,
    WDT_WPROTECT_C3,
};

/// Bit positions of the four MWDT stage-action fields in WDTCONFIG0.
const WDT_STG_SHIFTS: [u32; WDT_NUM_STAGES as usize] = [29, 27, 25, 23];
/// Width mask of one stage-action field.
const WDT_STG_MASK: u32 = 0x3;
/// Number of MWDT stages.
const WDT_NUM_STAGES: u8 = 4;

fn write_u32(t: &mut Timg, off: u64, val: u32) {
    for i in 0..4 {
        t.write(off + i, ((val >> (i * 8)) & 0xFF) as u8).unwrap();
    }
}

fn read_u32(t: &Timg, off: u64) -> u32 {
    let mut v = 0u32;
    for i in 0..4 {
        v |= (t.read(off + i).unwrap() as u32) << (i * 8);
    }
    v
}

#[test]
fn config_round_trips() {
    let mut t = Timg::new(0x3FF5_F000);
    // Writing T0CONFIG returns what was written byte-by-byte.
    write_u32(&mut t, T0_CONFIG, 0xDEAD_BEEF);
    assert_eq!(read_u32(&t, T0_CONFIG), 0xDEAD_BEEF);
}

#[test]
fn t0_lo_monotonically_increases_when_enabled() {
    let mut t = Timg::new(0x3FF5_F000);
    // Enable T0 by setting CONFIG.EN (bit 31).
    write_u32(&mut t, T0_CONFIG, T_CONFIG_EN_BIT);

    // Advance the simulated clock by some ticks.
    for _ in 0..100 {
        t.tick();
    }
    // Latch then read.
    write_u32(&mut t, T0_UPDATE, 1);
    let v1 = read_u32(&t, T0_LO);
    assert!(v1 >= 100, "counter should have advanced by ≥100, got {v1}");

    for _ in 0..50 {
        t.tick();
    }
    write_u32(&mut t, T0_UPDATE, 1);
    let v2 = read_u32(&t, T0_LO);
    assert!(v2 > v1, "counter must be monotonically increasing");
    assert_eq!(v2 - v1, 50, "counter should advance by exactly 50 ticks");
}

#[test]
fn lazy_sync_advances_enabled_counter() {
    // Phase 2B.2: in scheduler mode the counter advances via sync_to, not
    // tick(). Enable T0, sync to tick 100, strobe, read → 100.
    let mut t = Timg::new(0x3FF5_F000);
    write_u32(&mut t, T0_CONFIG, T_CONFIG_EN_BIT);
    t.sync_to(100);
    write_u32(&mut t, T0_UPDATE, 1);
    assert_eq!(read_u32(&t, T0_LO), 100);

    // A second sync adds only the new delta.
    t.sync_to(175);
    write_u32(&mut t, T0_UPDATE, 1);
    assert_eq!(read_u32(&t, T0_LO), 175);
}

#[test]
fn lazy_sync_excludes_disabled_span() {
    // A span spent disabled must not accrue: sync past it while disabled,
    // then enable and sync again — only the post-enable delta counts.
    let mut t = Timg::new(0x3FF5_F000);
    t.sync_to(50); // disabled: anchor moves, counter stays 0
    write_u32(&mut t, T0_CONFIG, T_CONFIG_EN_BIT);
    t.sync_to(100); // enabled: +50
    write_u32(&mut t, T0_UPDATE, 1);
    assert_eq!(read_u32(&t, T0_LO), 50, "disabled span [0,50) excluded");
}

#[test]
fn lazy_sync_is_monotonic() {
    // A non-advancing or rewinding tick_now is a no-op (saturating delta).
    let mut t = Timg::new(0x3FF5_F000);
    write_u32(&mut t, T0_CONFIG, T_CONFIG_EN_BIT);
    t.sync_to(100);
    t.sync_to(40); // rewind ignored
    t.sync_to(100); // same value → no double count
    write_u32(&mut t, T0_UPDATE, 1);
    assert_eq!(read_u32(&t, T0_LO), 100);
}

#[test]
fn uses_scheduler_is_true() {
    assert!(Timg::new(0x3FF5_F000).uses_scheduler());
}

#[test]
fn t0_does_not_advance_when_disabled() {
    let mut t = Timg::new(0x3FF5_F000);
    // CONFIG.EN cleared (default).
    for _ in 0..100 {
        t.tick();
    }
    write_u32(&mut t, T0_UPDATE, 1);
    assert_eq!(read_u32(&t, T0_LO), 0);
}

#[test]
fn wdt_feed_is_acknowledged_silently() {
    let mut t = Timg::new(0x3FF5_F000);
    // Any write to WDT_FEED must not panic and must round-trip in regs.
    write_u32(&mut t, WDT_FEED, 0x5000_0000);
    // No publicly observable state change beyond the register backing
    // store; assertion is "no panic, returns Ok".
    // Read still works (returns the written value — no auto-clear).
    assert_eq!(read_u32(&t, WDT_FEED), 0x5000_0000);
}

#[test]
fn preload_copies_loadlo_loadhi_into_counter() {
    let mut t = Timg::new(0x3FF5_F000);
    write_u32(&mut t, T0_LOADLO, 0x1111_2222);
    write_u32(&mut t, T0_LOADHI, 0x0000_0003);
    // Writing T0_LOAD triggers the preload.
    write_u32(&mut t, T0_LOAD, 1);
    write_u32(&mut t, T0_UPDATE, 1);
    assert_eq!(read_u32(&t, T0_LO), 0x1111_2222);
    assert_eq!(read_u32(&t, T0_HI), 0x0000_0003);
}

#[test]
fn rtc_cali_start_latches_rdy() {
    // Preserves the TimgStub behavior that downstream RTC code expects.
    let mut t = Timg::new(0x3FF5_F000);
    // START=1, MAX=0x100 (in bits[29:13] → shift left by 13).
    let cfg = RTC_CALI_START_BIT | (0x100u32 << 13);
    write_u32(&mut t, RTCCALICFG, cfg);
    let read_back = read_u32(&t, RTCCALICFG);
    assert!(
        read_back & RTC_CALI_RDY_BIT != 0,
        "RDY bit should be set immediately after START"
    );
}

#[test]
fn classic_rtc_cali_value_is_unchanged() {
    // Regression pin for the ESP32-classic (profile = None) path: the exact
    // canned value the pre-split model produced must be byte-for-byte
    // preserved. MAX=0x100 at bits[29:13] → model reads 0x100, value =
    // 0x100*533 = 0x21500, RTCCALICFG1 = (value<<7)|1.
    let mut t = Timg::new(0x3FF5_F000);
    write_u32(&mut t, RTCCALICFG, RTC_CALI_START_BIT | (0x100u32 << 13));
    assert!(read_u32(&t, RTCCALICFG) & RTC_CALI_RDY_BIT != 0);
    assert_eq!(read_u32(&t, RTCCALICFG1), ((0x100u32 * 533) << 7) | 1);
}

#[test]
fn c3_rtc_cali_reports_the_modelled_slow_rate() {
    // ESP32-C3 TIMG0 with the silicon cal profile: drive the exact IDF
    // register protocol (MAX at bits[30:16], START bit31, poll RDY bit15,
    // read VALUE at RTCCALICFG1 bits[31:7]) and confirm IDF's inverse
    // recovers the modelled RTC_SLOW rate — no hardcoded value.
    const XTAL: u64 = 40_000_000;
    const SLOW: u64 = 148_150;
    let mut t = Timg::new(0x6001_F000).with_rtc_cal(RtcCalProfile {
        xtal_hz: XTAL,
        slow_hz: SLOW,
    });
    for &cycles in &[100u32, 1024, 3000, 0x7FFF] {
        // CLK_SEL=0 (RTC_MUX/150k), START_CYCLING=0, MAX=cycles, START=1.
        let cfg = RTC_CALI_START_BIT | (cycles << 16);
        write_u32(&mut t, RTCCALICFG, cfg);
        assert!(
            read_u32(&t, RTCCALICFG) & RTC_CALI_RDY_BIT != 0,
            "RDY must latch after START (cycles={cycles})"
        );
        let value = (read_u32(&t, RTCCALICFG1) >> 7) as u64; // VALUE = XTAL cycles
        assert!(value > 0, "cal value must be non-zero (cycles={cycles})");
        // IDF: freq = xtal_hz * slowclk_cycles / xtal_cycles.
        let recovered = XTAL * u64::from(cycles) / value;
        let err = recovered.abs_diff(SLOW);
        assert!(
            err <= 20,
            "cycles={cycles}: recovered {recovered} Hz must ~= modelled {SLOW} Hz \
             (err {err} Hz, rounding only)"
        );
    }
}

#[test]
fn int_clr_clears_matching_int_raw_bits() {
    let mut t = Timg::new(0x3FF5_F000);
    // Pre-load INT_RAW with bits 0 and 1 set.
    write_u32(&mut t, INT_RAW, 0b11);
    // Clear bit 0.
    write_u32(&mut t, INT_CLR, 0b01);
    assert_eq!(read_u32(&t, INT_RAW), 0b10);
}

#[test]
fn unknown_offsets_round_trip() {
    // ESP-IDF init pokes at offsets we don't explicitly model; they
    // must round-trip through `regs` rather than read-as-zero, so RMW
    // sequences see their own writes.
    let mut t = Timg::new(0x3FF5_F000);
    write_u32(&mut t, 0x70, 0xCAFE_BABE);
    assert_eq!(read_u32(&t, 0x70), 0xCAFE_BABE);
}

/// LACT must be INERT on a TIMG that was not told it has one.
///
/// The ESP32-C3 reuses this model with entirely different registers in
/// the LACT window: 0x78/0x7C are INT_ST_TIMERS/INT_CLR_TIMERS and 0x80
/// is RTCCALICFG2. Before `with_lact()` existed, a C3 firmware writing
/// RTCCALICFG2 would latch the counter straight over its own interrupt
/// status and clear registers, and a read of INT_ST_TIMERS would return
/// a timer count. Both are silent corruption, so this pins the default.
#[test]
fn lact_offsets_are_plain_storage_without_with_lact() {
    let mut t = Timg::new(0x6001_F000); // C3 TIMG0 base — no with_lact()
                                        // Enable-looking bits in what the C3 calls INT_ENA_TIMERS.
    write_u32(&mut t, 0x70, 0xFFFF_FFFF);
    // What the C3 calls INT_ST_TIMERS / INT_CLR_TIMERS.
    write_u32(&mut t, 0x78, 0x1111_1111);
    write_u32(&mut t, 0x7C, 0x2222_2222);
    for _ in 0..1000 {
        t.tick();
    }
    // A write to RTCCALICFG2 must NOT latch a counter over 0x78/0x7C.
    write_u32(&mut t, 0x80, 1);
    assert_eq!(
        read_u32(&t, 0x78),
        0x1111_1111,
        "INT_ST_TIMERS was clobbered by a LACT latch"
    );
    assert_eq!(
        read_u32(&t, 0x7C),
        0x2222_2222,
        "INT_CLR_TIMERS was clobbered by a LACT latch"
    );
    assert_eq!(
        t.counter_lact(),
        0,
        "LACT advanced on a chip that has no LACT"
    );
}

/// ...and LIVE when it is declared, so the guard above is not vacuous.
#[test]
fn lact_counts_and_latches_when_declared() {
    let mut t = Timg::new(0x3FF5_F000).with_lact();
    // LACT_EN | divider 40 at bits [28:13] — what esp_timer programs for
    // the 2 MHz tick esp_timer_get_time() halves into microseconds.
    write_u32(&mut t, 0x70, (1 << 31) | (40 << 13));
    for _ in 0..1000 {
        t.tick();
    }
    // 1000 us at APB 80 MHz / 40 = 2 ticks per us.
    assert_eq!(t.counter_lact(), 2000);
    write_u32(&mut t, 0x80, 1); // LACT_UPDATE latches LO/HI
    assert_eq!(read_u32(&t, 0x78), 2000);
    assert_eq!(read_u32(&t, 0x7C), 0);
}

// ── C3/C6 MWDT (with_mwdt) ──────────────────────────────────────────────

/// Encode a WDTCONFIG0 value: EN plus a stage-0 action of `action`.
fn wdt_cfg0(action: u32) -> u32 {
    WDT_EN_BIT | (action << WDT_STG_SHIFTS[0])
}

/// Encode a WDTCONFIG0 value with one action per stage (index = stage).
fn wdt_cfg0_stages(actions: [u32; WDT_NUM_STAGES as usize]) -> u32 {
    let mut v = WDT_EN_BIT;
    for (stage, action) in actions.iter().enumerate() {
        v |= (action & WDT_STG_MASK) << WDT_STG_SHIFTS[stage];
    }
    v
}

/// The MWDT is unlocked at reset: WDTWPROTECT reads the key and a config
/// write sticks immediately.
#[test]
fn mwdt_resets_unlocked_and_stores_config() {
    let mut t = Timg::new(0x6000_8000).with_mwdt();
    assert_eq!(
        read_u32(&t, WDT_WPROTECT_C3),
        WDT_WKEY_VALUE,
        "WDTWPROTECT reset value is the unlock key on silicon"
    );
    write_u32(&mut t, WDT_CONFIG1, 0x0001_2345);
    assert_eq!(read_u32(&t, WDT_CONFIG1), 0x0001_2345);
    write_u32(&mut t, WDT_CONFIG2, 0x0000_2710);
    assert_eq!(read_u32(&t, WDT_CONFIG2), 0x0000_2710);
    write_u32(&mut t, WDT_CONFIG5_C3, 0x0000_0064);
    assert_eq!(read_u32(&t, WDT_CONFIG5_C3), 0x0000_0064);
}

/// While WDTWPROTECT holds anything but the key, WDTCONFIG0..5 writes are
/// dropped; WDTFEED and WDTWPROTECT stay writable.
#[test]
fn mwdt_write_lock_gates_config_but_not_feed() {
    let mut t = Timg::new(0x6000_8000).with_mwdt();
    write_u32(&mut t, WDT_CONFIG2, 10);
    write_u32(&mut t, WDT_WPROTECT_C3, 0); // lock
    write_u32(&mut t, WDT_CONFIG0, wdt_cfg0(1));
    assert_eq!(
        read_u32(&t, WDT_CONFIG0) & WDT_EN_BIT,
        0,
        "locked WDTCONFIG0 write must be dropped"
    );
    write_u32(&mut t, WDT_CONFIG2, 99);
    assert_eq!(read_u32(&t, WDT_CONFIG2), 10, "locked hold write dropped");

    write_u32(&mut t, WDT_WPROTECT_C3, WDT_WKEY_VALUE); // unlock
    write_u32(&mut t, WDT_CONFIG0, wdt_cfg0(1));
    assert_ne!(read_u32(&t, WDT_CONFIG0) & WDT_EN_BIT, 0);
    write_u32(&mut t, WDT_WPROTECT_C3, 0); // lock again
    write_u32(&mut t, WDT_FEED_C3, 0x1234_5678); // feed is not gated
    for _ in 0..9 {
        t.tick();
    }
    assert_eq!(read_u32(&t, WDT_INT_RAW_C3) & WDT_INT_RAW_BIT, 0);
    t.tick();
    assert_ne!(
        read_u32(&t, WDT_INT_RAW_C3) & WDT_INT_RAW_BIT,
        0,
        "feed must have re-armed the countdown while locked"
    );
}

/// Expiry latches INT_RAW_TIMERS.WDT_INT_RAW; INT_CLR is W1C; feed re-arms
/// a full hold; expiry never auto-reloads.
#[test]
fn mwdt_expiry_latches_and_feed_rearms() {
    let mut t = Timg::new(0x6000_8000).with_mwdt();
    write_u32(&mut t, WDT_CONFIG2, 10); // STG0_HOLD
    write_u32(&mut t, WDT_CONFIG0, wdt_cfg0(1)); // enable, stage0=interrupt

    for _ in 0..9 {
        t.tick();
    }
    assert_eq!(
        read_u32(&t, WDT_INT_RAW_C3) & WDT_INT_RAW_BIT,
        0,
        "must not latch before the hold count elapses"
    );
    t.tick(); // 10th tick → expiry
    assert_ne!(read_u32(&t, WDT_INT_RAW_C3) & WDT_INT_RAW_BIT, 0);
    assert_eq!(
        read_u32(&t, WDT_INT_ST_C3) & WDT_INT_RAW_BIT,
        0,
        "INT_ST stays clear while INT_ENA_TIMERS.WDT_INT_ENA is clear"
    );

    // Stage 0 is one-shot until the chain re-arms it: after this expiry
    // the watchdog is in stage 1, whose hold is its (long) SVD reset, so
    // no second latch arrives within this bounded window and none comes
    // from stage 0 until a feed.
    write_u32(&mut t, WDT_INT_CLR_C3, WDT_INT_RAW_BIT);
    assert_eq!(read_u32(&t, WDT_INT_RAW_C3) & WDT_INT_RAW_BIT, 0);
    for _ in 0..100 {
        t.tick();
    }
    assert_eq!(
        read_u32(&t, WDT_INT_RAW_C3) & WDT_INT_RAW_BIT,
        0,
        "the armed stage must not re-latch within its hold"
    );

    // Feed re-arms the full hold count.
    write_u32(&mut t, WDT_FEED_C3, WDT_WKEY_VALUE);
    for _ in 0..9 {
        t.tick();
    }
    assert_eq!(read_u32(&t, WDT_INT_RAW_C3) & WDT_INT_RAW_BIT, 0);
    t.tick();
    assert_ne!(
        read_u32(&t, WDT_INT_RAW_C3) & WDT_INT_RAW_BIT,
        0,
        "feed must re-arm the countdown from WDTCONFIG2"
    );
}

/// INT_ENA_TIMERS gates INT_ST_TIMERS, not the raw latch.
#[test]
fn mwdt_int_st_follows_enable() {
    let mut t = Timg::new(0x6000_8000).with_mwdt();
    write_u32(&mut t, WDT_CONFIG2, 1);
    write_u32(&mut t, WDT_CONFIG0, wdt_cfg0(1));
    t.tick();
    assert_ne!(read_u32(&t, WDT_INT_RAW_C3) & WDT_INT_RAW_BIT, 0);
    assert_eq!(read_u32(&t, WDT_INT_ST_C3) & WDT_INT_RAW_BIT, 0);
    write_u32(&mut t, WDT_INT_ENA_C3, WDT_INT_RAW_BIT);
    assert_ne!(read_u32(&t, WDT_INT_ST_C3) & WDT_INT_RAW_BIT, 0);
}

/// Stage action "off" (0) and the reset actions (2/3) never latch the
/// interrupt; the model performs no reset.
#[test]
fn mwdt_only_latches_the_interrupt_action() {
    for action in [0u32, 2, 3] {
        let mut t = Timg::new(0x6000_8000).with_mwdt();
        write_u32(&mut t, WDT_CONFIG2, 1);
        write_u32(&mut t, WDT_CONFIG0, wdt_cfg0(action));
        for _ in 0..100 {
            t.tick();
        }
        assert_eq!(
            read_u32(&t, WDT_INT_RAW_C3) & WDT_INT_RAW_BIT,
            0,
            "stage action {action} must not latch the WDT interrupt"
        );
    }
}

/// A disabled MWDT does not count even when a hold value is programmed,
/// and disabling stops an armed countdown.
#[test]
fn mwdt_disabled_does_not_count() {
    let mut t = Timg::new(0x6000_8000).with_mwdt();
    write_u32(&mut t, WDT_CONFIG2, 1); // hold programmed, EN still clear
    for _ in 0..100 {
        t.tick();
    }
    assert_eq!(read_u32(&t, WDT_INT_RAW_C3) & WDT_INT_RAW_BIT, 0);

    write_u32(&mut t, WDT_CONFIG0, wdt_cfg0(1));
    t.tick();
    t.tick();
    assert_ne!(read_u32(&t, WDT_INT_RAW_C3) & WDT_INT_RAW_BIT, 0);
    write_u32(&mut t, WDT_INT_CLR_C3, WDT_INT_RAW_BIT);
    write_u32(&mut t, WDT_CONFIG0, wdt_cfg0(1) & !WDT_EN_BIT); // disable
    for _ in 0..1000 {
        t.tick();
    }
    assert_eq!(
        read_u32(&t, WDT_INT_RAW_C3) & WDT_INT_RAW_BIT,
        0,
        "disabled MWDT must hold its counter still"
    );
}

/// The MWDT variant is WALK-driven: `uses_scheduler()` is false and a
/// stray `sync_to` must not double-count against the walk.
#[test]
fn mwdt_is_walk_driven() {
    let mut t = Timg::new(0x6000_8000).with_mwdt();
    assert!(
        !t.uses_scheduler(),
        "a read-only status poll must still see time pass"
    );
    write_u32(&mut t, WDT_CONFIG2, 1000);
    write_u32(&mut t, WDT_CONFIG0, wdt_cfg0(1));
    t.sync_to(999);
    assert_eq!(
        read_u32(&t, WDT_INT_RAW_C3) & WDT_INT_RAW_BIT,
        0,
        "sync_to is inert on the walk-driven variant"
    );
    for _ in 0..1000 {
        t.tick();
    }
    assert_ne!(read_u32(&t, WDT_INT_RAW_C3) & WDT_INT_RAW_BIT, 0);
}

// ── C3/C6 MWDT stage chain (stages 1..3) ────────────────────────────────

/// `with_mwdt` seeds the SVD reset values for the whole config/hold
/// surface, not zeros — an unconfigured stage 1..3 holds silicon's long
/// default, and WDTWPROTECT its unlock key.
#[test]
fn mwdt_seeds_the_svd_reset_values() {
    let t = Timg::new(0x6000_8000).with_mwdt();
    assert_eq!(read_u32(&t, WDT_CONFIG0), 0x0004_C000);
    assert_eq!(read_u32(&t, WDT_CONFIG1), 0x0001_0000);
    assert_eq!(read_u32(&t, WDT_CONFIG2), 0x018C_BA80);
    assert_eq!(read_u32(&t, WDT_CONFIG3), 0x07FF_FFFF);
    assert_eq!(read_u32(&t, WDT_CONFIG4), 0x000F_FFFF);
    assert_eq!(read_u32(&t, WDT_CONFIG5_C3), 0x000F_FFFF);
    assert_eq!(read_u32(&t, WDT_WPROTECT_C3), WDT_WKEY_VALUE);
}

/// The chain walks 0→1→2→3→0: every interrupt-action stage latches at the
/// cumulative sum of the holds, in order, and the fourth expiry wraps back
/// to stage 0 (its hold starts the next round).
#[test]
fn mwdt_stage_chain_latches_every_interrupt_stage_in_order() {
    let mut t = Timg::new(0x6000_8000).with_mwdt();
    write_u32(&mut t, WDT_CONFIG2, 10); // STG0_HOLD
    write_u32(&mut t, WDT_CONFIG3, 20); // STG1_HOLD
    write_u32(&mut t, WDT_CONFIG4, 30); // STG2_HOLD
    write_u32(&mut t, WDT_CONFIG5_C3, 40); // STG3_HOLD
    write_u32(&mut t, WDT_CONFIG0, wdt_cfg0_stages([1, 1, 1, 1]));

    let mut tick = 0u32;
    // Latch times: 10 (stage 0), 30 (stage 1), 60 (stage 2), 100 (stage 3),
    // then 110 — stage 0 again after the wrap.
    for &want in &[10u32, 30, 60, 100, 110] {
        while tick < want - 1 {
            t.tick();
            tick += 1;
            assert_eq!(
                read_u32(&t, WDT_INT_RAW_C3) & WDT_INT_RAW_BIT,
                0,
                "latch at tick {tick}; stage chain must latch first at {want}"
            );
        }
        t.tick();
        tick += 1;
        assert_ne!(
            read_u32(&t, WDT_INT_RAW_C3) & WDT_INT_RAW_BIT,
            0,
            "stage expiry at tick {want} must latch WDT_INT_RAW"
        );
        write_u32(&mut t, WDT_INT_CLR_C3, WDT_INT_RAW_BIT);
    }
}

/// Every stage consumes ITS OWN hold register: an off stage 0 still burns
/// its hold, and the interrupt-action stage 1 latches only after
/// STG0_HOLD + STG1_HOLD — not after either hold alone.
#[test]
fn mwdt_stage_holds_and_off_stages_advance_the_chain() {
    let mut t = Timg::new(0x6000_8000).with_mwdt();
    write_u32(&mut t, WDT_CONFIG2, 5); // STG0_HOLD, stage 0 action = off
    write_u32(&mut t, WDT_CONFIG3, 7); // STG1_HOLD, stage 1 action = INT
    write_u32(&mut t, WDT_CONFIG4, 11); // STG2_HOLD, stage 2 action = off
    write_u32(&mut t, WDT_CONFIG5_C3, 13); // STG3_HOLD, stage 3 action = INT
    write_u32(&mut t, WDT_CONFIG0, wdt_cfg0_stages([0, 1, 0, 1]));

    let mut tick = 0u32;
    for &want in &[12u32, 36] {
        while tick < want - 1 {
            t.tick();
            tick += 1;
            assert_eq!(
                read_u32(&t, WDT_INT_RAW_C3) & WDT_INT_RAW_BIT,
                0,
                "latch at tick {tick}; want {want} (holds must accumulate)"
            );
        }
        t.tick();
        tick += 1;
        assert_ne!(read_u32(&t, WDT_INT_RAW_C3) & WDT_INT_RAW_BIT, 0);
        write_u32(&mut t, WDT_INT_CLR_C3, WDT_INT_RAW_BIT);
    }
}

/// The reset actions (2 = reset CPU, 3 = reset system) do not latch and do
/// not stop the chain: the first interrupt-action stage latches only at
/// the sum of the holds ahead of it, and the loop keeps advancing
/// afterwards. No reset is performed (no safe bus path exists).
#[test]
fn mwdt_reset_stage_actions_advance_without_latching() {
    let mut t = Timg::new(0x6000_8000).with_mwdt();
    write_u32(&mut t, WDT_CONFIG2, 5);
    write_u32(&mut t, WDT_CONFIG3, 7);
    write_u32(&mut t, WDT_CONFIG4, 11);
    write_u32(&mut t, WDT_CONFIG5_C3, 13);
    // STG0 = reset CPU, STG1 = reset system, STG2 = INT, STG3 = off.
    write_u32(&mut t, WDT_CONFIG0, wdt_cfg0_stages([2, 3, 1, 0]));

    let mut tick = 0u32;
    // First latch: after 5 + 7 + 11 = 23 ticks (stage 2).
    while tick < 23 - 1 {
        t.tick();
        tick += 1;
        assert_eq!(
            read_u32(&t, WDT_INT_RAW_C3) & WDT_INT_RAW_BIT,
            0,
            "reset-action stages must not latch (tick {tick})"
        );
    }
    t.tick();
    tick += 1;
    assert_ne!(read_u32(&t, WDT_INT_RAW_C3) & WDT_INT_RAW_BIT, 0);
    write_u32(&mut t, WDT_INT_CLR_C3, WDT_INT_RAW_BIT);

    // The chain kept running through the off stage 3 (13), the reset-action
    // stages 0/1 (5 + 7) and back to the interrupt stage 2 (11): the next
    // latch is at 23 + 13 + 5 + 7 + 11 = 59.
    while tick < 59 - 1 {
        t.tick();
        tick += 1;
        assert_eq!(
            read_u32(&t, WDT_INT_RAW_C3) & WDT_INT_RAW_BIT,
            0,
            "second latch must wait for the wrapped stage-2 expiry (tick {tick})"
        );
    }
    t.tick();
    assert_ne!(read_u32(&t, WDT_INT_RAW_C3) & WDT_INT_RAW_BIT, 0);
}

/// A feed restarts at stage 0: mid-way through stage 1, a feed must give
/// stage 0's hold again — not stage 1's remaining or stage 2's hold.
#[test]
fn mwdt_feed_returns_to_stage_zero() {
    let mut t = Timg::new(0x6000_8000).with_mwdt();
    write_u32(&mut t, WDT_CONFIG2, 10);
    write_u32(&mut t, WDT_CONFIG3, 100);
    write_u32(&mut t, WDT_CONFIG4, 100);
    write_u32(&mut t, WDT_CONFIG5_C3, 100);
    write_u32(&mut t, WDT_CONFIG0, wdt_cfg0_stages([1, 1, 1, 1]));

    for _ in 0..10 {
        t.tick(); // stage 0 expires, stage 1 now has 100 ticks
    }
    assert_ne!(read_u32(&t, WDT_INT_RAW_C3) & WDT_INT_RAW_BIT, 0);
    write_u32(&mut t, WDT_INT_CLR_C3, WDT_INT_RAW_BIT);

    for _ in 0..5 {
        t.tick(); // 5 ticks of stage 1 have elapsed
    }
    write_u32(&mut t, WDT_FEED_C3, WDT_WKEY_VALUE);

    // Stage 0's hold (10) — not stage 1's remaining (95) or stage 2 (100).
    for _ in 0..9 {
        t.tick();
        assert_eq!(read_u32(&t, WDT_INT_RAW_C3) & WDT_INT_RAW_BIT, 0);
    }
    t.tick();
    assert_ne!(
        read_u32(&t, WDT_INT_RAW_C3) & WDT_INT_RAW_BIT,
        0,
        "feed must re-arm at stage 0 with STG0_HOLD"
    );
}

/// Without `with_mwdt` nothing about the classic shape changes: the C3
/// chip yaml never opts in, so this pins the regression boundary.
#[test]
fn classic_wdt_path_unchanged_without_with_mwdt() {
    let mut t = Timg::new(0x6001_F000);
    // Classic feed/protect pair — round-trip storage, no behaviour.
    write_u32(&mut t, WDT_FEED, 0x1234_5678);
    assert_eq!(read_u32(&t, WDT_FEED), 0x1234_5678);
    write_u32(&mut t, WDT_WPROTECT, 0xDEAD_BEEF);
    assert_eq!(read_u32(&t, WDT_WPROTECT), 0xDEAD_BEEF);
    // The C3 offsets are plain storage: a write to 0x60 (C3 feed) lands in
    // `regs` and does not create watchdog state; 0x74 stays a plain bank.
    write_u32(&mut t, WDT_FEED_C3, 0xAAAA_AAAA);
    assert_eq!(read_u32(&t, WDT_FEED_C3), 0xAAAA_AAAA);
    write_u32(&mut t, WDT_INT_RAW_C3, 0xFFFF_FFFF);
    for _ in 0..10_000 {
        t.tick();
    }
    assert_eq!(
        read_u32(&t, WDT_INT_RAW_C3),
        0xFFFF_FFFF,
        "no WDT model may latch bits onto an opted-out TIMG"
    );
}
