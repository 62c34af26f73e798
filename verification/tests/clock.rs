//! The nRF54L CLOCK model on the legacy walk and with the event scheduler.

use labwired_core::bus::RamBus;
use labwired_core::clock::{
    Nrf54lClock, EV_LFCLKSTARTED, EV_XOSTARTED, INTEN_LFCLKSTARTED, INTEN_XOSTARTED,
    LFCLK_SRC_MASK, OFF_EVENTS_LFCLKSTARTED, OFF_EVENTS_XOSTARTED, OFF_INTEN, OFF_INTENSET,
    OFF_INTPEND, OFF_LFCLK_RUN, OFF_LFCLK_SRC, OFF_LFCLK_SRCCOPY, OFF_LFCLK_STAT,
    OFF_TASKS_LFCLKSTART, OFF_TASKS_LFCLKSTOP, OFF_TASKS_XOSTART, OFF_TASKS_XOSTOP,
    OFF_XO_STAT, RUN_TRIGGERED, SETTLE_DELAY, STAT_STATE,
};
use labwired_core::cycle_clock::CycleClock;
use labwired_core::EventScheduler;

fn clock() -> Nrf54lClock {
    Nrf54lClock::new()
}

#[test]
fn lfclk_start_latches_state_and_source_into_stat() {
    let mut c = clock();
    // Select source 1 (XTAL), then start.
    c.write_u32(OFF_LFCLK_SRC, 1).unwrap();
    c.write_u32(OFF_TASKS_LFCLKSTART, 1).unwrap();

    let stat = c.read_u32(OFF_LFCLK_STAT).unwrap();
    assert_ne!(stat & STAT_STATE, 0, "STATE (bit 16) must report running");
    assert_eq!(stat & LFCLK_SRC_MASK, 1, "SRC must be latched into STAT");
    assert_eq!(
        c.read_u32(OFF_LFCLK_SRCCOPY).unwrap(),
        1,
        "SRCCOPY must reflect the source that started"
    );
    assert_eq!(c.read_u32(OFF_LFCLK_RUN).unwrap(), RUN_TRIGGERED);
}

/// The exact condition Zephyr's `lfclk_spinwait()` tests.
#[test]
fn lfclk_started_event_settles_on_tick() {
    let mut c = clock();
    c.write_u32(OFF_TASKS_LFCLKSTART, 1).unwrap();
    assert_eq!(
        c.read_u32(OFF_EVENTS_LFCLKSTARTED).unwrap(),
        0,
        "event must not be set in the same access as the task write"
    );

    c.tick();
    assert_eq!(c.read_u32(OFF_EVENTS_LFCLKSTARTED).unwrap(), 1);
}

#[test]
fn xo_start_reports_running_and_raises_event() {
    let mut c = clock();
    assert_eq!(c.read_u32(OFF_XO_STAT).unwrap(), 0);

    c.write_u32(OFF_TASKS_XOSTART, 1).unwrap();
    assert_ne!(c.read_u32(OFF_XO_STAT).unwrap() & STAT_STATE, 0);

    c.tick();
    assert_eq!(c.read_u32(OFF_EVENTS_XOSTARTED).unwrap(), 1);
}

#[test]
fn stop_clears_status() {
    let mut c = clock();
    c.write_u32(OFF_TASKS_XOSTART, 1).unwrap();
    c.write_u32(OFF_TASKS_XOSTOP, 1).unwrap();
    assert_eq!(c.read_u32(OFF_XO_STAT).unwrap(), 0);

    c.write_u32(OFF_TASKS_LFCLKSTART, 1).unwrap();
    c.write_u32(OFF_TASKS_LFCLKSTOP, 1).unwrap();
    assert_eq!(c.read_u32(OFF_LFCLK_STAT).unwrap(), 0);
}

#[test]
fn events_are_write_zero_to_clear_and_write_one_ignored() {
    let mut c = clock();
    c.write_u32(OFF_TASKS_LFCLKSTART, 1).unwrap();
    c.tick();
    assert_eq!(c.read_u32(OFF_EVENTS_LFCLKSTARTED).unwrap(), 1);

    // Write 1: ignored (hardware owns the set).
    c.write_u32(OFF_EVENTS_XOSTARTED, 1).unwrap();
    assert_eq!(c.read_u32(OFF_EVENTS_XOSTARTED).unwrap(), 0);

    // Write 0: clears.
    c.write_u32(OFF_EVENTS_LFCLKSTARTED, 0).unwrap();
    assert_eq!(c.read_u32(OFF_EVENTS_LFCLKSTARTED).unwrap(), 0);
}

#[test]
fn irq_is_gated_by_inten() {
    let mut c = clock();
    c.write_u32(OFF_TASKS_LFCLKSTART, 1).unwrap();
    assert!(!c.tick().irq, "IRQ must not fire while INTEN is clear");

    let mut c = clock();
    c.write_u32(OFF_INTENSET, INTEN_LFCLKSTARTED).unwrap();
    c.write_u32(OFF_TASKS_LFCLKSTART, 1).unwrap();
    assert!(c.tick().irq, "IRQ must fire once enabled");
    assert_ne!(c.read_u32(OFF_INTPEND).unwrap() & INTEN_LFCLKSTARTED, 0);
}

#[test]
fn unmapped_offsets_read_zero_and_do_not_panic() {
    let mut c = clock();
    assert_eq!(c.read_u32(0xFFC).unwrap(), 0);
    c.write_u32(0xFFC, 0xDEAD_BEEF).unwrap();
    assert_eq!(c.read_u32(0xFFC).unwrap(), 0);
}

#[test]
fn lfclk_src_is_masked_to_two_bits() {
    let mut c = clock();
    c.write_u32(OFF_LFCLK_SRC, 0xFFFF_FFFF).unwrap();
    assert_eq!(c.read_u32(OFF_LFCLK_SRC).unwrap(), LFCLK_SRC_MASK);
}


fn armed() -> Nrf54lClock {
    let mut c = Nrf54lClock::new();
    c.attach_cycle_clock(CycleClock::default());
    c
}

#[test]
fn clock_attaching_a_clock_leaves_the_walk() {
    let c = armed();
    assert!(c.uses_scheduler(), "clock attached → scheduler drives it");
    assert!(
        !c.needs_legacy_walk(),
        "and the per-cycle walk is deletable — which is the whole point: \
         `derive_walk_deletable` is an ALL, so one holdout pins the board \
         to max_safe_tick_interval() == 1"
    );
}

#[test]
fn clock_no_clock_stays_on_the_legacy_walk() {
    let c = Nrf54lClock::new();
    assert!(!c.uses_scheduler());
    assert!(
        c.needs_legacy_walk(),
        "a hand-built bus never wired the scheduler, so arming events \
         nothing will deliver would strand the STARTED latch forever"
    );
}

#[test]
fn a_task_write_arms_a_scheduled_event_instead_of_a_pending_flag() {
    let mut c = armed();
    c.write_u32(OFF_TASKS_LFCLKSTART, 1).unwrap();

    assert!(
        !c.pending_lfclkstarted,
        "scheduler mode must NOT also set the walk flag — that would \
         settle the event twice"
    );
    let armed_events = c.take_scheduled_events();
    assert_eq!(armed_events, vec![(SETTLE_DELAY, EV_LFCLKSTARTED)]);
    assert!(
        c.take_scheduled_events().is_empty(),
        "the buffer drains on read"
    );
}

#[test]
fn the_event_settles_on_delivery_and_raises_the_line_through_inten() {
    let mut c = armed();
    c.write_u32(OFF_INTEN, INTEN_LFCLKSTARTED).unwrap();
    c.write_u32(OFF_TASKS_LFCLKSTART, 1).unwrap();
    let token = c.take_scheduled_events()[0].1;

    assert_eq!(
        c.read_u32(OFF_EVENTS_LFCLKSTARTED).unwrap(),
        0,
        "not settled before the event is delivered — the deferred start is \
         the reason drivers spin rather than read once"
    );

    let mut sched = EventScheduler::new();
    let mut bus = RamBus::new(0x2000_0000, 0);
    let res = c.on_event(token, &mut sched, &mut bus);

    assert_eq!(c.read_u32(OFF_EVENTS_LFCLKSTARTED).unwrap(), 1);
    assert!(
        res.raise_own_irq,
        "INTEN enabled this source, so the bus must pend the line — \
         `raise_own_irq`, because this model does not know its NVIC number"
    );
}

#[test]
fn the_line_stays_down_when_inten_does_not_enable_the_source() {
    let mut c = armed();
    c.write_u32(OFF_TASKS_LFCLKSTART, 1).unwrap();
    let token = c.take_scheduled_events()[0].1;

    let mut sched = EventScheduler::new();
    let mut bus = RamBus::new(0x2000_0000, 0);
    let res = c.on_event(token, &mut sched, &mut bus);

    assert_eq!(
        c.read_u32(OFF_EVENTS_LFCLKSTARTED).unwrap(),
        1,
        "the EVENT latches regardless — only the IRQ is gated"
    );
    assert!(!res.raise_own_irq);
}

/// The IRQ reflects the WHOLE event bitmap, not just the token that fired.
/// The walk computed it that way; a driver with two sources enabled must
/// not have one swallowed because the other settled first.
#[test]
fn a_second_source_still_raises_while_an_earlier_event_is_latched() {
    let mut c = armed();
    c.write_u32(OFF_INTEN, INTEN_LFCLKSTARTED | INTEN_XOSTARTED)
        .unwrap();
    c.write_u32(OFF_TASKS_LFCLKSTART, 1).unwrap();
    c.write_u32(OFF_TASKS_XOSTART, 1).unwrap();
    let tokens: Vec<u32> = c
        .take_scheduled_events()
        .into_iter()
        .map(|(_, t)| t)
        .collect();
    assert_eq!(tokens, vec![EV_LFCLKSTARTED, EV_XOSTARTED]);

    let mut sched = EventScheduler::new();
    let mut bus = RamBus::new(0x2000_0000, 0);
    for token in tokens {
        assert!(
            c.on_event(token, &mut sched, &mut bus).raise_own_irq,
            "both settlements raise — neither is swallowed"
        );
    }
}
