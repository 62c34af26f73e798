use labwired_core::gpio_device::{BoundPin, DeviceClock};

fn accounted(c: &DeviceClock) -> bool {
    c.elapsed_us as u128 * c.cpu_hz as u128 + c.cycle_remainder as u128
        == c.elapsed_cycles as u128 * 1_000_000
}

#[test]
fn the_first_tick_only_starts_the_clock() {
    let mut c = DeviceClock::new(800);
    assert_eq!(c.advance(5_000), 0);
    assert_eq!(c.last_cycle, Some(5_000));
    assert_eq!(c.elapsed_cycles, 0);
    assert_eq!(c.advance(5_001), 1_250);
    assert_eq!(c.elapsed_us, 1_250);
}

#[test]
fn sub_microsecond_ticks_do_not_lose_time() {
    let mut c = DeviceClock::new(8_000_000);
    c.advance(0);
    let mut total = 0;
    for cycle in 1..=80 {
        total += c.advance(cycle);
        assert!(accounted(&c));
    }
    assert_eq!(total, 10);
    assert_eq!(c.elapsed_us, 10);
    assert_eq!(c.cycle_remainder, 0);
}

#[test]
fn fractional_mhz_clocks_carry_their_remainder() {
    let mut c = DeviceClock::new(1_500_001);
    c.advance(0);
    for step in [1u64, 7, 1_500_001, 3, 999_999] {
        let now = c.last_cycle.unwrap() + step;
        c.advance(now);
        assert!(accounted(&c));
        assert!(c.cycle_remainder < c.cpu_hz);
    }
    // A backwards cycle counts as no time.
    let before = c.elapsed_us;
    assert_eq!(c.advance(0), 0);
    assert_eq!(c.elapsed_us, before);
}

#[test]
fn a_bound_pin_names_its_role_and_pad() {
    let pin = BoundPin { role: "SCK".into(), addr: 0x4800_0014, bit: 5 };
    assert_eq!(pin.clone(), pin);
    assert_eq!((pin.role.as_str(), pin.addr, pin.bit), ("SCK", 0x4800_0014, 5));
}

#[test]
fn a_zero_clock_counts_as_one_hertz() {
    let mut c = DeviceClock::new(0);
    assert_eq!(c.cpu_hz, 1);
    c.advance(10);
    assert_eq!(c.advance(12), 2_000_000);
}
