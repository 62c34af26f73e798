use labwired_core::schedule::{
    expand, validate, DurationError, GpioScheduleSpec, HoldCycles, HoldFault, ScheduleBank,
    ScheduleBitOrder, ScheduleBits, ScheduleError, ScheduleHold, ScheduleSegment, ScheduleTiming,
    MAX_EDGES,
};

/// A fixed hold of `us` microseconds at `hz`, its duration floored to cycles.
fn fixed(level: bool, us: f64, hz: u64) -> ScheduleHold {
    let fault = if us.is_finite() && us >= 0.0 { None } else { Some(HoldFault::Duration) };
    let cycles = if !(us.is_finite() && us >= 0.0) {
        HoldCycles::Fails(DurationError::Invalid)
    } else {
        let c = us * (hz as f64 / 1_000_000.0);
        if c.is_finite() && c < u64::MAX as f64 {
            HoldCycles::Cycles(c as u64)
        } else {
            HoldCycles::Fails(DurationError::Overflow)
        }
    };
    ScheduleHold { level, fault, cycles }
}

fn hold(level: bool, us: f64, hz: u64) -> ScheduleSegment {
    ScheduleSegment::Hold(fixed(level, us, hz))
}

fn spec(segments: Vec<ScheduleSegment>) -> GpioScheduleSpec {
    GpioScheduleSpec {
        output: "DATA".into(),
        idle: true,
        final_level: true,
        timing: ScheduleTiming::Exact,
        segments,
    }
}

fn pulse(hz: u64) -> Vec<ScheduleSegment> {
    vec![hold(true, 3.0, hz), hold(false, 4.0, hz)]
}

#[test]
fn offgrid_replacement_keeps_visible_level_until_grid_and_cancel_is_immediate() {
    let mut s = spec(vec![hold(true, 3.0, 1_000_000), hold(false, 40.0, 1_000_000)]);
    s.timing = ScheduleTiming::PeripheralTickGrid;
    let mut bank = ScheduleBank::default();
    bank.emit("a", &s, &[], 0).unwrap();
    assert_eq!(bank.service(10, 10), vec![("DATA".into(), false)]);
    bank.emit("a", &s, &[], 11).unwrap();
    assert!(bank.service(11, 10).is_empty());
    assert_eq!(bank.next_deadline(10), Some(20));
    bank.cancel("a", &s, 12);
    assert_eq!(bank.service(12, 10), vec![("DATA".into(), true)]);
}

#[test]
fn input_linear_f32_width_is_floored_after_promotion_and_minimum_is_applied() {
    // `us: {input: distance, scale: 58, arithmetic: f32, min_cycles: 1}` with distance 50.125.
    let linear = |hz: u64| {
        let us = (50.125_f32 * 58.0_f32) as f64;
        let cycles = (us * (hz as f64 / 1_000_000.0)) as u64;
        ScheduleSegment::Hold(ScheduleHold {
            level: false,
            fault: None,
            cycles: HoldCycles::Cycles(cycles.max(1)),
        })
    };
    let s = spec(vec![hold(true, 200.0, 1_500_001), linear(1_500_001)]);
    let edges = expand(&s, &[], 7).unwrap();
    assert_eq!(edges[0].0, 7 + 300);
    assert_eq!(
        edges[1].0 - edges[0].0,
        ((50.125_f32 * 58.0) as f64 * (1_500_001.0 / 1e6)) as u64
    );
    let s = spec(vec![hold(true, 200.0, 1), linear(1)]);
    let edges = expand(&s, &[], 7).unwrap();
    assert_eq!(edges, vec![(7, false), (8, true)]);
}

#[test]
fn replacement_failure_is_atomic_and_cancel_invalidates_edges() {
    let s = spec(pulse(1_000_000));
    let mut bank = ScheduleBank::default();
    bank.emit("a", &s, &[], 10).unwrap();
    let revision = bank.revision();
    assert!(bank.emit("a", &s, &[], u64::MAX - 1).is_err());
    assert_eq!(bank.revision(), revision);
    assert_eq!(bank.service(13, 1), vec![("DATA".into(), false)]);
    bank.cancel("a", &s, 14);
    assert_eq!(bank.service(14, 1), vec![("DATA".into(), true)]);
    assert_eq!(bank.next_deadline(1), None);
}

#[test]
fn grid_collapses_pulses_and_recomputes_deadlines_on_interval_change() {
    let mut s = spec(pulse(1_000_000));
    s.timing = ScheduleTiming::PeripheralTickGrid;
    let mut bank = ScheduleBank::default();
    bank.emit("a", &s, &[], 11).unwrap();
    assert_eq!(bank.next_deadline(10), Some(20));
    assert_eq!(bank.next_deadline(4), Some(12));
    assert!(bank.service(19, 10).is_empty());
    assert_eq!(bank.service(20, 10), vec![("DATA".into(), true)]);
    assert_eq!(bank.next_deadline(10), None);
}

#[test]
fn fractional_and_low_clocks_floor_each_segment_with_last_writer_winning() {
    let s = spec(pulse(1_500_001));
    assert_eq!(expand(&s, &[], 0).unwrap(), vec![(4, false), (10, true)]);
    let s = spec(pulse(1));
    let mut bank = ScheduleBank::default();
    bank.emit("a", &s, &[], 10).unwrap();
    assert_eq!(bank.service(10, 1), vec![("DATA".into(), true)]);
}

#[test]
fn equal_deadlines_respect_latest_generation_across_two_schedules() {
    let a = spec(pulse(1_000_000));
    let b = spec(vec![hold(true, 30.0, 1_000_000)]);
    let mut bank = ScheduleBank::default();
    bank.emit("z", &a, &[], 0).unwrap();
    bank.emit("a", &b, &[], 3).unwrap();
    assert_eq!(bank.service(3, 1), vec![("DATA".into(), true)]);
}

fn bits(count: u8, order: ScheduleBitOrder, zero: Vec<ScheduleHold>, one: Vec<ScheduleHold>) -> ScheduleSegment {
    ScheduleSegment::Bits(ScheduleBits { count, order, zero, one })
}

#[test]
fn bounds_and_nonfinite_or_negative_durations_are_rejected() {
    for duration in [-1.0, f64::NAN, f64::INFINITY] {
        let s = spec(vec![hold(true, duration, 1_000_000)]);
        assert!(expand(&s, &[], 0).is_err());
    }
    for count in [0, 65] {
        let s = spec(vec![bits(
            count,
            ScheduleBitOrder::MsbFirst,
            vec![fixed(false, 1.0, 1_000_000)],
            vec![fixed(true, 1.0, 1_000_000)],
        )]);
        assert!(validate(&s).is_err());
    }
    let mut s = spec(vec![hold(true, 1.0, 1_000_000)]);
    s.segments = vec![s.segments[0].clone(); MAX_EDGES];
    assert!(validate(&s).is_err());
}

#[test]
fn dht_has_84_transitions_and_last_bit_keeps_its_width() {
    let hz = 1_000_000;
    for value in [0, 1] {
        let s = spec(vec![
            hold(true, 30.0, hz),
            hold(false, 80.0, hz),
            hold(true, 80.0, hz),
            bits(
                40,
                ScheduleBitOrder::MsbFirst,
                vec![fixed(false, 50.0, hz), fixed(true, 27.0, hz)],
                vec![fixed(false, 50.0, hz), fixed(true, 70.0, hz)],
            ),
            hold(false, 50.0, hz),
        ]);
        let edges = expand(&s, &[value], 100).unwrap();
        assert_eq!(edges.len(), 84);
        assert_eq!(edges[0], (130, false));
        assert_eq!(edges[1], (210, true));
        let n = edges.len();
        assert_eq!(edges[n - 2].0 - edges[n - 3].0, if value == 0 { 27 } else { 70 });
        assert_eq!(edges[n - 1].0 - edges[n - 2].0, 50);
        assert!(edges[n - 1].1);
    }
}

#[test]
fn schedule_refusals_name_their_cause() {
    let hz = 1_000_000;
    assert_eq!(
        validate(&spec(vec![bits(0, ScheduleBitOrder::LsbFirst, vec![fixed(false, 1.0, hz)], vec![fixed(true, 1.0, hz)])])),
        Err(ScheduleError::BitCount)
    );
    assert_eq!(
        validate(&spec(vec![bits(8, ScheduleBitOrder::LsbFirst, vec![], vec![fixed(true, 1.0, hz)])])),
        Err(ScheduleError::EmptyBitHolds)
    );
    assert_eq!(
        expand(&spec(vec![hold(true, -1.0, hz)]), &[], 0),
        Err(ScheduleError::Hold(HoldFault::Duration))
    );
    let one = vec![fixed(true, 1.0, hz)];
    assert_eq!(
        expand(&spec(vec![bits(4, ScheduleBitOrder::LsbFirst, one.clone(), one.clone())]), &[], 0),
        Err(ScheduleError::MissingBits)
    );
    let missing = ScheduleSegment::Hold(ScheduleHold {
        level: false,
        fault: None,
        cycles: HoldCycles::Fails(DurationError::MissingInput("distance".into())),
    });
    assert_eq!(
        expand(&spec(vec![missing]), &[], 0),
        Err(ScheduleError::Duration(DurationError::MissingInput("distance".into())))
    );
    // 64 bits of one-edge holds plus the start and final edges fit; more do not.
    let wide = bits(64, ScheduleBitOrder::MsbFirst, one.clone(), one.clone());
    assert!(validate(&spec(vec![wide.clone()])).is_ok());
    let mut many = vec![wide; 64];
    many.push(hold(true, 1.0, hz));
    assert_eq!(validate(&spec(many)), Err(ScheduleError::TooManyEdges));
}

#[test]
fn lsb_first_plays_the_low_bit_first_and_outputs_come_back_in_name_order() {
    let hz = 1_000_000;
    let s = spec(vec![bits(
        2,
        ScheduleBitOrder::LsbFirst,
        vec![fixed(false, 1.0, hz)],
        vec![fixed(true, 2.0, hz)],
    )]);
    // value 0b01, low bit first: one (true, 2 cycles), then zero (false, 1 cycle).
    assert_eq!(expand(&s, &[1], 0).unwrap(), vec![(2, false), (3, true)]);
    let mut bank = ScheduleBank::default();
    let mut b = spec(vec![hold(false, 5.0, hz)]);
    b.output = "B".into();
    let mut a = spec(vec![hold(false, 5.0, hz)]);
    a.output = "A".into();
    bank.emit("second", &b, &[], 0).unwrap();
    bank.emit("first", &a, &[], 0).unwrap();
    assert_eq!(bank.service(0, 1), vec![("A".into(), false), ("B".into(), false)]);
    assert_eq!(bank.next_deadline(1), Some(5));
    assert_eq!(bank.revision(), 2);
}

#[test]
fn servicing_twice_at_one_cycle_shows_nothing_new() {
    let s = spec(pulse(1_000_000));
    let mut bank = ScheduleBank::default();
    bank.emit("a", &s, &[], 0).unwrap();
    assert_eq!(bank.service(5, 1), vec![("DATA".into(), false)]);
    assert!(bank.service(5, 1).is_empty());
    assert_eq!(bank.next_deadline(1), Some(7));
}

#[test]
fn an_expansion_never_runs_backwards() {
    let hz = 1_000_000;
    let s = spec(vec![
        hold(false, 0.0, hz),
        hold(true, 0.0, hz),
        bits(8, ScheduleBitOrder::MsbFirst, vec![fixed(false, 3.0, hz)], vec![fixed(true, 0.0, hz)]),
    ]);
    let edges = expand(&s, &[0xA5], 40).unwrap();
    assert!(edges.iter().all(|e| e.0 >= 40));
    assert!(edges.windows(2).all(|w| w[0].0 <= w[1].0));
}

#[test]
fn every_expanded_edge_changes_the_level_and_the_last_is_final() {
    let hz = 1_000_000;
    let segs = vec![
        hold(true, 5.0, hz),
        hold(false, 2.0, hz),
        hold(false, 3.0, hz),
        hold(true, 1.0, hz),
        hold(false, 4.0, hz),
    ];
    let s = spec(segs);
    let edges = expand(&s, &[], 100).unwrap();
    let mut prev = s.idle;
    for (at, level) in &edges {
        assert_ne!(*level, prev, "edge at {at}");
        assert!(*at >= 100);
        prev = *level;
    }
    assert_eq!(prev, s.final_level);
    assert_eq!(edges, vec![(105, false), (110, true), (111, false), (115, true)]);
    assert!(edges.len() < MAX_EDGES);
}

#[test]
fn validation_is_exactly_the_edge_budget_and_the_shapes() {
    let hz = 1_000_000;
    let at_limit: Vec<ScheduleSegment> = (0..MAX_EDGES - 2).map(|i| hold(i % 2 == 0, 1.0, hz)).collect();
    assert_eq!(validate(&spec(at_limit)), Ok(()));
    let over: Vec<ScheduleSegment> = (0..MAX_EDGES - 1).map(|i| hold(i % 2 == 0, 1.0, hz)).collect();
    assert_eq!(validate(&spec(over)), Err(ScheduleError::TooManyEdges));
    assert_eq!(
        validate(&spec(vec![hold(true, f64::NAN, hz)])),
        Err(ScheduleError::Hold(HoldFault::Duration))
    );
}
