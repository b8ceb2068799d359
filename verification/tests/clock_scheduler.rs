use street_sim::clock::{SimClock, Tick};

#[test]
fn parse_accepts_hours_minutes_seconds() {
    // 1:30:00 is ninety simulated minutes: 5400 seconds, ten ticks each.
    assert_eq!(Tick::parse("1:30:00"), Some(Tick(54_000)));
    assert_eq!(Tick::parse("0:00:00"), Some(Tick(0)));
    assert_eq!(Tick::parse("0:00:30"), Some(Tick(300)));
    assert_eq!(Tick::parse("12:05:07"), Some(Tick(435_070)));
    assert_eq!(Tick::parse("9999:59:59"), Some(Tick(359_999_990)));
}

#[test]
fn parse_rejects_malformed_times() {
    for bad in ["", "whenever", "1:30", "1:30:00:00", "1:3:00", "1:300:00", "1:30:0", "-1:00:00",
        "1:60:00", "1:00:60", "99999:00:00", "1:aa:00", "1: 0:00"] {
        assert_eq!(Tick::parse(bad), None, "input {:?}", bad);
    }
}

#[test]
fn multiples_gate_periodic_sampling() {
    let minute = Tick::from_seconds(60);
    assert_eq!(minute, Tick(600));
    assert!(Tick(0).is_multiple_of(minute));
    assert!(Tick(1_200).is_multiple_of(minute));
    assert!(!Tick(601).is_multiple_of(minute));
    assert!(Tick(599).is_multiple_of(Tick(599)));
    assert!(Tick::zero().is_multiple_of(Tick(1)));
}

#[test]
fn clock_advances_one_tick_per_step() {
    let mut clock = SimClock::new();
    assert_eq!(clock.time, Tick(0));
    for _ in 0..25 {
        clock.advance();
    }
    assert_eq!(clock.time, Tick(25));
    assert_eq!(clock.time.next(), Tick(26));
}

#[test]
fn speed_measures_simulated_over_wall_time() {
    let mut clock = SimClock::new();
    let mut bench = clock.start_benchmark(1_000);
    for _ in 0..600 {
        clock.advance();
    }
    // 600 ticks are 60 simulated seconds; 30 wall seconds passed, so the
    // simulation ran at 2.00x real time.
    let speed = clock.measure_speed(&mut bench, 31_000);
    assert_eq!(speed, 200);
    // The marker moved up: measuring again right away reads zero elapsed.
    assert_eq!(bench.start_tick, Tick(600));
    assert_eq!(bench.start_wall_ms, 31_000);
    let speed2 = clock.measure_speed(&mut bench, 31_000);
    assert_eq!(speed2, 0);
}

#[test]
fn snapshot_fires_exactly_at_target() {
    let mut clock = SimClock::new();
    let save_at = Tick::parse("0:00:01");
    assert_eq!(save_at, Some(Tick(10)));
    let mut fired = 0;
    for _ in 0..30 {
        clock.advance();
        if clock.is_time_to_save(save_at) {
            fired += 1;
            assert_eq!(clock.time, Tick(10));
        }
    }
    assert_eq!(fired, 1);
    assert!(!clock.is_time_to_save(None));
}
