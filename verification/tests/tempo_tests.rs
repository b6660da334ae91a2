use drumsthesia::tempo::{LoadError, TempoMap, TempoPoint, DEFAULT_TEMPO, MAX_TEMPO, TICK_LIMIT};

fn point(tick: u64, tempo: u32) -> TempoPoint {
    TempoPoint {
        tick,
        microseconds_per_quarter: tempo,
    }
}

#[test]
fn default_tempo_map_is_120_bpm() {
    let map = TempoMap::build(&vec![], 480).unwrap();
    // One quarter note at 120 BPM is half a second.
    assert_eq!(map.duration_at(480), 500_000);
    assert_eq!(map.duration_at(960), 1_000_000);
    assert_eq!(map.duration_at(0), 0);
}

#[test]
fn concrete_two_segment_scenario() {
    // PPQN 480, 500000 us per quarter from tick 0, 250000 from tick 960.
    let map = TempoMap::build(&vec![point(0, 500_000), point(960, 250_000)], 480).unwrap();
    assert_eq!(map.duration_at(480), 500_000);
    assert_eq!(map.duration_at(960), 1_000_000);
    assert_eq!(map.duration_at(1440), 1_250_000);
}

#[test]
fn implicit_initial_point_before_first_change() {
    // No point at tick 0: the stretch before the first change runs at the
    // default 120 BPM.
    let map = TempoMap::build(&vec![point(960, 250_000)], 480).unwrap();
    assert_eq!(map.duration_at(480), 500_000);
    assert_eq!(map.duration_at(960), 1_000_000);
    assert_eq!(map.duration_at(1440), 1_250_000);
}

#[test]
fn monotonic_across_many_changes() {
    let changes = vec![
        point(0, 400_000),
        point(100, 20_000),
        point(250, 700_000),
        point(960, 1),
        point(5000, 16_777_215),
    ];
    let map = TempoMap::build(&changes, 96).unwrap();
    let mut last = 0u64;
    for tick in 0..6000u64 {
        let t = map.duration_at(tick);
        assert!(t >= last, "duration_at must never decrease");
        last = t;
    }
}

#[test]
fn last_change_at_a_repeated_tick_wins() {
    let map = TempoMap::build(&vec![point(0, 500_000), point(0, 250_000)], 480).unwrap();
    // The later change at tick 0 governs the whole first segment.
    assert_eq!(map.duration_at(480), 250_000);
}

#[test]
fn unsorted_changes_are_ordered() {
    let map = TempoMap::build(&vec![point(960, 250_000), point(0, 500_000)], 480).unwrap();
    assert_eq!(map.duration_at(1440), 1_250_000);
}

#[test]
fn zero_ppqn_is_rejected() {
    assert!(matches!(
        TempoMap::build(&vec![], 0),
        Err(LoadError::ZeroPulsesPerQuarter)
    ));
}

#[test]
fn zero_tempo_is_rejected() {
    assert!(matches!(
        TempoMap::build(&vec![point(0, 0)], 480),
        Err(LoadError::TempoOutOfRange)
    ));
}

#[test]
fn oversized_tempo_is_rejected() {
    assert!(matches!(
        TempoMap::build(&vec![point(0, MAX_TEMPO + 1)], 480),
        Err(LoadError::TempoOutOfRange)
    ));
}

#[test]
fn oversized_tick_is_rejected() {
    assert!(matches!(
        TempoMap::build(&vec![point(TICK_LIMIT + 1, 500_000)], 480),
        Err(LoadError::TickOutOfRange)
    ));
}

#[test]
fn default_tempo_constant_is_120_bpm() {
    assert_eq!(DEFAULT_TEMPO, 500_000);
}

#[test]
fn ppqn_accessor_reports_the_build_value() {
    let map = TempoMap::build(&vec![], 96).unwrap();
    assert_eq!(map.ppqn(), 96);
}
