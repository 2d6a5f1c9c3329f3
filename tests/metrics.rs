use gascadelyzer::{
    aggregate_durations, compute_snapshot, success_rate_centi_of, DurationTotals, IntErrorKind,
    Markers, MetricsSnapshot, MetricsStore, TimeStampParseError, CYCLE_END_MARKER, START_MARKER,
};

#[test]
fn one_cycle_end_to_end() {
    let log = "0.100 Cleansing SurvivalLifeSupportPillarCorruptible\n0.500 Pillars used increased to 1";
    let s = compute_snapshot(log, &Markers::standard()).unwrap();
    assert_eq!(s.completed_cycles, 1);
    assert_eq!(s.total_duration, 400);
    assert_eq!(s.average_duration_centi, 40000);
    assert_eq!(s.start_count, 1);
    assert_eq!(s.completion_count, 1);
    assert_eq!(s.success_rate_centi, 10000);
}

#[test]
fn counts_without_completed_cycles() {
    let mut log = String::new();
    for i in 0..5 {
        log.push_str(&format!("{}.000 Cleansing SurvivalLifeSupportPillarCorruptible\n", i));
    }
    for _ in 0..3 {
        log.push_str("Pillars used: none\n");
    }
    let s = compute_snapshot(&log, &Markers::standard()).unwrap();
    assert_eq!(s.start_count, 5);
    assert_eq!(s.completion_count, 3);
    assert_eq!(s.success_rate_centi, 6000);
    assert_eq!(s.completed_cycles, 0);
    assert_eq!(s.total_duration, 0);
    assert_eq!(s.average_duration_centi, 0);
}

#[test]
fn same_text_gives_same_snapshot() {
    let log = "1.0 Cleansing SurvivalLifeSupportPillarCorruptible\n3.5 Pillars used increased to 1\n";
    let a = compute_snapshot(log, &Markers::standard()).unwrap();
    let b = compute_snapshot(log, &Markers::standard()).unwrap();
    assert_eq!(a, b);
}

#[test]
fn end_before_any_start_counts_from_zero() {
    let d = aggregate_durations("5.000 Pillars used increased to 2", START_MARKER, CYCLE_END_MARKER).unwrap();
    assert_eq!(d, DurationTotals { total_duration: 5000, completed_cycles: 1 });
}

#[test]
fn later_start_overwrites_earlier() {
    let log = "1.0 S\n2.0 S\n5.0 E\n9.0 E";
    let d = aggregate_durations(log, "S", "E").unwrap();
    assert_eq!(d, DurationTotals { total_duration: 30 + 70, completed_cycles: 2 });
}

#[test]
fn start_marker_takes_precedence_over_end_marker() {
    let d = aggregate_durations("4.0 S E\n6.0 E", "S", "E").unwrap();
    assert_eq!(d, DurationTotals { total_duration: 20, completed_cycles: 1 });
}

#[test]
fn end_stamped_before_start_counts_negatively() {
    let s = compute_snapshot("5.00 S\n1.00 E", &Markers::new("S", "E", "E")).unwrap();
    assert_eq!(s.total_duration, -400);
    assert_eq!(s.average_duration_centi, -40000);
}

#[test]
fn average_and_rate_are_rounded_to_hundredths() {
    let s = compute_snapshot("0.0 S\n0.1 E\n0.0 S\n0.1 E\n0.0 S\n0.0 E\nE", &Markers::new("S", "E", "E"));
    // The last line has no timestamp: the whole read fails.
    assert_eq!(s, Err(TimeStampParseError::PatternNotFound(String::from("E"))));
    let s = compute_snapshot("0.0 S\n0.1 E\n0.0 S\n0.1 E\n0.0 S\n0.0 E\nC\nC", &Markers::new("S", "C", "E")).unwrap();
    assert_eq!(s.total_duration, 2);
    assert_eq!(s.completed_cycles, 3);
    assert_eq!(s.average_duration_centi, 67);
    assert_eq!(s.success_rate_centi, 6667);
    assert_eq!(success_rate_centi_of(1, 3), 3333);
    assert_eq!(success_rate_centi_of(1, 8), 1250);
    assert_eq!(success_rate_centi_of(7, 0), 0);
}

#[test]
fn first_bad_line_is_reported() {
    let log = "ok\n1.0 S\nbad S line\n2.x S";
    assert_eq!(
        aggregate_durations(log, "S", "E"),
        Err(TimeStampParseError::PatternNotFound(String::from("bad S line")))
    );
    assert_eq!(
        aggregate_durations("1.0 S\n2.x E\nbad E", "S", "E"),
        Err(TimeStampParseError::ParseError(IntErrorKind::InvalidDigit))
    );
}

#[test]
fn lines_without_markers_need_no_timestamp() {
    let d = aggregate_durations("garbage\n\n1.0 S\nmore garbage\r\n3.0 E\r\n", "S", "E").unwrap();
    assert_eq!(d, DurationTotals { total_duration: 20, completed_cycles: 1 });
}

#[test]
fn store_keeps_old_snapshot_on_error() {
    let markers = Markers::standard();
    let mut store = MetricsStore::new();
    assert_eq!(
        store.snapshot(),
        MetricsSnapshot {
            start_count: 0,
            completion_count: 0,
            success_rate_centi: 0,
            total_duration: 0,
            completed_cycles: 0,
            average_duration_centi: 0,
        }
    );
    let good = "0.100 Cleansing SurvivalLifeSupportPillarCorruptible\n0.500 Pillars used increased to 1";
    assert_eq!(store.refresh(good, &markers), Ok(()));
    let before = store.snapshot();
    assert_eq!(before.total_duration, 400);
    let bad = "Cleansing SurvivalLifeSupportPillarCorruptible";
    assert!(matches!(store.refresh(bad, &markers), Err(TimeStampParseError::PatternNotFound(_))));
    assert_eq!(store.snapshot(), before);
    assert_eq!(store.refresh(good, &markers), Ok(()));
    assert_eq!(store.snapshot(), before);
}
