use trk::data::DataSource;
use trk::Error;

#[test]
fn create_then_find_returns_created_series() {
    let mut ds = DataSource::new();
    let created = ds.create_series("latency", "ms").unwrap();
    assert_eq!(created.name, "latency");
    assert_eq!(created.unit, "ms");
    assert!(created.measurements.is_empty());

    let found = ds.get_series("latency").unwrap();
    assert_eq!(found.id, created.id);
    assert_eq!(found.name, "latency");
    assert_eq!(found.unit, "ms");
    assert!(found.measurements.is_empty());
}

#[test]
fn duplicate_create_fails_and_leaves_series_unmodified() {
    let mut ds = DataSource::new();
    let first = ds.create_series("cpu", "pct").unwrap();
    ds.measure("cpu", 7f64.to_bits(), false, 100).unwrap();

    let err = ds.create_series("cpu", "other-unit").unwrap_err();
    assert_eq!(err, Error::ConstraintError);

    let still = ds.get_series("cpu").unwrap();
    assert_eq!(still.id, first.id);
    assert_eq!(still.unit, "pct");
    let full = ds.series("cpu", 10).unwrap();
    assert_eq!(full.measurements.len(), 1);
    assert_eq!(ds.list_series().len(), 1);
}

#[test]
fn appends_number_runs_from_one_upwards() {
    let mut ds = DataSource::new();
    ds.create_series("reps", "").unwrap();
    for n in 1..=5u32 {
        let run = ds.measure("reps", (n as f64).to_bits(), false, 50 + n).unwrap();
        assert_eq!(run, n);
    }
    let full = ds.series("reps", 255).unwrap();
    let mut runs: Vec<u32> = full.measurements.iter().map(|m| m.run).collect();
    runs.sort();
    assert_eq!(runs, vec![1, 2, 3, 4, 5]);
}

#[test]
fn timestamps_follow_the_clock() {
    let mut ds = DataSource::new();
    ds.create_series("t", "").unwrap();
    ds.measure("t", 0f64.to_bits(), false, 10).unwrap();
    ds.measure("t", 0f64.to_bits(), false, 10).unwrap();
    ds.measure("t", 0f64.to_bits(), false, 30).unwrap();
    let full = ds.series("t", 255).unwrap();
    // most-recent-first: 30, then the two stamped 10 in reverse run order is
    // not required — only that timestamps never increase along the result
    let ts: Vec<u32> = full.measurements.iter().map(|m| m.timestamp).collect();
    assert_eq!(ts, vec![30, 10, 10]);
}

#[test]
fn query_caps_points_and_orders_most_recent_first() {
    let mut ds = DataSource::new();
    ds.create_series("load", "").unwrap();
    // a clock that jumps back: insertion order 100, 40, 70
    ds.measure("load", 1.0f64.to_bits(), false, 100).unwrap();
    ds.measure("load", 2.0f64.to_bits(), false, 40).unwrap();
    ds.measure("load", 3.0f64.to_bits(), false, 70).unwrap();

    let full = ds.series("load", 255).unwrap();
    let ts: Vec<u32> = full.measurements.iter().map(|m| m.timestamp).collect();
    assert_eq!(ts, vec![100, 70, 40]);

    let capped = ds.series("load", 2).unwrap();
    assert_eq!(capped.measurements.len(), 2);
    assert_eq!(capped.measurements[0].timestamp, 100);
    assert_eq!(capped.measurements[1].timestamp, 70);

    let none = ds.series("load", 0).unwrap();
    assert!(none.measurements.is_empty());

    assert!(ds.series("absent", 10).is_none());
}

#[test]
fn query_keeps_insertion_order_among_equal_timestamps() {
    let mut ds = DataSource::new();
    ds.create_series("tie", "").unwrap();
    ds.measure("tie", 1.0f64.to_bits(), false, 5).unwrap();
    ds.measure("tie", 2.0f64.to_bits(), false, 5).unwrap();
    ds.measure("tie", 3.0f64.to_bits(), false, 5).unwrap();
    let full = ds.series("tie", 255).unwrap();
    let runs: Vec<u32> = full.measurements.iter().map(|m| m.run).collect();
    assert_eq!(runs, vec![1, 2, 3]);
}

#[test]
fn query_round_trips_value_bits() {
    let mut ds = DataSource::new();
    ds.create_series("w", "kg").unwrap();
    ds.measure("w", 82.5f64.to_bits(), false, 1).unwrap();
    let full = ds.series("w", 1).unwrap();
    assert_eq!(f64::from_bits(full.measurements[0].value_bits), 82.5);
}

#[test]
fn delete_removes_series_and_counts_measurements() {
    let mut ds = DataSource::new();
    ds.create_series("gone", "x").unwrap();
    ds.create_series("kept", "y").unwrap();
    ds.measure("gone", 1.0f64.to_bits(), false, 1).unwrap();
    ds.measure("gone", 2.0f64.to_bits(), false, 2).unwrap();
    ds.measure("gone", 3.0f64.to_bits(), false, 3).unwrap();

    let count = ds.delete_series("gone").unwrap();
    assert_eq!(count, 3);
    assert!(ds.get_series("gone").is_none());
    assert!(ds.series("gone", 10).is_none());
    assert!(ds.get_series("kept").is_some());
    assert_eq!(ds.list_series().len(), 1);
}

#[test]
fn delete_missing_series_is_not_found() {
    let mut ds = DataSource::new();
    assert_eq!(ds.delete_series("nothing").unwrap_err(), Error::NotFound);
}

#[test]
fn append_without_auto_create_fails_then_auto_create_starts_at_run_one() {
    let mut ds = DataSource::new();
    let err = ds.measure("fresh", 1.5f64.to_bits(), false, 9).unwrap_err();
    assert_eq!(err, Error::NotFound);
    assert!(ds.get_series("fresh").is_none());

    let run = ds.measure("fresh", 1.5f64.to_bits(), true, 9).unwrap();
    assert_eq!(run, 1);
    let made = ds.get_series("fresh").unwrap();
    assert_eq!(made.unit, "");
    let full = ds.series("fresh", 10).unwrap();
    assert_eq!(full.measurements.len(), 1);
    assert_eq!(full.measurements[0].run, 1);
    assert_eq!(full.measurements[0].timestamp, 9);
}

#[test]
fn list_series_returns_rows_in_insertion_order() {
    let mut ds = DataSource::new();
    ds.create_series("a", "u1").unwrap();
    ds.create_series("b", "u2").unwrap();
    ds.measure("a", 1.0f64.to_bits(), false, 1).unwrap();
    let list = ds.list_series();
    assert_eq!(list.len(), 2);
    assert_eq!(list[0].name, "a");
    assert_eq!(list[0].unit, "u1");
    assert!(list[0].measurements.is_empty());
    assert_eq!(list[1].name, "b");
    assert_ne!(list[0].id, list[1].id);
}

#[test]
fn ids_are_not_reused_after_deletion() {
    let mut ds = DataSource::new();
    let first = ds.create_series("one", "").unwrap();
    ds.delete_series("one").unwrap();
    let second = ds.create_series("one", "").unwrap();
    assert!(second.id > first.id);
}
