use histogram::exposition::{PrometheusConfig, Snapshots};
use histogram::precise::UnixInstant;
use histogram::Histogram;

fn named(name: &str, values: &[(u64, u64)]) -> (String, Histogram) {
    let mut histogram = Histogram::new(0, 2, 8).unwrap();
    for (value, count) in values {
        histogram.add(*value, *count).unwrap();
    }
    (name.to_string(), histogram)
}

fn counts_of(histogram: &Histogram) -> Vec<(usize, u64)> {
    histogram
        .as_slice()
        .iter()
        .enumerate()
        .filter(|(_, c)| **c != 0)
        .map(|(i, c)| (i, *c))
        .collect()
}

#[test]
fn prometheus_config_keeps_its_settings() {
    let config = PrometheusConfig::new(true, 5);
    assert!(config.histograms());
    assert_eq!(config.histogram_grouping_power(), 5);
    let config = PrometheusConfig::new(false, 0);
    assert!(!config.histograms());
    assert_eq!(config.histogram_grouping_power(), 0);
}

#[test]
fn snapshots_start_with_what_was_counted() {
    let at = UnixInstant::from_nanos(1_000);
    let snapshots = Snapshots::new(at, &[named("a", &[(1, 2)]), named("b", &[(3, 4)])]);
    assert_eq!(snapshots.timestamp(), at);
    let a = "a".to_string();
    let b = "b".to_string();
    let c = "c".to_string();
    assert_eq!(counts_of(snapshots.previous(&a).unwrap()), vec![(1, 2)]);
    assert_eq!(counts_of(snapshots.delta(&a).unwrap()), vec![(1, 2)]);
    assert_eq!(counts_of(snapshots.previous(&b).unwrap()), vec![(3, 4)]);
    assert_eq!(counts_of(snapshots.delta(&b).unwrap()), vec![(3, 4)]);
    assert!(snapshots.previous(&c).is_none());
    assert!(snapshots.delta(&c).is_none());
}

#[test]
fn snapshots_keep_the_difference_to_the_snapshot_before() {
    let a = "a".to_string();
    let b = "b".to_string();
    let c = "c".to_string();
    let mut snapshots = Snapshots::new(
        UnixInstant::from_nanos(1_000),
        &[named("a", &[(1, 2)]), named("b", &[(3, 4)])],
    );
    // "a" has counted more, "b" is gone, "c" is new
    snapshots.update(
        UnixInstant::from_nanos(2_000),
        &[named("a", &[(1, 5), (2, 1)]), named("c", &[(3, 9)])],
    );
    assert_eq!(snapshots.timestamp(), UnixInstant::from_nanos(2_000));
    assert_eq!(counts_of(snapshots.previous(&a).unwrap()), vec![(1, 5), (2, 1)]);
    assert_eq!(counts_of(snapshots.delta(&a).unwrap()), vec![(1, 3), (2, 1)]);
    // what was kept for "b" stays, its snapshot does not
    assert!(snapshots.previous(&b).is_none());
    assert_eq!(counts_of(snapshots.delta(&b).unwrap()), vec![(3, 4)]);
    // "c" has no snapshot before: nothing is kept for it yet
    assert_eq!(counts_of(snapshots.previous(&c).unwrap()), vec![(3, 9)]);
    assert!(snapshots.delta(&c).is_none());

    snapshots.update(
        UnixInstant::from_nanos(3_000),
        &[named("a", &[(1, 5), (2, 1)]), named("c", &[(3, 10)])],
    );
    assert_eq!(counts_of(snapshots.delta(&a).unwrap()), vec![]);
    assert_eq!(counts_of(snapshots.delta(&c).unwrap()), vec![(3, 1)]);
}

#[test]
fn snapshots_of_one_name_twice() {
    let a = "a".to_string();
    let mut snapshots = Snapshots::new(
        UnixInstant::from_nanos(1_000),
        &[named("a", &[(1, 2)]), named("a", &[(1, 3)])],
    );
    assert_eq!(counts_of(snapshots.previous(&a).unwrap()), vec![(1, 3)]);
    snapshots.update(
        UnixInstant::from_nanos(2_000),
        &[named("a", &[(1, 4)]), named("a", &[(1, 10)])],
    );
    assert_eq!(counts_of(snapshots.previous(&a).unwrap()), vec![(1, 10)]);
    assert_eq!(counts_of(snapshots.delta(&a).unwrap()), vec![(1, 7)]);
}

#[test]
fn snapshots_wrap_with_the_counters() {
    let a = "a".to_string();
    let mut snapshots = Snapshots::new(UnixInstant::from_nanos(0), &[named("a", &[(1, u64::MAX)])]);
    snapshots.update(UnixInstant::from_nanos(1), &[named("a", &[(1, u64::MAX), (1, 3)])]);
    assert_eq!(counts_of(snapshots.previous(&a).unwrap()), vec![(1, 2)]);
    assert_eq!(counts_of(snapshots.delta(&a).unwrap()), vec![(1, 3)]);
}
