use histogram::percentile::{Histograms, PERCENT};
use histogram::precise::{Duration, Instant, UnixInstant};
use histogram::sliding_window::{atomic, standard, Builder, Common};
use histogram::{Bucket, BuildError, Error};

fn secs(secs: u64) -> Instant {
    Instant::from_nanos(secs * 1_000_000_000)
}

fn millis(millis: u64) -> Instant {
    Instant::from_nanos(millis * 1_000_000)
}

fn wall() -> UnixInstant {
    UnixInstant::from_nanos(1_700_000_000_000_000_000)
}

fn counts_of(histogram: &histogram::Histogram) -> Vec<(usize, u64)> {
    histogram
        .as_slice()
        .iter()
        .enumerate()
        .filter(|(_, c)| **c != 0)
        .map(|(i, c)| (i, *c))
        .collect()
}

#[test]
fn standard_indexing() {
    let h = standard::Histogram::new(
        0,
        7,
        64,
        core::time::Duration::from_secs(1),
        60,
        wall(),
        secs(1000),
    )
    .unwrap();

    let origin = h.common().tick_origin();

    assert_eq!(h.range(origin, origin + Duration::from_secs(60)), (0, 60));
    assert_eq!(h.range(origin, origin + Duration::from_secs(30)), (0, 30));
    assert_eq!(h.range(origin, origin + Duration::from_secs(1)), (0, 1));
    assert_eq!(h.range(origin, origin), (0, 0));

    // if end is earlier than start, start and end indices should be the same
    assert_eq!(h.range(origin, origin - Duration::from_secs(1)), (0, 0));

    // ranges that are too long get truncated
    assert_eq!(h.range(origin, origin + Duration::from_secs(61)), (0, 60));
}

#[test]
fn atomic_indexing() {
    let now = secs(1000);
    let h = atomic::Histogram::new(0, 7, 64, core::time::Duration::from_secs(1), 60, wall(), now)
        .unwrap();
    assert_eq!(h.range(now - Duration::from_secs(60), now), (0, 60));
    assert_eq!(
        h.range(now - Duration::from_secs(60), now - Duration::from_secs(30)),
        (0, 30)
    );
    assert_eq!(
        h.range(now - Duration::from_secs(60), now - Duration::from_secs(59)),
        (0, 1)
    );
    assert_eq!(
        h.range(now - Duration::from_secs(60), now - Duration::from_secs(60)),
        (0, 0)
    );

    // if end is earlier than start, start and end indices should be the same
    assert_eq!(
        h.range(now - Duration::from_secs(60), now - Duration::from_secs(61)),
        (0, 0)
    );

    // we can't report across a range that's longer than our history
    assert_eq!(
        h.range(now - Duration::from_secs(60), now + Duration::from_secs(1)),
        (0, 60)
    );

    let now = secs(2000);
    let h = atomic::Histogram::new(0, 7, 64, core::time::Duration::from_secs(1), 60, wall(), now)
        .unwrap();
    assert_eq!(h.range(now - Duration::from_secs(60), now), (0, 60));
    assert_eq!(
        h.range(now - Duration::from_secs(60), now - Duration::from_secs(30)),
        (0, 30)
    );
    assert_eq!(
        h.range(now - Duration::from_secs(60), now - Duration::from_secs(59)),
        (0, 1)
    );
    assert_eq!(
        h.range(now - Duration::from_secs(60), now - Duration::from_secs(60)),
        (0, 0)
    );

    // if end is earlier than start, start and end indices should be the same
    assert_eq!(
        h.range(now - Duration::from_secs(60), now - Duration::from_secs(61)),
        (0, 0)
    );

    // ranges that are too long get truncated
    assert_eq!(
        h.range(now - Duration::from_secs(60), now + Duration::from_secs(1)),
        (0, 60)
    );
}

#[test]
fn common_takes_the_resolution_in_nanoseconds() {
    let common = Common::new(
        0,
        7,
        64,
        core::time::Duration::from_secs(1),
        60,
        wall(),
        secs(1000),
    )
    .unwrap();
    assert_eq!(common.resolution().as_nanos(), 1_000_000_000);
    assert_eq!(common.span().as_nanos(), 60_000_000_000);
    assert_eq!(common.num_slices(), 61);
    assert_eq!(common.tick_origin(), secs(940));
    assert_eq!(common.started(), wall());
    assert_eq!(common.first_tick(), Some(secs(941)));

    let common = Common::new(
        0,
        7,
        64,
        core::time::Duration::new(2, 500),
        3,
        wall(),
        secs(1000),
    )
    .unwrap();
    assert_eq!(common.resolution().as_nanos(), 2_000_000_500);
    assert_eq!(common.span().as_nanos(), 6_000_001_500);
}

#[test]
fn common_with_nanos_validates() {
    let ok = |nanos: u128, slices: usize, now: Instant| {
        Common::with_nanos(0, 7, 64, nanos, slices, wall(), now).map(|c| c.span().as_nanos())
    };
    assert_eq!(ok(1_000, 60, secs(1000)), Ok(60_000));
    assert_eq!(ok(1_000, 0, secs(1000)), Ok(0));
    assert!(matches!(ok(999, 60, secs(1000)), Err(BuildError::ResolutionTooSmall)));
    assert!(matches!(ok(0, 60, secs(1000)), Err(BuildError::ResolutionTooSmall)));
    assert!(matches!(
        ok(u64::MAX as u128 + 1, 1, secs(1000)),
        Err(BuildError::ResolutionTooLarge)
    ));
    assert!(matches!(
        ok(u64::MAX as u128, 2, secs(1000)),
        Err(BuildError::SpanTooLong)
    ));
    assert!(matches!(
        ok(1_000, usize::MAX, secs(1000)),
        Err(BuildError::SpanTooLong)
    ));
    // the window would begin before the clock read zero
    assert!(matches!(
        ok(1_000_000_000, 60, secs(59)),
        Err(BuildError::SpanTooLong)
    ));
    assert_eq!(ok(1_000_000_000, 60, secs(60)), Ok(60_000_000_000));
    // the parameters are taken though the clock cannot read the end of the first tick
    assert_eq!(ok(1_000, 0, Instant::from_nanos(u64::MAX)), Ok(0));
    assert_eq!(
        Common::with_nanos(0, 7, 64, 1_000, 0, wall(), Instant::from_nanos(u64::MAX))
            .unwrap()
            .first_tick(),
        None
    );
    assert!(matches!(
        Common::with_nanos(0, 7, 65, 1_000, 60, wall(), secs(1000)),
        Err(BuildError::MaxPowerTooHigh)
    ));
    assert!(matches!(
        Common::with_nanos(4, 4, 8, 1_000, 60, wall(), secs(1000)),
        Err(BuildError::MaxPowerTooLow)
    ));
    // the resolution is looked at before the layout
    assert!(matches!(
        Common::with_nanos(4, 4, 8, 1, 60, wall(), secs(1000)),
        Err(BuildError::ResolutionTooSmall)
    ));
}

#[test]
fn window_new_validates() {
    assert!(matches!(
        standard::Histogram::new(
            0,
            7,
            64,
            core::time::Duration::from_nanos(999),
            60,
            wall(),
            secs(1000)
        ),
        Err(BuildError::ResolutionTooSmall)
    ));
    assert!(matches!(
        standard::Histogram::new(0, 7, 64, core::time::Duration::MAX, 60, wall(), secs(1000)),
        Err(BuildError::ResolutionTooLarge)
    ));
    assert!(matches!(
        atomic::Histogram::new(
            0,
            7,
            65,
            core::time::Duration::from_secs(1),
            60,
            wall(),
            secs(1000)
        ),
        Err(BuildError::MaxPowerTooHigh)
    ));
    assert!(matches!(
        atomic::Histogram::new(
            0,
            7,
            64,
            core::time::Duration::from_secs(1),
            60,
            wall(),
            secs(10)
        ),
        Err(BuildError::SpanTooLong)
    ));
}

#[test]
fn range_counts_ticks_from_the_origin() {
    let common = Common::with_nanos(0, 7, 64, 1_000_000_000, 3, wall(), secs(1000)).unwrap();
    // origin at 997 s, a ring of four places
    assert_eq!(common.tick_origin(), secs(997));
    assert_eq!(common.range(secs(997), secs(997)), (0, 0));
    assert_eq!(common.range(secs(998), secs(999)), (1, 2));
    assert_eq!(common.range(millis(998_999), millis(999_998)), (1, 1));
    assert_eq!(common.range(millis(998_999), millis(999_999)), (1, 2));
    assert_eq!(common.range(secs(1000), secs(1002)), (3, 1));
    assert_eq!(common.range(secs(1001), secs(1001)), (0, 0));
    assert_eq!(common.range(secs(1002), secs(1010)), (1, 0));
    // before the origin is the first place
    assert_eq!(common.range(secs(990), secs(992)), (0, 2));
    assert_eq!(common.range(secs(0), secs(997)), (0, 3));
    assert_eq!(common.range(secs(999), secs(998)), (2, 2));
    assert_eq!(common.slot(997_000_000_000), 0);
    assert_eq!(common.slot(-5), 0);
    assert_eq!(common.slot(1_003_500_000_000), 2);
    assert_eq!(common.range_between(-3_000_000_000, -1_000_000_000), (0, 2));
}

#[test]
fn rotation_names_the_next_tick_and_the_place() {
    let common = Common::with_nanos(0, 7, 64, 1_000_000_000, 3, wall(), secs(1000)).unwrap();
    assert_eq!(common.rotation(secs(998)), (secs(999), 0));
    assert_eq!(common.rotation(secs(1000)), (secs(1001), 0));
    assert_eq!(common.rotation(secs(1001)), (secs(1002), 1));
    assert_eq!(common.rotation(secs(1002)), (secs(1003), 2));
    assert_eq!(common.rotation(secs(1003)), (secs(1004), 3));
    assert_eq!(common.rotation(secs(1004)), (secs(1005), 0));
}

#[test]
fn builder_moves_the_window() {
    let builder = Builder::new(
        0,
        2,
        8,
        core::time::Duration::from_secs(1),
        3,
        UnixInstant::from_nanos(5_000_000_000_000),
        secs(1000),
    )
    .unwrap();
    assert_eq!(builder.common().tick_origin(), secs(997));
    assert_eq!(builder.config().params(), (0, 2, 8));
    let window = builder.build().unwrap();
    assert_eq!(window.common().tick_origin(), secs(997));
    assert_eq!(window.common().started(), UnixInstant::from_nanos(5_000_000_000_000));
    assert_eq!(window.tick_at(), secs(998));

    let builder = Builder::new(
        0,
        2,
        8,
        core::time::Duration::from_secs(1),
        3,
        UnixInstant::from_nanos(5_000_000_000_000),
        secs(1000),
    )
    .unwrap();
    let window = builder.start_instant(secs(100)).build().unwrap();
    assert_eq!(window.common().tick_origin(), secs(100));
    assert_eq!(
        window.common().started(),
        UnixInstant::from_nanos(5_000_000_000_000 - 897_000_000_000)
    );
    assert_eq!(window.tick_at(), secs(101));
    assert_eq!(window.common().num_slices(), 4);

    let builder = Builder::new(
        0,
        2,
        8,
        core::time::Duration::from_secs(1),
        3,
        UnixInstant::from_nanos(5_000_000_000_000),
        secs(1000),
    )
    .unwrap();
    let window = builder
        .start_unix(UnixInstant::from_nanos(5_003_000_000_000))
        .build_atomic()
        .unwrap();
    assert_eq!(window.common().tick_origin(), secs(1000));
    assert_eq!(
        window.common().started(),
        UnixInstant::from_nanos(5_003_000_000_000)
    );
    assert_eq!(window.tick_at(), secs(1001));

    assert!(matches!(
        Builder::new(
            0,
            2,
            8,
            core::time::Duration::from_nanos(10),
            3,
            wall(),
            secs(1000)
        ),
        Err(BuildError::ResolutionTooSmall)
    ));
}

fn small_window() -> standard::Histogram {
    // ticks of a second, three slices, origin at 997 s, first tick until 998 s
    standard::Histogram::new(
        0,
        2,
        8,
        core::time::Duration::from_secs(1),
        3,
        wall(),
        secs(1000),
    )
    .unwrap()
}

#[test]
fn standard_window_counts_into_the_live_histogram() {
    let mut window = small_window();
    assert_eq!(window.tick_at(), secs(998));
    assert_eq!(window.add_at(millis(997_500), 1, 2), Ok(()));
    assert_eq!(window.increment_at(millis(997_900), 3), Ok(()));
    assert_eq!(window.tick_at(), secs(998));
    assert_eq!(counts_of(window.live()), vec![(1, 2), (3, 1)]);
    assert_eq!(window.add_at(millis(997_950), 256, 1), Err(Error::OutOfRange));
    assert_eq!(counts_of(window.live()), vec![(1, 2), (3, 1)]);
}

#[test]
fn standard_window_moves_one_tick_at_a_time() {
    let mut window = small_window();
    window.add_at(millis(997_500), 1, 1).unwrap();
    // ten seconds later: the window still moves by one tick only
    window.add_at(secs(1010), 2, 1).unwrap();
    assert_eq!(window.tick_at(), secs(999));
    window.advance(secs(1010));
    assert_eq!(window.tick_at(), secs(1000));
    window.advance(secs(999));
    assert_eq!(window.tick_at(), secs(1000));
    // a value that is refused still moves the window
    assert_eq!(window.add_at(secs(1000), 256, 1), Err(Error::OutOfRange));
    assert_eq!(window.tick_at(), secs(1001));
}

#[test]
fn standard_window_differences_of_readings() {
    let mut window = small_window();
    window.add_at(millis(997_500), 1, 1).unwrap();
    window.add_at(secs(998), 2, 1).unwrap();
    window.add_at(secs(999), 3, 1).unwrap();
    window.add_at(secs(1000), 4, 1).unwrap();
    window.add_at(secs(1001), 5, 1).unwrap();
    window.add_at(secs(1002), 6, 1).unwrap();
    assert_eq!(window.tick_at(), secs(1003));
    assert_eq!(
        counts_of(window.live()),
        vec![(1, 1), (2, 1), (3, 1), (4, 1), (5, 1), (6, 1)]
    );

    // the rotations at 1001 s and 1002 s wrote to the places 1 and 2
    assert_eq!(window.range(secs(998), secs(999)), (1, 2));
    let between = window.distribution_between(secs(998), secs(999)).unwrap();
    assert_eq!(counts_of(&between), vec![(5, 1)]);
    assert_eq!(between.total_count(), 1);
    assert_eq!(
        window.percentiles_between(secs(998), secs(999), &[50 * PERCENT]),
        Ok(vec![(
            50 * PERCENT,
            Bucket {
                count: 1,
                lower: 5,
                upper: 5
            }
        )])
    );

    // the same place at both ends: nothing in between
    let nothing = window.distribution_between(secs(998), secs(998)).unwrap();
    assert_eq!(counts_of(&nothing), vec![]);
    assert_eq!(
        window.percentiles_between(secs(998), secs(998), &[50 * PERCENT]),
        Err(Error::Empty)
    );
    assert_eq!(
        window.percentiles_between(secs(999), secs(998), &[50 * PERCENT]),
        Err(Error::Empty)
    );

    // the last second before the current tick: the places 0 and 1
    assert_eq!(window.range(secs(1001), secs(1002)), (0, 1));
    let last = window.distribution_last(Duration::from_secs(1)).unwrap();
    assert_eq!(counts_of(&last), vec![(4, 1)]);
    assert_eq!(
        window.percentiles_last(Duration::from_secs(1), &[100 * PERCENT]),
        Ok(vec![(
            100 * PERCENT,
            Bucket {
                count: 1,
                lower: 4,
                upper: 4
            }
        )])
    );
}

#[test]
fn standard_window_over_the_whole_span() {
    let mut window = small_window();
    // nothing was counted: every place reads alike
    assert_eq!(window.percentiles(&[50 * PERCENT]), Err(Error::Empty));
    assert_eq!(window.percentile(50 * PERCENT), Err(Error::Empty));
    for (at, value) in [(998u64, 1u64), (999, 2), (1000, 3), (1001, 4), (1002, 5), (1003, 6), (1004, 7)] {
        window.add_at(secs(at), value, 1).unwrap();
    }
    assert_eq!(window.tick_at(), secs(1005));
    // the span of three ticks ends one tick before the one that begins next:
    // the newest reading holds the writes before 1004 s, the oldest those before 1001 s
    assert_eq!(window.range(secs(1002), secs(1005)), (1, 0));
    let whole = window.distribution_between(secs(1002), secs(1005)).unwrap();
    assert_eq!(counts_of(&whole), vec![(4, 1), (5, 1), (6, 1)]);
    assert_eq!(
        window.percentiles(&[0, 34 * PERCENT, 50 * PERCENT, 67 * PERCENT, 100 * PERCENT]),
        Ok(vec![
            (
                0,
                Bucket {
                    count: 0,
                    lower: 0,
                    upper: 0
                }
            ),
            (
                34 * PERCENT,
                Bucket {
                    count: 1,
                    lower: 5,
                    upper: 5
                }
            ),
            (
                50 * PERCENT,
                Bucket {
                    count: 1,
                    lower: 5,
                    upper: 5
                }
            ),
            (
                67 * PERCENT,
                Bucket {
                    count: 1,
                    lower: 6,
                    upper: 6
                }
            ),
            (
                100 * PERCENT,
                Bucket {
                    count: 1,
                    lower: 6,
                    upper: 6
                }
            )
        ])
    );
    assert_eq!(
        window.percentile(33 * PERCENT),
        Ok(Bucket {
            count: 1,
            lower: 4,
            upper: 4
        })
    );
    assert_eq!(
        window.percentile(100 * PERCENT),
        Ok(Bucket {
            count: 1,
            lower: 6,
            upper: 6
        })
    );
}

#[test]
fn standard_window_of_two_slices_counts_two_ticks() {
    // two slices of a second, one write of the value 1 in each of five seconds
    let mut window = standard::Histogram::new(
        0,
        2,
        8,
        core::time::Duration::from_secs(1),
        2,
        wall(),
        secs(1000),
    )
    .unwrap();
    assert_eq!(window.tick_at(), secs(999));
    for at in [998_500u64, 999_500, 1_000_500, 1_001_500, 1_002_500] {
        window.add_at(millis(at), 1, 1).unwrap();
    }
    assert_eq!(window.tick_at(), secs(1003));
    // over the whole span: the two ticks from 1000 s to 1002 s
    assert_eq!(
        window.percentiles(&[50 * PERCENT, 100 * PERCENT]),
        Ok(vec![
            (
                50 * PERCENT,
                Bucket {
                    count: 2,
                    lower: 1,
                    upper: 1
                }
            ),
            (
                100 * PERCENT,
                Bucket {
                    count: 2,
                    lower: 1,
                    upper: 1
                }
            )
        ])
    );
    assert_eq!(
        window.percentile(50 * PERCENT),
        Ok(Bucket {
            count: 2,
            lower: 1,
            upper: 1
        })
    );
    // the last second, the longest time that the ring answers for: from 1000 s to 1001 s
    let last = window.distribution_last(Duration::from_secs(1)).unwrap();
    assert_eq!(counts_of(&last), vec![(1, 1)]);
    assert_eq!(
        window.percentiles_last(Duration::from_secs(1), &[50 * PERCENT]),
        Ok(vec![(
            50 * PERCENT,
            Bucket {
                count: 1,
                lower: 1,
                upper: 1
            }
        )])
    );
    let none = window.distribution_last(Duration::from_secs(0)).unwrap();
    assert_eq!(counts_of(&none), vec![]);
}

#[test]
fn atomic_window_of_two_slices_counts_two_ticks() {
    let window = atomic::Histogram::new(
        0,
        2,
        8,
        core::time::Duration::from_secs(1),
        2,
        wall(),
        secs(1000),
    )
    .unwrap();
    for (at, value) in [
        (998_500u64, 1u64),
        (999_500, 2),
        (1_000_500, 3),
        (1_001_500, 4),
        (1_002_500, 5),
    ] {
        window.add_at(millis(at), value, 1).unwrap();
    }
    assert_eq!(window.tick_at(), secs(1003));
    // over the whole span: the writes from 1000 s to 1002 s
    assert_eq!(
        window.percentiles(&[50 * PERCENT, 100 * PERCENT]),
        Ok(vec![
            (
                50 * PERCENT,
                Bucket {
                    count: 1,
                    lower: 3,
                    upper: 3
                }
            ),
            (
                100 * PERCENT,
                Bucket {
                    count: 1,
                    lower: 4,
                    upper: 4
                }
            )
        ])
    );
    assert_eq!(
        window.percentile(100 * PERCENT),
        Ok(Bucket {
            count: 1,
            lower: 4,
            upper: 4
        })
    );
    let last = window.distribution_last(Duration::from_secs(1)).unwrap();
    assert_eq!(counts_of(&last), vec![(3, 1)]);
}

#[test]
fn atomic_window_counts_and_moves() {
    let window = atomic::Histogram::new(
        0,
        2,
        8,
        core::time::Duration::from_secs(1),
        3,
        wall(),
        secs(1000),
    )
    .unwrap();
    assert_eq!(window.tick_at(), secs(998));
    assert_eq!(window.add_at(millis(997_500), 1, 1), Ok(()));
    assert_eq!(window.tick_at(), secs(998));
    assert_eq!(window.add_at(secs(998), 2, 1), Ok(()));
    assert_eq!(window.tick_at(), secs(999));
    assert_eq!(window.increment_at(secs(1010), 3), Ok(()));
    assert_eq!(window.tick_at(), secs(1000));
    window.snapshot(secs(999));
    assert_eq!(window.tick_at(), secs(1000));
    assert_eq!(window.add_at(secs(1000), 256, 1), Err(Error::OutOfRange));
    assert_eq!(window.tick_at(), secs(1001));
    assert_eq!(window.add_at(secs(1001), 5, 1), Ok(()));
    assert_eq!(window.add_at(secs(1002), 6, 1), Ok(()));
    assert_eq!(window.tick_at(), secs(1003));

    let between = window.distribution_between(secs(998), secs(999)).unwrap();
    assert_eq!(counts_of(&between), vec![(5, 1)]);
    assert_eq!(
        window.percentiles_between(secs(998), secs(999), &[50 * PERCENT]),
        Ok(vec![(
            50 * PERCENT,
            Bucket {
                count: 1,
                lower: 5,
                upper: 5
            }
        )])
    );
    assert_eq!(
        window.percentiles_between(secs(998), secs(998), &[50 * PERCENT]),
        Err(Error::Empty)
    );
    // the places 0 and 1 were both written after the value 3 and before 5
    let last = window.distribution_last(Duration::from_secs(1)).unwrap();
    assert_eq!(counts_of(&last), vec![]);
    assert_eq!(
        window.percentiles_last(Duration::from_secs(1), &[100 * PERCENT]),
        Err(Error::Empty)
    );
    let longer = window.distribution_last(Duration::from_secs(2)).unwrap();
    assert_eq!(window.range(secs(1000), secs(1002)), (3, 1));
    assert_eq!(counts_of(&longer), vec![(1, 1), (2, 1), (3, 1)]);
    assert_eq!(
        window
            .percentiles_last(Duration::from_secs(2), &[100 * PERCENT])
            .map(|answer| answer[0].1.lower),
        Ok(3)
    );
    // over the whole span: the newest reading, written at 1002 s, less the place that
    // was never written
    assert_eq!(
        window.percentiles(&[50 * PERCENT, 100 * PERCENT]),
        Ok(vec![
            (
                50 * PERCENT,
                Bucket {
                    count: 1,
                    lower: 2,
                    upper: 2
                }
            ),
            (
                100 * PERCENT,
                Bucket {
                    count: 1,
                    lower: 5,
                    upper: 5
                }
            )
        ])
    );
    assert_eq!(
        window.percentile(50 * PERCENT),
        Ok(Bucket {
            count: 1,
            lower: 2,
            upper: 2
        })
    );
}

#[test]
fn windows_agree() {
    let mut single = small_window();
    let shared = atomic::Histogram::new(
        0,
        2,
        8,
        core::time::Duration::from_secs(1),
        3,
        wall(),
        secs(1000),
    )
    .unwrap();
    let mut at = 997_100u64;
    for step in 0..200u64 {
        at += 37 * (step % 11);
        let value = (step * 7) % 300;
        let count = step % 5;
        assert_eq!(
            single.add_at(millis(at), value, count),
            shared.add_at(millis(at), value, count)
        );
        assert_eq!(single.tick_at(), shared.tick_at());
    }
    for (start, end) in [(998u64, 999u64), (997, 1000), (1000, 1002), (1003, 1001), (990, 1020)] {
        assert_eq!(single.range(secs(start), secs(end)), shared.range(secs(start), secs(end)));
        assert_eq!(
            single
                .distribution_between(secs(start), secs(end))
                .unwrap()
                .as_slice(),
            shared
                .distribution_between(secs(start), secs(end))
                .unwrap()
                .as_slice()
        );
    }
    assert_eq!(
        single.percentiles(&[10 * PERCENT, 90 * PERCENT]),
        shared.percentiles(&[10 * PERCENT, 90 * PERCENT])
    );
}

#[test]
fn window_parameters_take_every_layout() {
    // the parameters of a window allocate nothing
    let common = Common::with_nanos(0, 62, 64, 1_000_000_000, 60, wall(), secs(1000)).unwrap();
    assert_eq!(common.num_slices(), 61);
    assert!(Common::new(
        0,
        63,
        64,
        core::time::Duration::from_secs(1),
        60,
        wall(),
        secs(1000)
    )
    .is_ok());
    let builder = Builder::new(
        0,
        62,
        64,
        core::time::Duration::from_secs(1),
        60,
        wall(),
        secs(1000),
    )
    .unwrap();
    assert_eq!(builder.config().params(), (0, 62, 64));
    // the windows allocate a counter for every bucket
    assert!(matches!(builder.build(), Err(BuildError::TooManyBuckets)));
    let builder = Builder::new(
        0,
        62,
        64,
        core::time::Duration::from_secs(1),
        60,
        wall(),
        secs(1000),
    )
    .unwrap();
    assert!(matches!(builder.build_atomic(), Err(BuildError::TooManyBuckets)));
    assert!(matches!(
        standard::Histogram::new(
            0,
            62,
            64,
            core::time::Duration::from_secs(1),
            60,
            wall(),
            secs(1000)
        ),
        Err(BuildError::TooManyBuckets)
    ));
    assert!(matches!(
        atomic::Histogram::new(
            0,
            62,
            64,
            core::time::Duration::from_secs(1),
            60,
            wall(),
            secs(1000)
        ),
        Err(BuildError::TooManyBuckets)
    ));
    // what is wrong with the window is said first
    assert!(matches!(
        standard::Histogram::new(
            0,
            62,
            64,
            core::time::Duration::from_nanos(1),
            60,
            wall(),
            secs(1000)
        ),
        Err(BuildError::ResolutionTooSmall)
    ));
}

#[test]
fn standard_window_counts_up_to_the_last_moment_of_the_clock() {
    // before the next tick nothing is added to the moment
    let mut window = standard::Histogram::new(
        0,
        2,
        8,
        core::time::Duration::from_secs(1),
        3,
        wall(),
        secs(1000),
    )
    .unwrap()
    ;
    assert_eq!(window.tick_at(), secs(998));
    assert_eq!(window.add_at(Instant::from_nanos(0), 1, 1), Ok(()));
    assert_eq!(window.tick_at(), secs(998));
    let last = Instant::from_nanos(u64::MAX);
    assert_eq!(window.add_at(last, 2, 1), Ok(()));
    assert_eq!(window.tick_at(), secs(999));
    assert_eq!(window.increment_at(last, 2), Ok(()));
    assert_eq!(window.tick_at(), secs(1000));
}

#[test]
fn window_needs_a_first_tick_that_the_clock_can_read() {
    let last = Instant::from_nanos(u64::MAX);
    assert!(matches!(
        standard::Histogram::new(0, 2, 8, core::time::Duration::from_micros(1), 0, wall(), last),
        Err(BuildError::ResolutionTooLarge)
    ));
    assert!(matches!(
        atomic::Histogram::new(0, 2, 8, core::time::Duration::from_micros(1), 0, wall(), last),
        Err(BuildError::ResolutionTooLarge)
    ));
    let builder =
        Builder::new(0, 2, 8, core::time::Duration::from_micros(1), 0, wall(), last).unwrap();
    assert!(matches!(builder.build(), Err(BuildError::ResolutionTooLarge)));
    let builder =
        Builder::new(0, 2, 8, core::time::Duration::from_micros(1), 0, wall(), last).unwrap();
    assert!(matches!(builder.build_atomic(), Err(BuildError::ResolutionTooLarge)));
    // too many buckets are said first
    assert!(matches!(
        standard::Histogram::new(0, 62, 64, core::time::Duration::from_micros(1), 0, wall(), last),
        Err(BuildError::TooManyBuckets)
    ));
    // with a slice, the first tick ends before the window does
    assert!(
        standard::Histogram::new(0, 2, 8, core::time::Duration::from_micros(1), 1, wall(), last)
            .is_ok()
    );
    // the builder may move the origin to the last moment of the clock
    let builder =
        Builder::new(0, 2, 8, core::time::Duration::from_secs(1), 3, wall(), secs(1000)).unwrap();
    let moved = builder.start_instant(last);
    assert_eq!(moved.common().tick_origin(), last);
    assert!(matches!(moved.build(), Err(BuildError::ResolutionTooLarge)));
}

#[test]
fn standard_window_reads_lag_by_one_tick() {
    // ticks of a second from 997 s on, a ring of four places, a write in every tick
    let mut window = small_window();
    let writes: [(u64, u64); 8] = [
        (997_500, 1),
        (998_200, 2),
        (999_100, 3),
        (1_000_300, 4),
        (1_001_400, 5),
        (1_002_600, 6),
        (1_003_200, 7),
        (1_004_900, 8),
    ];
    for (at, value) in writes {
        window.add_at(millis(at), value, 1).unwrap();
    }
    assert_eq!(window.tick_at(), secs(1005));
    // what is read from 1002 s to 1004 s was counted from 1001 s to 1003 s
    let read = window.distribution_between(secs(1002), secs(1004)).unwrap();
    assert_eq!(counts_of(&read), vec![(5, 1), (6, 1)]);
    let read = window.distribution_between(secs(1002), secs(1003)).unwrap();
    assert_eq!(counts_of(&read), vec![(5, 1)]);
    let read = window.distribution_between(secs(1003), secs(1005)).unwrap();
    assert_eq!(counts_of(&read), vec![(6, 1), (7, 1)]);
    let read = window.distribution_between(secs(1004), secs(1004)).unwrap();
    assert_eq!(counts_of(&read), vec![]);
    // the last second before the current tick
    let read = window.distribution_last(Duration::from_secs(1)).unwrap();
    assert_eq!(counts_of(&read), vec![(6, 1)]);
    assert_eq!(
        window.percentiles_between(secs(1002), secs(1004), &[50 * PERCENT, 100 * PERCENT]),
        Ok(vec![
            (
                50 * PERCENT,
                Bucket {
                    count: 1,
                    lower: 5,
                    upper: 5
                }
            ),
            (
                100 * PERCENT,
                Bucket {
                    count: 1,
                    lower: 6,
                    upper: 6
                }
            )
        ])
    );
}
