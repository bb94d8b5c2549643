use measures_canvas::lod::{compute_lod, compute_segment_duration, compute_segment_index, Timestamp};
use measures_canvas::palette::get_color;

fn at(secs: i64, subsec_nanos: u32) -> Timestamp {
    Timestamp { secs, subsec_nanos }
}

#[test]
fn lod_values() {
    assert_eq!(compute_lod(-5), 0);
    assert_eq!(compute_lod(0), 0);
    assert_eq!(compute_lod(1), 0);
    assert_eq!(compute_lod(999), 0);
    assert_eq!(compute_lod(100_000), 3);
    assert_eq!(compute_lod(1000), 1);
    assert_eq!(compute_lod(9999), 1);
    assert_eq!(compute_lod(10_000), 2);
    assert_eq!(compute_lod(86_400_000), 5);
    assert_eq!(compute_lod(i64::MAX), 16);
}

#[test]
fn lod_is_monotonic_on_samples() {
    let durations = [i64::MIN, -1, 0, 1, 99, 100, 101, 999, 1000, 123_456, 10_i64.pow(12), i64::MAX];
    for pair in durations.windows(2) {
        assert!(compute_lod(pair[0]) <= compute_lod(pair[1]));
    }
}

#[test]
fn segment_durations() {
    assert_eq!(compute_segment_duration(0), 100);
    assert_eq!(compute_segment_duration(1), 1000);
    assert_eq!(compute_segment_duration(3), 100_000);
    assert_eq!(compute_segment_duration(16), 1_000_000_000_000_000_000);
}

#[test]
fn timestamp_nanos() {
    assert_eq!(at(1, 5).timestamp_nanos_opt(), Some(1_000_000_005));
    assert_eq!(at(-1, 500_000_000).timestamp_nanos_opt(), Some(-500_000_000));
    assert_eq!(at(i64::MAX / 1_000_000_000, 0).timestamp_nanos_opt(), Some(9_223_372_036_000_000_000));
    assert_eq!(at(i64::MAX / 1_000_000_000 + 1, 0).timestamp_nanos_opt(), None);
    assert_eq!(at(-9_223_372_037, 0).timestamp_nanos_opt(), None);
}

#[test]
fn segment_index_range() {
    // lod 0: segments of 100 ms
    let r = compute_segment_index(at(1, 0), at(2, 350_000_000), 0).unwrap();
    assert_eq!((r.start, r.end), (10, 23));
    // times before the epoch round down
    let r = compute_segment_index(at(-1, 950_000_000), at(0, 50_000_000), 0).unwrap();
    assert_eq!((r.start, r.end), (-1, 0));
    // equal ends give an empty range
    let r = compute_segment_index(at(5, 0), at(5, 0), 2).unwrap();
    assert_eq!(r.start, r.end);
}

#[test]
fn segment_index_unavailable() {
    // segment of 10^19 ns does not fit
    assert!(compute_segment_index(at(0, 0), at(1, 0), 11).is_none());
    assert!(compute_segment_index(at(0, 0), at(1, 0), 10).is_some());
    // an instant out of the nanosecond range
    assert!(compute_segment_index(at(10_000_000_000, 0), at(10_000_000_001, 0), 0).is_none());
}

#[test]
fn segment_range_not_reversed() {
    let pairs = [(-3_000, 7), (0, 0), (1, 2_000_000_000), (1_700_000_000, 1_700_000_100)];
    for lod in 0..=10 {
        for (b, e) in pairs {
            let r = compute_segment_index(at(b, 0), at(e, 0), lod).unwrap();
            assert!(r.start <= r.end);
        }
    }
}

#[test]
fn color_cycles_after_five_series() {
    let colors: Vec<&str> = (0..7).map(get_color).collect();
    assert_eq!(colors[5], colors[0]);
    assert_eq!(colors[6], colors[1]);
    assert_eq!(colors[0], "#ff00c1");
    assert_eq!(colors[4], "#00fff9");
    assert_ne!(colors[0], colors[1]);
}
