use measures_canvas::measures::MeasuresData;
use measures_canvas::scale::{scale_count, scale_ticks};
use measures_canvas::stats::{count_displayed_points, group_thousands};
use measures_canvas::types::{measures_request, processes_request};

#[test]
fn thousands_grouping() {
    assert_eq!(group_thousands(0), "0");
    assert_eq!(group_thousands(999), "999");
    assert_eq!(group_thousands(1000), "1,000");
    assert_eq!(group_thousands(1_234_567), "1,234,567");
    assert_eq!(group_thousands(100_005), "100,005");
    assert_eq!(group_thousands(u64::MAX), "18,446,744,073,709,551,615");
}

#[test]
fn counts_drawn_points_over_series() {
    let mut data = MeasuresData::new();
    for (t, v) in [(0, 1), (50, 2), (150, 3), (300, 4)] {
        data.fold_measure(&"a".to_string(), t, v, &"u".to_string());
    }
    for (t, v) in [(1000, 1), (2000, 2)] {
        data.fold_measure(&"b".to_string(), t, v, &"u".to_string());
    }
    assert_eq!(count_displayed_points(&data, 40, 140), 3);
    assert_eq!(count_displayed_points(&data, 60, 140), 0);
    assert_eq!(count_displayed_points(&data, -1, 5000), 6);
}

#[test]
fn tick_counts() {
    assert_eq!(scale_count(0), 1);
    assert_eq!(scale_count(203), 1);
    assert_eq!(scale_count(408), 2);
    assert_eq!(scale_count(1020), 5);
    assert_eq!(scale_count(u64::MAX), i32::MAX);
}

#[test]
fn ticks_snap_to_interval() {
    assert_eq!(scale_ticks(1050, 2050, 4), Some(vec![1250, 1500, 1750, 2000]));
    assert_eq!(scale_ticks(-130, 70, 2), Some(vec![-100, 0]));
    assert_eq!(scale_ticks(0, 3, 4), None);
    assert_eq!(scale_ticks(10, 0, 1), None);
    assert_eq!(scale_ticks(i64::MIN, i64::MAX, 1), None);
    assert_eq!(scale_ticks(i64::MAX - 10, i64::MAX, 2), Some(vec![i64::MAX - 7, i64::MAX - 2]));
}

#[test]
fn requests() {
    let q = measures_request("p-1", "a".to_string(), "b".to_string());
    assert!(q.sql.contains("WHERE process_id = 'p-1'"));
    assert!(q.sql.contains("ORDER BY time asc"));
    assert_eq!(q.begin.as_deref(), Some("a"));
    assert_eq!(q.end.as_deref(), Some("b"));
    assert_eq!(processes_request("x".to_string()).process_id, "x");
}
