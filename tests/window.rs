use measures_canvas::measures::{get_max_measure_value, find_max_measure_value, MeasureSet};
use measures_canvas::window::{displayed_measures, is_displayed};

fn set_of(measures: Vec<(i64, i64)>) -> MeasureSet {
    let max = measures.iter().map(|m| m.1).max().unwrap();
    let min = measures.iter().map(|m| m.1).min().unwrap();
    MeasureSet {
        start: measures[0].0,
        end: measures[measures.len() - 1].0,
        measures,
        unit: "ms".to_string(),
        min,
        max,
    }
}

#[test]
fn window_without_inner_sample_draws_nothing() {
    // No sample, and so no neighbour, lies strictly inside (60, 140).
    let samples = [(0i64, 1.0f64), (50, 2.0), (150, 3.0)];
    assert!(displayed_measures(&samples, 60, 140).is_empty());
    assert!(!is_displayed(&samples, 1, 60, 140));
    let set = set_of(vec![(0, 1), (50, 2), (150, 3)]);
    assert_eq!(get_max_measure_value(&set, 60, 140), 3);
}

#[test]
fn neighbours_of_inner_sample_are_drawn() {
    let samples = [(0i64, 1.0f64), (50, 2.0), (150, 3.0), (300, 4.0)];
    assert_eq!(
        displayed_measures(&samples, 40, 140),
        vec![(0, 1.0), (50, 2.0), (150, 3.0)]
    );
    assert!(is_displayed(&samples, 0, 40, 140));
    assert!(!is_displayed(&samples, 3, 40, 140));
}

#[test]
fn window_bounds_are_exclusive() {
    let samples = [(0i64, 1.0f64), (100, 2.0), (200, 3.0)];
    assert!(displayed_measures(&samples, 0, 200).len() == 3);
    assert!(displayed_measures(&samples, 100, 200).is_empty());
}

#[test]
fn max_value_uses_slack_samples() {
    let set = set_of(vec![(0, 9), (50, 2), (100, 1), (150, 3), (400, 7)]);
    assert_eq!(get_max_measure_value(&set, 40, 60), 9);
    assert_eq!(get_max_measure_value(&set, 90, 110), 3);
    assert_eq!(get_max_measure_value(&set, 500, 600), 9);
}

#[test]
fn max_of_values() {
    assert_eq!(find_max_measure_value(&[]), None);
    assert_eq!(find_max_measure_value(&[3, -1, 8, 8, 2]), Some(8));
    assert_eq!(find_max_measure_value(&[-5]), Some(-5));
}
