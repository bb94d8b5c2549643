use measures_canvas::search::{binary_search_by_with_index, find_closest_measure};
use std::cmp::Ordering;

#[test]
fn closest_prefers_sample_after_crossing() {
    let samples = [(0i64, 1.0f64), (100, 2.0), (200, 3.0)];
    assert_eq!(find_closest_measure(&samples, 150), Some((200, 3.0)));
}

#[test]
fn closest_of_empty_is_none() {
    let samples: [(i64, f64); 0] = [];
    assert_eq!(find_closest_measure(&samples, 0), None);
    assert_eq!(find_closest_measure(&samples, i64::MAX), None);
}

#[test]
fn closest_before_all_samples_is_first() {
    let samples = [(10i64, 1.0f64), (20, 2.0), (30, 3.0)];
    assert_eq!(find_closest_measure(&samples, -5), Some((10, 1.0)));
    assert_eq!(find_closest_measure(&samples, 10), Some((10, 1.0)));
}

#[test]
fn closest_beyond_all_samples_is_last() {
    let samples = [(10i64, 1.0f64), (20, 2.0), (30, 3.0)];
    assert_eq!(find_closest_measure(&samples, 31), Some((30, 3.0)));
    assert_eq!(find_closest_measure(&samples, i64::MAX), Some((30, 3.0)));
}

#[test]
fn closest_on_exact_time_is_that_sample() {
    let samples = [(10i64, 1.0f64), (20, 2.0), (30, 3.0), (40, 4.0)];
    assert_eq!(find_closest_measure(&samples, 20), Some((20, 2.0)));
    assert_eq!(find_closest_measure(&samples, 21), Some((30, 3.0)));
}

#[test]
fn closest_with_single_sample() {
    let samples = [(7i64, 5.5f64)];
    assert_eq!(find_closest_measure(&samples, 0), Some((7, 5.5)));
    assert_eq!(find_closest_measure(&samples, 100), Some((7, 5.5)));
}

#[test]
fn closest_with_duplicate_times() {
    let samples = [(10i64, 1.0f64), (20, 2.0), (20, 2.5), (30, 3.0)];
    assert_eq!(find_closest_measure(&samples, 15), Some((20, 2.0)));
    assert_eq!(find_closest_measure(&samples, 25), Some((30, 3.0)));
}

#[test]
fn binary_search_finds_insertion_points() {
    let data = [1i64, 3, 5, 7, 9];
    let find = |x: i64| binary_search_by_with_index(&data, |_, v: &i64| v.cmp(&x));
    assert_eq!(find(5), Ok(2));
    assert_eq!(find(0), Err(0));
    assert_eq!(find(4), Err(2));
    assert_eq!(find(10), Err(5));
    let empty: [i64; 0] = [];
    assert_eq!(binary_search_by_with_index(&empty, |_, v: &i64| v.cmp(&0)), Err(0));
}
