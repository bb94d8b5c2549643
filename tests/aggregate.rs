use measures_canvas::measures::{parse_time_ns, Measure, MeasuresData};

fn row(target: &str, time: &str, value: i64, unit: &str) -> Measure {
    Measure {
        target: target.to_string(),
        time: time.to_string(),
        value,
        unit: unit.to_string(),
    }
}

#[test]
fn parse_rfc3339_times() {
    assert_eq!(parse_time_ns(&"1970-01-01T00:00:01Z".to_string()), Some(1_000_000_000));
    assert_eq!(
        parse_time_ns(&"2024-01-01T00:00:00.5+01:00".to_string()),
        Some(1_704_063_600_500_000_000)
    );
    assert_eq!(parse_time_ns(&"yesterday".to_string()), None);
    assert_eq!(parse_time_ns(&"3000-01-01T00:00:00Z".to_string()), None);
}

#[test]
fn fold_keeps_first_seen_order_and_bounds() {
    let rows = vec![
        row("cpu", "1970-01-01T00:00:02Z", 5, "%"),
        row("mem", "1970-01-01T00:00:01Z", 100, "MB"),
        row("cpu", "1970-01-01T00:00:03Z", -2, "ignored"),
        row("cpu", "not a time", 50, "%"),
        row("cpu", "1970-01-01T00:00:01Z", 9, "%"),
    ];
    let mut data = MeasuresData::new();
    data.fold_measures(&rows);
    assert_eq!(data.series.len(), 2);
    let (name, cpu) = &data.series[0];
    assert_eq!(name, "cpu");
    assert_eq!(cpu.unit, "%");
    assert_eq!(
        cpu.measures,
        vec![(2_000_000_000, 5), (3_000_000_000, -2), (1_000_000_000, 9)]
    );
    assert_eq!((cpu.min, cpu.max), (-2, 9));
    assert_eq!((cpu.start, cpu.end), (1_000_000_000, 3_000_000_000));
    for (t, v) in &cpu.measures {
        assert!(cpu.min <= *v && *v <= cpu.max);
        assert!(cpu.start <= *t && *t <= cpu.end);
    }
    let (name, mem) = &data.series[1];
    assert_eq!(name, "mem");
    assert_eq!((mem.min, mem.max, mem.start, mem.end), (100, 100, 1_000_000_000, 1_000_000_000));
    assert_eq!(data.position(&"mem".to_string()), Some(1));
    assert_eq!(data.position(&"disk".to_string()), None);
}

#[test]
fn fold_single_sample_seeds_set() {
    let mut data = MeasuresData::new();
    data.fold_measure(&"io".to_string(), 42, 7, &"ops".to_string());
    let (_, io) = &data.series[0];
    assert_eq!(io.measures, vec![(42, 7)]);
    assert_eq!((io.min, io.max, io.start, io.end), (7, 7, 42, 42));
}
