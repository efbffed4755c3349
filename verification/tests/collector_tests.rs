use quantum_pulse::{CategoryInfo, DefaultCategory, ProfileCollector};

#[test]
fn test_record_and_retrieve() {
    let mut c = ProfileCollector::new();

    c.record("test_record_and_retrieve", 1000);
    c.record("test_record_and_retrieve", 2000);
    c.record("test_record_and_retrieve", 1500);

    let stats = c.get_stats("test_record_and_retrieve");
    assert!(stats.is_some());

    let stats = stats.unwrap();
    assert_eq!(stats.count, 3);
    assert_eq!(stats.total_micros, 4500);
    assert_eq!(stats.mean(), 1500);
}

#[test]
fn test_multiple_operations() {
    let mut c = ProfileCollector::new();

    c.record("multiple_op1", 100);
    c.record("multiple_op2", 200);
    c.record("multiple_op1", 150);

    let stats1 = c.get_stats("multiple_op1").unwrap();
    let stats2 = c.get_stats("multiple_op2").unwrap();

    assert_eq!(stats1.count, 2);
    assert_eq!(stats2.count, 1);

    let all_stats = c.get_all_stats();
    assert_eq!(all_stats.len(), 2);
}

#[test]
fn test_summary_stats() {
    let mut c = ProfileCollector::new();

    for i in 0..10 {
        c.record("summary_op1", 100 + i * 10);
    }

    for i in 0..5 {
        c.record("summary_op2", 200 + i * 20);
    }

    let summary = c.get_summary();
    assert_eq!(summary.total_operations, 15);
    assert_eq!(summary.unique_operations, 2);
    assert!(summary.total_time_micros > 0);
}

#[test]
fn test_has_data() {
    let mut c = ProfileCollector::new();
    assert!(!c.has_data());

    c.record("test", 100);
    assert!(c.has_data());
}

#[test]
fn test_total_operations() {
    let mut c = ProfileCollector::new();
    assert_eq!(c.total_operations(), 0);

    c.record("op1", 100);
    c.record("op1", 200);
    c.record("op2", 300);

    assert_eq!(c.total_operations(), 3);
}

#[test]
fn test_min_max_tracking() {
    let mut c = ProfileCollector::new();

    c.record("mm", 500);
    c.record("mm", 100);
    c.record("mm", 900);

    let stats = c.get_stats("mm").unwrap();
    assert_eq!(stats.min_time_micros, 100);
    assert_eq!(stats.max_time_micros, 900);
    assert_eq!(stats.total_micros, 1500);
    assert_eq!(stats.count, 3);
}

#[test]
fn test_record_order_irrelevant() {
    let mut a = ProfileCollector::new();
    let mut b = ProfileCollector::new();

    for d in [30u64, 10, 20, 40] {
        a.record("k", d);
    }
    for d in [40u64, 20, 10, 30] {
        b.record("k", d);
    }

    let sa = a.get_stats("k").unwrap();
    let sb = b.get_stats("k").unwrap();
    assert_eq!(sa.count, sb.count);
    assert_eq!(sa.total_micros, sb.total_micros);
    assert_eq!(sa.min_time_micros, sb.min_time_micros);
    assert_eq!(sa.max_time_micros, sb.max_time_micros);
}

#[test]
fn test_pause_drops_recordings() {
    let mut c = ProfileCollector::new();

    c.record("pause_test", 100);
    assert_eq!(c.get_stats("pause_test").unwrap().count, 1);

    c.pause();
    assert!(c.is_paused());

    c.record("pause_test", 100);
    c.record("pause_test", 100);
    assert_eq!(c.get_stats("pause_test").unwrap().count, 1);

    c.unpause();
    assert!(!c.is_paused());

    c.record("pause_test", 100);
    assert_eq!(c.get_stats("pause_test").unwrap().count, 2);
}

#[test]
fn test_clear_all_resets_pause_state() {
    let mut c = ProfileCollector::new();
    c.record("x", 10);
    c.pause();
    assert!(c.is_paused());

    c.clear_all();
    assert!(!c.is_paused());
    assert!(!c.has_data());
    assert_eq!(c.total_operations(), 0);
    assert!(c.get_all_stats().is_empty());

    c.record("x", 10);
    assert_eq!(c.get_stats("x").unwrap().count, 1);
}

#[test]
fn test_reset_all_keeps_keys() {
    let mut c = ProfileCollector::new();
    c.record("a", 10);
    c.record("b", 20);

    c.reset_all();

    let stats = c.get_stats("a").unwrap();
    assert_eq!(stats.count, 0);
    assert_eq!(stats.total_micros, 0);
    assert_eq!(c.get_all_stats().len(), 2);
    assert!(!c.has_data());
}

#[test]
fn test_reset_operation_removes_key() {
    let mut c = ProfileCollector::new();
    c.record("a", 10);
    c.record("b", 20);

    c.reset_operation("a");

    assert!(c.get_stats("a").is_none());
    assert_eq!(c.get_stats("b").unwrap().count, 1);
}

#[test]
fn test_category_first_writer_wins() {
    let mut c = ProfileCollector::new();
    let cat_a = CategoryInfo::from_category(&DefaultCategory::IO);
    let cat_b = CategoryInfo::from_category(&DefaultCategory::Compute);

    c.record_with_category("k", cat_a.clone(), 100);
    c.record_with_category("k", cat_b, 200);

    let got = c.get_category("k").unwrap();
    assert_eq!(got.name, cat_a.name);
    assert_eq!(got.priority, cat_a.priority);
    assert_eq!(c.get_stats("k").unwrap().count, 2);
}

#[test]
fn test_get_category_unknown_key() {
    let c = ProfileCollector::new();
    assert!(c.get_category("nope").is_none());
}

#[test]
fn test_percentiles_small_values() {
    let mut c = ProfileCollector::new();
    for d in 1..=100u64 {
        c.record("pct", d);
    }

    let stats = c.get_stats("pct").unwrap();
    assert_eq!(stats.p50_micros(), 50);
    assert_eq!(stats.p95_micros(), 95);
    assert_eq!(stats.p99_micros(), 99);
    assert_eq!(stats.p999_micros(), 100);
    assert!(stats.p50_micros() <= stats.p95_micros());
    assert!(stats.p95_micros() <= stats.p99_micros());
    assert!(stats.p99_micros() <= stats.p999_micros());
}

#[test]
fn test_empty_stats_are_zero() {
    let mut c = ProfileCollector::new();
    c.record("z", 7);
    c.reset_all();

    let stats = c.get_stats("z").unwrap();
    assert_eq!(stats.count, 0);
    assert_eq!(stats.mean(), 0);
    assert_eq!(stats.p50_micros(), 0);
    assert_eq!(stats.p999_micros(), 0);
    assert_eq!(stats.min_time_micros, 0);
    assert_eq!(stats.max_time_micros, 0);
}

#[test]
fn test_mean_and_std_dev_formulas() {
    let mut c = ProfileCollector::new();
    c.record("f", 100);
    c.record("f", 300);

    let stats = c.get_stats("f").unwrap();
    assert_eq!(stats.mean(), 200);
    assert_eq!(stats.mean_time_micros(), 200);
    assert_eq!(stats.total_time_micros(), 400);
    // spread: (300 - 100) / 4 = 50; tenth of mean: 20; the larger wins
    assert_eq!(stats.std_dev_micros(), 50);
}

#[test]
fn test_zero_duration_is_valid() {
    let mut c = ProfileCollector::new();
    c.record("zero", 0);

    let stats = c.get_stats("zero").unwrap();
    assert_eq!(stats.count, 1);
    assert_eq!(stats.total_micros, 0);
    assert_eq!(stats.min_time_micros, 0);
    assert_eq!(stats.max_time_micros, 0);
}

#[test]
fn test_summary_busiest_and_slowest() {
    let mut c = ProfileCollector::new();
    c.record("busy", 10);
    c.record("busy", 10);
    c.record("busy", 10);
    c.record("slow", 5000);

    let summary = c.get_summary();
    assert_eq!(summary.busiest_operation.as_deref(), Some("busy"));
    assert_eq!(summary.busiest_count, 3);
    assert_eq!(summary.slowest_operation.as_deref(), Some("slow"));
    assert!(summary.slowest_p99_micros >= 5000);
}
