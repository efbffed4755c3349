use quantum_pulse::{
    CategoryInfo, DefaultCategory, Percentile, ProfileCollector, ProfileReport, ReportBuilder,
    SortMetric, TimeFormat,
};

#[test]
fn test_time_format() {
    assert_eq!(TimeFormat::Microseconds.format_time(500), "500 µs");
    assert_eq!(TimeFormat::Milliseconds.format_time(1500), "1.50 ms");
    assert_eq!(TimeFormat::Seconds.format_time(1_500_000), "1.500 s");

    assert_eq!(TimeFormat::Auto.format_time(500), "500 µs");
    assert_eq!(TimeFormat::Auto.format_time(1500), "1.50 ms");
    assert_eq!(TimeFormat::Auto.format_time(1_500_000), "1.500 s");
}

#[test]
fn test_time_format_rounding() {
    // fractions round half-up in the last shown digit
    assert_eq!(TimeFormat::Milliseconds.format_time(1999), "2.00 ms");
    assert_eq!(TimeFormat::Milliseconds.format_time(1004), "1.00 ms");
    assert_eq!(TimeFormat::Milliseconds.format_time(1005), "1.01 ms");
    assert_eq!(TimeFormat::Seconds.format_time(2_000_500), "2.001 s");
    assert_eq!(TimeFormat::Microseconds.format_time(0), "0 µs");
}

#[test]
fn test_report_generation() {
    let mut c = ProfileCollector::new();

    let io = CategoryInfo::from_category(&DefaultCategory::IO);
    let compute = CategoryInfo::from_category(&DefaultCategory::Compute);
    c.record_with_category("test_op1", io.clone(), 1000);
    c.record_with_category("test_op1", io, 2000);
    c.record_with_category("test_op2", compute, 500);

    let report = ProfileReport::generate(&c);
    assert!(!report.stats.is_empty());

    let summary = report.quick_summary();
    assert!(summary.contains("Operations: 2"));
    assert!(summary.contains("Total calls: 3"));
}

#[test]
fn test_report_builder() {
    let mut c = ProfileCollector::new();

    c.record("test_op", 1000);

    let report = ReportBuilder::new()
        .include_percentiles(false)
        .sort_by_time(true)
        .min_samples(1)
        .group_by_category(false)
        .time_format(TimeFormat::Milliseconds)
        .build(&c);

    assert!(!report.config.include_percentiles);
    assert!(report.config.sort_by_time);
    assert_eq!(report.config.min_samples, 1);
    assert_eq!(report.config.time_format, TimeFormat::Milliseconds);
}

#[test]
fn test_csv_output() {
    let mut c = ProfileCollector::new();

    let io = CategoryInfo::from_category(&DefaultCategory::IO);
    c.record_with_category("csv_test", io, 1000);

    let report = ProfileReport::generate(&c);
    let csv = report.to_csv();

    assert!(csv.contains("Operation,Category,Count"));
    assert!(csv.contains("csv_test"));
    assert!(csv.contains("I/O"));
}

#[test]
fn test_top_operations() {
    let mut c = ProfileCollector::new();

    for i in 0..5 {
        c.record("op1", 100 * (i + 1));
    }
    for i in 0..3 {
        c.record("op2", 200 * (i + 1));
    }
    c.record("op3", 1000);

    let report = ProfileReport::generate(&c);
    let top_by_count = report.top_operations_by(SortMetric::Count, 2);

    assert_eq!(top_by_count.len(), 2);
    assert_eq!(top_by_count[0].0, "op1");
    assert_eq!(top_by_count[0].1.count, 5);
    assert_eq!(top_by_count[1].0, "op2");
}

#[test]
fn test_top_operations_tie_breaks_by_name() {
    let mut c = ProfileCollector::new();
    c.record("zebra", 100);
    c.record("apple", 100);

    let report = ProfileReport::generate(&c);
    let top = report.top_operations_by(SortMetric::TotalTime, 10);
    assert_eq!(top.len(), 2);
    assert_eq!(top[0].0, "apple");
    assert_eq!(top[1].0, "zebra");
}

#[test]
fn test_summary_stats_from_report() {
    let mut c = ProfileCollector::new();
    c.record("a", 100);
    c.record("a", 200);
    c.record("b", 400);

    let report = ProfileReport::generate(&c);
    let summary = report.summary_stats();
    assert_eq!(summary.total_operations, 3);
    assert_eq!(summary.unique_operations, 2);
    assert_eq!(summary.total_time_micros, 700);
    assert_eq!(summary.busiest_operation.as_deref(), Some("a"));
    assert_eq!(summary.busiest_count, 2);
}

#[test]
fn test_rows_in_category() {
    let mut c = ProfileCollector::new();
    let io = CategoryInfo::from_category(&DefaultCategory::IO);
    let compute = CategoryInfo::from_category(&DefaultCategory::Compute);
    c.record_with_category("disk_read", io.clone(), 1000);
    c.record_with_category("net_send", io, 2000);
    c.record_with_category("hash", compute, 300);
    c.record("stray", 50);

    let report = ProfileReport::generate(&c);

    let io_rows = report.rows_in_category("I/O");
    assert_eq!(io_rows.len(), 2);

    let compute_rows = report.rows_in_category("Compute");
    assert_eq!(compute_rows.len(), 1);
    assert_eq!(compute_rows[0].0, "hash");

    let uncategorized = report.rows_in_category("Uncategorized");
    assert_eq!(uncategorized.len(), 1);
    assert_eq!(uncategorized[0].0, "stray");
}

#[test]
fn test_min_samples_filter_in_csv() {
    let mut c = ProfileCollector::new();
    c.record("rare", 10);
    c.record("common", 10);
    c.record("common", 20);
    c.record("common", 30);

    let report = ReportBuilder::new().min_samples(2).build(&c);
    let csv = report.to_csv();
    assert!(csv.contains("common"));
    assert!(!csv.contains("rare"));
}

#[test]
fn test_sort_by_percentile_builder() {
    let c = ProfileCollector::new();
    let report = ReportBuilder::new()
        .sort_by_percentile(Percentile::P99)
        .max_operations(7)
        .include_empty(true)
        .include_summary(false)
        .build(&c);
    assert_eq!(report.config.sort_by_percentile, Some(Percentile::P99));
    assert_eq!(report.config.max_operations, 7);
    assert!(report.config.include_empty);
    assert!(!report.config.include_summary);
}

#[test]
fn test_empty_report() {
    let c = ProfileCollector::new();
    let report = ProfileReport::generate(&c);
    assert!(report.stats.is_empty());
    assert_eq!(report.summary_stats().total_operations, 0);
    assert!(report.summary_stats().busiest_operation.is_none());
    let csv = report.to_csv();
    assert!(csv.contains("Operation,Category,Count"));
    let summary = report.quick_summary();
    assert!(summary.contains("Operations: 0"));
    assert!(report.top_operations_by(SortMetric::Count, 5).is_empty());
}

#[test]
fn test_group_labels_sorted_by_priority() {
    let mut c = ProfileCollector::new();
    let io = CategoryInfo::from_category(&DefaultCategory::IO);
    let general = CategoryInfo::from_category(&DefaultCategory::General);
    let compute = CategoryInfo::from_category(&DefaultCategory::Compute);
    c.record_with_category("g", general, 10);
    c.record_with_category("c", compute, 10);
    c.record_with_category("i", io.clone(), 10);
    c.record_with_category("i2", io, 10);

    let report = ProfileReport::generate(&c);
    let labels = report.group_labels();
    let names: Vec<&str> = labels.iter().map(|l| l.name.as_str()).collect();
    assert_eq!(names, vec!["I/O", "Compute", "General"]);
}
