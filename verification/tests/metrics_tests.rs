use quantum_pulse::{DefaultCategory, MetricDefinition, MetricRegistry, MetricRegistryError, MetricSetBuilder};

#[test]
fn test_metric_definition() {
    let metric = MetricDefinition::new("test_metric", "Test Metric", DefaultCategory::IO)
        .with_description("A test metric for I/O operations")
        .with_unit("microseconds")
        .with_tag("test")
        .with_tags(vec!["performance".to_string(), "critical".to_string()]);

    assert_eq!(metric.id, "test_metric");
    assert_eq!(metric.name, "Test Metric");
    assert_eq!(metric.category, DefaultCategory::IO);
    assert_eq!(
        metric.description,
        Some("A test metric for I/O operations".to_string())
    );
    assert_eq!(metric.unit, Some("microseconds".to_string()));
    assert_eq!(metric.tags.len(), 3);
    assert!(metric.tags.contains(&"test".to_string()));
    assert!(metric.tags.contains(&"performance".to_string()));
    assert!(metric.tags.contains(&"critical".to_string()));
}

#[test]
fn test_metric_registry() {
    let mut registry = MetricRegistry::new();

    let metric1 = MetricDefinition::new("metric1", "Metric 1", DefaultCategory::IO);
    let metric2 = MetricDefinition::new("metric2", "Metric 2", DefaultCategory::Compute);

    registry.register(metric1).unwrap();
    registry.register(metric2).unwrap();

    assert_eq!(registry.len(), 2);
    assert!(!registry.is_empty());

    let retrieved = registry.get("metric1");
    assert!(retrieved.is_some());
    assert_eq!(retrieved.unwrap().name, "Metric 1");

    let io_metrics = registry.get_by_category(&DefaultCategory::IO);
    assert_eq!(io_metrics.len(), 1);
    assert_eq!(io_metrics[0].id, "metric1");

    let ids = registry.ids();
    assert_eq!(ids.len(), 2);
    assert!(ids.contains(&"metric1".to_string()));
    assert!(ids.contains(&"metric2".to_string()));
}

#[test]
fn test_duplicate_metric_error() {
    let mut registry = MetricRegistry::new();

    let metric1 = MetricDefinition::new("same_id", "Metric 1", DefaultCategory::IO);
    let metric2 = MetricDefinition::new("same_id", "Metric 2", DefaultCategory::Compute);

    registry.register(metric1).unwrap();
    let result = registry.register(metric2);

    assert!(result.is_err());
    match result.unwrap_err() {
        MetricRegistryError::DuplicateMetric(id) => assert_eq!(id, "same_id"),
        _ => panic!("Expected DuplicateMetric error"),
    }
}

#[test]
fn test_metric_set_builder() {
    let mut registry = MetricRegistry::new();

    let metrics = MetricSetBuilder::new()
        .metric("op1", "Operation 1", DefaultCategory::IO)
        .metric("op2", "Operation 2", DefaultCategory::Compute)
        .metric_full(
            "op3",
            "Operation 3",
            DefaultCategory::Memory,
            "Memory allocation operation",
            "bytes",
        )
        .build();

    assert_eq!(metrics.len(), 3);

    registry.register_all(metrics).unwrap();
    assert_eq!(registry.len(), 3);

    let op3 = registry.get("op3").unwrap();
    assert_eq!(
        op3.description,
        Some("Memory allocation operation".to_string())
    );
    assert_eq!(op3.unit, Some("bytes".to_string()));
}

#[test]
fn test_get_by_tag() {
    let mut registry = MetricRegistry::new();

    let metric1 =
        MetricDefinition::new("m1", "Metric 1", DefaultCategory::IO).with_tag("critical");
    let metric2 = MetricDefinition::new("m2", "Metric 2", DefaultCategory::Compute)
        .with_tag("performance");
    let metric3 = MetricDefinition::new("m3", "Metric 3", DefaultCategory::Memory)
        .with_tags(vec!["critical".to_string(), "performance".to_string()]);

    registry
        .register_all(vec![metric1, metric2, metric3])
        .unwrap();

    let critical = registry.get_by_tag("critical");
    assert_eq!(critical.len(), 2);

    let performance = registry.get_by_tag("performance");
    assert_eq!(performance.len(), 2);
}

#[test]
fn test_unregister_and_clear() {
    let mut registry = MetricRegistry::new();

    let metric = MetricDefinition::new("test", "Test", DefaultCategory::IO);
    registry.register(metric).unwrap();

    assert_eq!(registry.len(), 1);

    let removed = registry.unregister("test");
    assert!(removed.is_some());
    assert_eq!(registry.len(), 0);

    registry
        .register(MetricDefinition::new("m1", "M1", DefaultCategory::IO))
        .unwrap();
    registry
        .register(MetricDefinition::new("m2", "M2", DefaultCategory::Compute))
        .unwrap();

    assert_eq!(registry.len(), 2);

    registry.clear();
    assert_eq!(registry.len(), 0);
    assert!(registry.is_empty());
}

#[test]
fn test_registry_error_message() {
    let e = MetricRegistryError::DuplicateMetric("abc".to_string());
    assert_eq!(e.message(), "Metric with ID 'abc' already exists");
}
