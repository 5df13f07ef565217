use nexus_rate_limit::metrics::RateLimitMetrics;

#[test]
fn rate_limited_requests_are_recorded_in_samples() {
    let nexus_id = 0x1234_u128;
    let service_name = "test_service";
    let mut producer = RateLimitMetrics::new(nexus_id, service_name);

    assert_eq!(producer.produce().len(), 0);

    let policy_id = "some_policy";
    let operation_id = "some_endpoint";

    producer.record_limited_request(policy_id, operation_id);

    assert_eq!(producer.produce().len(), 1);
}

#[test]
fn limited_requests_are_counted_per_policy_and_operation() {
    let mut metrics = RateLimitMetrics::new(7, "svc");
    metrics.record_limited_request("p1", "op");
    metrics.record_limited_request("p1", "op");
    metrics.record_limited_request("p2", "op");
    assert_eq!(metrics.limited_request_count("p1", "op"), Some(2));
    assert_eq!(metrics.limited_request_count("p2", "op"), Some(1));
    assert_eq!(metrics.limited_request_count("p1", "other"), None);
    let mut samples: Vec<(String, String, u64)> = metrics
        .produce()
        .into_iter()
        .map(|s| (s.policy_id, s.operation_id, s.datum))
        .collect();
    samples.sort();
    assert_eq!(
        samples,
        vec![
            ("p1".to_string(), "op".to_string(), 2),
            ("p2".to_string(), "op".to_string(), 1),
        ]
    );
    assert_eq!(metrics.target_id(), 7);
    assert_eq!(metrics.target_name(), "svc");
}
