use pattern_engine::telemetry::Telemetry;

#[test]
fn test_telemetry_counters_and_per_symbol() {
    let mut tel = Telemetry::new();
    assert_eq!(tel.active_symbols(), 0);

    tel.record("AAPL", true, 100);
    tel.record("AAPL", false, 300);
    tel.record("MSFT", false, 500);

    assert_eq!(tel.known_count, 1);
    assert_eq!(tel.inferred_count, 2);
    assert_eq!(tel.total_infer_latency_ns, 900);
    assert_eq!(tel.active_symbols(), 2);

    let aapl = tel.symbol_stats("AAPL").unwrap();
    assert_eq!(aapl.known, 1);
    assert_eq!(aapl.inferred, 1);
    assert_eq!(aapl.latency_ns, 400);

    let msft = tel.symbol_stats("MSFT").unwrap();
    assert_eq!(msft.known, 0);
    assert_eq!(msft.inferred, 1);
    assert_eq!(msft.latency_ns, 500);

    assert!(tel.symbol_stats("GOOGL").is_none());
}

#[test]
fn test_telemetry_average_latency() {
    let mut tel = Telemetry::new();
    assert_eq!(tel.avg_infer_latency_ns(), 0);
    tel.record("AAPL", false, 100);
    tel.record("AAPL", false, 200);
    // The average divides by the inferred count only.
    tel.record("AAPL", true, 600);
    assert_eq!(tel.avg_infer_latency_ns(), 450);
}
