use millions_server::soak_metrics::{SoakMetric, SoakMetrics};

#[test]
fn soak_metrics_emit_stable_snapshot_pairs() {
    let mut metrics = SoakMetrics::new();
    metrics.set(SoakMetric::MemoryServerStartMb, 32);
    metrics.set(SoakMetric::MemoryServerPeakMb, 48);
    metrics.set(SoakMetric::MemoryServerEndMb, 36);
    metrics.set(SoakMetric::AllocationBytesTotal, 4096);
    metrics.set(SoakMetric::QueueDepthMax, 7);
    metrics.set(SoakMetric::ConnectionsActive, 2);
    metrics.add(SoakMetric::SnapshotsDropped, 3);
    metrics.add(SoakMetric::ResendsQueued, 5);
    metrics.add(SoakMetric::ResendsSent, 4);
    metrics.record_shutdown(true);

    assert!(metrics.has_required_foundation_metrics());
    assert_eq!(metrics.get(SoakMetric::ShutdownClean), 1);
    assert_eq!(
        metrics.snapshot_pairs(),
        vec![
            ("memory_server_start_mb", 32),
            ("memory_server_peak_mb", 48),
            ("memory_server_end_mb", 36),
            ("allocation_bytes_total", 4096),
            ("queue_depth_max", 7),
            ("connections_active", 2),
            ("snapshots_dropped", 3),
            ("resends_queued", 5),
            ("resends_sent", 4),
            ("shutdown_clean", 1),
        ]
    );
}

#[test]
fn soak_metrics_report_missing_required_values() {
    let mut metrics = SoakMetrics::new();
    metrics.set(SoakMetric::ConnectionsActive, 2);

    assert!(!metrics.has_required_foundation_metrics());
}
