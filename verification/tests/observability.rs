use millions_server::observability::{ObservabilityCounter, ObservabilityCounters};

#[test]
fn counters_default_to_zero_and_increment() {
    let mut counters = ObservabilityCounters::new();

    assert_eq!(counters.get(ObservabilityCounter::CommandsAccepted), 0);
    assert_eq!(
        counters.increment(ObservabilityCounter::CommandsAccepted),
        1
    );
    assert_eq!(counters.add(ObservabilityCounter::CommandsAccepted, 2), 3);
    assert_eq!(counters.get(ObservabilityCounter::CommandsAccepted), 3);
}

#[test]
fn counter_snapshot_is_stable_by_counter_order() {
    let mut counters = ObservabilityCounters::new();
    counters.set(ObservabilityCounter::SnapshotsBuilt, 4);
    counters.set(ObservabilityCounter::ConnectionsActive, 2);

    assert_eq!(
        counters.snapshot_pairs(),
        vec![("connections_active", 2), ("snapshots_built", 4)]
    );
}

#[test]
fn counter_catalog_uses_log_schema_names() {
    let expected = [
        "connections_active",
        "commands_pending",
        "commands_accepted",
        "commands_rejected",
        "snapshots_built",
        "snapshots_dropped",
        "visible_entities",
        "render_proxy_count",
        "backpressure_events",
        "redaction_events",
    ];
    let actual = [
        ObservabilityCounter::ConnectionsActive.as_str(),
        ObservabilityCounter::CommandsPending.as_str(),
        ObservabilityCounter::CommandsAccepted.as_str(),
        ObservabilityCounter::CommandsRejected.as_str(),
        ObservabilityCounter::SnapshotsBuilt.as_str(),
        ObservabilityCounter::SnapshotsDropped.as_str(),
        ObservabilityCounter::VisibleEntities.as_str(),
        ObservabilityCounter::RenderProxyCount.as_str(),
        ObservabilityCounter::BackpressureEvents.as_str(),
        ObservabilityCounter::RedactionEvents.as_str(),
    ];

    assert_eq!(actual, expected);
}
