use horizon_atlas::config::{MetricsConfig, MetricsExporterConfig};
use horizon_atlas::errors::AtlasError;
use horizon_atlas::health::ClusterHealthSummary;
use horizon_atlas::metrics::{
    AtlasMetrics, DataDogExporter, InfluxDbExporter, LabelledUpdate, Metric, MetricKind, MetricUpdate, MetricsExporter,
    MetricsManager, MetricsSnapshot, SystemMetrics,
};
use horizon_atlas::proxy::ProxyMetricsSnapshot;
use horizon_atlas::routing::RoutingMetricsSnapshot;
use horizon_atlas::scalar::Scalar;
use horizon_atlas::transitions::TransitionMetricsSnapshot;
use std::collections::HashSet;

fn manager(enabled: bool) -> MetricsManager {
    MetricsManager::new(MetricsConfig {
        enabled,
        bind_address: "0.0.0.0:9".to_string(),
        collection_interval: 1000,
        exporters: vec![
            MetricsExporterConfig::Prometheus { endpoint: "p".to_string() },
            MetricsExporterConfig::InfluxDb { endpoint: "http://i".to_string(), database: "d".to_string() },
            MetricsExporterConfig::DataDog { api_key: "k".to_string() },
        ],
    })
}

fn proxy() -> ProxyMetricsSnapshot {
    ProxyMetricsSnapshot {
        active_client_connections: 1,
        active_server_connections: 2,
        messages_processed: 3,
        messages_failed: 4,
        bytes_transferred: 5,
        connection_errors: 6,
    }
}

fn routing() -> RoutingMetricsSnapshot {
    RoutingMetricsSnapshot {
        routes_calculated: 1,
        cache_hits: 2,
        cache_misses: 3,
        position_lookups: 4,
        routing_errors: 5,
        active_client_sessions: 6,
        cached_routes: 7,
    }
}

fn transitions(millis: u32) -> TransitionMetricsSnapshot {
    TransitionMetricsSnapshot {
        transitions_initiated: 1,
        transitions_completed: 2,
        transitions_failed: 3,
        transitions_rolled_back: 4,
        active_transitions: 5,
        average_transition_time_ms: millis,
    }
}

fn health() -> ClusterHealthSummary {
    ClusterHealthSummary {
        total_servers: 10,
        healthy_servers: 7,
        failed_servers: 2,
        inactive_servers: 1,
        unknown_servers: 0,
    }
}

#[test]
fn every_metric_is_defined_once() {
    let definitions = AtlasMetrics::new();
    assert_eq!(definitions.len(), 31);
    let names: HashSet<&str> = definitions.iter().map(|d| d.name).collect();
    assert_eq!(names.len(), 31);
    assert!(names.iter().all(|name| name.starts_with("atlas_")));
    for definition in &definitions {
        assert_eq!(definition.buckets_ms.is_empty(), definition.kind != MetricKind::Histogram);
        assert!(definition.buckets_ms.windows(2).all(|pair| pair[0] < pair[1]));
    }
    let count = |kind| definitions.iter().filter(|d| d.kind == kind).count();
    assert_eq!(
        (count(MetricKind::Gauge), count(MetricKind::Counter), count(MetricKind::Histogram)),
        (11, 15, 5)
    );
}

#[test]
fn definitions_of_some_metrics() {
    let latency = Metric::MessageLatency.definition();
    assert_eq!(latency.name, "atlas_message_latency_seconds");
    assert_eq!(latency.help, "Message processing latency in seconds");
    assert_eq!(latency.buckets_ms, vec![1, 5, 10, 50, 100, 500, 1000, 2000, 5000]);
    let duration = Metric::TransitionDuration.definition();
    assert_eq!(duration.buckets_ms, vec![100, 500, 1000, 2000, 5000, 10000, 30000, 60000]);
    assert_eq!(Metric::RequestDuration.definition().labels, vec!["endpoint", "method"]);
    assert_eq!(Metric::ServerAvailability.definition().labels, vec!["server_id"]);
    assert_eq!(Metric::ErrorRate.definition().labels, vec!["component"]);
    assert!(Metric::CpuUsage.definition().labels.is_empty());
}

#[test]
fn counters_become_updates() {
    let manager = manager(true);
    assert_eq!(
        manager.record_proxy_metrics(proxy()),
        vec![
            MetricUpdate::SetTo(Metric::ActiveClientConnections, 1),
            MetricUpdate::SetTo(Metric::ActiveServerConnections, 2),
            MetricUpdate::IncreaseBy(Metric::MessagesProcessed, 3),
            MetricUpdate::IncreaseBy(Metric::MessagesFailed, 4),
            MetricUpdate::IncreaseBy(Metric::BytesTransferred, 5),
            MetricUpdate::IncreaseBy(Metric::ConnectionErrors, 6),
        ]
    );
    assert_eq!(
        manager.record_routing_metrics(routing()),
        vec![
            MetricUpdate::IncreaseBy(Metric::RoutesCalculated, 1),
            MetricUpdate::IncreaseBy(Metric::RoutingCacheHits, 2),
            MetricUpdate::IncreaseBy(Metric::RoutingCacheMisses, 3),
            MetricUpdate::IncreaseBy(Metric::PositionLookups, 4),
        ]
    );
    assert_eq!(manager.record_transition_metrics(transitions(0)).len(), 3);
    assert_eq!(
        manager.record_transition_metrics(transitions(250)),
        vec![
            MetricUpdate::IncreaseBy(Metric::TransitionsInitiated, 1),
            MetricUpdate::IncreaseBy(Metric::TransitionsCompleted, 2),
            MetricUpdate::IncreaseBy(Metric::TransitionsFailed, 3),
            MetricUpdate::ObserveMillis(Metric::TransitionDuration, 250),
        ]
    );
    assert_eq!(
        manager.record_health_summary(health()),
        vec![MetricUpdate::SetTo(Metric::HealthyServers, 7), MetricUpdate::SetTo(Metric::FailedServers, 2)]
    );
    let mut system = SystemMetrics::collect(99);
    system.memory_usage_bytes = 1;
    system.disk_usage_bytes = 2;
    system.network_bytes_sent = 3;
    system.network_bytes_received = 4;
    assert_eq!(
        manager.record_system_metrics(system),
        vec![
            MetricUpdate::SetToValue(Metric::CpuUsage, Scalar::Number(0)),
            MetricUpdate::SetTo(Metric::MemoryUsage, 1),
            MetricUpdate::SetTo(Metric::DiskUsage, 2),
            MetricUpdate::IncreaseBy(Metric::NetworkBytesSent, 3),
            MetricUpdate::IncreaseBy(Metric::NetworkBytesReceived, 4),
        ]
    );
    assert_eq!(
        system.collection_updates(),
        vec![
            MetricUpdate::SetToValue(Metric::CpuUsage, Scalar::Number(0)),
            MetricUpdate::SetTo(Metric::MemoryUsage, 1),
            MetricUpdate::SetTo(Metric::DiskUsage, 2),
        ]
    );
}

#[test]
fn values_with_labels() {
    let manager = manager(true);
    let key = |value: f64| Scalar::from_bits(value.to_bits());
    let update = |metric: Metric, labels: Vec<&str>, value: f64| LabelledUpdate {
        metric,
        labels: labels.into_iter().map(|label| label.to_string()).collect(),
        value: key(value),
    };
    assert_eq!(
        manager.record_request_duration("/health", "GET", key(0.25)),
        update(Metric::RequestDuration, vec!["/health", "GET"], 0.25)
    );
    let to_seconds = |millis: Scalar| key(f64::from_bits(millis.to_bits()) / 1000.0);
    assert_eq!(
        manager.record_server_response_time("s", key(500.0), to_seconds),
        update(Metric::ServerResponseTimes, vec!["s"], 0.5)
    );
    assert_eq!(
        manager.record_server_availability("s", key(0.75)),
        update(Metric::ServerAvailability, vec!["s"], 0.75)
    );
    assert_eq!(manager.record_error_rate("c", key(0.5)), update(Metric::ErrorRate, vec!["c"], 0.5));
    assert_eq!(manager.record_throughput("c", key(9.0)), update(Metric::Throughput, vec!["c"], 9.0));
}

#[test]
fn starting_hands_the_exporters_over() {
    let mut on = manager(true);
    assert_eq!(on.export_interval(), 5000);
    let plan = on.start();
    assert!(plan.collect && !plan.serve);
    let names: Vec<&str> = plan.exporters.iter().map(|e| e.name()).collect();
    assert_eq!(names, vec!["prometheus", "influxdb", "datadog"]);
    assert!(on.exporters.is_empty());
    let mut off = manager(false);
    let plan = off.start();
    assert!(!plan.collect && !plan.serve && plan.exporters.is_empty());
    assert_eq!(off.exporters.len(), 3);
    assert!(matches!(&off.exporters[2], MetricsExporter::DataDog(made) if made.api_key == "k"));
}

#[test]
fn snapshots() {
    let snapshot = manager(true).create_snapshot(proxy(), routing(), transitions(1), health(), 5, 6);
    assert_eq!((snapshot.timestamp, snapshot.system_metrics.uptime_seconds), (5, 6));
    assert_eq!(snapshot.proxy_metrics, proxy());
    assert_eq!(snapshot.routing_metrics, routing());
    assert_eq!(snapshot.transition_metrics, transitions(1));
    assert_eq!(snapshot.health_summary, health());
    assert!(snapshot.custom_metrics.is_empty());
    let exported = MetricsSnapshot::exported(7, 8);
    assert_eq!((exported.timestamp, exported.system_metrics.uptime_seconds), (7, 8));
    assert_eq!(exported.proxy_metrics.messages_processed, 0);
    assert_eq!(exported.system_metrics.cpu_usage_percent, Scalar::Number(0));
}

#[test]
fn lines_for_influxdb() {
    let mut snapshot = MetricsSnapshot::exported(1_700_000_000_123_456_789, 8);
    snapshot.proxy_metrics = proxy();
    snapshot.system_metrics.memory_usage_bytes = 10;
    snapshot.system_metrics.disk_usage_bytes = 20;
    let exporter = InfluxDbExporter::new("http://i".to_string(), "d".to_string());
    assert_eq!(exporter.write_url(), "http://i/write?db=d");
    assert_eq!(
        exporter.convert_to_line_protocol(&snapshot, "0.50"),
        "proxy_metrics active_client_connections=1i,active_server_connections=2i,messages_processed=3i \
         1700000000123456789\nsystem_metrics cpu_usage=0.50,memory_usage=10,disk_usage=20 1700000000123456789"
    );
}

#[test]
fn series_for_datadog() {
    let exporter = DataDogExporter::new("k".to_string());
    assert_eq!(exporter.series_url(), "https://api.datadoghq.com/api/v1/series");
    let mut snapshot = MetricsSnapshot::exported(1_700_000_000_999_999_999, 0);
    snapshot.proxy_metrics = proxy();
    assert_eq!(
        exporter.convert_to_datadog_format(&snapshot, "0.5"),
        "{\"series\":[{\"metric\":\"atlas.proxy.active_client_connections\",\"points\":[[1700000000,1]],\
         \"tags\":[\"service:atlas\"],\"type\":\"gauge\"},{\"metric\":\"atlas.system.cpu_usage\",\
         \"points\":[[1700000000,0.5]],\"tags\":[\"service:atlas\"],\"type\":\"gauge\"}]}"
    );
    let early = exporter.convert_to_datadog_format(&MetricsSnapshot::exported(-1, 0), "0");
    assert!(early.contains("[[-1,0]]"));
}

#[test]
fn metrics_that_cannot_be_encoded() {
    assert_eq!(manager(true).get_prometheus_metrics(Ok("text".to_string())), Ok("text".to_string()));
    assert_eq!(
        manager(true).get_prometheus_metrics(Err("bad".to_string())),
        Err(AtlasError::Internal("Failed to encode metrics: bad".to_string()))
    );
}
