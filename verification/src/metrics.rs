//! The metrics that the proxy publishes, and where they go.
use vstd::prelude::*;

use crate::clock::NANOS_PER_SECOND;
use crate::config::{MetricsConfig, MetricsExporterConfig};
use crate::errors::{AtlasError, Result};
use crate::health::ClusterHealthSummary;
use crate::proxy::ProxyMetricsSnapshot;
use crate::routing::RoutingMetricsSnapshot;
use crate::scalar::Scalar;
use crate::table::texts;
use crate::text::{decimal, decimal_i64, decimal_u64, join, join3, signed_decimal};
use crate::transitions::TransitionMetricsSnapshot;

verus! {

/// A metric that the proxy publishes.
#[derive(Clone, Copy, Debug, PartialEq, Eq, Structural)]
pub enum Metric {
    /// Clients connected at present
    ActiveClientConnections,
    /// Servers connected at present
    ActiveServerConnections,
    /// Connections ever established
    TotalConnections,
    /// Connections that failed
    ConnectionErrors,
    /// Messages processed
    MessagesProcessed,
    /// Messages that could not be processed
    MessagesFailed,
    /// How long messages take
    MessageLatency,
    /// Bytes passed on
    BytesTransferred,
    /// Routes asked for
    RoutesCalculated,
    /// Routes found in the cache
    RoutingCacheHits,
    /// Routes not found in the cache
    RoutingCacheMisses,
    /// Servers looked up by position
    PositionLookups,
    /// Transitions initiated
    TransitionsInitiated,
    /// Transitions completed
    TransitionsCompleted,
    /// Transitions failed
    TransitionsFailed,
    /// How long transitions take
    TransitionDuration,
    /// Servers that are well
    HealthyServers,
    /// Servers that have failed
    FailedServers,
    /// How long each server takes to answer
    ServerResponseTimes,
    /// Share of time for which each server is available
    ServerAvailability,
    /// Nodes of the cluster
    ClusterNodes,
    /// Elections held
    ClusterLeaderElections,
    /// How long agreement takes
    ClusterConsensusDuration,
    /// Load of the processor
    CpuUsage,
    /// Memory in use
    MemoryUsage,
    /// Disk space in use
    DiskUsage,
    /// Bytes sent
    NetworkBytesSent,
    /// Bytes received
    NetworkBytesReceived,
    /// How long requests take
    RequestDuration,
    /// Errors of each component
    ErrorRate,
    /// Throughput of each component
    Throughput,
}

/// How the values of a metric are kept.
#[derive(Clone, Copy, Debug, PartialEq, Eq, Structural)]
pub enum MetricKind {
    /// A value that goes up and down
    Gauge,
    /// A value that only goes up
    Counter,
    /// Numbers of observations up to each bound
    Histogram,
}

/// A metric as it is registered. Bounds are in milliseconds.
#[derive(Debug)]
pub struct MetricDefinition {
    pub metric: Metric,
    pub name: &'static str,
    pub help: &'static str,
    pub kind: MetricKind,
    pub labels: Vec<&'static str>,
    pub buckets_ms: Vec<u64>,
}

/// The bounds by which latencies are counted, in milliseconds.
pub open spec fn latency_buckets() -> Seq<u64> {
    seq![1, 5, 10, 50, 100, 500, 1000, 2000, 5000]
}

/// The bounds by which durations of transitions are counted, in milliseconds.
pub open spec fn transition_buckets() -> Seq<u64> {
    seq![100, 500, 1000, 2000, 5000, 10000, 30000, 60000]
}

impl Metric {
    /// The name under which the metric is registered.
    pub open spec fn spec_name(self) -> Seq<char> {
        match self {
            Metric::ActiveClientConnections => "atlas_active_client_connections"@,
            Metric::ActiveServerConnections => "atlas_active_server_connections"@,
            Metric::TotalConnections => "atlas_total_connections"@,
            Metric::ConnectionErrors => "atlas_connection_errors"@,
            Metric::MessagesProcessed => "atlas_messages_processed"@,
            Metric::MessagesFailed => "atlas_messages_failed"@,
            Metric::MessageLatency => "atlas_message_latency_seconds"@,
            Metric::BytesTransferred => "atlas_bytes_transferred"@,
            Metric::RoutesCalculated => "atlas_routes_calculated"@,
            Metric::RoutingCacheHits => "atlas_routing_cache_hits"@,
            Metric::RoutingCacheMisses => "atlas_routing_cache_misses"@,
            Metric::PositionLookups => "atlas_position_lookups"@,
            Metric::TransitionsInitiated => "atlas_transitions_initiated"@,
            Metric::TransitionsCompleted => "atlas_transitions_completed"@,
            Metric::TransitionsFailed => "atlas_transitions_failed"@,
            Metric::TransitionDuration => "atlas_transition_duration_seconds"@,
            Metric::HealthyServers => "atlas_healthy_servers"@,
            Metric::FailedServers => "atlas_failed_servers"@,
            Metric::ServerResponseTimes => "atlas_server_response_time_seconds"@,
            Metric::ServerAvailability => "atlas_server_availability"@,
            Metric::ClusterNodes => "atlas_cluster_nodes"@,
            Metric::ClusterLeaderElections => "atlas_cluster_leader_elections"@,
            Metric::ClusterConsensusDuration => "atlas_cluster_consensus_duration_seconds"@,
            Metric::CpuUsage => "atlas_cpu_usage_percent"@,
            Metric::MemoryUsage => "atlas_memory_usage_bytes"@,
            Metric::DiskUsage => "atlas_disk_usage_bytes"@,
            Metric::NetworkBytesSent => "atlas_network_bytes_sent"@,
            Metric::NetworkBytesReceived => "atlas_network_bytes_received"@,
            Metric::RequestDuration => "atlas_request_duration_seconds"@,
            Metric::ErrorRate => "atlas_error_rate"@,
            Metric::Throughput => "atlas_throughput"@,
        }
    }

    /// What the metric is about.
    pub open spec fn spec_help(self) -> Seq<char> {
        match self {
            Metric::ActiveClientConnections => "Number of active client connections"@,
            Metric::ActiveServerConnections => "Number of active server connections"@,
            Metric::TotalConnections => "Total number of connections established"@,
            Metric::ConnectionErrors => "Number of connection errors"@,
            Metric::MessagesProcessed => "Number of messages processed"@,
            Metric::MessagesFailed => "Number of messages that failed processing"@,
            Metric::MessageLatency => "Message processing latency in seconds"@,
            Metric::BytesTransferred => "Total bytes transferred"@,
            Metric::RoutesCalculated => "Number of routes calculated"@,
            Metric::RoutingCacheHits => "Number of routing cache hits"@,
            Metric::RoutingCacheMisses => "Number of routing cache misses"@,
            Metric::PositionLookups => "Number of position-based server lookups"@,
            Metric::TransitionsInitiated => "Number of transitions initiated"@,
            Metric::TransitionsCompleted => "Number of transitions completed"@,
            Metric::TransitionsFailed => "Number of transitions failed"@,
            Metric::TransitionDuration => "Transition duration in seconds"@,
            Metric::HealthyServers => "Number of healthy servers"@,
            Metric::FailedServers => "Number of failed servers"@,
            Metric::ServerResponseTimes => "Server response times"@,
            Metric::ServerAvailability => "Server availability"@,
            Metric::ClusterNodes => "Number of cluster nodes"@,
            Metric::ClusterLeaderElections => "Number of cluster leader elections"@,
            Metric::ClusterConsensusDuration => "Cluster consensus duration"@,
            Metric::CpuUsage => "CPU usage percentage"@,
            Metric::MemoryUsage => "Memory usage in bytes"@,
            Metric::DiskUsage => "Disk usage in bytes"@,
            Metric::NetworkBytesSent => "Total network bytes sent"@,
            Metric::NetworkBytesReceived => "Total network bytes received"@,
            Metric::RequestDuration => "Request duration in seconds"@,
            Metric::ErrorRate => "Error rate by component"@,
            Metric::Throughput => "Throughput by component"@,
        }
    }

    /// How the metric's values are kept.
    pub open spec fn spec_kind(self) -> MetricKind {
        match self {
            Metric::ActiveClientConnections
            | Metric::ActiveServerConnections
            | Metric::HealthyServers
            | Metric::FailedServers
            | Metric::ServerAvailability
            | Metric::ClusterNodes
            | Metric::CpuUsage
            | Metric::MemoryUsage
            | Metric::DiskUsage
            | Metric::ErrorRate
            | Metric::Throughput => MetricKind::Gauge,
            Metric::MessageLatency
            | Metric::TransitionDuration
            | Metric::ServerResponseTimes
            | Metric::ClusterConsensusDuration
            | Metric::RequestDuration => MetricKind::Histogram,
            _ => MetricKind::Counter,
        }
    }

    /// The labels by which the metric's values are told apart.
    pub open spec fn spec_labels(self) -> Seq<Seq<char>> {
        match self {
            Metric::ServerResponseTimes | Metric::ServerAvailability => seq!["server_id"@],
            Metric::RequestDuration => seq!["endpoint"@, "method"@],
            Metric::ErrorRate | Metric::Throughput => seq!["component"@],
            _ => Seq::empty(),
        }
    }

    /// The bounds by which observations are counted.
    pub open spec fn spec_buckets(self) -> Seq<u64> {
        match self {
            Metric::TransitionDuration => transition_buckets(),
            _ => if self.spec_kind() is Histogram {
                latency_buckets()
            } else {
                Seq::empty()
            },
        }
    }

    fn name(self) -> (result: &'static str)
        ensures
            result@ == self.spec_name(),
    {
        match self {
            Metric::ActiveClientConnections => "atlas_active_client_connections",
            Metric::ActiveServerConnections => "atlas_active_server_connections",
            Metric::TotalConnections => "atlas_total_connections",
            Metric::ConnectionErrors => "atlas_connection_errors",
            Metric::MessagesProcessed => "atlas_messages_processed",
            Metric::MessagesFailed => "atlas_messages_failed",
            Metric::MessageLatency => "atlas_message_latency_seconds",
            Metric::BytesTransferred => "atlas_bytes_transferred",
            Metric::RoutesCalculated => "atlas_routes_calculated",
            Metric::RoutingCacheHits => "atlas_routing_cache_hits",
            Metric::RoutingCacheMisses => "atlas_routing_cache_misses",
            Metric::PositionLookups => "atlas_position_lookups",
            Metric::TransitionsInitiated => "atlas_transitions_initiated",
            Metric::TransitionsCompleted => "atlas_transitions_completed",
            Metric::TransitionsFailed => "atlas_transitions_failed",
            Metric::TransitionDuration => "atlas_transition_duration_seconds",
            Metric::HealthyServers => "atlas_healthy_servers",
            Metric::FailedServers => "atlas_failed_servers",
            Metric::ServerResponseTimes => "atlas_server_response_time_seconds",
            Metric::ServerAvailability => "atlas_server_availability",
            Metric::ClusterNodes => "atlas_cluster_nodes",
            Metric::ClusterLeaderElections => "atlas_cluster_leader_elections",
            Metric::ClusterConsensusDuration => "atlas_cluster_consensus_duration_seconds",
            Metric::CpuUsage => "atlas_cpu_usage_percent",
            Metric::MemoryUsage => "atlas_memory_usage_bytes",
            Metric::DiskUsage => "atlas_disk_usage_bytes",
            Metric::NetworkBytesSent => "atlas_network_bytes_sent",
            Metric::NetworkBytesReceived => "atlas_network_bytes_received",
            Metric::RequestDuration => "atlas_request_duration_seconds",
            Metric::ErrorRate => "atlas_error_rate",
            Metric::Throughput => "atlas_throughput",
        }
    }

    fn help(self) -> (result: &'static str)
        ensures
            result@ == self.spec_help(),
    {
        match self {
            Metric::ActiveClientConnections => "Number of active client connections",
            Metric::ActiveServerConnections => "Number of active server connections",
            Metric::TotalConnections => "Total number of connections established",
            Metric::ConnectionErrors => "Number of connection errors",
            Metric::MessagesProcessed => "Number of messages processed",
            Metric::MessagesFailed => "Number of messages that failed processing",
            Metric::MessageLatency => "Message processing latency in seconds",
            Metric::BytesTransferred => "Total bytes transferred",
            Metric::RoutesCalculated => "Number of routes calculated",
            Metric::RoutingCacheHits => "Number of routing cache hits",
            Metric::RoutingCacheMisses => "Number of routing cache misses",
            Metric::PositionLookups => "Number of position-based server lookups",
            Metric::TransitionsInitiated => "Number of transitions initiated",
            Metric::TransitionsCompleted => "Number of transitions completed",
            Metric::TransitionsFailed => "Number of transitions failed",
            Metric::TransitionDuration => "Transition duration in seconds",
            Metric::HealthyServers => "Number of healthy servers",
            Metric::FailedServers => "Number of failed servers",
            Metric::ServerResponseTimes => "Server response times",
            Metric::ServerAvailability => "Server availability",
            Metric::ClusterNodes => "Number of cluster nodes",
            Metric::ClusterLeaderElections => "Number of cluster leader elections",
            Metric::ClusterConsensusDuration => "Cluster consensus duration",
            Metric::CpuUsage => "CPU usage percentage",
            Metric::MemoryUsage => "Memory usage in bytes",
            Metric::DiskUsage => "Disk usage in bytes",
            Metric::NetworkBytesSent => "Total network bytes sent",
            Metric::NetworkBytesReceived => "Total network bytes received",
            Metric::RequestDuration => "Request duration in seconds",
            Metric::ErrorRate => "Error rate by component",
            Metric::Throughput => "Throughput by component",
        }
    }

    fn kind(self) -> (result: MetricKind)
        ensures
            result == self.spec_kind(),
    {
        match self {
            Metric::ActiveClientConnections
            | Metric::ActiveServerConnections
            | Metric::HealthyServers
            | Metric::FailedServers
            | Metric::ServerAvailability
            | Metric::ClusterNodes
            | Metric::CpuUsage
            | Metric::MemoryUsage
            | Metric::DiskUsage
            | Metric::ErrorRate
            | Metric::Throughput => MetricKind::Gauge,
            Metric::MessageLatency
            | Metric::TransitionDuration
            | Metric::ServerResponseTimes
            | Metric::ClusterConsensusDuration
            | Metric::RequestDuration => MetricKind::Histogram,
            _ => MetricKind::Counter,
        }
    }

    fn labels(self) -> (result: Vec<&'static str>)
        ensures
            label_texts(result@) == self.spec_labels(),
    {
        let out: Vec<&'static str> = match self {
            Metric::ServerResponseTimes | Metric::ServerAvailability => vec!["server_id"],
            Metric::RequestDuration => vec!["endpoint", "method"],
            Metric::ErrorRate | Metric::Throughput => vec!["component"],
            _ => Vec::new(),
        };
        assert(label_texts(out@) =~= self.spec_labels());
        out
    }

    fn buckets(self) -> (result: Vec<u64>)
        ensures
            result@ == self.spec_buckets(),
    {
        match self {
            Metric::TransitionDuration => vec![100, 500, 1000, 2000, 5000, 10000, 30000, 60000],
            _ => if matches!(self.kind(), MetricKind::Histogram) {
                vec![1, 5, 10, 50, 100, 500, 1000, 2000, 5000]
            } else {
                Vec::new()
            },
        }
    }

    /// What the metric is registered as.
    pub fn definition(self) -> (result: MetricDefinition)
        ensures
            defines(result, self),
    {
        MetricDefinition {
            metric: self,
            name: self.name(),
            help: self.help(),
            kind: self.kind(),
            labels: self.labels(),
            buckets_ms: self.buckets(),
        }
    }
}

/// The texts of a list of labels.
pub open spec fn label_texts(labels: Seq<&'static str>) -> Seq<Seq<char>> {
    labels.map_values(|label: &'static str| label@)
}

/// Whether `definition` is what `metric` is registered as.
pub open spec fn defines(definition: MetricDefinition, metric: Metric) -> bool {
    &&& definition.metric == metric
    &&& definition.name@ == metric.spec_name()
    &&& definition.help@ == metric.spec_help()
    &&& definition.kind == metric.spec_kind()
    &&& label_texts(definition.labels@) == metric.spec_labels()
    &&& definition.buckets_ms@ == metric.spec_buckets()
}

/// All metrics, in the order in which they are registered.
pub open spec fn all_metrics() -> Seq<Metric> {
    seq![
        Metric::ActiveClientConnections,
        Metric::ActiveServerConnections,
        Metric::TotalConnections,
        Metric::ConnectionErrors,
        Metric::MessagesProcessed,
        Metric::MessagesFailed,
        Metric::MessageLatency,
        Metric::BytesTransferred,
        Metric::RoutesCalculated,
        Metric::RoutingCacheHits,
        Metric::RoutingCacheMisses,
        Metric::PositionLookups,
        Metric::TransitionsInitiated,
        Metric::TransitionsCompleted,
        Metric::TransitionsFailed,
        Metric::TransitionDuration,
        Metric::HealthyServers,
        Metric::FailedServers,
        Metric::ServerResponseTimes,
        Metric::ServerAvailability,
        Metric::ClusterNodes,
        Metric::ClusterLeaderElections,
        Metric::ClusterConsensusDuration,
        Metric::CpuUsage,
        Metric::MemoryUsage,
        Metric::DiskUsage,
        Metric::NetworkBytesSent,
        Metric::NetworkBytesReceived,
        Metric::RequestDuration,
        Metric::ErrorRate,
        Metric::Throughput,
    ]
}

/// The set of metrics that the proxy publishes.
#[derive(Clone, Copy, Debug)]
pub struct AtlasMetrics {}

impl AtlasMetrics {
    /// What the metrics are registered as, in order.
    pub fn new() -> (result: Vec<MetricDefinition>)
        ensures
            result@.len() == all_metrics().len(),
            forall|i: int|
                0 <= i < result@.len() ==> defines(#[trigger] result@[i], all_metrics()[i]),
    {
        let metrics: Vec<Metric> = vec![
            Metric::ActiveClientConnections,
            Metric::ActiveServerConnections,
            Metric::TotalConnections,
            Metric::ConnectionErrors,
            Metric::MessagesProcessed,
            Metric::MessagesFailed,
            Metric::MessageLatency,
            Metric::BytesTransferred,
            Metric::RoutesCalculated,
            Metric::RoutingCacheHits,
            Metric::RoutingCacheMisses,
            Metric::PositionLookups,
            Metric::TransitionsInitiated,
            Metric::TransitionsCompleted,
            Metric::TransitionsFailed,
            Metric::TransitionDuration,
            Metric::HealthyServers,
            Metric::FailedServers,
            Metric::ServerResponseTimes,
            Metric::ServerAvailability,
            Metric::ClusterNodes,
            Metric::ClusterLeaderElections,
            Metric::ClusterConsensusDuration,
            Metric::CpuUsage,
            Metric::MemoryUsage,
            Metric::DiskUsage,
            Metric::NetworkBytesSent,
            Metric::NetworkBytesReceived,
            Metric::RequestDuration,
            Metric::ErrorRate,
            Metric::Throughput,
        ];
        assert(metrics@ =~= all_metrics());
        let mut out: Vec<MetricDefinition> = Vec::new();
        let mut i: usize = 0;
        while i < metrics.len()
            invariant
                i <= metrics@.len(),
                metrics@ == all_metrics(),
                out@.len() == i,
                forall|j: int| 0 <= j < i ==> defines(#[trigger] out@[j], all_metrics()[j]),
            decreases metrics@.len() - i,
        {
            out.push(metrics[i].definition());
            i += 1;
        }
        out
    }
}

/// Every metric is registered, and none twice.
pub proof fn lemma_all_metrics_once(metric: Metric)
    ensures
        all_metrics().contains(metric),
        all_metrics().no_duplicates(),
{
    let position = rank(metric);
    assert(all_metrics()[position] == metric);
    assert(forall|i: int| 0 <= i < all_metrics().len() ==> rank(#[trigger] all_metrics()[i]) == i);
}

spec fn rank(metric: Metric) -> int {
    match metric {
        Metric::ActiveClientConnections => 0,
        Metric::ActiveServerConnections => 1,
        Metric::TotalConnections => 2,
        Metric::ConnectionErrors => 3,
        Metric::MessagesProcessed => 4,
        Metric::MessagesFailed => 5,
        Metric::MessageLatency => 6,
        Metric::BytesTransferred => 7,
        Metric::RoutesCalculated => 8,
        Metric::RoutingCacheHits => 9,
        Metric::RoutingCacheMisses => 10,
        Metric::PositionLookups => 11,
        Metric::TransitionsInitiated => 12,
        Metric::TransitionsCompleted => 13,
        Metric::TransitionsFailed => 14,
        Metric::TransitionDuration => 15,
        Metric::HealthyServers => 16,
        Metric::FailedServers => 17,
        Metric::ServerResponseTimes => 18,
        Metric::ServerAvailability => 19,
        Metric::ClusterNodes => 20,
        Metric::ClusterLeaderElections => 21,
        Metric::ClusterConsensusDuration => 22,
        Metric::CpuUsage => 23,
        Metric::MemoryUsage => 24,
        Metric::DiskUsage => 25,
        Metric::NetworkBytesSent => 26,
        Metric::NetworkBytesReceived => 27,
        Metric::RequestDuration => 28,
        Metric::ErrorRate => 29,
        Metric::Throughput => 30,
    }
}

/// No two metrics share a name, so that each can be registered beside the others.
pub proof fn lemma_metric_names_distinct(a: Metric, b: Metric)
    requires
        a.spec_name() == b.spec_name(),
    ensures
        a == b,
{
    lemma_name_signature(a);
    lemma_name_signature(b);
}

/// The length of a metric's name and two of its characters, which tell it from the
/// other names.
spec fn signature(metric: Metric) -> (int, char, char) {
    match metric {
        Metric::ActiveClientConnections => (31, 'c', 't'),
        Metric::ActiveServerConnections => (31, 'c', 'r'),
        Metric::TotalConnections => (23, 'o', 't'),
        Metric::ConnectionErrors => (23, 'o', 'r'),
        Metric::MessagesProcessed => (24, 'e', 'c'),
        Metric::MessagesFailed => (21, 'e', 'l'),
        Metric::MessageLatency => (29, 'e', 'n'),
        Metric::BytesTransferred => (23, 'y', 'e'),
        Metric::RoutesCalculated => (23, 'o', 'l'),
        Metric::RoutingCacheHits => (24, 'o', 'e'),
        Metric::RoutingCacheMisses => (26, 'o', 'e'),
        Metric::PositionLookups => (22, 'o', 'k'),
        Metric::TransitionsInitiated => (27, 'r', 'i'),
        Metric::TransitionsCompleted => (27, 'r', 'c'),
        Metric::TransitionsFailed => (24, 'r', 'f'),
        Metric::TransitionDuration => (33, 'r', 'u'),
        Metric::HealthyServers => (21, 'e', 'e'),
        Metric::FailedServers => (20, 'a', 'r'),
        Metric::ServerResponseTimes => (34, 'e', 'n'),
        Metric::ServerAvailability => (25, 'e', 'a'),
        Metric::ClusterNodes => (19, 'l', 's'),
        Metric::ClusterLeaderElections => (30, 'l', 'e'),
        Metric::ClusterConsensusDuration => (40, 'l', 'e'),
        Metric::CpuUsage => (23, 'p', 'r'),
        Metric::MemoryUsage => (24, 'e', '_'),
        Metric::DiskUsage => (22, 'i', 'y'),
        Metric::NetworkBytesSent => (24, 'e', 's'),
        Metric::NetworkBytesReceived => (28, 'e', 's'),
        Metric::RequestDuration => (30, 'e', 't'),
        Metric::ErrorRate => (16, 'r', '-'),
        Metric::Throughput => (16, 'h', '-'),
    }
}

proof fn lemma_name_signature(metric: Metric)
    ensures
        ({
            let name = metric.spec_name();
            let mark = signature(metric);
            &&& name.len() == mark.0
            &&& name[7] == mark.1
            &&& name.len() > 18 ==> name[18] == mark.2
        }),
{
    match metric {
        Metric::ActiveClientConnections => {
            reveal_strlit("atlas_active_client_connections");
        },
        Metric::ActiveServerConnections => {
            reveal_strlit("atlas_active_server_connections");
        },
        Metric::TotalConnections => {
            reveal_strlit("atlas_total_connections");
        },
        Metric::ConnectionErrors => {
            reveal_strlit("atlas_connection_errors");
        },
        Metric::MessagesProcessed => {
            reveal_strlit("atlas_messages_processed");
        },
        Metric::MessagesFailed => {
            reveal_strlit("atlas_messages_failed");
        },
        Metric::MessageLatency => {
            reveal_strlit("atlas_message_latency_seconds");
        },
        Metric::BytesTransferred => {
            reveal_strlit("atlas_bytes_transferred");
        },
        Metric::RoutesCalculated => {
            reveal_strlit("atlas_routes_calculated");
        },
        Metric::RoutingCacheHits => {
            reveal_strlit("atlas_routing_cache_hits");
        },
        Metric::RoutingCacheMisses => {
            reveal_strlit("atlas_routing_cache_misses");
        },
        Metric::PositionLookups => {
            reveal_strlit("atlas_position_lookups");
        },
        Metric::TransitionsInitiated => {
            reveal_strlit("atlas_transitions_initiated");
        },
        Metric::TransitionsCompleted => {
            reveal_strlit("atlas_transitions_completed");
        },
        Metric::TransitionsFailed => {
            reveal_strlit("atlas_transitions_failed");
        },
        Metric::TransitionDuration => {
            reveal_strlit("atlas_transition_duration_seconds");
        },
        Metric::HealthyServers => {
            reveal_strlit("atlas_healthy_servers");
        },
        Metric::FailedServers => {
            reveal_strlit("atlas_failed_servers");
        },
        Metric::ServerResponseTimes => {
            reveal_strlit("atlas_server_response_time_seconds");
        },
        Metric::ServerAvailability => {
            reveal_strlit("atlas_server_availability");
        },
        Metric::ClusterNodes => {
            reveal_strlit("atlas_cluster_nodes");
        },
        Metric::ClusterLeaderElections => {
            reveal_strlit("atlas_cluster_leader_elections");
        },
        Metric::ClusterConsensusDuration => {
            reveal_strlit("atlas_cluster_consensus_duration_seconds");
        },
        Metric::CpuUsage => {
            reveal_strlit("atlas_cpu_usage_percent");
        },
        Metric::MemoryUsage => {
            reveal_strlit("atlas_memory_usage_bytes");
        },
        Metric::DiskUsage => {
            reveal_strlit("atlas_disk_usage_bytes");
        },
        Metric::NetworkBytesSent => {
            reveal_strlit("atlas_network_bytes_sent");
        },
        Metric::NetworkBytesReceived => {
            reveal_strlit("atlas_network_bytes_received");
        },
        Metric::RequestDuration => {
            reveal_strlit("atlas_request_duration_seconds");
        },
        Metric::ErrorRate => {
            reveal_strlit("atlas_error_rate");
        },
        Metric::Throughput => {
            reveal_strlit("atlas_throughput");
        },
    }
}

/// The bounds of every histogram go up, and only histograms have bounds.
pub proof fn lemma_buckets_increase(metric: Metric, i: int, j: int)
    ensures
        0 <= i < j < metric.spec_buckets().len() ==> metric.spec_buckets()[i]
            < metric.spec_buckets()[j],
        metric.spec_buckets().len() > 0 <==> metric.spec_kind() is Histogram,
{
}

/// What is done to a metric.
#[derive(Clone, Copy, Debug, PartialEq, Eq, Structural)]
pub enum MetricUpdate {
    /// The gauge has this value now.
    SetTo(Metric, u64),
    /// The gauge has this value now, which need not be a whole number.
    SetToValue(Metric, Scalar),
    /// The counter goes up by this much.
    IncreaseBy(Metric, u64),
    /// The histogram counts one more observation, in milliseconds.
    ObserveMillis(Metric, u32),
}

impl MetricUpdate {
    /// Whether the update suits the way in which the metric's values are kept.
    pub open spec fn fits(self) -> bool {
        match self {
            MetricUpdate::SetTo(metric, _) => metric.spec_kind() is Gauge,
            MetricUpdate::SetToValue(metric, _) => metric.spec_kind() is Gauge,
            MetricUpdate::IncreaseBy(metric, _) => metric.spec_kind() is Counter,
            MetricUpdate::ObserveMillis(metric, _) => metric.spec_kind() is Histogram,
        }
    }
}

/// A value of a metric with labels: what a gauge has now, or what a histogram counts as
/// one more observation.
#[derive(Debug, PartialEq, Eq)]
pub struct LabelledUpdate {
    pub metric: Metric,
    /// One value for each label
    pub labels: Vec<String>,
    pub value: Scalar,
}

impl LabelledUpdate {
    /// Whether the update is that of a metric with the given values of its labels.
    pub open spec fn is_of(&self, metric: Metric, labels: Seq<Seq<char>>) -> bool {
        &&& self.metric == metric
        &&& texts(self.labels@) == labels
        &&& labels.len() == metric.spec_labels().len()
    }
}

fn one_label(metric: Metric, label: &str, value: Scalar) -> (result: LabelledUpdate)
    requires
        metric.spec_labels().len() == 1,
    ensures
        result.is_of(metric, seq![label@]),
        result.value == value,
{
    let labels: Vec<String> = vec![label.to_owned()];
    assert(texts(labels@) =~= seq![label@]);
    LabelledUpdate { metric, labels, value }
}

/// What the machine tells of itself.
#[derive(Clone, Copy, Debug, PartialEq, Eq, Structural)]
pub struct SystemMetrics {
    pub uptime_seconds: u64,
    pub cpu_usage_percent: Scalar,
    pub memory_usage_bytes: u64,
    pub memory_total_bytes: u64,
    pub disk_usage_bytes: u64,
    pub disk_total_bytes: u64,
    pub network_bytes_sent: u64,
    pub network_bytes_received: u64,
    pub open_file_descriptors: u32,
    pub goroutines_count: u32,
}

impl SystemMetrics {
    /// The machine at the given uptime, with nothing measured.
    pub open spec fn spec_unmeasured(uptime_seconds: u64) -> SystemMetrics {
        SystemMetrics {
            uptime_seconds,
            cpu_usage_percent: Scalar::Number(0),
            memory_usage_bytes: 0,
            memory_total_bytes: 0,
            disk_usage_bytes: 0,
            disk_total_bytes: 0,
            network_bytes_sent: 0,
            network_bytes_received: 0,
            open_file_descriptors: 0,
            goroutines_count: 0,
        }
    }

    /// The machine at the given uptime. Nothing is measured yet.
    pub fn collect(uptime_seconds: u64) -> (result: Self)
        ensures
            result == Self::spec_unmeasured(uptime_seconds),
    {
        SystemMetrics {
            uptime_seconds,
            cpu_usage_percent: Scalar::Number(0),
            memory_usage_bytes: 0,
            memory_total_bytes: 0,
            disk_usage_bytes: 0,
            disk_total_bytes: 0,
            network_bytes_sent: 0,
            network_bytes_received: 0,
            open_file_descriptors: 0,
            goroutines_count: 0,
        }
    }

    /// What a collection of these numbers does to the metrics: the network is left alone.
    pub fn collection_updates(self) -> (result: Vec<MetricUpdate>)
        ensures
            result@ == seq![
                MetricUpdate::SetToValue(Metric::CpuUsage, self.cpu_usage_percent),
                MetricUpdate::SetTo(Metric::MemoryUsage, self.memory_usage_bytes),
                MetricUpdate::SetTo(Metric::DiskUsage, self.disk_usage_bytes),
            ],
            forall|i: int| 0 <= i < result@.len() ==> (#[trigger] result@[i]).fits(),
    {
        vec![
            MetricUpdate::SetToValue(Metric::CpuUsage, self.cpu_usage_percent),
            MetricUpdate::SetTo(Metric::MemoryUsage, self.memory_usage_bytes),
            MetricUpdate::SetTo(Metric::DiskUsage, self.disk_usage_bytes),
        ]
    }
}

/// All that is published, at one point in time.
#[derive(Debug)]
pub struct MetricsSnapshot {
    pub timestamp: i64,
    pub proxy_metrics: ProxyMetricsSnapshot,
    pub routing_metrics: RoutingMetricsSnapshot,
    pub transition_metrics: TransitionMetricsSnapshot,
    pub health_summary: ClusterHealthSummary,
    pub system_metrics: SystemMetrics,
    pub custom_metrics: Vec<(String, Scalar)>,
}

impl MetricsSnapshot {
    /// The snapshot that is exported periodically: only the machine's own metrics count
    /// in it.
    pub fn exported(timestamp: i64, uptime_seconds: u64) -> (result: Self)
        ensures
            result.timestamp == timestamp,
            result.proxy_metrics == (ProxyMetricsSnapshot {
                active_client_connections: 0,
                active_server_connections: 0,
                messages_processed: 0,
                messages_failed: 0,
                bytes_transferred: 0,
                connection_errors: 0,
            }),
            result.routing_metrics == (RoutingMetricsSnapshot {
                routes_calculated: 0,
                cache_hits: 0,
                cache_misses: 0,
                position_lookups: 0,
                routing_errors: 0,
                active_client_sessions: 0,
                cached_routes: 0,
            }),
            result.transition_metrics == (TransitionMetricsSnapshot {
                transitions_initiated: 0,
                transitions_completed: 0,
                transitions_failed: 0,
                transitions_rolled_back: 0,
                active_transitions: 0,
                average_transition_time_ms: 0,
            }),
            result.health_summary == (ClusterHealthSummary {
                total_servers: 0,
                healthy_servers: 0,
                failed_servers: 0,
                inactive_servers: 0,
                unknown_servers: 0,
            }),
            result.system_metrics == SystemMetrics::spec_unmeasured(uptime_seconds),
            result.custom_metrics@.len() == 0,
    {
        MetricsSnapshot {
            timestamp,
            proxy_metrics: ProxyMetricsSnapshot {
                active_client_connections: 0,
                active_server_connections: 0,
                messages_processed: 0,
                messages_failed: 0,
                bytes_transferred: 0,
                connection_errors: 0,
            },
            routing_metrics: RoutingMetricsSnapshot {
                routes_calculated: 0,
                cache_hits: 0,
                cache_misses: 0,
                position_lookups: 0,
                routing_errors: 0,
                active_client_sessions: 0,
                cached_routes: 0,
            },
            transition_metrics: TransitionMetricsSnapshot {
                transitions_initiated: 0,
                transitions_completed: 0,
                transitions_failed: 0,
                transitions_rolled_back: 0,
                active_transitions: 0,
                average_transition_time_ms: 0,
            },
            health_summary: ClusterHealthSummary {
                total_servers: 0,
                healthy_servers: 0,
                failed_servers: 0,
                inactive_servers: 0,
                unknown_servers: 0,
            },
            system_metrics: SystemMetrics::collect(uptime_seconds),
            custom_metrics: Vec::new(),
        }
    }
}

/// The exporter that Prometheus reads from. It has nothing to send.
#[derive(Debug)]
pub struct PrometheusExporter {
    pub endpoint: String,
}

impl PrometheusExporter {
    /// An exporter for the given endpoint.
    pub fn new(endpoint: String) -> (result: Self)
        ensures
            result.endpoint == endpoint,
    {
        PrometheusExporter { endpoint }
    }
}

/// The exporter that writes lines to InfluxDB.
#[derive(Debug)]
pub struct InfluxDbExporter {
    pub endpoint: String,
    pub database: String,
}

/// The exporter that posts series to DataDog.
#[derive(Debug)]
pub struct DataDogExporter {
    pub api_key: String,
}

/// A place that metrics are sent to.
#[derive(Debug)]
pub enum MetricsExporter {
    Prometheus(PrometheusExporter),
    InfluxDb(InfluxDbExporter),
    DataDog(DataDogExporter),
}

/// Whether `exporter` is what a configuration calls for.
pub open spec fn made_from(exporter: MetricsExporter, config: MetricsExporterConfig) -> bool {
    match (exporter, config) {
        (MetricsExporter::Prometheus(made), MetricsExporterConfig::Prometheus { endpoint }) => {
            made.endpoint == endpoint
        },
        (
            MetricsExporter::InfluxDb(made),
            MetricsExporterConfig::InfluxDb { endpoint, database },
        ) => made.endpoint == endpoint && made.database == database,
        (MetricsExporter::DataDog(made), MetricsExporterConfig::DataDog { api_key }) => {
            made.api_key == api_key
        },
        _ => false,
    }
}

impl MetricsExporter {
    /// The exporter's name.
    pub fn name(&self) -> (result: &'static str)
        ensures
            result@ == (match *self {
                MetricsExporter::Prometheus(_) => "prometheus"@,
                MetricsExporter::InfluxDb(_) => "influxdb"@,
                MetricsExporter::DataDog(_) => "datadog"@,
            }),
    {
        match self {
            MetricsExporter::Prometheus(_) => "prometheus",
            MetricsExporter::InfluxDb(_) => "influxdb",
            MetricsExporter::DataDog(_) => "datadog",
        }
    }
}

/// The lines that tell InfluxDB of a snapshot. `cpu` is the load of the processor with
/// two decimals.
pub open spec fn line_protocol(metrics: MetricsSnapshot, cpu: Seq<char>) -> Seq<char> {
    let time = signed_decimal(metrics.timestamp as int);
    "proxy_metrics active_client_connections="@ + decimal(
        metrics.proxy_metrics.active_client_connections as nat,
    ) + "i,active_server_connections="@ + decimal(
        metrics.proxy_metrics.active_server_connections as nat,
    ) + "i,messages_processed="@ + decimal(metrics.proxy_metrics.messages_processed as nat) + "i "@
        + time + "\n"@ + "system_metrics cpu_usage="@ + cpu + ",memory_usage="@ + decimal(
        metrics.system_metrics.memory_usage_bytes as nat,
    ) + ",disk_usage="@ + decimal(metrics.system_metrics.disk_usage_bytes as nat) + " "@ + time
}

impl InfluxDbExporter {
    /// An exporter to a database at the given endpoint.
    pub fn new(endpoint: String, database: String) -> (result: Self)
        ensures
            result.endpoint == endpoint,
            result.database == database,
    {
        InfluxDbExporter { endpoint, database }
    }

    /// Where the lines are written to.
    pub fn write_url(&self) -> (result: String)
        ensures
            result@ == self.endpoint@ + "/write?db="@ + self.database@,
    {
        join3(self.endpoint.as_str(), "/write?db=", self.database.as_str())
    }

    /// The lines that tell of a snapshot; `cpu` is the load of the processor with two
    /// decimals.
    pub fn convert_to_line_protocol(&self, metrics: &MetricsSnapshot, cpu: &str) -> (result: String)
        ensures
            result@ == line_protocol(*metrics, cpu@),
    {
        let time: String = decimal_i64(metrics.timestamp);
        let clients: String = decimal_u64(metrics.proxy_metrics.active_client_connections);
        let servers: String = decimal_u64(metrics.proxy_metrics.active_server_connections);
        let messages: String = decimal_u64(metrics.proxy_metrics.messages_processed);
        let memory: String = decimal_u64(metrics.system_metrics.memory_usage_bytes);
        let disk: String = decimal_u64(metrics.system_metrics.disk_usage_bytes);
        let mut text: String = join("proxy_metrics active_client_connections=", clients.as_str());
        text.append("i,active_server_connections=");
        text.append(servers.as_str());
        text.append("i,messages_processed=");
        text.append(messages.as_str());
        text.append("i ");
        text.append(time.as_str());
        text.append("\n");
        text.append("system_metrics cpu_usage=");
        text.append(cpu);
        text.append(",memory_usage=");
        text.append(memory.as_str());
        text.append(",disk_usage=");
        text.append(disk.as_str());
        text.append(" ");
        text.append(time.as_str());
        text
    }
}

/// The whole seconds that a point in time lies after the epoch, rounded down.
pub open spec fn floor_seconds(timestamp: i64) -> int {
    timestamp as int / NANOS_PER_SECOND as int
}

fn seconds_of(timestamp: i64) -> (result: i64)
    ensures
        result == floor_seconds(timestamp),
{
    if timestamp >= 0 {
        timestamp / NANOS_PER_SECOND
    } else {
        let before: i64 = -(timestamp + 1);
        -1 - before / NANOS_PER_SECOND
    }
}

/// The JSON that tells DataDog of one value of a gauge. `value` is a number as JSON.
pub open spec fn gauge_point(name: Seq<char>, time: Seq<char>, value: Seq<char>) -> Seq<char> {
    "{\"metric\":\""@ + name + "\",\"points\":[["@ + time + ","@ + value
        + "]],\"tags\":[\"service:atlas\"],\"type\":\"gauge\"}"@
}

fn write_gauge_point(name: &str, time: &str, value: &str) -> (result: String)
    ensures
        result@ == gauge_point(name@, time@, value@),
{
    let mut text: String = join3("{\"metric\":\"", name, "\",\"points\":[[");
    text.append(time);
    text.append(",");
    text.append(value);
    text.append("]],\"tags\":[\"service:atlas\"],\"type\":\"gauge\"}");
    text
}

/// The JSON that tells DataDog of a snapshot. `cpu` is the load of the processor as JSON.
pub open spec fn datadog_series(metrics: MetricsSnapshot, cpu: Seq<char>) -> Seq<char> {
    let time = signed_decimal(floor_seconds(metrics.timestamp));
    "{\"series\":["@ + gauge_point(
        "atlas.proxy.active_client_connections"@,
        time,
        decimal(metrics.proxy_metrics.active_client_connections as nat),
    ) + ","@ + gauge_point("atlas.system.cpu_usage"@, time, cpu) + "]}"@
}

impl DataDogExporter {
    /// An exporter that identifies itself by a key.
    pub fn new(api_key: String) -> (result: Self)
        ensures
            result.api_key == api_key,
    {
        DataDogExporter { api_key }
    }

    /// Where the series are posted to.
    pub fn series_url(&self) -> (result: &'static str)
        ensures
            result@ == "https://api.datadoghq.com/api/v1/series"@,
    {
        "https://api.datadoghq.com/api/v1/series"
    }

    /// The JSON that tells of a snapshot; `cpu` is the load of the processor as JSON.
    pub fn convert_to_datadog_format(&self, metrics: &MetricsSnapshot, cpu: &str) -> (result: String)
        ensures
            result@ == datadog_series(*metrics, cpu@),
    {
        let time: String = decimal_i64(seconds_of(metrics.timestamp));
        let clients: String = decimal_u64(metrics.proxy_metrics.active_client_connections);
        let connections: String = write_gauge_point(
            "atlas.proxy.active_client_connections",
            time.as_str(),
            clients.as_str(),
        );
        let load: String = write_gauge_point("atlas.system.cpu_usage", time.as_str(), cpu);
        let mut text: String = join3("{\"series\":[", connections.as_str(), ",");
        text.append(load.as_str());
        text.append("]}");
        text
    }
}

/// What a manager that starts has running.
#[derive(Debug)]
pub struct StartPlan {
    /// Whether metrics are collected
    pub collect: bool,
    /// Where collected metrics are sent
    pub exporters: Vec<MetricsExporter>,
    /// Whether metrics can be read over HTTP
    pub serve: bool,
}

/// Publishes metrics by a configuration.
#[derive(Debug)]
pub struct MetricsManager {
    pub config: MetricsConfig,
    pub exporters: Vec<MetricsExporter>,
}

impl MetricsManager {
    /// A manager with an exporter for each one that is configured.
    pub fn new(config: MetricsConfig) -> (result: Self)
        ensures
            result.config == config,
            result.exporters@.len() == config.exporters@.len(),
            forall|i: int|
                0 <= i < result.exporters@.len() ==> made_from(
                    #[trigger] result.exporters@[i],
                    config.exporters@[i],
                ),
    {
        let mut exporters: Vec<MetricsExporter> = Vec::new();
        let mut i: usize = 0;
        while i < config.exporters.len()
            invariant
                i <= config.exporters@.len(),
                exporters@.len() == i,
                forall|j: int|
                    0 <= j < i ==> made_from(#[trigger] exporters@[j], config.exporters@[j]),
            decreases config.exporters@.len() - i,
        {
            let exporter = match &config.exporters[i] {
                MetricsExporterConfig::Prometheus { endpoint } => MetricsExporter::Prometheus(
                    PrometheusExporter::new(endpoint.clone()),
                ),
                MetricsExporterConfig::InfluxDb { endpoint, database } => MetricsExporter::InfluxDb(
                    InfluxDbExporter::new(endpoint.clone(), database.clone()),
                ),
                MetricsExporterConfig::DataDog { api_key } => MetricsExporter::DataDog(
                    DataDogExporter::new(api_key.clone()),
                ),
            };
            exporters.push(exporter);
            i += 1;
        }
        MetricsManager { config, exporters }
    }

    /// Hands the exporters over to the task that serves them, where metrics are enabled.
    /// Metrics are read over HTTP only where exporters are left behind.
    pub fn start(&mut self) -> (result: StartPlan)
        ensures
            final(self).config == old(self).config,
            if old(self).config.enabled {
                &&& result.collect
                &&& result.exporters == old(self).exporters
                &&& final(self).exporters@.len() == 0
                &&& !result.serve
            } else {
                &&& !result.collect
                &&& result.exporters@.len() == 0
                &&& final(self).exporters == old(self).exporters
                &&& !result.serve
            },
    {
        let mut exporters: Vec<MetricsExporter> = Vec::new();
        if !self.config.enabled {
            return StartPlan { collect: false, exporters, serve: false };
        }
        std::mem::swap(&mut self.exporters, &mut exporters);
        let serve = self.exporters.len() > 0;
        StartPlan { collect: true, exporters, serve }
    }

    /// Milliseconds between two exports: five collections.
    pub fn export_interval(&self) -> (result: u64)
        requires
            self.config.collection_interval * 5 <= u64::MAX,
        ensures
            result == self.config.collection_interval * 5,
    {
        self.config.collection_interval * 5
    }

    /// What the proxy's counters do to the metrics.
    pub fn record_proxy_metrics(&self, proxy_metrics: ProxyMetricsSnapshot) -> (result: Vec<
        MetricUpdate,
    >)
        ensures
            result@ == seq![
                MetricUpdate::SetTo(
                    Metric::ActiveClientConnections,
                    proxy_metrics.active_client_connections,
                ),
                MetricUpdate::SetTo(
                    Metric::ActiveServerConnections,
                    proxy_metrics.active_server_connections,
                ),
                MetricUpdate::IncreaseBy(
                    Metric::MessagesProcessed,
                    proxy_metrics.messages_processed,
                ),
                MetricUpdate::IncreaseBy(Metric::MessagesFailed, proxy_metrics.messages_failed),
                MetricUpdate::IncreaseBy(Metric::BytesTransferred, proxy_metrics.bytes_transferred),
                MetricUpdate::IncreaseBy(Metric::ConnectionErrors, proxy_metrics.connection_errors),
            ],
            forall|i: int| 0 <= i < result@.len() ==> (#[trigger] result@[i]).fits(),
    {
        vec![
            MetricUpdate::SetTo(
                Metric::ActiveClientConnections,
                proxy_metrics.active_client_connections,
            ),
            MetricUpdate::SetTo(
                Metric::ActiveServerConnections,
                proxy_metrics.active_server_connections,
            ),
            MetricUpdate::IncreaseBy(Metric::MessagesProcessed, proxy_metrics.messages_processed),
            MetricUpdate::IncreaseBy(Metric::MessagesFailed, proxy_metrics.messages_failed),
            MetricUpdate::IncreaseBy(Metric::BytesTransferred, proxy_metrics.bytes_transferred),
            MetricUpdate::IncreaseBy(Metric::ConnectionErrors, proxy_metrics.connection_errors),
        ]
    }

    /// What the routing counters do to the metrics.
    pub fn record_routing_metrics(&self, routing_metrics: RoutingMetricsSnapshot) -> (result: Vec<
        MetricUpdate,
    >)
        ensures
            result@ == seq![
                MetricUpdate::IncreaseBy(
                    Metric::RoutesCalculated,
                    routing_metrics.routes_calculated,
                ),
                MetricUpdate::IncreaseBy(Metric::RoutingCacheHits, routing_metrics.cache_hits),
                MetricUpdate::IncreaseBy(Metric::RoutingCacheMisses, routing_metrics.cache_misses),
                MetricUpdate::IncreaseBy(Metric::PositionLookups, routing_metrics.position_lookups),
            ],
            forall|i: int| 0 <= i < result@.len() ==> (#[trigger] result@[i]).fits(),
    {
        vec![
            MetricUpdate::IncreaseBy(Metric::RoutesCalculated, routing_metrics.routes_calculated),
            MetricUpdate::IncreaseBy(Metric::RoutingCacheHits, routing_metrics.cache_hits),
            MetricUpdate::IncreaseBy(Metric::RoutingCacheMisses, routing_metrics.cache_misses),
            MetricUpdate::IncreaseBy(Metric::PositionLookups, routing_metrics.position_lookups),
        ]
    }

    /// What the counters of transitions do to the metrics. A duration is observed only
    /// where there is one.
    pub fn record_transition_metrics(&self, transition_metrics: TransitionMetricsSnapshot) -> (result:
        Vec<MetricUpdate>)
        ensures
            ({
                let counts = seq![
                    MetricUpdate::IncreaseBy(
                        Metric::TransitionsInitiated,
                        transition_metrics.transitions_initiated as u64,
                    ),
                    MetricUpdate::IncreaseBy(
                        Metric::TransitionsCompleted,
                        transition_metrics.transitions_completed as u64,
                    ),
                    MetricUpdate::IncreaseBy(
                        Metric::TransitionsFailed,
                        transition_metrics.transitions_failed as u64,
                    ),
                ];
                let millis = transition_metrics.average_transition_time_ms;
                result@ == (if millis > 0 {
                    counts.push(MetricUpdate::ObserveMillis(Metric::TransitionDuration, millis))
                } else {
                    counts
                })
            }),
            forall|i: int| 0 <= i < result@.len() ==> (#[trigger] result@[i]).fits(),
    {
        let mut out: Vec<MetricUpdate> = Vec::new();
        out.push(
            MetricUpdate::IncreaseBy(
                Metric::TransitionsInitiated,
                transition_metrics.transitions_initiated as u64,
            ),
        );
        out.push(
            MetricUpdate::IncreaseBy(
                Metric::TransitionsCompleted,
                transition_metrics.transitions_completed as u64,
            ),
        );
        out.push(
            MetricUpdate::IncreaseBy(
                Metric::TransitionsFailed,
                transition_metrics.transitions_failed as u64,
            ),
        );
        let millis: u32 = transition_metrics.average_transition_time_ms;
        if millis > 0 {
            out.push(MetricUpdate::ObserveMillis(Metric::TransitionDuration, millis));
        }
        out
    }

    /// What the servers' health does to the metrics.
    pub fn record_health_summary(&self, health_summary: ClusterHealthSummary) -> (result: Vec<
        MetricUpdate,
    >)
        ensures
            result@ == seq![
                MetricUpdate::SetTo(Metric::HealthyServers, health_summary.healthy_servers as u64),
                MetricUpdate::SetTo(Metric::FailedServers, health_summary.failed_servers as u64),
            ],
            forall|i: int| 0 <= i < result@.len() ==> (#[trigger] result@[i]).fits(),
    {
        let healthy: u64 = health_summary.healthy_servers as u64;
        let failed: u64 = health_summary.failed_servers as u64;
        vec![
            MetricUpdate::SetTo(Metric::HealthyServers, healthy),
            MetricUpdate::SetTo(Metric::FailedServers, failed),
        ]
    }

    /// What the machine's own numbers do to the metrics.
    pub fn record_system_metrics(&self, system_metrics: SystemMetrics) -> (result: Vec<MetricUpdate>)
        ensures
            result@ == seq![
                MetricUpdate::SetToValue(Metric::CpuUsage, system_metrics.cpu_usage_percent),
                MetricUpdate::SetTo(Metric::MemoryUsage, system_metrics.memory_usage_bytes),
                MetricUpdate::SetTo(Metric::DiskUsage, system_metrics.disk_usage_bytes),
                MetricUpdate::IncreaseBy(
                    Metric::NetworkBytesSent,
                    system_metrics.network_bytes_sent,
                ),
                MetricUpdate::IncreaseBy(
                    Metric::NetworkBytesReceived,
                    system_metrics.network_bytes_received,
                ),
            ],
            forall|i: int| 0 <= i < result@.len() ==> (#[trigger] result@[i]).fits(),
    {
        vec![
            MetricUpdate::SetToValue(Metric::CpuUsage, system_metrics.cpu_usage_percent),
            MetricUpdate::SetTo(Metric::MemoryUsage, system_metrics.memory_usage_bytes),
            MetricUpdate::SetTo(Metric::DiskUsage, system_metrics.disk_usage_bytes),
            MetricUpdate::IncreaseBy(Metric::NetworkBytesSent, system_metrics.network_bytes_sent),
            MetricUpdate::IncreaseBy(
                Metric::NetworkBytesReceived,
                system_metrics.network_bytes_received,
            ),
        ]
    }

    /// One more request that took this long.
    pub fn record_request_duration(&self, endpoint: &str, method: &str, duration_seconds: Scalar) -> (result:
        LabelledUpdate)
        ensures
            result.is_of(Metric::RequestDuration, seq![endpoint@, method@]),
            result.value == duration_seconds,
    {
        let labels: Vec<String> = vec![endpoint.to_owned(), method.to_owned()];
        assert(texts(labels@) =~= seq![endpoint@, method@]);
        LabelledUpdate { metric: Metric::RequestDuration, labels, value: duration_seconds }
    }

    /// One more response of a server. It is counted in seconds, which `to_seconds` makes
    /// of milliseconds.
    pub fn record_server_response_time<F: Fn(Scalar) -> Scalar>(
        &self,
        server_id: &str,
        response_time_ms: Scalar,
        to_seconds: F,
    ) -> (result: LabelledUpdate)
        requires
            to_seconds.requires((response_time_ms,)),
        ensures
            result.is_of(Metric::ServerResponseTimes, seq![server_id@]),
            to_seconds.ensures((response_time_ms,), result.value),
    {
        let seconds = to_seconds(response_time_ms);
        one_label(Metric::ServerResponseTimes, server_id, seconds)
    }

    /// How available a server is.
    pub fn record_server_availability(&self, server_id: &str, availability: Scalar) -> (result:
        LabelledUpdate)
        ensures
            result.is_of(Metric::ServerAvailability, seq![server_id@]),
            result.value == availability,
    {
        one_label(Metric::ServerAvailability, server_id, availability)
    }

    /// How often a component fails.
    pub fn record_error_rate(&self, component: &str, error_rate: Scalar) -> (result: LabelledUpdate)
        ensures
            result.is_of(Metric::ErrorRate, seq![component@]),
            result.value == error_rate,
    {
        one_label(Metric::ErrorRate, component, error_rate)
    }

    /// How much a component gets done.
    pub fn record_throughput(&self, component: &str, throughput: Scalar) -> (result: LabelledUpdate)
        ensures
            result.is_of(Metric::Throughput, seq![component@]),
            result.value == throughput,
    {
        one_label(Metric::Throughput, component, throughput)
    }

    /// A snapshot of all that is published.
    pub fn create_snapshot(
        &self,
        proxy_metrics: ProxyMetricsSnapshot,
        routing_metrics: RoutingMetricsSnapshot,
        transition_metrics: TransitionMetricsSnapshot,
        health_summary: ClusterHealthSummary,
        timestamp: i64,
        uptime_seconds: u64,
    ) -> (result: MetricsSnapshot)
        ensures
            result.timestamp == timestamp,
            result.proxy_metrics == proxy_metrics,
            result.routing_metrics == routing_metrics,
            result.transition_metrics == transition_metrics,
            result.health_summary == health_summary,
            result.system_metrics == SystemMetrics::spec_unmeasured(uptime_seconds),
            result.custom_metrics@.len() == 0,
    {
        MetricsSnapshot {
            timestamp,
            proxy_metrics,
            routing_metrics,
            transition_metrics,
            health_summary,
            system_metrics: SystemMetrics::collect(uptime_seconds),
            custom_metrics: Vec::new(),
        }
    }

    /// The text that is published, or the error that its encoding became.
    pub fn get_prometheus_metrics(&self, encoded: std::result::Result<String, String>) -> (result: Result<
        String,
    >)
        ensures
            match (encoded, result) {
                (Ok(text), Ok(out)) => out == text,
                (Err(cause), Err(error)) => error matches AtlasError::Internal(text) && text@
                    == "Failed to encode metrics: "@ + cause@,
                _ => false,
            },
    {
        match encoded {
            Ok(text) => Ok(text),
            Err(cause) => Err(
                AtlasError::Internal(join("Failed to encode metrics: ", cause.as_str())),
            ),
        }
    }
}

/// A point in time lies in the second that it is exported with, before the epoch too.
pub proof fn lemma_exported_second_holds_the_time(timestamp: i64)
    ensures
        floor_seconds(timestamp) * 1_000_000_000 <= timestamp,
        timestamp < (floor_seconds(timestamp) + 1) * 1_000_000_000,
{
}

/// Histograms are the metrics with buckets, and the only ones; transitions have their own.
/// What is counted or gauged has none.
pub proof fn lemma_only_histograms_have_buckets(metric: Metric)
    ensures
        metric.spec_buckets().len() > 0 <==> metric.spec_kind() is Histogram,
        metric.spec_kind() is Histogram && metric != Metric::TransitionDuration
            ==> metric.spec_buckets() == seq![1u64, 5, 10, 50, 100, 500, 1000, 2000, 5000],
        Metric::TransitionDuration.spec_buckets() == seq![
            100u64,
            500,
            1000,
            2000,
            5000,
            10000,
            30000,
            60000,
        ],
{
}

/// A metric is set, increased or observed according to its kind, and in no other way.
pub proof fn lemma_updates_fit_the_kind(metric: Metric, update: MetricUpdate)
    ensures
        metric == Metric::ActiveClientConnections || metric == Metric::ActiveServerConnections
            || metric == Metric::HealthyServers || metric == Metric::FailedServers || metric
            == Metric::ServerAvailability || metric == Metric::ClusterNodes || metric
            == Metric::CpuUsage || metric == Metric::MemoryUsage || metric == Metric::DiskUsage
            || metric == Metric::ErrorRate || metric == Metric::Throughput <==> metric.spec_kind()
            == MetricKind::Gauge,
        metric == Metric::MessageLatency || metric == Metric::TransitionDuration || metric
            == Metric::ServerResponseTimes || metric == Metric::ClusterConsensusDuration || metric
            == Metric::RequestDuration <==> metric.spec_kind() == MetricKind::Histogram,
        update matches MetricUpdate::SetTo(m, _) ==> (update.fits() <==> m.spec_kind()
            == MetricKind::Gauge),
        update matches MetricUpdate::SetToValue(m, _) ==> (update.fits() <==> m.spec_kind()
            == MetricKind::Gauge),
        update matches MetricUpdate::IncreaseBy(m, _) ==> (update.fits() <==> m.spec_kind()
            == MetricKind::Counter),
        update matches MetricUpdate::ObserveMillis(m, _) ==> (update.fits() <==> m.spec_kind()
            == MetricKind::Histogram),
{
}

/// The first line of the line protocol begins with the client connections, then the server
/// connections and the messages, each as a whole number, and the second ends with the time.
pub proof fn lemma_line_protocol_gives_each_number(metrics: MetricsSnapshot, cpu: Seq<char>)
    ensures
        ({
            let proxy = metrics.proxy_metrics;
            let system = metrics.system_metrics;
            let time = signed_decimal(metrics.timestamp as int);
            line_protocol(metrics, cpu) == ("proxy_metrics active_client_connections="@ + decimal(
                proxy.active_client_connections as nat,
            ) + "i,active_server_connections="@ + decimal(proxy.active_server_connections as nat)
                + "i,messages_processed="@ + decimal(proxy.messages_processed as nat) + "i "@
                + time) + "\n"@ + ("system_metrics cpu_usage="@ + cpu + ",memory_usage="@ + decimal(
                system.memory_usage_bytes as nat,
            ) + ",disk_usage="@ + decimal(system.disk_usage_bytes as nat) + " "@ + time)
        }),
{
    let proxy = metrics.proxy_metrics;
    let system = metrics.system_metrics;
    let time = signed_decimal(metrics.timestamp as int);
    let first = "proxy_metrics active_client_connections="@ + decimal(
        proxy.active_client_connections as nat,
    ) + "i,active_server_connections="@ + decimal(proxy.active_server_connections as nat)
        + "i,messages_processed="@ + decimal(proxy.messages_processed as nat) + "i "@ + time;
    let second = "system_metrics cpu_usage="@ + cpu + ",memory_usage="@ + decimal(
        system.memory_usage_bytes as nat,
    ) + ",disk_usage="@ + decimal(system.disk_usage_bytes as nat) + " "@ + time;
    assert(line_protocol(metrics, cpu) =~= first + "\n"@ + second);
}

/// What is exported depends on the numbers that are exported and on no other.
pub proof fn lemma_exports_read_only_their_numbers(
    a: MetricsSnapshot,
    b: MetricsSnapshot,
    cpu: Seq<char>,
)
    requires
        a.timestamp == b.timestamp,
        a.proxy_metrics.active_client_connections == b.proxy_metrics.active_client_connections,
    ensures
        datadog_series(a, cpu) == datadog_series(b, cpu),
        a.proxy_metrics.active_server_connections == b.proxy_metrics.active_server_connections
            && a.proxy_metrics.messages_processed == b.proxy_metrics.messages_processed
            && a.system_metrics.memory_usage_bytes == b.system_metrics.memory_usage_bytes
            && a.system_metrics.disk_usage_bytes == b.system_metrics.disk_usage_bytes
            ==> line_protocol(a, cpu) == line_protocol(b, cpu),
{
}

/// An exporter is of the kind that is configured and sends where it is configured to.
pub proof fn lemma_exporter_is_as_configured(
    exporter: MetricsExporter,
    config: MetricsExporterConfig,
)
    requires
        made_from(exporter, config),
    ensures
        exporter is Prometheus <==> config is Prometheus,
        exporter is InfluxDb <==> config is InfluxDb,
        exporter is DataDog <==> config is DataDog,
        exporter matches MetricsExporter::InfluxDb(made) ==> (
        config matches MetricsExporterConfig::InfluxDb { endpoint, database } && made.endpoint
            == endpoint && made.database == database),
{
}

/// A metric definition says of its metric what it is registered as.
pub proof fn lemma_definition_matches_metric(definition: MetricDefinition, metric: Metric)
    requires
        defines(definition, metric),
    ensures
        definition.metric == metric,
        definition.kind == metric.spec_kind(),
        definition.name@ == metric.spec_name(),
        definition.help@ == metric.spec_help(),
        definition.buckets_ms@ == metric.spec_buckets(),
        definition.labels@.len() == metric.spec_labels().len(),
{
}

/// The metrics with labels are those of single servers, of requests and of components.
pub proof fn lemma_few_metrics_have_labels(metric: Metric)
    ensures
        metric.spec_labels().len() > 0 <==> metric == Metric::ServerResponseTimes || metric
            == Metric::ServerAvailability || metric == Metric::RequestDuration || metric
            == Metric::ErrorRate || metric == Metric::Throughput,
        metric.spec_labels().len() == 2 <==> metric == Metric::RequestDuration,
        metric.spec_labels().len() <= 2,
{
}

/// A machine that was not measured shows nothing but its uptime.
pub proof fn lemma_unmeasured_machine_shows_uptime(uptime_seconds: u64)
    ensures
        ({
            let system = SystemMetrics::spec_unmeasured(uptime_seconds);
            &&& system.uptime_seconds == uptime_seconds
            &&& system.cpu_usage_percent == Scalar::Number(0)
            &&& system.memory_usage_bytes == 0 && system.memory_total_bytes == 0
            &&& system.disk_usage_bytes == 0 && system.disk_total_bytes == 0
            &&& system.network_bytes_sent == 0 && system.network_bytes_received == 0
        }),
{
}

/// A labelled value has one text for each label of its metric.
pub proof fn lemma_labels_match_the_metric(
    value: LabelledUpdate,
    metric: Metric,
    labels: Seq<Seq<char>>,
)
    requires
        value.is_of(metric, labels),
    ensures
        value.metric == metric,
        value.labels@.len() == labels.len(),
        labels.len() == metric.spec_labels().len(),
        forall|i: int| 0 <= i < labels.len() ==> (#[trigger] value.labels@[i])@ == labels[i],
{
    assert forall|i: int| 0 <= i < labels.len() implies (#[trigger] value.labels@[i])@
        == labels[i] by {
        assert(texts(value.labels@)[i] == labels[i]);
    }
}

} // verus!
