use horizon_atlas::config::HealthConfig;
use horizon_atlas::errors::AtlasError;
use horizon_atlas::health::{
    format_alert_message, health_url, kept_count, read_connections, AlertCondition, AlertManager, AlertRule,
    AlertSeverity, AlertStatus, HealthMetrics, HealthMonitor, LogNotificationChannel, ProbeFailure, ServerHealth,
};
use horizon_atlas::scalar::Scalar;
use horizon_atlas::types::{NodeStatus, ServerId};

const MILLI: i64 = 1_000_000;

fn key(value: f32) -> Scalar {
    Scalar::from_bits((value as f64).to_bits())
}

fn float(value: Scalar) -> f32 {
    f64::from_bits(value.to_bits()) as f32
}

fn fixed(value: Scalar) -> String {
    format!("{:.2}", float(value))
}

fn percent(value: Scalar) -> String {
    format!("{:.2}", float(value) * 100.0)
}

fn availability(failures: u32) -> Scalar {
    key((1.0 - failures as f32 / 100.0).max(0.0).min(1.0))
}

fn id(text: &str) -> ServerId {
    ServerId(text.to_string())
}

fn monitor() -> HealthMonitor {
    HealthMonitor::new(HealthConfig {
        check_interval: 100,
        timeout: 50,
        failure_threshold: 3,
        success_threshold: 2,
        metrics_retention: 350,
    })
}

fn metrics(timestamp: i64) -> HealthMetrics {
    HealthMetrics {
        timestamp,
        cpu_usage: key(1.0),
        memory_usage: key(2.0),
        network_usage: key(3.0),
        active_connections: 4,
        message_throughput: key(5.0),
        error_rate: key(6.0),
        response_time_p50: key(7.0),
        response_time_p95: key(8.0),
        response_time_p99: key(9.0),
    }
}

fn passes(monitor: &mut HealthMonitor, now: i64) -> ServerHealth {
    monitor.check_server_health(&id("s"), Ok(metrics(now)), key(12.0), availability, now)
}

fn fails(monitor: &mut HealthMonitor, now: i64) -> ServerHealth {
    let error = ProbeFailure::TimedOut.into_error("");
    monitor.check_server_health(&id("s"), Err(error), key(50.0), availability, now)
}

#[test]
fn servers_become_active_after_enough_successes() {
    let mut monitor = monitor();
    assert_eq!(monitor.get_server_health(&id("s")), None);
    let first = passes(&mut monitor, 10);
    assert_eq!((first.status, first.consecutive_successes, first.last_check), (NodeStatus::Starting, 1, 10));
    assert_eq!((first.response_time_ms, first.error_rate), (key(12.0), key(6.0)));
    assert_eq!(float(first.availability), 1.0);
    let second = passes(&mut monitor, 20);
    assert_eq!(second.status, NodeStatus::Active);
    assert_eq!(monitor.get_server_health(&id("s")), Some(second));
    assert_eq!(monitor.get_all_server_health().len(), 1);
}

#[test]
fn servers_fail_after_enough_failures_in_a_row() {
    let mut monitor = monitor();
    passes(&mut monitor, 0);
    passes(&mut monitor, 0);
    assert_eq!(fails(&mut monitor, 1).status, NodeStatus::Active);
    let second = fails(&mut monitor, 2);
    assert_eq!((second.consecutive_failures, second.consecutive_successes), (2, 0));
    assert_eq!(second.last_failure_reason, Some("Health check error: Request timeout".to_string()));
    assert_eq!(float(second.availability), 0.98);
    assert_eq!(passes(&mut monitor, 3).consecutive_failures, 0);
    assert_eq!(fails(&mut monitor, 4).status, NodeStatus::Active);
    assert_eq!(fails(&mut monitor, 5).status, NodeStatus::Active);
    assert_eq!(fails(&mut monitor, 6).status, NodeStatus::Failed);
    let back = passes(&mut monitor, 7);
    assert_eq!(back.status, NodeStatus::Failed);
    assert!(back.last_failure_reason.is_some());
    let back = passes(&mut monitor, 8);
    assert_eq!((back.status, back.last_failure_reason), (NodeStatus::Active, None));
}

#[test]
fn history_keeps_the_newest_reports() {
    let mut monitor = monitor();
    for now in 1..=5 {
        passes(&mut monitor, now * MILLI);
    }
    fails(&mut monitor, 6 * MILLI);
    let times = |monitor: &HealthMonitor, limit| -> Vec<i64> {
        monitor.get_health_history(&id("s"), limit).iter().map(|r| r.timestamp / MILLI).collect()
    };
    assert_eq!(times(&monitor, None), vec![5, 4, 3]);
    assert_eq!(times(&monitor, Some(2)), vec![5, 4]);
    let newest = monitor.get_health_history(&id("s"), Some(1))[0];
    assert_eq!((newest.node_id.as_str(), newest.status, newest.active_connections), ("s", NodeStatus::Active, 4));
    assert_eq!(newest.latency_p95, key(8.0));
    assert!(monitor.get_health_history(&id("x"), None).is_empty());
    monitor.cleanup_history((350 + 4) * MILLI);
    assert_eq!(times(&monitor, None), vec![5]);
    monitor.cleanup_history(i64::MIN);
    assert_eq!(times(&monitor, None), vec![5]);
    monitor.cleanup_history(i64::MAX);
    assert!(times(&monitor, None).is_empty());
}

#[test]
fn every_server_is_counted_once() {
    let mut monitor = monitor();
    for (name, checks) in [("a", 2), ("b", 2), ("c", 1)] {
        for _ in 0..checks {
            monitor.check_server_health(&id(name), Ok(metrics(0)), key(1.0), availability, 0);
        }
    }
    for _ in 0..3 {
        fails(&mut monitor, 0);
    }
    let summary = monitor.get_cluster_health_summary();
    assert_eq!((summary.total_servers, summary.healthy_servers, summary.failed_servers), (4, 2, 1));
    assert_eq!((summary.inactive_servers, summary.unknown_servers), (0, 1));
}

#[test]
fn monitors_start_with_four_rules() {
    let mut monitor = monitor();
    assert!(!monitor.health_checks_running);
    monitor.start();
    assert!(monitor.health_checks_running);
    let rules: Vec<(&str, f32, u64, u64)> = monitor
        .alert_manager
        .alert_rules
        .iter()
        .map(|r| (r.id.as_str(), float(r.threshold), r.duration, r.cooldown))
        .collect();
    assert_eq!(
        rules,
        vec![
            ("high_cpu", 80.0, 300, 600),
            ("high_memory", 85.0, 300, 600),
            ("high_error_rate", 5.0, 60, 300),
            ("server_down", 1.0, 30, 60),
        ]
    );
    monitor.remove_alert_rule("high_cpu");
    assert_eq!(monitor.alert_manager.alert_rules.len(), 3);
    monitor.add_alert_rule(rule("mine", AlertCondition::ServerDown, 0.0));
    assert_eq!(monitor.alert_manager.alert_rules[3].id, "mine");
    assert!(monitor.get_active_alerts().is_empty());
    monitor.stop();
    assert!(!monitor.health_checks_running);
}

fn rule(name: &str, condition: AlertCondition, threshold: f32) -> AlertRule {
    AlertRule {
        id: name.to_string(),
        name: format!("Rule {}", name),
        condition,
        severity: AlertSeverity::Warning,
        threshold: key(threshold),
        duration: 1,
        cooldown: 1,
        enabled: true,
    }
}

fn health(status: NodeStatus, response: f32, errors: f32, available: f32) -> ServerHealth {
    ServerHealth {
        server_id: id("s"),
        status,
        last_check: 0,
        consecutive_failures: 0,
        consecutive_successes: 0,
        response_time_ms: key(response),
        error_rate: key(errors),
        availability: key(available),
        last_failure_reason: None,
    }
}

#[test]
fn alerts_are_raised_once_and_resolved() {
    let mut alerts = AlertManager::new();
    alerts.add_alert_rule(rule("errors", AlertCondition::HighErrorRate, 5.0));
    alerts.add_alert_rule(rule("slow", AlertCondition::HighResponseTime, 100.0));
    alerts.add_alert_rule(rule("cpu", AlertCondition::HighCpuUsage, 0.0));
    let bad = health(NodeStatus::Active, 100.0, 5.5, 1.0);
    let raised = alerts.evaluate_alerts(&id("s"), &bad, &fixed, &percent, 7);
    assert_eq!(raised.len(), 1);
    assert_eq!((raised[0].rule_id.as_str(), raised[0].title.as_str()), ("errors", "Rule errors"));
    assert_eq!(raised[0].message, "Server s has high error rate: 5.50% (threshold: 5.00%)");
    assert_eq!((raised[0].status, raised[0].severity), (AlertStatus::Active, AlertSeverity::Warning));
    assert_eq!((raised[0].created_at, raised[0].resolved_at), (7, None));
    assert!(alerts.evaluate_alerts(&id("s"), &bad, &fixed, &percent, 8).is_empty());
    assert_eq!(alerts.get_active_alerts().len(), 1);
    assert!(alerts.active_alerts.contains_key("errors:s"));
    let good = health(NodeStatus::Active, 100.5, 5.0, 1.0);
    let changed = alerts.evaluate_alerts(&id("s"), &good, &fixed, &percent, 9);
    let summary: Vec<(&str, AlertStatus)> = changed.iter().map(|a| (a.rule_id.as_str(), a.status)).collect();
    assert_eq!(summary, vec![("errors", AlertStatus::Resolved), ("slow", AlertStatus::Active)]);
    assert_eq!((changed[0].created_at, changed[0].updated_at, changed[0].resolved_at), (7, 9, Some(9)));
    assert_eq!(changed[0].id, raised[0].id);
    assert_eq!(alerts.get_active_alerts().len(), 1);
}

#[test]
fn disabled_rules_are_passed_over() {
    let mut alerts = AlertManager::new();
    let mut off = rule("down", AlertCondition::ServerDown, 0.0);
    let down = health(NodeStatus::Failed, 0.0, 0.0, 1.0);
    assert!(alerts.evaluate_rule(&off, &id("s"), &down, &fixed, &percent, 0).is_some());
    off.enabled = false;
    let up = health(NodeStatus::Active, 0.0, 0.0, 1.0);
    assert!(alerts.evaluate_rule(&off, &id("s"), &up, &fixed, &percent, 0).is_none());
    assert_eq!(alerts.get_active_alerts().len(), 1);
    alerts.add_alert_rule(off);
    alerts.remove_alert_rule("down");
    assert!(alerts.alert_rules.is_empty());
}

#[test]
fn alert_messages() {
    let state = health(NodeStatus::Failed, 123.456, 0.0, 0.5);
    let told = |condition, threshold: f32| {
        format_alert_message(&rule("r", condition, threshold), &id("s"), &state, &fixed, &percent)
    };
    assert_eq!(
        told(AlertCondition::HighResponseTime, 100.0),
        "Server s has high response time: 123.46ms (threshold: 100.00ms)"
    );
    assert_eq!(
        told(AlertCondition::LowAvailability, 0.95),
        "Server s has low availability: 50.00% (threshold: 95.00%)"
    );
    assert_eq!(told(AlertCondition::ServerDown, 0.0), "Server s is down (status: Failed)");
    assert_eq!(told(AlertCondition::NetworkPartition, 0.0), "Alert Rule r triggered for server s");
}

#[test]
fn low_availability_and_failed_servers_raise_alerts() {
    let mut alerts = AlertManager::new();
    let low = rule("low", AlertCondition::LowAvailability, 0.9);
    let weak = health(NodeStatus::Active, 0.0, 0.0, 0.89);
    assert!(alerts.evaluate_rule(&low, &id("s"), &weak, &fixed, &percent, 0).is_some());
    let exact = health(NodeStatus::Active, 0.0, 0.0, 0.9);
    let resolved = alerts.evaluate_rule(&low, &id("s"), &exact, &fixed, &percent, 1).unwrap();
    assert_eq!(resolved.status, AlertStatus::Resolved);
    let log = LogNotificationChannel {};
    assert_eq!(log.line(&resolved), format!("[ALERT] Rule low: {}", resolved.message));
    assert_eq!(log.name(), "log");
}

#[test]
fn probes_fail_in_four_ways() {
    let text = |failure: ProbeFailure| match failure.into_error("http://h/health") {
        AtlasError::HealthCheck(text) => text,
        _ => panic!("not a failed check"),
    };
    assert_eq!(text(ProbeFailure::TimedOut), "Request timeout");
    assert_eq!(text(ProbeFailure::RequestFailed("x".to_string())), "HTTP request failed: x");
    assert_eq!(
        text(ProbeFailure::BadStatus("500 Internal Server Error".to_string())),
        "HTTP 500 Internal Server Error from http://h/health"
    );
    assert_eq!(text(ProbeFailure::BadBody("x".to_string())), "Failed to parse health response: x");
    assert_eq!(health_url("1.2.3.4:5"), "http://1.2.3.4:5/health");
}

#[test]
fn connections_in_health_answers() {
    assert_eq!(read_connections("{\"active_connections\": 17}"), 17);
    assert_eq!(read_connections("{\"active_connections\": \"17\"}"), 0);
    assert_eq!(read_connections("{}"), 0);
    assert_eq!(kept_count(Some(0x1_0000_0005)), 5);
    assert_eq!(kept_count(None), 0);
}

#[test]
fn servers_to_check_have_to_be_known() {
    let missing = HealthMonitor::server_to_check(&id("s"), Ok(None)).unwrap_err();
    assert_eq!(missing, AtlasError::ServerNotFound { server_id: "s".to_string() });
    let down = HealthMonitor::server_to_check(&id("s"), Err(AtlasError::Discovery("x".to_string())));
    assert_eq!(down.unwrap_err(), AtlasError::Discovery("x".to_string()));
}
