//! Health of the game servers: checks, history and alerts.
use std::collections::VecDeque;
use vstd::prelude::*;

use crate::config::{HealthConfig, FIVE_BITS};
use crate::errors::{AtlasError, Result};
use crate::ids::{is_uuid_text, new_uuid_text};
use crate::json::{member_unsigned, read_member_unsigned};
use crate::scalar::Scalar;
use crate::search::lemma_filter_keeps_the_wanted;
use crate::table::{referents, Table};
use crate::text::{join, join3, str_eq};
use crate::types::{copy_pairs, GameServer, HealthReport, NodeStatus, ServerId};

verus! {

/// The bit pattern of the float 1.
pub const ONE_BITS: u64 = 0x3ff0_0000_0000_0000;

/// The bit pattern of the float 80.
pub const EIGHTY_BITS: u64 = 0x4054_0000_0000_0000;

/// The bit pattern of the float 85.
pub const EIGHTY_FIVE_BITS: u64 = 0x4055_4000_0000_0000;

/// How many reports of a server's history are shown unless asked otherwise.
pub const DEFAULT_HISTORY_LIMIT: usize = 100;

/// What the checks have found out about a server.
#[derive(Debug, PartialEq, Eq)]
pub struct ServerHealth {
    pub server_id: ServerId,
    pub status: NodeStatus,
    pub last_check: i64,
    pub consecutive_failures: u32,
    pub consecutive_successes: u32,
    pub response_time_ms: Scalar,
    pub error_rate: Scalar,
    pub availability: Scalar,
    pub last_failure_reason: Option<String>,
}

impl Clone for ServerHealth {
    fn clone(&self) -> (result: Self)
        ensures
            result == *self,
    {
        ServerHealth {
            server_id: self.server_id.clone(),
            status: self.status,
            last_check: self.last_check,
            consecutive_failures: self.consecutive_failures,
            consecutive_successes: self.consecutive_successes,
            response_time_ms: self.response_time_ms,
            error_rate: self.error_rate,
            availability: self.availability,
            last_failure_reason: self.last_failure_reason.clone(),
        }
    }
}

/// What a server tells of itself in a check.
#[derive(Clone, Copy, Debug, PartialEq, Eq, Structural)]
pub struct HealthMetrics {
    pub timestamp: i64,
    pub cpu_usage: Scalar,
    pub memory_usage: Scalar,
    pub network_usage: Scalar,
    pub active_connections: u32,
    pub message_throughput: Scalar,
    pub error_rate: Scalar,
    pub response_time_p50: Scalar,
    pub response_time_p95: Scalar,
    pub response_time_p99: Scalar,
}

/// When an alert is raised.
#[derive(Debug, PartialEq, Eq)]
pub struct AlertRule {
    pub id: String,
    pub name: String,
    pub condition: AlertCondition,
    pub severity: AlertSeverity,
    pub threshold: Scalar,
    /// Seconds for which the condition holds
    pub duration: u64,
    /// Seconds until the next alert
    pub cooldown: u64,
    pub enabled: bool,
}

impl Clone for AlertRule {
    fn clone(&self) -> (result: Self)
        ensures
            result == *self,
    {
        AlertRule {
            id: self.id.clone(),
            name: self.name.clone(),
            condition: self.condition,
            severity: self.severity,
            threshold: self.threshold,
            duration: self.duration,
            cooldown: self.cooldown,
            enabled: self.enabled,
        }
    }
}

/// What an alert is about.
#[derive(Clone, Copy, Debug, PartialEq, Eq, Structural)]
pub enum AlertCondition {
    HighCpuUsage,
    HighMemoryUsage,
    HighErrorRate,
    HighResponseTime,
    LowAvailability,
    ServerDown,
    NetworkPartition,
    DiskSpaceRunning,
}

/// How serious an alert is.
#[derive(Clone, Copy, Debug, PartialEq, Eq, Structural)]
pub enum AlertSeverity {
    Critical,
    Warning,
    Info,
}

/// Where an alert stands.
#[derive(Clone, Copy, Debug, PartialEq, Eq, Structural)]
pub enum AlertStatus {
    Active,
    Resolved,
    Suppressed,
}

/// An alert about a server.
#[derive(Debug)]
pub struct Alert {
    pub id: String,
    pub rule_id: String,
    pub server_id: Option<ServerId>,
    pub severity: AlertSeverity,
    pub title: String,
    pub message: String,
    pub created_at: i64,
    pub updated_at: i64,
    pub resolved_at: Option<i64>,
    pub status: AlertStatus,
    pub metadata: Vec<(String, String)>,
}

impl Alert {
    /// Whether the two alerts agree in every field.
    pub open spec fn same_as(self, other: Alert) -> bool {
        &&& self == (Alert { metadata: self.metadata, ..other })
        &&& self.metadata@ == other.metadata@
    }

    /// The alert once its cause is gone.
    pub open spec fn resolved(self, now: i64) -> Alert {
        Alert {
            status: AlertStatus::Resolved,
            resolved_at: Some(now),
            updated_at: now,
            ..self
        }
    }
}

impl Clone for Alert {
    fn clone(&self) -> (result: Self)
        ensures
            result.same_as(*self),
    {
        Alert {
            id: self.id.clone(),
            rule_id: self.rule_id.clone(),
            server_id: self.server_id.clone(),
            severity: self.severity,
            title: self.title.clone(),
            message: self.message.clone(),
            created_at: self.created_at,
            updated_at: self.updated_at,
            resolved_at: self.resolved_at,
            status: self.status,
            metadata: copy_pairs(&self.metadata),
        }
    }
}

/// Whether the state of a server calls for an alert.
pub open spec fn is_triggered(rule: AlertRule, health: ServerHealth) -> bool {
    match rule.condition {
        AlertCondition::HighErrorRate => rule.threshold.spec_lt(health.error_rate),
        AlertCondition::HighResponseTime => rule.threshold.spec_lt(health.response_time_ms),
        AlertCondition::LowAvailability => health.availability.spec_lt(rule.threshold),
        AlertCondition::ServerDown => health.status is Failed,
        _ => false,
    }
}

fn triggered(rule: &AlertRule, health: &ServerHealth) -> (result: bool)
    ensures
        result == is_triggered(*rule, *health),
{
    match rule.condition {
        AlertCondition::HighErrorRate => rule.threshold.lt(health.error_rate),
        AlertCondition::HighResponseTime => rule.threshold.lt(health.response_time_ms),
        AlertCondition::LowAvailability => health.availability.lt(rule.threshold),
        AlertCondition::ServerDown => matches!(health.status, NodeStatus::Failed),
        _ => false,
    }
}

/// Under what an alert is filed: the rule and the server.
pub open spec fn alert_key(rule: AlertRule, server: ServerId) -> Seq<char> {
    rule.id@ + ":"@ + server.0@
}

/// The name of a node's status.
pub open spec fn status_name(status: NodeStatus) -> Seq<char> {
    match status {
        NodeStatus::Active => "Active"@,
        NodeStatus::Inactive => "Inactive"@,
        NodeStatus::Failed => "Failed"@,
        NodeStatus::Starting => "Starting"@,
        NodeStatus::Stopping => "Stopping"@,
    }
}

fn name_status(status: NodeStatus) -> (result: &'static str)
    ensures
        result@ == status_name(status),
{
    match status {
        NodeStatus::Active => "Active",
        NodeStatus::Inactive => "Inactive",
        NodeStatus::Failed => "Failed",
        NodeStatus::Starting => "Starting",
        NodeStatus::Stopping => "Stopping",
    }
}

/// A message that compares two amounts: what it says of the server, the two amounts
/// and their unit.
pub open spec fn comparison(
    server: Seq<char>,
    claim: Seq<char>,
    amount: Seq<char>,
    limit: Seq<char>,
    unit: Seq<char>,
) -> Seq<char> {
    "Server "@ + server + claim + amount + unit + " (threshold: "@ + limit + unit + ")"@
}

/// Whether `text` compares two values that `render` turns into text.
pub open spec fn compares<F: Fn(Scalar) -> String>(
    text: Seq<char>,
    server: Seq<char>,
    claim: Seq<char>,
    value: Scalar,
    limit: Scalar,
    unit: Seq<char>,
    render: F,
) -> bool {
    exists|a: String, b: String|
        {
            &&& #[trigger] render.ensures((value,), a)
            &&& #[trigger] render.ensures((limit,), b)
            &&& text == comparison(server, claim, a@, b@, unit)
        }
}

fn compare_amounts<F: Fn(Scalar) -> String>(
    server: &str,
    claim: &str,
    value: Scalar,
    limit: Scalar,
    unit: &str,
    render: &F,
) -> (result: String)
    requires
        forall|x: Scalar| #[trigger] render.requires((x,)),
    ensures
        compares(result@, server@, claim@, value, limit, unit@, *render),
{
    let a: String = render(value);
    let b: String = render(limit);
    let mut text: String = join3("Server ", server, claim);
    text.append(a.as_str());
    text.append(unit);
    text.append(" (threshold: ");
    text.append(b.as_str());
    text.append(unit);
    text.append(")");
    text
}

/// Whether `text` says what a rule found out about a server. `fixed` renders a value
/// with two decimals, and `percent` a hundred times the value.
pub open spec fn tells<F: Fn(Scalar) -> String, P: Fn(Scalar) -> String>(
    text: Seq<char>,
    rule: AlertRule,
    server: ServerId,
    health: ServerHealth,
    fixed: F,
    percent: P,
) -> bool {
    match rule.condition {
        AlertCondition::HighErrorRate => compares(
            text,
            server.0@,
            " has high error rate: "@,
            health.error_rate,
            rule.threshold,
            "%"@,
            fixed,
        ),
        AlertCondition::HighResponseTime => compares(
            text,
            server.0@,
            " has high response time: "@,
            health.response_time_ms,
            rule.threshold,
            "ms"@,
            fixed,
        ),
        AlertCondition::LowAvailability => compares(
            text,
            server.0@,
            " has low availability: "@,
            health.availability,
            rule.threshold,
            "%"@,
            percent,
        ),
        AlertCondition::ServerDown => text == "Server "@ + server.0@ + " is down (status: "@
            + status_name(health.status) + ")"@,
        _ => text == "Alert "@ + rule.name@ + " triggered for server "@ + server.0@,
    }
}

/// What a rule found out about a server.
pub fn format_alert_message<F: Fn(Scalar) -> String, P: Fn(Scalar) -> String>(
    rule: &AlertRule,
    server_id: &ServerId,
    health: &ServerHealth,
    fixed: &F,
    percent: &P,
) -> (result: String)
    requires
        forall|x: Scalar| #[trigger] fixed.requires((x,)),
        forall|x: Scalar| #[trigger] percent.requires((x,)),
    ensures
        tells(result@, *rule, *server_id, *health, *fixed, *percent),
{
    let server: &str = server_id.0.as_str();
    match rule.condition {
        AlertCondition::HighErrorRate => compare_amounts(
            server,
            " has high error rate: ",
            health.error_rate,
            rule.threshold,
            "%",
            fixed,
        ),
        AlertCondition::HighResponseTime => compare_amounts(
            server,
            " has high response time: ",
            health.response_time_ms,
            rule.threshold,
            "ms",
            fixed,
        ),
        AlertCondition::LowAvailability => compare_amounts(
            server,
            " has low availability: ",
            health.availability,
            rule.threshold,
            "%",
            percent,
        ),
        AlertCondition::ServerDown => {
            let mut text: String = join3("Server ", server, " is down (status: ");
            text.append(name_status(health.status));
            text.append(")");
            text
        },
        _ => {
            let mut text: String = join3("Alert ", rule.name.as_str(), " triggered for server ");
            text.append(server);
            text
        },
    }
}

/// Whether `alert` was raised by a rule about a server at `now`.
pub open spec fn raised_by<F: Fn(Scalar) -> String, P: Fn(Scalar) -> String>(
    alert: Alert,
    rule: AlertRule,
    server: ServerId,
    health: ServerHealth,
    now: i64,
    fixed: F,
    percent: P,
) -> bool {
    &&& is_uuid_text(alert.id@)
    &&& alert.rule_id == rule.id
    &&& alert.server_id == Some(server)
    &&& alert.severity == rule.severity
    &&& alert.title == rule.name
    &&& tells(alert.message@, rule, server, health, fixed, percent)
    &&& alert.created_at == now
    &&& alert.updated_at == now
    &&& alert.resolved_at is None
    &&& alert.status is Active
    &&& alert.metadata@.len() == 0
}

/// The alerts on file after a rule has been looked at.
pub open spec fn keys_after_rule(
    keys: Set<Seq<char>>,
    rule: AlertRule,
    server: ServerId,
    health: ServerHealth,
) -> Set<Seq<char>> {
    if !rule.enabled {
        keys
    } else if is_triggered(rule, health) {
        keys.insert(alert_key(rule, server))
    } else {
        keys.remove(alert_key(rule, server))
    }
}

/// Whether looking at a rule raises an alert, resolves one, or neither.
pub open spec fn notice_of(
    keys: Set<Seq<char>>,
    rule: AlertRule,
    server: ServerId,
    health: ServerHealth,
) -> Option<AlertStatus> {
    let filed = keys.contains(alert_key(rule, server));
    if rule.enabled && is_triggered(rule, health) && !filed {
        Some(AlertStatus::Active)
    } else if rule.enabled && !is_triggered(rule, health) && filed {
        Some(AlertStatus::Resolved)
    } else {
        None
    }
}

/// What looking at a rule does to the alerts on file, and what there is to tell: an alert
/// that was raised or resolved, if any.
pub open spec fn rule_evaluated<F: Fn(Scalar) -> String, P: Fn(Scalar) -> String>(
    before: Map<Seq<char>, Alert>,
    after: Map<Seq<char>, Alert>,
    rule: AlertRule,
    server: ServerId,
    health: ServerHealth,
    now: i64,
    fixed: F,
    percent: P,
    told: Option<Alert>,
) -> bool {
    let key = alert_key(rule, server);
    match notice_of(before.dom(), rule, server, health) {
        Some(AlertStatus::Active) => {
            &&& told matches Some(alert) && raised_by(
                alert,
                rule,
                server,
                health,
                now,
                fixed,
                percent,
            ) && after[key].same_as(alert)
            &&& after == before.insert(key, after[key])
        },
        Some(_) => told == Some(before[key].resolved(now)) && after == before.remove(key),
        None => told is None && after == before,
    }
}

/// What looking at all rules in order does to the alerts on file, and what there is to
/// tell.
pub open spec fn rules_evaluated<F: Fn(Scalar) -> String, P: Fn(Scalar) -> String>(
    before: Map<Seq<char>, Alert>,
    after: Map<Seq<char>, Alert>,
    rules: Seq<AlertRule>,
    server: ServerId,
    health: ServerHealth,
    now: i64,
    fixed: F,
    percent: P,
    told: Seq<Alert>,
) -> bool
    decreases rules.len(),
{
    if rules.len() == 0 {
        after == before && told.len() == 0
    } else {
        exists|between: Map<Seq<char>, Alert>, last: Option<Alert>|
            {
                let front = if last is Some {
                    told.drop_last()
                } else {
                    told
                };
                &&& rules_evaluated(
                    before,
                    between,
                    rules.drop_last(),
                    server,
                    health,
                    now,
                    fixed,
                    percent,
                    front,
                )
                &&& #[trigger] rule_evaluated(
                    between,
                    after,
                    rules.last(),
                    server,
                    health,
                    now,
                    fixed,
                    percent,
                    last,
                )
                &&& last matches Some(alert) ==> told.len() > 0 && told.last() == alert
            }
    }
}

/// The alerts on file after all rules have been looked at, in order.
pub open spec fn keys_after(
    keys: Set<Seq<char>>,
    rules: Seq<AlertRule>,
    server: ServerId,
    health: ServerHealth,
) -> Set<Seq<char>>
    decreases rules.len(),
{
    if rules.len() == 0 {
        keys
    } else {
        keys_after_rule(
            keys_after(keys, rules.drop_last(), server, health),
            rules.last(),
            server,
            health,
        )
    }
}

/// What is raised and resolved when all rules are looked at, in order.
pub open spec fn notices(
    keys: Set<Seq<char>>,
    rules: Seq<AlertRule>,
    server: ServerId,
    health: ServerHealth,
) -> Seq<AlertStatus>
    decreases rules.len(),
{
    if rules.len() == 0 {
        Seq::empty()
    } else {
        let front = notices(keys, rules.drop_last(), server, health);
        match notice_of(
            keys_after(keys, rules.drop_last(), server, health),
            rules.last(),
            server,
            health,
        ) {
            Some(status) => front.push(status),
            None => front,
        }
    }
}

/// The rules by which alerts are raised, and the alerts that are not resolved.
pub struct AlertManager {
    pub alert_rules: Vec<AlertRule>,
    pub active_alerts: Table<Alert>,
}

impl AlertManager {
    /// No rules and no alerts.
    pub fn new() -> (result: Self)
        ensures
            result.active_alerts.wf(),
            result.alert_rules@.len() == 0,
            result.active_alerts@ == Map::<Seq<char>, Alert>::empty(),
    {
        AlertManager { alert_rules: Vec::new(), active_alerts: Table::new() }
    }

    /// Adds a rule after the others.
    pub fn add_alert_rule(&mut self, rule: AlertRule)
        ensures
            final(self).active_alerts == old(self).active_alerts,
            final(self).alert_rules@ == old(self).alert_rules@.push(rule),
    {
        self.alert_rules.push(rule);
    }

    /// Takes away every rule with the identifier.
    pub fn remove_alert_rule(&mut self, rule_id: &str)
        ensures
            final(self).active_alerts == old(self).active_alerts,
            final(self).alert_rules@ == old(self).alert_rules@.filter(
                |r: AlertRule| r.id@ != rule_id@,
            ),
    {
        let ghost keeps = |r: AlertRule| r.id@ != rule_id@;
        let mut kept: Vec<AlertRule> = Vec::new();
        let mut all: Vec<AlertRule> = Vec::new();
        std::mem::swap(&mut self.alert_rules, &mut all);
        let ghost rules = all@;
        reveal(Seq::filter);
        assert(rules.take(0) =~= Seq::<AlertRule>::empty());
        assert(rules.take(0).filter(keeps) =~= Seq::<AlertRule>::empty());
        for rule in iter: all
            invariant
                iter.seq() == rules,
                keeps == (|r: AlertRule| r.id@ != rule_id@),
                kept@ == rules.take(iter.index() as int).filter(keeps),
        {
            proof {
                reveal(Seq::filter);
                let i = iter.index() as int;
                assert(rules.take(i + 1).drop_last() =~= rules.take(i));
                assert(rules.take(i + 1).last() == rule);
            }
            if !str_eq(rule.id.as_str(), rule_id) {
                kept.push(rule);
            }
        }
        assert(rules.take(rules.len() as int) =~= rules);
        self.alert_rules = kept;
    }

    /// Copies of the alerts that are not resolved.
    pub fn get_active_alerts(&self) -> (result: Vec<Alert>)
        requires
            self.active_alerts.wf(),
        ensures
            result@.len() == self.active_alerts.values().len(),
            forall|i: int|
                0 <= i < result@.len() ==> (#[trigger] result@[i]).same_as(
                    self.active_alerts.values()[i],
                ),
    {
        let mut out: Vec<Alert> = Vec::new();
        let mut i: usize = 0;
        while i < self.active_alerts.len()
            invariant
                self.active_alerts.wf(),
                i <= self.active_alerts.values().len(),
                out@.len() == i,
                forall|j: int|
                    0 <= j < i ==> (#[trigger] out@[j]).same_as(self.active_alerts.values()[j]),
            decreases self.active_alerts.values().len() - i,
        {
            out.push(self.active_alerts.value_at(i).clone());
            i += 1;
        }
        out
    }

    /// Looks at one rule. An alert is raised where the rule is triggered and none is on
    /// file, and resolved where one is on file and the rule is not triggered. The alert
    /// comes back, to be told to whom it may concern.
    pub fn evaluate_rule<F: Fn(Scalar) -> String, P: Fn(Scalar) -> String>(
        &mut self,
        rule: &AlertRule,
        server_id: &ServerId,
        health: &ServerHealth,
        fixed: &F,
        percent: &P,
        now: i64,
    ) -> (result: Option<Alert>)
        requires
            old(self).active_alerts.wf(),
            forall|x: Scalar| #[trigger] fixed.requires((x,)),
            forall|x: Scalar| #[trigger] percent.requires((x,)),
        ensures
            final(self).active_alerts.wf(),
            final(self).alert_rules == old(self).alert_rules,
            rule_evaluated(
                old(self).active_alerts@,
                final(self).active_alerts@,
                *rule,
                *server_id,
                *health,
                now,
                *fixed,
                *percent,
                result,
            ),
            final(self).active_alerts@.dom() == keys_after_rule(
                old(self).active_alerts@.dom(),
                *rule,
                *server_id,
                *health,
            ),
    {
        let ghost dom = self.active_alerts@.dom();
        if !rule.enabled {
            return None;
        }
        let key: String = join3(rule.id.as_str(), ":", server_id.0.as_str());
        if triggered(rule, health) {
            if self.active_alerts.contains_key(key.as_str()) {
                assert(dom.insert(key@) =~= dom);
                return None;
            }
            let alert = Alert {
                id: new_uuid_text(),
                rule_id: rule.id.clone(),
                server_id: Some(server_id.clone()),
                severity: rule.severity,
                title: rule.name.clone(),
                message: format_alert_message(rule, server_id, health, fixed, percent),
                created_at: now,
                updated_at: now,
                resolved_at: None,
                status: AlertStatus::Active,
                metadata: Vec::new(),
            };
            let _ = self.active_alerts.insert(key, alert.clone());
            assert(self.active_alerts@.dom() =~= dom.insert(alert_key(*rule, *server_id)));
            Some(alert)
        } else {
            match self.active_alerts.remove(key.as_str()) {
                Some(alert) => {
                    let mut resolved = alert;
                    resolved.status = AlertStatus::Resolved;
                    resolved.resolved_at = Some(now);
                    resolved.updated_at = now;
                    assert(self.active_alerts@.dom() =~= dom.remove(key@));
                    Some(resolved)
                },
                None => {
                    assert(self.active_alerts@ =~= old(self).active_alerts@);
                    assert(dom.remove(key@) =~= dom);
                    None
                },
            }
        }
    }

    /// Looks at all rules in order, and gives the alerts that were raised or resolved.
    pub fn evaluate_alerts<F: Fn(Scalar) -> String, P: Fn(Scalar) -> String>(
        &mut self,
        server_id: &ServerId,
        health: &ServerHealth,
        fixed: &F,
        percent: &P,
        now: i64,
    ) -> (result: Vec<Alert>)
        requires
            old(self).active_alerts.wf(),
            forall|x: Scalar| #[trigger] fixed.requires((x,)),
            forall|x: Scalar| #[trigger] percent.requires((x,)),
        ensures
            final(self).active_alerts.wf(),
            final(self).alert_rules == old(self).alert_rules,
            rules_evaluated(
                old(self).active_alerts@,
                final(self).active_alerts@,
                old(self).alert_rules@,
                *server_id,
                *health,
                now,
                *fixed,
                *percent,
                result@,
            ),
            final(self).active_alerts@.dom() == keys_after(
                old(self).active_alerts@.dom(),
                old(self).alert_rules@,
                *server_id,
                *health,
            ),
            result@.map_values(|a: Alert| a.status) == notices(
                old(self).active_alerts@.dom(),
                old(self).alert_rules@,
                *server_id,
                *health,
            ),
            distinct_rules(old(self).alert_rules@) ==> forall|i: int|
                0 <= i < old(self).alert_rules@.len() && (#[trigger] old(
                    self,
                ).alert_rules@[i]).enabled && old(self).alert_rules@[i].condition
                    == AlertCondition::ServerDown ==> (final(self).active_alerts@.dom().contains(
                    old(self).alert_rules@[i].id@ + ":"@ + server_id.0@,
                ) <==> health.status == NodeStatus::Failed),
    {
        let mut out: Vec<Alert> = Vec::new();
        let ghost keys = self.active_alerts@.dom();
        let ghost rules = self.alert_rules@;
        let ghost statuses = |list: Seq<Alert>| list.map_values(|a: Alert| a.status);
        assert(rules.take(0) =~= Seq::<AlertRule>::empty());
        assert(statuses(out@) =~= Seq::<AlertStatus>::empty());
        let mut i: usize = 0;
        while i < self.alert_rules.len()
            invariant
                self.active_alerts.wf(),
                forall|x: Scalar| #[trigger] fixed.requires((x,)),
                forall|x: Scalar| #[trigger] percent.requires((x,)),
                rules == old(self).alert_rules@,
                self.alert_rules == old(self).alert_rules,
                keys == old(self).active_alerts@.dom(),
                i <= rules.len(),
                rules_evaluated(
                    old(self).active_alerts@,
                    self.active_alerts@,
                    rules.take(i as int),
                    *server_id,
                    *health,
                    now,
                    *fixed,
                    *percent,
                    out@,
                ),
                self.active_alerts@.dom() == keys_after(
                    keys,
                    rules.take(i as int),
                    *server_id,
                    *health,
                ),
                out@.map_values(|a: Alert| a.status) == notices(
                    keys,
                    rules.take(i as int),
                    *server_id,
                    *health,
                ),
            decreases rules.len() - i,
        {
            assert(rules.take(i + 1).drop_last() =~= rules.take(i as int));
            let ghost before = out@;
            let ghost between = self.active_alerts@;
            let rule = self.alert_rules[i].clone();
            let notice = self.evaluate_rule(&rule, server_id, health, fixed, percent, now);
            assert(rule_evaluated(
                between,
                self.active_alerts@,
                rules.take(i + 1).last(),
                *server_id,
                *health,
                now,
                *fixed,
                *percent,
                notice,
            ));
            let ghost told = if notice is Some {
                before.push(notice->0)
            } else {
                before
            };
            assert(told.len() > 0 && notice is Some ==> told.drop_last() =~= before);
            assert(rules_evaluated(
                old(self).active_alerts@,
                self.active_alerts@,
                rules.take(i + 1),
                *server_id,
                *health,
                now,
                *fixed,
                *percent,
                told,
            ));
            if let Some(alert) = notice {
                out.push(alert);
                assert(out@.map_values(|a: Alert| a.status) =~= before.map_values(
                    |a: Alert| a.status,
                ).push(alert.status));
            }
            assert(out@ =~= told);
            i += 1;
        }
        assert(rules.take(i as int) =~= rules);
        proof {
            if distinct_rules(rules) {
                assert forall|k: int|
                    0 <= k < rules.len() && (#[trigger] rules[k]).enabled && rules[k].condition
                        == AlertCondition::ServerDown implies (self.active_alerts@.dom().contains(
                    rules[k].id@ + ":"@ + server_id.0@,
                ) <==> health.status == NodeStatus::Failed) by {
                    assert forall|j: int|
                        0 <= j < rules.len() && j != k
                            && (#[trigger] rules[j]).enabled implies rules[j].id@
                        != rules[k].id@ by {}
                    lemma_alerts_settle(keys, rules, *server_id, *health, k);
                }
            }
        }
        out
    }
}

/// After all rules have been looked at, an enabled rule has an alert on file exactly where
/// it is triggered, and looking at it again in the same state of the server raises and
/// resolves nothing, as long as no other enabled rule has its identifier.
pub proof fn lemma_alerts_settle(
    keys: Set<Seq<char>>,
    rules: Seq<AlertRule>,
    server: ServerId,
    health: ServerHealth,
    i: int,
)
    requires
        0 <= i < rules.len(),
        rules[i].enabled,
        forall|j: int|
            0 <= j < rules.len() && j != i && (#[trigger] rules[j]).enabled ==> rules[j].id@
                != rules[i].id@,
    ensures
        keys_after(keys, rules, server, health).contains(alert_key(rules[i], server))
            == is_triggered(rules[i], health),
        notice_of(keys_after(keys, rules, server, health), rules[i], server, health) is None,
    decreases rules.len(),
{
    let front = rules.drop_last();
    let last = rules.len() - 1;
    if i == last {
    } else {
        assert forall|j: int|
            0 <= j < front.len() && j != i && (#[trigger] front[j]).enabled implies front[j].id@
            != front[i].id@ by {
            assert(rules[j].enabled);
        }
        lemma_alerts_settle(keys, front, server, health, i);
        if rules[last].enabled {
            lemma_keys_differ(rules[last].id@, rules[i].id@, server.0@);
        }
    }
}

/// Whether no two of the rules have the same identifier.
pub open spec fn distinct_rules(rules: Seq<AlertRule>) -> bool {
    forall|i: int, j: int|
        0 <= i < j < rules.len() ==> (#[trigger] rules[i]).id@ != (#[trigger] rules[j]).id@
}

/// Once all rules have been looked at, looking at them again in the same state of the
/// server tells nothing and leaves the alerts on file as they are, as long as no two rules
/// have the same identifier.
pub proof fn lemma_second_look_is_quiet<F: Fn(Scalar) -> String, P: Fn(Scalar) -> String>(
    before: Map<Seq<char>, Alert>,
    between: Map<Seq<char>, Alert>,
    after: Map<Seq<char>, Alert>,
    rules: Seq<AlertRule>,
    server: ServerId,
    health: ServerHealth,
    first: i64,
    second: i64,
    fixed: F,
    percent: P,
    told_first: Seq<Alert>,
    told_second: Seq<Alert>,
)
    requires
        distinct_rules(rules),
        rules_evaluated(
            before,
            between,
            rules,
            server,
            health,
            first,
            fixed,
            percent,
            told_first,
        ),
        rules_evaluated(
            between,
            after,
            rules,
            server,
            health,
            second,
            fixed,
            percent,
            told_second,
        ),
    ensures
        told_second.len() == 0,
        after == between,
{
    lemma_keys_evaluated(before, between, rules, server, health, first, fixed, percent, told_first);
    assert forall|i: int| 0 <= i < rules.len() implies notice_of(
        between.dom(),
        #[trigger] rules[i],
        server,
        health,
    ) is None by {
        if rules[i].enabled {
            assert forall|j: int|
                0 <= j < rules.len() && j != i && (#[trigger] rules[j]).enabled implies rules[j].id@
                != rules[i].id@ by {}
            lemma_alerts_settle(before.dom(), rules, server, health, i);
        }
    }
    lemma_nothing_to_tell(
        between,
        after,
        rules,
        server,
        health,
        second,
        fixed,
        percent,
        told_second,
    );
}

proof fn lemma_keys_evaluated<F: Fn(Scalar) -> String, P: Fn(Scalar) -> String>(
    before: Map<Seq<char>, Alert>,
    after: Map<Seq<char>, Alert>,
    rules: Seq<AlertRule>,
    server: ServerId,
    health: ServerHealth,
    now: i64,
    fixed: F,
    percent: P,
    told: Seq<Alert>,
)
    requires
        rules_evaluated(before, after, rules, server, health, now, fixed, percent, told),
    ensures
        after.dom() == keys_after(before.dom(), rules, server, health),
    decreases rules.len(),
{
    if rules.len() > 0 {
        let (between, last) = choose|between: Map<Seq<char>, Alert>, last: Option<Alert>|
            {
                let front = if last is Some {
                    told.drop_last()
                } else {
                    told
                };
                &&& rules_evaluated(
                    before,
                    between,
                    rules.drop_last(),
                    server,
                    health,
                    now,
                    fixed,
                    percent,
                    front,
                )
                &&& #[trigger] rule_evaluated(
                    between,
                    after,
                    rules.last(),
                    server,
                    health,
                    now,
                    fixed,
                    percent,
                    last,
                )
                &&& last matches Some(alert) ==> told.len() > 0 && told.last() == alert
            };
        let front = if last is Some {
            told.drop_last()
        } else {
            told
        };
        lemma_keys_evaluated(
            before,
            between,
            rules.drop_last(),
            server,
            health,
            now,
            fixed,
            percent,
            front,
        );
        assert(after.dom() =~= keys_after_rule(between.dom(), rules.last(), server, health));
    } else {
        assert(after.dom() =~= before.dom());
    }
}

proof fn lemma_nothing_to_tell<F: Fn(Scalar) -> String, P: Fn(Scalar) -> String>(
    before: Map<Seq<char>, Alert>,
    after: Map<Seq<char>, Alert>,
    rules: Seq<AlertRule>,
    server: ServerId,
    health: ServerHealth,
    now: i64,
    fixed: F,
    percent: P,
    told: Seq<Alert>,
)
    requires
        rules_evaluated(before, after, rules, server, health, now, fixed, percent, told),
        forall|i: int|
            0 <= i < rules.len() ==> notice_of(
                before.dom(),
                #[trigger] rules[i],
                server,
                health,
            ) is None,
    ensures
        told.len() == 0,
        after == before,
    decreases rules.len(),
{
    if rules.len() > 0 {
        let (between, last) = choose|between: Map<Seq<char>, Alert>, last: Option<Alert>|
            {
                let front = if last is Some {
                    told.drop_last()
                } else {
                    told
                };
                &&& rules_evaluated(
                    before,
                    between,
                    rules.drop_last(),
                    server,
                    health,
                    now,
                    fixed,
                    percent,
                    front,
                )
                &&& #[trigger] rule_evaluated(
                    between,
                    after,
                    rules.last(),
                    server,
                    health,
                    now,
                    fixed,
                    percent,
                    last,
                )
                &&& last matches Some(alert) ==> told.len() > 0 && told.last() == alert
            };
        let front = if last is Some {
            told.drop_last()
        } else {
            told
        };
        assert forall|i: int| 0 <= i < rules.drop_last().len() implies notice_of(
            before.dom(),
            #[trigger] rules.drop_last()[i],
            server,
            health,
        ) is None by {
            assert(notice_of(before.dom(), rules[i], server, health) is None);
        }
        lemma_nothing_to_tell(
            before,
            between,
            rules.drop_last(),
            server,
            health,
            now,
            fixed,
            percent,
            front,
        );
        assert(notice_of(before.dom(), rules[rules.len() - 1], server, health) is None);
    }
}

proof fn lemma_keys_differ(a: Seq<char>, b: Seq<char>, server: Seq<char>)
    requires
        a != b,
    ensures
        a + ":"@ + server != b + ":"@ + server,
{
    let x = a + ":"@ + server;
    let y = b + ":"@ + server;
    if x =~= y {
        assert(x.len() == a.len() + ":"@.len() + server.len());
        assert(y.len() == b.len() + ":"@.len() + server.len());
        assert(a =~= x.take(a.len() as int));
        assert(b =~= y.take(b.len() as int));
    }
}

/// What became of asking a server for its health, where it did not answer well. The
/// texts are those of the HTTP client, and of the status line.
#[derive(Debug)]
pub enum ProbeFailure {
    TimedOut,
    RequestFailed(String),
    BadStatus(String),
    BadBody(String),
}

/// Where a server at `address` tells of its health.
pub fn health_url(address: &str) -> (result: String)
    ensures
        result@ == "http://"@ + address@ + "/health"@,
{
    join3("http://", address, "/health")
}

impl ProbeFailure {
    /// What the failure of a probe at `url` is reported as.
    pub open spec fn spec_text(self, url: Seq<char>) -> Seq<char> {
        match self {
            ProbeFailure::TimedOut => "Request timeout"@,
            ProbeFailure::RequestFailed(cause) => "HTTP request failed: "@ + cause@,
            ProbeFailure::BadStatus(status) => "HTTP "@ + status@ + " from "@ + url,
            ProbeFailure::BadBody(cause) => "Failed to parse health response: "@ + cause@,
        }
    }

    /// The error that the failure of a probe at `url` becomes.
    pub fn into_error(self, url: &str) -> (result: AtlasError)
        ensures
            result matches AtlasError::HealthCheck(text) && text@ == self.spec_text(url@),
    {
        match self {
            ProbeFailure::TimedOut => AtlasError::HealthCheck("Request timeout".to_owned()),
            ProbeFailure::RequestFailed(cause) => AtlasError::HealthCheck(
                join("HTTP request failed: ", cause.as_str()),
            ),
            ProbeFailure::BadStatus(status) => {
                let mut text: String = join3("HTTP ", status.as_str(), " from ");
                text.append(url);
                AtlasError::HealthCheck(text)
            },
            ProbeFailure::BadBody(cause) => AtlasError::HealthCheck(
                join("Failed to parse health response: ", cause.as_str()),
            ),
        }
    }
}

/// A count from a health answer as it is kept: without its upper half, and zero where
/// there is none.
pub fn kept_count(count: Option<u64>) -> (result: u32)
    ensures
        result == (match count {
            Some(n) => n as int % 0x1_0000_0000,
            None => 0,
        }),
{
    match count {
        Some(n) => (n % 0x1_0000_0000) as u32,
        None => 0,
    }
}

/// The number of connections that a health answer tells of.
pub fn read_connections(body: &str) -> (result: u32)
    ensures
        result == (match member_unsigned(body@, "active_connections"@) {
            Some(n) => n as int % 0x1_0000_0000,
            None => 0,
        }),
{
    kept_count(read_member_unsigned(body, "active_connections"))
}

/// The newest `limit` items of a history.
pub open spec fn newest<T>(items: Seq<T>, limit: int) -> Seq<T> {
    if items.len() > limit {
        items.skip(items.len() - limit)
    } else {
        items
    }
}

/// The numbers of servers by their condition.
#[derive(Clone, Copy, Debug, PartialEq, Eq, Structural)]
pub struct ClusterHealthSummary {
    pub total_servers: u32,
    pub healthy_servers: u32,
    pub failed_servers: u32,
    pub inactive_servers: u32,
    pub unknown_servers: u32,
}

/// How many servers have a status that `wanted` accepts.
pub open spec fn count_status(servers: Seq<ServerHealth>, wanted: spec_fn(NodeStatus) -> bool) -> nat
    decreases servers.len(),
{
    if servers.len() == 0 {
        0
    } else {
        count_status(servers.drop_last(), wanted) + (if wanted(servers.last().status) {
            1nat
        } else {
            0nat
        })
    }
}

/// The servers counted by their condition.
pub open spec fn counted(servers: Seq<ServerHealth>, summary: ClusterHealthSummary) -> bool {
    &&& summary.total_servers == servers.len()
    &&& summary.healthy_servers == count_status(servers, |s: NodeStatus| s is Active)
    &&& summary.failed_servers == count_status(servers, |s: NodeStatus| s is Failed)
    &&& summary.inactive_servers == count_status(servers, |s: NodeStatus| s is Inactive)
    &&& summary.unknown_servers == count_status(
        servers,
        |s: NodeStatus| s is Starting || s is Stopping,
    )
}

/// Every server is counted under one condition.
pub proof fn lemma_counts_add_up(servers: Seq<ServerHealth>)
    ensures
        count_status(servers, |s: NodeStatus| s is Active) + count_status(
            servers,
            |s: NodeStatus| s is Failed,
        ) + count_status(servers, |s: NodeStatus| s is Inactive) + count_status(
            servers,
            |s: NodeStatus| s is Starting || s is Stopping,
        ) == servers.len(),
    decreases servers.len(),
{
    if servers.len() > 0 {
        lemma_counts_add_up(servers.drop_last());
    }
}

/// What is known of a server before its first check at `now`.
pub open spec fn unchecked(server: ServerId, now: i64) -> ServerHealth {
    ServerHealth {
        server_id: server,
        status: NodeStatus::Starting,
        last_check: now,
        consecutive_failures: 0,
        consecutive_successes: 0,
        response_time_ms: Scalar::Number(0),
        error_rate: Scalar::Number(0),
        availability: Scalar::spec_from_bits(ONE_BITS),
        last_failure_reason: None,
    }
}

/// What is known of a server after a check, apart from its availability.
pub open spec fn after_check(
    before: ServerHealth,
    check: Result<HealthMetrics>,
    response_time: Scalar,
    now: i64,
    config: HealthConfig,
    after: ServerHealth,
) -> bool {
    match check {
        Ok(metrics) => {
            let recovered = before.consecutive_successes + 1 >= config.success_threshold;
            after == (ServerHealth {
                last_check: now,
                response_time_ms: response_time,
                consecutive_failures: 0,
                consecutive_successes: (before.consecutive_successes + 1) as u32,
                error_rate: metrics.error_rate,
                status: if recovered {
                    NodeStatus::Active
                } else {
                    before.status
                },
                last_failure_reason: if recovered {
                    None
                } else {
                    before.last_failure_reason
                },
                availability: after.availability,
                ..before
            })
        },
        Err(error) => {
            &&& after == (ServerHealth {
                last_check: now,
                response_time_ms: response_time,
                consecutive_successes: 0,
                consecutive_failures: (before.consecutive_failures + 1) as u32,
                status: if before.consecutive_failures + 1 >= config.failure_threshold {
                    NodeStatus::Failed
                } else {
                    before.status
                },
                last_failure_reason: after.last_failure_reason,
                availability: after.availability,
                ..before
            })
            &&& after.last_failure_reason matches Some(reason) && reason@
                == crate::errors::error_parts(error).0 + crate::errors::error_parts(error).1
        },
    }
}

/// The report that a successful check leaves in a server's history.
pub open spec fn is_report(report: HealthReport, server: ServerId, metrics: HealthMetrics) -> bool {
    &&& report.node_id == server.0
    &&& report.timestamp == metrics.timestamp
    &&& report.status is Active
    &&& report.cpu_usage == metrics.cpu_usage
    &&& report.memory_usage == metrics.memory_usage
    &&& report.network_usage == metrics.network_usage
    &&& report.active_connections == metrics.active_connections
    &&& report.message_throughput == metrics.message_throughput
    &&& report.error_rate == metrics.error_rate
    &&& report.latency_p95 == metrics.response_time_p95
}

/// What the servers' checks have found out, and what follows from it.
pub struct HealthMonitor {
    pub config: HealthConfig,
    pub server_health: Table<ServerHealth>,
    pub health_history: Table<VecDeque<HealthReport>>,
    pub alert_manager: AlertManager,
    pub health_checks_running: bool,
}

/// Whether `rule` is the given default rule.
pub open spec fn is_rule(
    rule: AlertRule,
    id: Seq<char>,
    name: Seq<char>,
    condition: AlertCondition,
    severity: AlertSeverity,
    threshold: u64,
    duration: u64,
    cooldown: u64,
) -> bool {
    &&& rule.id@ == id
    &&& rule.name@ == name
    &&& rule.condition == condition
    &&& rule.severity == severity
    &&& rule.threshold == Scalar::spec_from_bits(threshold)
    &&& rule.duration == duration
    &&& rule.cooldown == cooldown
    &&& rule.enabled
}

/// Whether `rules` are the four that every monitor starts with.
pub open spec fn are_default_rules(rules: Seq<AlertRule>) -> bool {
    &&& rules.len() == 4
    &&& is_rule(
        rules[0],
        "high_cpu"@,
        "High CPU Usage"@,
        AlertCondition::HighCpuUsage,
        AlertSeverity::Warning,
        EIGHTY_BITS,
        300,
        600,
    )
    &&& is_rule(
        rules[1],
        "high_memory"@,
        "High Memory Usage"@,
        AlertCondition::HighMemoryUsage,
        AlertSeverity::Warning,
        EIGHTY_FIVE_BITS,
        300,
        600,
    )
    &&& is_rule(
        rules[2],
        "high_error_rate"@,
        "High Error Rate"@,
        AlertCondition::HighErrorRate,
        AlertSeverity::Critical,
        FIVE_BITS,
        60,
        300,
    )
    &&& is_rule(
        rules[3],
        "server_down"@,
        "Server Down"@,
        AlertCondition::ServerDown,
        AlertSeverity::Critical,
        ONE_BITS,
        30,
        60,
    )
}

fn make_rule(
    id: &str,
    name: &str,
    condition: AlertCondition,
    severity: AlertSeverity,
    threshold: u64,
    duration: u64,
    cooldown: u64,
) -> (result: AlertRule)
    ensures
        is_rule(result, id@, name@, condition, severity, threshold, duration, cooldown),
{
    AlertRule {
        id: id.to_owned(),
        name: name.to_owned(),
        condition,
        severity,
        threshold: Scalar::from_bits(threshold),
        duration,
        cooldown,
        enabled: true,
    }
}

impl HealthMonitor {
    /// Every server's health is filed under its own identifier.
    pub open spec fn wf(&self) -> bool {
        &&& self.server_health.wf()
        &&& self.health_history.wf()
        &&& self.alert_manager.active_alerts.wf()
        &&& forall|k: Seq<char>| #[trigger]
            self.server_health@.dom().contains(k) ==> self.server_health@[k].server_id.0@ == k
    }

    /// Nothing checked yet.
    pub fn new(config: HealthConfig) -> (result: Self)
        ensures
            result.wf(),
            result.config == config,
            result.server_health@ == Map::<Seq<char>, ServerHealth>::empty(),
            result.health_history@ == Map::<Seq<char>, VecDeque<HealthReport>>::empty(),
            result.alert_manager.alert_rules@.len() == 0,
            result.alert_manager.active_alerts@ == Map::<Seq<char>, Alert>::empty(),
            !result.health_checks_running,
    {
        HealthMonitor {
            config,
            server_health: Table::new(),
            health_history: Table::new(),
            alert_manager: AlertManager::new(),
            health_checks_running: false,
        }
    }

    /// Lets the checks run, by the default rules on top of those there are.
    pub fn start(&mut self)
        requires
            old(self).wf(),
        ensures
            final(self).wf(),
            final(self).health_checks_running,
            final(self).config == old(self).config,
            final(self).server_health == old(self).server_health,
            final(self).health_history == old(self).health_history,
            final(self).alert_manager.active_alerts == old(self).alert_manager.active_alerts,
            ({
                let before = old(self).alert_manager.alert_rules@;
                let after = final(self).alert_manager.alert_rules@;
                &&& after.len() == before.len() + 4
                &&& after.take(before.len() as int) == before
                &&& are_default_rules(after.skip(before.len() as int))
            }),
    {
        self.health_checks_running = true;
        self.setup_default_alert_rules();
    }

    /// Lets the checks stop.
    pub fn stop(&mut self)
        ensures
            *final(self) == (HealthMonitor { health_checks_running: false, ..*old(self) }),
    {
        self.health_checks_running = false;
    }

    /// Adds the default rules after the others.
    pub fn setup_default_alert_rules(&mut self)
        ensures
            final(self).config == old(self).config,
            final(self).server_health == old(self).server_health,
            final(self).health_history == old(self).health_history,
            final(self).health_checks_running == old(self).health_checks_running,
            final(self).alert_manager.active_alerts == old(self).alert_manager.active_alerts,
            ({
                let before = old(self).alert_manager.alert_rules@;
                let after = final(self).alert_manager.alert_rules@;
                &&& after.len() == before.len() + 4
                &&& after.take(before.len() as int) == before
                &&& are_default_rules(after.skip(before.len() as int))
            }),
    {
        let ghost before = self.alert_manager.alert_rules@;
        self.alert_manager.add_alert_rule(
            make_rule(
                "high_cpu",
                "High CPU Usage",
                AlertCondition::HighCpuUsage,
                AlertSeverity::Warning,
                EIGHTY_BITS,
                300,
                600,
            ),
        );
        self.alert_manager.add_alert_rule(
            make_rule(
                "high_memory",
                "High Memory Usage",
                AlertCondition::HighMemoryUsage,
                AlertSeverity::Warning,
                EIGHTY_FIVE_BITS,
                300,
                600,
            ),
        );
        self.alert_manager.add_alert_rule(
            make_rule(
                "high_error_rate",
                "High Error Rate",
                AlertCondition::HighErrorRate,
                AlertSeverity::Critical,
                FIVE_BITS,
                60,
                300,
            ),
        );
        self.alert_manager.add_alert_rule(
            make_rule(
                "server_down",
                "Server Down",
                AlertCondition::ServerDown,
                AlertSeverity::Critical,
                ONE_BITS,
                30,
                60,
            ),
        );
        proof {
            let after = self.alert_manager.alert_rules@;
            assert(after.take(before.len() as int) =~= before);
        }
    }

    /// The server to be checked, from what discovery says of it.
    pub fn server_to_check(server_id: &ServerId, found: Result<Option<GameServer>>) -> (result: Result<
        GameServer,
    >)
        ensures
            match found {
                Ok(Some(server)) => result == Ok::<GameServer, AtlasError>(server),
                Ok(None) => result matches Err(AtlasError::ServerNotFound { server_id: id }) && id
                    == server_id.0,
                Err(error) => result == Err::<GameServer, AtlasError>(error),
            },
    {
        match found {
            Ok(Some(server)) => Ok(server),
            Ok(None) => Err(AtlasError::ServerNotFound { server_id: server_id.0.clone() }),
            Err(error) => Err(error),
        }
    }

    /// Whether another success, or else another failure, of the server can be counted.
    pub open spec fn can_count(&self, server: Seq<char>, success: bool) -> bool {
        self.server_health@.dom().contains(server) ==> (if success {
            self.server_health@[server].consecutive_successes
        } else {
            self.server_health@[server].consecutive_failures
        }) < u32::MAX
    }

    /// Records the outcome of a check at `now`. Enough successes in a row make a server
    /// active, and enough failures make it failed; a success goes into the server's
    /// history. `availability` is the share of time for which a server with so many
    /// failures in a row counts as available.
    pub fn check_server_health<F: Fn(u32) -> Scalar>(
        &mut self,
        server_id: &ServerId,
        check: Result<HealthMetrics>,
        response_time: Scalar,
        availability: F,
        now: i64,
    ) -> (result: ServerHealth)
        requires
            old(self).wf(),
            check is Ok ==> old(self).config.check_interval > 0,
            old(self).can_count(server_id.0@, check is Ok),
            forall|n: u32| #[trigger] availability.requires((n,)),
        ensures
            final(self).wf(),
            final(self).config == old(self).config,
            final(self).alert_manager == old(self).alert_manager,
            final(self).health_checks_running == old(self).health_checks_running,
            final(self).server_health@ == old(self).server_health@.insert(server_id.0@, result),
            ({
                let before = if old(self).server_health@.dom().contains(server_id.0@) {
                    old(self).server_health@[server_id.0@]
                } else {
                    unchecked(*server_id, now)
                };
                &&& after_check(before, check, response_time, now, old(self).config, result)
                &&& availability.ensures((result.consecutive_failures,), result.availability)
            }),
            match check {
                Ok(metrics) => recorded(
                    old(self).health_history@,
                    final(self).health_history@,
                    *server_id,
                    metrics,
                    (old(self).config.metrics_retention / old(self).config.check_interval) as usize,
                ),
                Err(_) => final(self).health_history == old(self).health_history,
            },
    {
        let i: usize = match self.server_health.find(server_id.0.as_str()) {
            Some(i) => i,
            None => {
                let i: usize = self.server_health.len();
                let fresh = ServerHealth {
                    server_id: server_id.clone(),
                    status: NodeStatus::Starting,
                    last_check: now,
                    consecutive_failures: 0,
                    consecutive_successes: 0,
                    response_time_ms: Scalar::Number(0),
                    error_rate: Scalar::Number(0),
                    availability: Scalar::from_bits(ONE_BITS),
                    last_failure_reason: None,
                };
                let _ = self.server_health.insert(server_id.0.clone(), fresh);
                proof {
                    self.server_health.lemma_wf();
                }
                i
            },
        };
        let success_threshold: u32 = self.config.success_threshold;
        let failure_threshold: u32 = self.config.failure_threshold;
        let health = self.server_health.value_at_mut(i);
        health.last_check = now;
        health.response_time_ms = response_time;
        match &check {
            Ok(metrics) => {
                health.consecutive_failures = 0;
                health.consecutive_successes = health.consecutive_successes + 1;
                health.error_rate = metrics.error_rate;
                if health.consecutive_successes >= success_threshold {
                    health.status = NodeStatus::Active;
                    health.last_failure_reason = None;
                }
            },
            Err(error) => {
                health.consecutive_successes = 0;
                health.consecutive_failures = health.consecutive_failures + 1;
                health.last_failure_reason = Some(error.message());
                if health.consecutive_failures >= failure_threshold {
                    health.status = NodeStatus::Failed;
                }
            },
        }
        health.availability = availability(health.consecutive_failures);
        let result = health.clone();
        proof {
            self.server_health.lemma_wf();
            assert(self.server_health@ =~= old(self).server_health@.insert(server_id.0@, result));
        }
        if let Ok(metrics) = check {
            self.record_health_metrics(server_id, &metrics);
        }
        result
    }

    /// Adds a report to a server's history, which keeps the newest of them.
    pub fn record_health_metrics(&mut self, server_id: &ServerId, metrics: &HealthMetrics)
        requires
            old(self).wf(),
            old(self).config.check_interval > 0,
        ensures
            final(self).wf(),
            *final(self) == (HealthMonitor {
                health_history: final(self).health_history,
                ..*old(self)
            }),
            recorded(
                old(self).health_history@,
                final(self).health_history@,
                *server_id,
                *metrics,
                (old(self).config.metrics_retention / old(self).config.check_interval) as usize,
            ),
    {
        let report = HealthReport {
            node_id: server_id.0.clone(),
            timestamp: metrics.timestamp,
            status: NodeStatus::Active,
            cpu_usage: metrics.cpu_usage,
            memory_usage: metrics.memory_usage,
            network_usage: metrics.network_usage,
            active_connections: metrics.active_connections,
            message_throughput: metrics.message_throughput,
            error_rate: metrics.error_rate,
            latency_p95: metrics.response_time_p95,
        };
        let ghost told = report;
        let limit: usize = (self.config.metrics_retention / self.config.check_interval) as usize;
        let ghost past = history_of(self.health_history@, server_id.0@);
        let mut history: VecDeque<HealthReport> = match self.health_history.remove(
            server_id.0.as_str(),
        ) {
            Some(history) => history,
            None => VecDeque::new(),
        };
        assert(history@ =~= past);
        history.push_back(report);
        let ghost all = past.push(told);
        assert(all.skip(0) =~= all);
        let ghost mut dropped: int = 0;
        while history.len() > limit
            invariant
                0 <= dropped <= all.len(),
                history@ == all.skip(dropped),
                dropped > 0 ==> history@.len() >= limit,
            decreases history@.len(),
        {
            let _ = history.pop_front();
            proof {
                dropped = dropped + 1;
                assert(history@ =~= all.skip(dropped));
            }
        }
        proof {
            assert(history@ =~= newest(all, limit as int));
            assert(is_report(told, *server_id, *metrics));
        }
        let ghost kept = history;
        let _ = self.health_history.insert(server_id.0.clone(), history);
        proof {
            assert(self.health_history@ =~= old(self).health_history@.insert(server_id.0@, kept));
        }
    }

    /// What the checks have found out about a server.
    pub fn get_server_health(&self, server_id: &ServerId) -> (result: Option<ServerHealth>)
        requires
            self.wf(),
        ensures
            result == (if self.server_health@.dom().contains(server_id.0@) {
                Some(self.server_health@[server_id.0@])
            } else {
                None
            }),
    {
        match self.server_health.get(server_id.0.as_str()) {
            Some(health) => Some(health.clone()),
            None => None,
        }
    }

    /// What the checks have found out about all servers.
    pub fn get_all_server_health(&self) -> (result: Vec<ServerHealth>)
        requires
            self.wf(),
        ensures
            result@ == self.server_health.values(),
    {
        let mut out: Vec<ServerHealth> = Vec::new();
        let mut i: usize = 0;
        while i < self.server_health.len()
            invariant
                self.wf(),
                i <= self.server_health.values().len(),
                out@ == self.server_health.values().take(i as int),
            decreases self.server_health.values().len() - i,
        {
            out.push(self.server_health.value_at(i).clone());
            i += 1;
            assert(out@ =~= self.server_health.values().take(i as int));
        }
        assert(out@ =~= self.server_health.values());
        out
    }

    /// The newest reports of a server, newest first; a hundred unless asked otherwise.
    pub fn get_health_history(&self, server_id: &ServerId, limit: Option<usize>) -> (result: Vec<
        &HealthReport,
    >)
        requires
            self.wf(),
        ensures
            ({
                let past = history_of(self.health_history@, server_id.0@);
                let wanted = match limit {
                    Some(n) => n as int,
                    None => DEFAULT_HISTORY_LIMIT as int,
                };
                referents(result@) == newest(past, wanted).reverse()
            }),
    {
        let mut out: Vec<&HealthReport> = Vec::new();
        let wanted: usize = match limit {
            Some(n) => n,
            None => DEFAULT_HISTORY_LIMIT,
        };
        match self.health_history.get(server_id.0.as_str()) {
            Some(history) => {
                let total: usize = history.len();
                let count: usize = if total > wanted {
                    wanted
                } else {
                    total
                };
                let ghost past = history@;
                let mut i: usize = 0;
                assert(referents(out@) =~= Seq::<HealthReport>::empty());
                while i < count
                    invariant
                        i <= count <= total,
                        total == past.len(),
                        past == history@,
                        out@.len() == i,
                        forall|j: int| 0 <= j < i ==> *(#[trigger] out@[j]) == past[total - 1 - j],
                    decreases count - i,
                {
                    out.push(&history[total - 1 - i]);
                    i += 1;
                }
                assert(referents(out@) =~= newest(past, wanted as int).reverse());
            },
            None => {
                assert(referents(out@) =~= newest(Seq::<HealthReport>::empty(), wanted as int).reverse());
            },
        }
        out
    }

    /// Adds an alert rule after the others.
    pub fn add_alert_rule(&mut self, rule: AlertRule)
        ensures
            *final(self) == (HealthMonitor {
                alert_manager: final(self).alert_manager,
                ..*old(self)
            }),
            final(self).alert_manager.active_alerts == old(self).alert_manager.active_alerts,
            final(self).alert_manager.alert_rules@ == old(self).alert_manager.alert_rules@.push(
                rule,
            ),
    {
        self.alert_manager.add_alert_rule(rule);
    }

    /// Takes away every alert rule with the identifier.
    pub fn remove_alert_rule(&mut self, rule_id: &str)
        ensures
            *final(self) == (HealthMonitor {
                alert_manager: final(self).alert_manager,
                ..*old(self)
            }),
            final(self).alert_manager.active_alerts == old(self).alert_manager.active_alerts,
            final(self).alert_manager.alert_rules@ == old(self).alert_manager.alert_rules@.filter(
                |r: AlertRule| r.id@ != rule_id@,
            ),
    {
        self.alert_manager.remove_alert_rule(rule_id);
    }

    /// Copies of the alerts that are not resolved.
    pub fn get_active_alerts(&self) -> (result: Vec<Alert>)
        requires
            self.wf(),
        ensures
            result@.len() == self.alert_manager.active_alerts.values().len(),
            forall|i: int|
                0 <= i < result@.len() ==> (#[trigger] result@[i]).same_as(
                    self.alert_manager.active_alerts.values()[i],
                ),
    {
        self.alert_manager.get_active_alerts()
    }

    /// How many servers are in which condition.
    pub fn get_cluster_health_summary(&self) -> (result: ClusterHealthSummary)
        requires
            self.wf(),
            self.server_health@.dom().len() <= u32::MAX,
        ensures
            counted(self.server_health.values(), result),
    {
        proof {
            self.server_health.lemma_wf();
        }
        let mut summary = ClusterHealthSummary {
            total_servers: 0,
            healthy_servers: 0,
            failed_servers: 0,
            inactive_servers: 0,
            unknown_servers: 0,
        };
        let ghost servers = self.server_health.values();
        assert(servers.take(0) =~= Seq::<ServerHealth>::empty());
        let mut i: usize = 0;
        while i < self.server_health.len()
            invariant
                self.wf(),
                servers == self.server_health.values(),
                servers.len() <= u32::MAX,
                i <= servers.len(),
                counted(servers.take(i as int), summary),
            decreases servers.len() - i,
        {
            proof {
                assert(servers.take(i + 1).drop_last() =~= servers.take(i as int));
                lemma_counts_add_up(servers.take(i as int));
            }
            summary.total_servers = summary.total_servers + 1;
            match self.server_health.value_at(i).status {
                NodeStatus::Active => {
                    summary.healthy_servers = summary.healthy_servers + 1;
                },
                NodeStatus::Failed => {
                    summary.failed_servers = summary.failed_servers + 1;
                },
                NodeStatus::Inactive => {
                    summary.inactive_servers = summary.inactive_servers + 1;
                },
                _ => {
                    summary.unknown_servers = summary.unknown_servers + 1;
                },
            }
            i += 1;
        }
        assert(servers.take(i as int) =~= servers);
        summary
    }

    /// Drops the reports that are older than the retention time.
    pub fn cleanup_history(&mut self, now: i64)
        requires
            old(self).wf(),
        ensures
            final(self).wf(),
            *final(self) == (HealthMonitor {
                health_history: final(self).health_history,
                ..*old(self)
            }),
            final(self).health_history@.dom() == old(self).health_history@.dom(),
            forall|k: Seq<char>| #[trigger]
                old(self).health_history@.dom().contains(k) ==> final(self).health_history@[k]@
                    == recent_reports(
                    old(self).health_history@[k]@,
                    now - old(self).config.metrics_retention * 1_000_000,
                ),
    {
        proof {
            self.health_history.lemma_wf();
        }
        let ghost limit = now - self.config.metrics_retention * 1_000_000;
        let retention: i128 = (self.config.metrics_retention as i128) * 1_000_000;
        let cutoff: i128 = (now as i128) - retention;
        let count: usize = self.health_history.len();
        let mut i: usize = 0;
        while i < count
            invariant
                i <= count,
                cutoff == limit,
                self.wf(),
                old(self).wf(),
                *self == (HealthMonitor { health_history: self.health_history, ..*old(self) }),
                count == old(self).health_history.values().len(),
                count == self.health_history.values().len(),
                count == self.health_history.keys().len(),
                self.health_history.keys() == old(self).health_history.keys(),
                forall|j: int|
                    0 <= j < i ==> (#[trigger] self.health_history.values()[j])@ == recent_reports(
                        old(self).health_history.values()[j]@,
                        limit,
                    ),
                forall|j: int|
                    i <= j < count ==> #[trigger] self.health_history.values()[j] == old(
                        self,
                    ).health_history.values()[j],
            decreases count - i,
        {
            let history = self.health_history.value_at_mut(i);
            keep_recent(history, cutoff);
            i += 1;
        }
        proof {
            self.health_history.lemma_wf();
            old(self).health_history.lemma_wf();
            assert(self.health_history@.dom() =~= old(self).health_history@.dom());
        }
    }
}

/// What is on record of a server's reports.
pub open spec fn history_of(
    history: Map<Seq<char>, VecDeque<HealthReport>>,
    server: Seq<char>,
) -> Seq<HealthReport> {
    if history.dom().contains(server) {
        history[server]@
    } else {
        Seq::empty()
    }
}

/// Whether a check's report was added to a server's history, which keeps the newest
/// `limit` reports.
pub open spec fn recorded(
    before: Map<Seq<char>, VecDeque<HealthReport>>,
    after: Map<Seq<char>, VecDeque<HealthReport>>,
    server: ServerId,
    metrics: HealthMetrics,
    limit: usize,
) -> bool {
    &&& after == before.insert(server.0@, after[server.0@])
    &&& exists|report: HealthReport|
        #[trigger] is_report(report, server, metrics) && after[server.0@]@ == newest(
            history_of(before, server.0@).push(report),
            limit as int,
        )
}

/// The reports that are newer than `cutoff`.
pub open spec fn recent_reports(reports: Seq<HealthReport>, cutoff: int) -> Seq<HealthReport> {
    reports.filter(|r: HealthReport| r.timestamp > cutoff)
}

fn keep_recent(history: &mut VecDeque<HealthReport>, cutoff: i128)
    ensures
        final(history)@ == recent_reports(old(history)@, cutoff as int),
{
    let ghost all = history@;
    let ghost keeps = |r: HealthReport| r.timestamp > cutoff;
    let total: usize = history.len();
    let mut kept: VecDeque<HealthReport> = VecDeque::new();
    let mut i: usize = 0;
    reveal(Seq::filter);
    assert(all.take(0) =~= Seq::<HealthReport>::empty());
    assert(all.take(0).filter(keeps) =~= Seq::<HealthReport>::empty());
    while i < total
        invariant
            i <= total,
            total == all.len(),
            history@ == all.skip(i as int),
            keeps == (|r: HealthReport| r.timestamp > cutoff),
            kept@ == all.take(i as int).filter(keeps),
        decreases total - i,
    {
        proof {
            reveal(Seq::filter);
            assert(all.take(i + 1).drop_last() =~= all.take(i as int));
        }
        match history.pop_front() {
            Some(report) => {
                if report.timestamp as i128 > cutoff {
                    kept.push_back(report);
                }
            },
            None => {},
        }
        assert(history@ =~= all.skip(i + 1));
        i += 1;
    }
    assert(all.take(i as int) =~= all);
    assert(recent_reports(all, cutoff as int) =~= all.filter(keeps));
    *history = kept;
}

/// A server that was active fails only after as many failures in a row as the
/// configuration asks for, and a success in between starts the count again.
pub proof fn lemma_failure_needs_threshold(
    before: ServerHealth,
    check: Result<HealthMetrics>,
    response_time: Scalar,
    now: i64,
    config: HealthConfig,
    after: ServerHealth,
)
    requires
        after_check(before, check, response_time, now, config, after),
        check is Ok ==> before.consecutive_successes < u32::MAX,
        check is Err ==> before.consecutive_failures < u32::MAX,
    ensures
        !(before.status is Failed) && after.status is Failed ==> check is Err
            && after.consecutive_failures >= config.failure_threshold,
        check is Ok ==> after.consecutive_failures == 0,
        check is Err ==> after.consecutive_successes == 0,
        before.status is Failed && after.status is Active ==> check is Ok
            && after.consecutive_successes >= config.success_threshold,
{
}

/// The alert channel that writes to the log.
#[derive(Clone, Copy, Debug)]
pub struct LogNotificationChannel {}

impl LogNotificationChannel {
    /// The line that an alert is logged as; its severity is the level.
    pub fn line(&self, alert: &Alert) -> (result: String)
        ensures
            result@ == "[ALERT] "@ + alert.title@ + ": "@ + alert.message@,
    {
        let mut text: String = join3("[ALERT] ", alert.title.as_str(), ": ");
        text.append(alert.message.as_str());
        text
    }

    /// The channel's name.
    pub fn name(&self) -> (result: &'static str)
        ensures
            result@ == "log"@,
    {
        "log"
    }
}

/// A rule on a server being down is triggered by a server that failed, and by no other: one
/// that starts, works, rests or stops is not down.
pub proof fn lemma_only_failed_servers_are_down(rule: AlertRule, health: ServerHealth)
    requires
        rule.condition == AlertCondition::ServerDown,
    ensures
        is_triggered(rule, health) <==> health.status == NodeStatus::Failed,
        health.status == NodeStatus::Starting || health.status == NodeStatus::Active
            || health.status == NodeStatus::Inactive || health.status == NodeStatus::Stopping
            ==> !is_triggered(rule, health),
{
}

/// A rule compares one measure of the server with its threshold: the error rate and the
/// response time trigger it above the threshold, the availability below it, and none at the
/// threshold or where a value is no number. The rules on other conditions are never
/// triggered.
pub proof fn lemma_rules_compare_with_the_threshold(rule: AlertRule, health: ServerHealth)
    ensures
        rule.condition == AlertCondition::HighErrorRate ==> (is_triggered(rule, health) <==> (
        rule.threshold matches Scalar::Number(limit) && health.error_rate matches Scalar::Number(
            rate,
        ) && limit < rate)),
        rule.condition == AlertCondition::HighResponseTime ==> (is_triggered(rule, health) <==> (
        rule.threshold matches Scalar::Number(limit)
            && health.response_time_ms matches Scalar::Number(time) && limit < time)),
        rule.condition == AlertCondition::LowAvailability ==> (is_triggered(rule, health) <==> (
        rule.threshold matches Scalar::Number(limit)
            && health.availability matches Scalar::Number(share) && share < limit)),
        rule.condition == AlertCondition::HighCpuUsage || rule.condition
            == AlertCondition::HighMemoryUsage || rule.condition
            == AlertCondition::NetworkPartition || rule.condition
            == AlertCondition::DiskSpaceRunning ==> !is_triggered(rule, health),
{
}

/// Nothing but the measure that a rule is about decides on it.
pub proof fn lemma_a_rule_reads_one_measure(rule: AlertRule, a: ServerHealth, b: ServerHealth)
    requires
        rule.condition == AlertCondition::HighErrorRate ==> a.error_rate == b.error_rate,
        rule.condition == AlertCondition::HighResponseTime ==> a.response_time_ms
            == b.response_time_ms,
        rule.condition == AlertCondition::LowAvailability ==> a.availability == b.availability,
        rule.condition == AlertCondition::ServerDown ==> (a.status == NodeStatus::Failed
            <==> b.status == NodeStatus::Failed),
    ensures
        is_triggered(rule, a) == is_triggered(rule, b),
{
}

/// After a look at all rules, a rule on servers that are down has an alert active exactly
/// where the server failed. No other rule is to have its identifier.
pub proof fn lemma_down_alert_stands_for_a_failed_server<
    F: Fn(Scalar) -> String,
    P: Fn(Scalar) -> String,
>(
    before: Map<Seq<char>, Alert>,
    after: Map<Seq<char>, Alert>,
    rules: Seq<AlertRule>,
    server: ServerId,
    health: ServerHealth,
    now: i64,
    fixed: F,
    percent: P,
    told: Seq<Alert>,
    i: int,
)
    requires
        rules_evaluated(before, after, rules, server, health, now, fixed, percent, told),
        0 <= i < rules.len(),
        rules[i].enabled,
        rules[i].condition == AlertCondition::ServerDown,
        forall|j: int|
            0 <= j < rules.len() && j != i && (#[trigger] rules[j]).enabled ==> rules[j].id@
                != rules[i].id@,
    ensures
        after.dom().contains(rules[i].id@ + ":"@ + server.0@) <==> health.status
            == NodeStatus::Failed,
{
    lemma_keys_evaluated(before, after, rules, server, health, now, fixed, percent, told);
    lemma_alerts_settle(before.dom(), rules, server, health, i);
}

/// After a look at all rules, a rule that compares has an alert active exactly where its
/// measure is beyond the threshold. No other rule is to have its identifier.
pub proof fn lemma_alert_stands_while_the_measure_is_beyond<
    F: Fn(Scalar) -> String,
    P: Fn(Scalar) -> String,
>(
    before: Map<Seq<char>, Alert>,
    after: Map<Seq<char>, Alert>,
    rules: Seq<AlertRule>,
    server: ServerId,
    health: ServerHealth,
    now: i64,
    fixed: F,
    percent: P,
    told: Seq<Alert>,
    i: int,
)
    requires
        rules_evaluated(before, after, rules, server, health, now, fixed, percent, told),
        0 <= i < rules.len(),
        rules[i].enabled,
        rules[i].threshold is Number,
        health.error_rate is Number,
        health.response_time_ms is Number,
        health.availability is Number,
        forall|j: int|
            0 <= j < rules.len() && j != i && (#[trigger] rules[j]).enabled ==> rules[j].id@
                != rules[i].id@,
    ensures
        ({
            let active = after.dom().contains(rules[i].id@ + ":"@ + server.0@);
            let limit = rules[i].threshold->Number_0;
            &&& rules[i].condition == AlertCondition::HighErrorRate ==> (active <==> limit
                < health.error_rate->Number_0)
            &&& rules[i].condition == AlertCondition::HighResponseTime ==> (active <==> limit
                < health.response_time_ms->Number_0)
            &&& rules[i].condition == AlertCondition::LowAvailability ==> (active
                <==> health.availability->Number_0 < limit)
        }),
{
    lemma_keys_evaluated(before, after, rules, server, health, now, fixed, percent, told);
    lemma_alerts_settle(before.dom(), rules, server, health, i);
}

/// A look at the rules leaves every alert alone that no enabled rule could have raised for
/// this server: those of other rules, and those on other servers.
pub proof fn lemma_other_alerts_stay<F: Fn(Scalar) -> String, P: Fn(Scalar) -> String>(
    before: Map<Seq<char>, Alert>,
    after: Map<Seq<char>, Alert>,
    rules: Seq<AlertRule>,
    server: ServerId,
    health: ServerHealth,
    now: i64,
    fixed: F,
    percent: P,
    told: Seq<Alert>,
    key: Seq<char>,
)
    requires
        rules_evaluated(before, after, rules, server, health, now, fixed, percent, told),
        forall|i: int|
            0 <= i < rules.len() && (#[trigger] rules[i]).enabled ==> rules[i].id@ + ":"@ + server.0@
                != key,
    ensures
        after.dom().contains(key) <==> before.dom().contains(key),
        before.dom().contains(key) ==> after[key] == before[key],
    decreases rules.len(),
{
    if rules.len() > 0 {
        let (between, last) = choose|between: Map<Seq<char>, Alert>, last: Option<Alert>|
            {
                let front = if last is Some {
                    told.drop_last()
                } else {
                    told
                };
                &&& rules_evaluated(
                    before,
                    between,
                    rules.drop_last(),
                    server,
                    health,
                    now,
                    fixed,
                    percent,
                    front,
                )
                &&& #[trigger] rule_evaluated(
                    between,
                    after,
                    rules.last(),
                    server,
                    health,
                    now,
                    fixed,
                    percent,
                    last,
                )
                &&& last matches Some(alert) ==> told.len() > 0 && told.last() == alert
            };
        let front = if last is Some {
            told.drop_last()
        } else {
            told
        };
        assert forall|i: int|
            0 <= i < rules.drop_last().len() && (#[trigger] rules.drop_last()[i]).enabled implies rules.drop_last()[i].id@
            + ":"@ + server.0@ != key by {
            assert(rules[i].enabled);
        }
        lemma_other_alerts_stay(
            before,
            between,
            rules.drop_last(),
            server,
            health,
            now,
            fixed,
            percent,
            front,
            key,
        );
        assert(rules[rules.len() - 1] == rules.last());
    }
}

/// A rule tells something exactly where what it stands for has changed: an alert that was
/// not there becomes active, under the rule's severity and for this server, or one that was
/// there is resolved and is no longer on file.
pub proof fn lemma_rule_tells_of_changes<F: Fn(Scalar) -> String, P: Fn(Scalar) -> String>(
    before: Map<Seq<char>, Alert>,
    after: Map<Seq<char>, Alert>,
    rule: AlertRule,
    server: ServerId,
    health: ServerHealth,
    now: i64,
    fixed: F,
    percent: P,
    told: Option<Alert>,
)
    requires
        rule_evaluated(before, after, rule, server, health, now, fixed, percent, told),
    ensures
        ({
            let key = rule.id@ + ":"@ + server.0@;
            &&& told is Some <==> before.dom().contains(key) != after.dom().contains(key)
            &&& rule.enabled ==> (after.dom().contains(key) <==> is_triggered(rule, health))
            &&& !rule.enabled ==> after == before && told is None
            &&& told is Some && after.dom().contains(key) ==> {
                let alert = told->0;
                &&& alert.status == AlertStatus::Active
                &&& alert.rule_id == rule.id && alert.title == rule.name
                &&& alert.severity == rule.severity
                &&& alert.server_id == Some(server)
                &&& alert.created_at == now && alert.updated_at == now
                &&& alert.resolved_at is None
                &&& after[key].status == AlertStatus::Active && after[key].id == alert.id
                &&& after[key].message == alert.message && after[key].created_at == now
            }
            &&& told is Some && !after.dom().contains(key) ==> {
                let alert = told->0;
                &&& alert.status == AlertStatus::Resolved
                &&& alert.resolved_at == Some(now) && alert.updated_at == now
                &&& alert.id == before[key].id && alert.created_at == before[key].created_at
                &&& alert.severity == before[key].severity && alert.message == before[key].message
                &&& alert.rule_id == before[key].rule_id && alert.server_id
                    == before[key].server_id
            }
            &&& forall|other: Seq<char>|
                other != key ==> (after.dom().contains(other) <==> #[trigger] before.dom().contains(
                    other,
                ))
        }),
{
}

/// Resolving an alert keeps what it is about.
pub proof fn lemma_resolved_alert_is_the_same_alert(alert: Alert, now: i64)
    ensures
        alert.resolved(now).status == AlertStatus::Resolved,
        alert.resolved(now).resolved_at == Some(now),
        alert.resolved(now).updated_at == now,
        alert.resolved(now).created_at == alert.created_at,
        alert.resolved(now).id == alert.id,
        alert.resolved(now).rule_id == alert.rule_id,
        alert.resolved(now).server_id == alert.server_id,
        alert.resolved(now).severity == alert.severity,
        alert.resolved(now).title == alert.title,
        alert.resolved(now).message == alert.message,
        alert.resolved(now).metadata == alert.metadata,
{
}

/// A bounded history holds the last items that came, in their order, and all of them while
/// there is room.
pub proof fn lemma_newest_are_the_last<T>(items: Seq<T>, limit: int)
    requires
        limit >= 0,
    ensures
        newest(items, limit).len() <= limit,
        newest(items, limit).len() == items.len() || newest(items, limit).len() == limit,
        items.len() <= limit ==> newest(items, limit) == items,
        forall|i: int|
            0 <= i < newest(items, limit).len() ==> #[trigger] newest(items, limit)[i] == items[items.len()
                - newest(items, limit).len() + i],
        limit > 0 && items.len() > 0 ==> newest(items, limit).last() == items.last(),
        limit == 0 ==> newest(items, limit).len() == 0,
{
}

/// A count of servers is the number of those whose status is wanted.
pub proof fn lemma_count_is_the_number_of_servers(
    servers: Seq<ServerHealth>,
    wanted: spec_fn(NodeStatus) -> bool,
)
    ensures
        count_status(servers, wanted) == servers.filter(|s: ServerHealth| wanted(s.status)).len(),
    decreases servers.len(),
{
    reveal(Seq::filter);
    if servers.len() > 0 {
        lemma_count_is_the_number_of_servers(servers.drop_last(), wanted);
    }
}

/// One server more is counted under its own status and under no other. Servers that start
/// or stop are the unknown ones.
pub proof fn lemma_each_server_counts_once(
    servers: Seq<ServerHealth>,
    one_more: ServerHealth,
    before: ClusterHealthSummary,
    after: ClusterHealthSummary,
)
    requires
        counted(servers, before),
        counted(servers.push(one_more), after),
    ensures
        after.total_servers == before.total_servers + 1,
        after.healthy_servers - before.healthy_servers == (if one_more.status
            == NodeStatus::Active {
            1int
        } else {
            0int
        }),
        after.failed_servers - before.failed_servers == (if one_more.status
            == NodeStatus::Failed {
            1int
        } else {
            0int
        }),
        after.inactive_servers - before.inactive_servers == (if one_more.status
            == NodeStatus::Inactive {
            1int
        } else {
            0int
        }),
        after.unknown_servers - before.unknown_servers == (if one_more.status
            == NodeStatus::Starting || one_more.status == NodeStatus::Stopping {
            1int
        } else {
            0int
        }),
        after.healthy_servers + after.failed_servers + after.inactive_servers
            + after.unknown_servers == after.total_servers,
{
    assert(servers.push(one_more).drop_last() =~= servers);
    lemma_counts_add_up(servers.push(one_more));
}

/// A server that was never checked is starting, with nothing counted for or against it.
pub proof fn lemma_unchecked_server_is_starting(server: ServerId, now: i64)
    ensures
        unchecked(server, now).server_id == server,
        unchecked(server, now).status == NodeStatus::Starting,
        unchecked(server, now).last_check == now,
        unchecked(server, now).consecutive_failures == 0,
        unchecked(server, now).consecutive_successes == 0,
        unchecked(server, now).response_time_ms == Scalar::Number(0),
        unchecked(server, now).error_rate == Scalar::Number(0),
        unchecked(server, now).last_failure_reason is None,
{
}

/// A check changes the status of a server only where it completes a row: to active at the
/// successes that are asked for, to failed at the failures. A check counts one further in
/// its own row and breaks the other. The error rate comes from a success alone, and the
/// reason of the last failure stays until the server is active again.
pub proof fn lemma_check_counts_and_decides(
    before: ServerHealth,
    check: Result<HealthMetrics>,
    response_time: Scalar,
    now: i64,
    config: HealthConfig,
    after: ServerHealth,
)
    requires
        after_check(before, check, response_time, now, config, after),
        before.consecutive_successes < u32::MAX,
        before.consecutive_failures < u32::MAX,
    ensures
        after.server_id == before.server_id,
        after.last_check == now,
        after.response_time_ms == response_time,
        match check {
            Ok(metrics) => {
                &&& after.consecutive_successes == before.consecutive_successes + 1
                &&& after.consecutive_failures == 0
                &&& after.error_rate == metrics.error_rate
                &&& after.consecutive_successes >= config.success_threshold ==> after.status
                    == NodeStatus::Active && after.last_failure_reason is None
                &&& after.consecutive_successes < config.success_threshold ==> after.status
                    == before.status && after.last_failure_reason == before.last_failure_reason
            },
            Err(_) => {
                &&& after.consecutive_failures == before.consecutive_failures + 1
                &&& after.consecutive_successes == 0
                &&& after.error_rate == before.error_rate
                &&& after.last_failure_reason is Some
                &&& after.consecutive_failures >= config.failure_threshold ==> after.status
                    == NodeStatus::Failed
                &&& after.consecutive_failures < config.failure_threshold ==> after.status
                    == before.status
            },
        },
{
}

/// A report in a server's history is that of the check that brought it, and it comes last.
/// The histories of other servers stay.
pub proof fn lemma_recorded_report_comes_last(
    before: Map<Seq<char>, VecDeque<HealthReport>>,
    after: Map<Seq<char>, VecDeque<HealthReport>>,
    server: ServerId,
    metrics: HealthMetrics,
    limit: usize,
    other: Seq<char>,
)
    requires
        recorded(before, after, server, metrics, limit),
    ensures
        other != server.0@ ==> (after.dom().contains(other) <==> before.dom().contains(other)) && (
        before.dom().contains(other) ==> after[other] == before[other]),
        after.dom().contains(server.0@),
        after[server.0@]@.len() <= limit,
        limit > 0 ==> {
            let report = after[server.0@]@.last();
            &&& after[server.0@]@.len() > 0
            &&& report.node_id == server.0
            &&& report.timestamp == metrics.timestamp
            &&& report.status == NodeStatus::Active
            &&& report.cpu_usage == metrics.cpu_usage
            &&& report.memory_usage == metrics.memory_usage
            &&& report.network_usage == metrics.network_usage
            &&& report.active_connections == metrics.active_connections
            &&& report.message_throughput == metrics.message_throughput
            &&& report.error_rate == metrics.error_rate
            &&& report.latency_p95 == metrics.response_time_p95
        },
        before.dom().contains(server.0@) && before[server.0@]@.len() < limit
            ==> after[server.0@]@.drop_last() == before[server.0@]@,
{
    let report = choose|report: HealthReport|
        #[trigger] is_report(report, server, metrics) && after[server.0@]@ == newest(
            history_of(before, server.0@).push(report),
            limit as int,
        );
    let all = history_of(before, server.0@).push(report);
    lemma_newest_are_the_last(all, limit as int);
    assert(all.drop_last() =~= history_of(before, server.0@));
}

/// Reports stay in a history while they are newer than the cutoff, whichever they are.
pub proof fn lemma_only_recent_reports_stay(
    reports: Seq<HealthReport>,
    cutoff: int,
    report: HealthReport,
)
    ensures
        recent_reports(reports, cutoff).contains(report) <==> reports.contains(report) && cutoff
            < report.timestamp,
        recent_reports(reports, cutoff).len() <= reports.len(),
{
    let keeps = |r: HealthReport| r.timestamp > cutoff;
    lemma_filter_keeps_the_wanted(reports, keeps, report);
}

/// The default rules are told apart by their identifiers, are all switched on, warn of load
/// and call failures critical.
pub proof fn lemma_default_rules_are_distinct(rules: Seq<AlertRule>)
    requires
        are_default_rules(rules),
    ensures
        distinct_rules(rules),
        forall|i: int| 0 <= i < rules.len() ==> (#[trigger] rules[i]).enabled,
        forall|i: int|
            0 <= i < rules.len() ==> ((#[trigger] rules[i]).severity == AlertSeverity::Critical
                <==> rules[i].condition == AlertCondition::ServerDown || rules[i].condition
                == AlertCondition::HighErrorRate),
        forall|i: int|
            0 <= i < rules.len() ==> ((#[trigger] rules[i]).severity == AlertSeverity::Warning
                <==> rules[i].condition == AlertCondition::HighCpuUsage || rules[i].condition
                == AlertCondition::HighMemoryUsage),
        forall|i: int|
            0 <= i < rules.len() ==> (#[trigger] rules[i]).duration < rules[i].cooldown,
        forall|i: int|
            0 <= i < rules.len() ==> {
                let rule = #[trigger] rules[i];
                &&& rule.condition == AlertCondition::HighCpuUsage ==> rule.name@
                    == "High CPU Usage"@ && rule.threshold.spec_truncated() == 80
                &&& rule.condition == AlertCondition::HighMemoryUsage ==> rule.name@
                    == "High Memory Usage"@ && rule.threshold.spec_truncated() == 85
                &&& rule.condition == AlertCondition::HighErrorRate ==> rule.name@
                    == "High Error Rate"@ && rule.threshold.spec_truncated() == 5 && rule.duration
                    == 60
                &&& rule.condition == AlertCondition::ServerDown ==> rule.name@ == "Server Down"@
                    && rule.threshold.spec_truncated() == 1 && rule.duration == 30
                &&& rule.severity == AlertSeverity::Warning ==> rule.duration == 5 * 60
            },
        exists|i: int|
            0 <= i < rules.len() && (#[trigger] rules[i]).condition == AlertCondition::ServerDown,
        exists|i: int|
            0 <= i < rules.len() && (#[trigger] rules[i]).condition
                == AlertCondition::HighErrorRate,
{
    lemma_default_thresholds_are_whole_numbers();
    crate::config::lemma_defaults_are_whole_numbers();
    reveal_strlit("high_cpu");
    reveal_strlit("high_memory");
    reveal_strlit("high_error_rate");
    reveal_strlit("server_down");
    assert(rules[0].id@.len() == 8 && rules[1].id@.len() == 11);
    assert(rules[2].id@.len() == 15 && rules[3].id@.len() == 11);
    assert(rules[1].id@[0] == 'h' && rules[3].id@[0] == 's');
    assert(rules[3].condition == AlertCondition::ServerDown);
    assert(rules[2].condition == AlertCondition::HighErrorRate);
}

/// The names of the states tell them apart.
pub proof fn lemma_status_names_differ(a: NodeStatus, b: NodeStatus)
    ensures
        status_name(a) == status_name(b) ==> a == b,
{
    reveal_strlit("Active");
    reveal_strlit("Inactive");
    reveal_strlit("Failed");
    reveal_strlit("Starting");
    reveal_strlit("Stopping");
    assert("Active"@.len() == 6 && "Failed"@.len() == 6 && "Inactive"@.len() == 8);
    assert("Starting"@.len() == 8 && "Stopping"@.len() == 8);
    assert("Active"@[0] == 'A' && "Failed"@[0] == 'F' && "Inactive"@[0] == 'I');
    assert("Starting"@[2] == 'a' && "Stopping"@[2] == 'o');
    assert("Starting"@[0] == 'S' && "Stopping"@[0] == 'S');
}

/// The message of an alert names the server, and the measure that the rule is about beside
/// the rule's threshold.
pub proof fn lemma_message_gives_measure_and_threshold<
    F: Fn(Scalar) -> String,
    P: Fn(Scalar) -> String,
>(
    text: Seq<char>,
    rule: AlertRule,
    server: ServerId,
    health: ServerHealth,
    fixed: F,
    percent: P,
)
    requires
        tells(text, rule, server, health, fixed, percent),
    ensures
        rule.condition == AlertCondition::HighErrorRate ==> exists|a: String, b: String|
            #[trigger] fixed.ensures((health.error_rate,), a) && #[trigger] fixed.ensures(
                (rule.threshold,),
                b,
            ) && text == "Server "@ + server.0@ + " has high error rate: "@ + a@ + "%"@
                + " (threshold: "@ + b@ + "%"@ + ")"@,
        rule.condition == AlertCondition::HighResponseTime ==> exists|a: String, b: String|
            #[trigger] fixed.ensures((health.response_time_ms,), a) && #[trigger] fixed.ensures(
                (rule.threshold,),
                b,
            ) && text == "Server "@ + server.0@ + " has high response time: "@ + a@ + "ms"@
                + " (threshold: "@ + b@ + "ms"@ + ")"@,
        rule.condition == AlertCondition::LowAvailability ==> exists|a: String, b: String|
            #[trigger] percent.ensures((health.availability,), a) && #[trigger] percent.ensures(
                (rule.threshold,),
                b,
            ) && text == "Server "@ + server.0@ + " has low availability: "@ + a@ + "%"@
                + " (threshold: "@ + b@ + "%"@ + ")"@,
        rule.condition == AlertCondition::ServerDown && health.status == NodeStatus::Failed
            ==> text == "Server "@ + server.0@ + " is down (status: "@ + "Failed"@ + ")"@,
{
}

/// Alerts that are the same agree in everything that they say.
pub proof fn lemma_same_alert_in_every_field(a: Alert, b: Alert)
    requires
        a.same_as(b),
    ensures
        a.id == b.id && a.rule_id == b.rule_id && a.server_id == b.server_id,
        a.severity == b.severity && a.title == b.title && a.message == b.message,
        a.created_at == b.created_at && a.updated_at == b.updated_at,
        a.resolved_at == b.resolved_at && a.status == b.status && a.metadata@ == b.metadata@,
{
}

/// The thresholds of the default rules are the whole numbers that they are called after.
pub proof fn lemma_default_thresholds_are_whole_numbers()
    ensures
        Scalar::spec_from_bits(ONE_BITS).spec_truncated() == 1,
        Scalar::spec_from_bits(EIGHTY_BITS).spec_truncated() == 80,
        Scalar::spec_from_bits(EIGHTY_FIVE_BITS).spec_truncated() == 85,
{
    vstd::arithmetic::power2::lemma2_to64();
    vstd::arithmetic::power2::lemma2_to64_rest();
    crate::scalar::lemma_truncated_is_whole_part(0, 1, 0, 0x3ff0_0000_0000_0000);
    crate::scalar::lemma_truncated_is_whole_part(6, 80, 0, 0x4054_0000_0000_0000);
    crate::scalar::lemma_truncated_is_whole_part(6, 85, 0, 0x4055_4000_0000_0000);
}

} // verus!
