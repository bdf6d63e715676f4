use zed42::aura::{classify_pulse, AuraPulse, AuraSentinel, PulseStatus, PulseVerdict};
use zed42::bus::{reconnect_backoff, TeamBus, CHANNEL_CAPACITY};
use zed42::ledger::{Budget, BudgetStatus, IntelligenceLedger, TransactionType};
use zed42::mailbox::PriorityMailbox;
use zed42::resolver::{ConsensusValue, StateResolver};
use zed42::vox::{delivered_on, VoxMessage, VoxPayload};

fn msg(priority: u8, team: &str, payload: VoxPayload, at: i64) -> VoxMessage {
    VoxMessage {
        id: 0,
        sender: "agent-a".to_string(),
        target_team: team.to_string(),
        priority,
        correlation_id: "thread-1".to_string(),
        payload,
        created_at: at,
    }
}

fn text(v: Option<&ConsensusValue>) -> Option<String> {
    match v {
        Some(ConsensusValue::Text(s)) => Some(s.clone()),
        Some(ConsensusValue::Json(s)) => Some(format!("json:{}", s)),
        None => None,
    }
}

#[test]
fn resolver_folds_each_payload_kind() {
    let msgs = vec![
        msg(1, "red", VoxPayload::TaskAssignment { task_id: "t-1".to_string(), description: "build".to_string() }, 10),
        msg(1, "red", VoxPayload::Proposal { content: "plan A".to_string() }, 20),
        msg(1, "red", VoxPayload::Observation { content: "seen".to_string() }, 15),
        msg(1, "red", VoxPayload::SystemAlert { action: "halt".to_string(), agent_id: Some("ag-9".to_string()), reason: "why".to_string() }, 30),
        msg(1, "red", VoxPayload::Ack { result: "ok".to_string() }, 25),
    ];
    let c = StateResolver::collapse("thread-1", &msgs);
    assert_eq!(c.thread_id, "thread-1");
    assert_eq!(text(c.get("task_id")), Some("t-1".to_string()));
    assert_eq!(text(c.get("description")), Some("build".to_string()));
    assert_eq!(text(c.get("proposal")), Some("plan A".to_string()));
    assert_eq!(text(c.get("observation")), Some("seen".to_string()));
    assert_eq!(text(c.get("alert_action")), Some("halt".to_string()));
    assert_eq!(text(c.get("alert_reason")), Some("why".to_string()));
    assert_eq!(text(c.get("alert_agent_id")), Some("ag-9".to_string()));
    assert_eq!(text(c.get("ack_result")), Some("ok".to_string()));
    assert_eq!(c.last_updated, 30);
}

#[test]
fn resolver_merges_json_objects_and_keeps_raw_text() {
    let msgs = vec![
        msg(1, "blue", VoxPayload::ConsensusUpdate { thread_id: "thread-1".to_string(), state: "{\"phase\": \"design\", \"n\": 2}".to_string() }, 1),
        msg(1, "blue", VoxPayload::ConsensusUpdate { thread_id: "thread-1".to_string(), state: "not json".to_string() }, 2),
        msg(1, "blue", VoxPayload::ConsensusUpdate { thread_id: "thread-1".to_string(), state: "[1, 2]".to_string() }, 3),
        msg(1, "blue", VoxPayload::ConsensusUpdate { thread_id: "thread-1".to_string(), state: "{\"phase\": \"build\"}".to_string() }, 4),
    ];
    let c = StateResolver::collapse("thread-1", &msgs);
    assert_eq!(text(c.get("phase")), Some("json:\"build\"".to_string()));
    assert_eq!(text(c.get("n")), Some("json:2".to_string()));
    // JSON that is not an object is kept as raw text too
    assert_eq!(text(c.get("state")), Some("[1, 2]".to_string()));
    assert!(c.get("0").is_none());
}

#[test]
fn resolver_replay_is_deterministic() {
    let msgs = vec![
        msg(1, "red", VoxPayload::Proposal { content: "x".to_string() }, 5),
        msg(1, "red", VoxPayload::Proposal { content: "y".to_string() }, 6),
    ];
    let a = StateResolver::collapse("t", &msgs);
    let b = StateResolver::collapse("t", &msgs);
    assert_eq!(text(a.get("proposal")), text(b.get("proposal")));
    assert_eq!(text(a.get("proposal")), Some("y".to_string()));
    assert_eq!(a.last_updated, b.last_updated);
    let empty = StateResolver::collapse("t", &Vec::new());
    assert_eq!(empty.last_updated, i64::MIN);
    assert!(empty.get("proposal").is_none());
}

#[test]
fn mailbox_orders_by_priority_then_arrival() {
    let mut mb = PriorityMailbox::new(3);
    assert!(mb.is_empty());
    assert!(mb.push(msg(1, "red", VoxPayload::Ack { result: "low".to_string() }, 0)));
    assert!(mb.push(msg(9, "red", VoxPayload::Ack { result: "high-1".to_string() }, 0)));
    assert!(mb.push(msg(9, "red", VoxPayload::Ack { result: "high-2".to_string() }, 0)));
    assert!(!mb.push(msg(255, "red", VoxPayload::Ack { result: "refused".to_string() }, 0)));
    assert_eq!(mb.len(), 3);
    let order: Vec<String> = std::iter::from_fn(|| mb.pop())
        .map(|m| match m.payload {
            VoxPayload::Ack { result } => result,
            _ => String::new(),
        })
        .collect();
    assert_eq!(order, vec!["high-1", "high-2", "low"]);
    assert!(mb.pop().is_none());
}

#[test]
fn aura_dissolves_ghosts() {
    let mut ledger = IntelligenceLedger::new();
    ledger.set_budget(Budget {
        entity_id: "ghost-agent".to_string(),
        hard_limit: 100,
        soft_limit: 100,
        spent: 0,
        currency: "USD".to_string(),
        status: BudgetStatus::Active,
        updated_at: 0,
    });
    let now = 10_000;
    let mut pulses = vec![
        AuraPulse { agent_id: "ghost-agent".to_string(), last_pulse: now - 301, status: PulseStatus::Working },
        AuraPulse { agent_id: "slow-agent".to_string(), last_pulse: now - 61, status: PulseStatus::Working },
        AuraPulse { agent_id: "fine-agent".to_string(), last_pulse: now - 10, status: PulseStatus::Idle },
    ];
    let sentinel = AuraSentinel::new();
    let alerts = sentinel.monitor_pulse_health(&mut pulses, &mut ledger, now);
    assert_eq!(pulses[0].status, PulseStatus::Ghosted);
    assert_eq!(pulses[1].status, PulseStatus::Laggard);
    assert_eq!(pulses[2].status, PulseStatus::Idle);
    assert_eq!(ledger.get_budget("ghost-agent").unwrap().status, BudgetStatus::Frozen);
    let audits = ledger.entries().iter().filter(|e| e.transaction_type == TransactionType::SystemAudit).count();
    assert_eq!(audits, 1);
    assert_eq!(alerts.len(), 1);
    let a = &alerts[0];
    assert_eq!(a.target_team, "all");
    assert_eq!(a.priority, 255);
    match &a.payload {
        VoxPayload::SystemAlert { action, agent_id, .. } => {
            assert_eq!(action, "dissolve_ghost");
            assert_eq!(agent_id.as_deref(), Some("ghost-agent"));
        }
        _ => panic!("not an alert"),
    }
    // a second scan leaves ghosts and laggards alone
    let again = sentinel.monitor_pulse_health(&mut pulses, &mut ledger, now);
    assert!(again.is_empty());
    // subscribers of every team see the alert
    let mut bus = TeamBus::new(CHANNEL_CAPACITY);
    let red = bus.subscribe("red").unwrap();
    let blue = bus.subscribe("Blue").unwrap();
    assert!(bus.publish(a).is_empty());
    assert!(bus.try_recv(red).is_some());
    assert!(bus.try_recv(blue).is_some());
}

#[test]
fn pulse_verdicts() {
    assert_eq!(classify_pulse(0, 301, PulseStatus::Working), PulseVerdict::Dissolve);
    assert_eq!(classify_pulse(0, 301, PulseStatus::Ghosted), PulseVerdict::Keep);
    assert_eq!(classify_pulse(0, 300, PulseStatus::Working), PulseVerdict::MarkLaggard);
    assert_eq!(classify_pulse(0, 61, PulseStatus::Laggard), PulseVerdict::Keep);
    assert_eq!(classify_pulse(0, 60, PulseStatus::Working), PulseVerdict::Keep);
    assert_eq!(classify_pulse(i64::MIN, i64::MAX, PulseStatus::Idle), PulseVerdict::Dissolve);
}

#[test]
fn bus_delivers_to_team_and_drops_oldest_when_full() {
    let mut bus = TeamBus::new(2);
    let red = bus.subscribe("red").unwrap();
    let green = bus.subscribe("green").unwrap();
    let everyone = bus.subscribe("all").unwrap();
    let p = |n: &str| VoxPayload::Observation { content: n.to_string() };
    assert!(bus.publish(&msg(1, "red", p("1"), 0)).is_empty());
    assert!(bus.publish(&msg(1, "RED", p("2"), 0)).is_empty());
    let dropped = bus.publish(&msg(1, "red", p("3"), 0));
    assert_eq!(dropped, vec![red, everyone]);
    assert!(bus.try_recv(everyone).is_some());
    let got: Vec<String> = std::iter::from_fn(|| bus.try_recv(red))
        .map(|m| match m.payload {
            VoxPayload::Observation { content } => content,
            _ => String::new(),
        })
        .collect();
    assert_eq!(got, vec!["2", "3"]);
    assert!(bus.try_recv(green).is_none());
    assert!(bus.try_recv(99).is_none());
}

#[test]
fn channel_routing_and_backoff() {
    assert!(delivered_on("red", "red"));
    assert!(delivered_on("all", "blue"));
    assert!(!delivered_on("red", "blue"));
    assert!(delivered_on("red", "all"));
    assert_eq!(reconnect_backoff(1_000), 2_000);
    assert_eq!(reconnect_backoff(40_000), 60_000);
    assert_eq!(reconnect_backoff(u64::MAX), 60_000);
}

#[test]
fn resolve_thread_orders_by_creation_and_filters_the_thread() {
    let mut other = msg(1, "red", VoxPayload::Proposal { content: "other thread".to_string() }, 1);
    other.correlation_id = "thread-2".to_string();
    let msgs = vec![
        msg(1, "red", VoxPayload::Proposal { content: "late".to_string() }, 50),
        other,
        msg(1, "red", VoxPayload::Proposal { content: "early".to_string() }, 10),
        msg(1, "red", VoxPayload::Proposal { content: "tie-second".to_string() }, 50),
    ];
    let c = StateResolver::resolve_thread("thread-1", &msgs);
    assert_eq!(text(c.get("proposal")), Some("tie-second".to_string()));
    assert_eq!(c.last_updated, 50);
    let c2 = StateResolver::resolve_thread("thread-2", &msgs);
    assert_eq!(text(c2.get("proposal")), Some("other thread".to_string()));
    let none = StateResolver::resolve_thread("thread-3", &msgs);
    assert!(none.values.is_empty());
}

#[test]
fn resolve_thread_ignores_arrival_order() {
    let a = msg(1, "red", VoxPayload::Proposal { content: "first".to_string() }, 1);
    let b = msg(1, "red", VoxPayload::Ack { result: "ok".to_string() }, 2);
    let c = msg(1, "red", VoxPayload::Proposal { content: "last".to_string() }, 3);
    let x = StateResolver::resolve_thread("thread-1", &vec![a.clone(), b.clone(), c.clone()]);
    let y = StateResolver::resolve_thread("thread-1", &vec![c, a, b]);
    assert_eq!(text(x.get("proposal")), Some("last".to_string()));
    assert_eq!(text(x.get("proposal")), text(y.get("proposal")));
    assert_eq!(text(x.get("ack_result")), text(y.get("ack_result")));
    assert_eq!(x.last_updated, y.last_updated);
}

#[test]
fn equal_instants_are_ordered_by_message_id() {
    let mut late = msg(1, "red", VoxPayload::Proposal { content: "higher id".to_string() }, 50);
    late.id = 9;
    let mut early = msg(1, "red", VoxPayload::Proposal { content: "lower id".to_string() }, 50);
    early.id = 3;
    let a = StateResolver::resolve_thread("thread-1", &vec![late.clone(), early.clone()]);
    let b = StateResolver::resolve_thread("thread-1", &vec![early, late]);
    assert_eq!(text(a.get("proposal")), Some("higher id".to_string()));
    assert_eq!(text(b.get("proposal")), Some("higher id".to_string()));
}

#[test]
fn one_audit_entry_per_dissolved_agent_with_a_budget() {
    let mut ledger = IntelligenceLedger::new();
    for id in ["g1", "g2"] {
        ledger.set_budget(Budget {
            entity_id: id.to_string(),
            hard_limit: 10,
            soft_limit: 10,
            spent: 0,
            currency: "USD".to_string(),
            status: BudgetStatus::Active,
            updated_at: 0,
        });
    }
    let mut pulses = vec![
        AuraPulse { agent_id: "g1".to_string(), last_pulse: 0, status: PulseStatus::Working },
        AuraPulse { agent_id: "nobudget".to_string(), last_pulse: 0, status: PulseStatus::Idle },
        AuraPulse { agent_id: "g2".to_string(), last_pulse: 0, status: PulseStatus::Laggard },
    ];
    let alerts = AuraSentinel::new().monitor_pulse_health(&mut pulses, &mut ledger, 1_000);
    assert_eq!(alerts.len(), 3);
    let audits: Vec<String> = ledger
        .entries()
        .iter()
        .filter(|e| e.transaction_type == TransactionType::SystemAudit)
        .map(|e| e.entity_id.clone())
        .collect();
    assert_eq!(audits, vec!["g1", "g2"]);
}
