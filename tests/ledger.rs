use zed42::ledger::{Budget, BudgetStatus, IntelligenceLedger, LedgerError, RateTableEntry, TransactionType, Usage};

const UNIT: u64 = 1_000_000_000;

fn budget(entity: &str, hard: u64, soft: u64, spent: u64) -> Budget {
    Budget {
        entity_id: entity.to_string(),
        hard_limit: hard,
        soft_limit: soft,
        spent,
        currency: "USD".to_string(),
        status: BudgetStatus::Active,
        updated_at: 0,
    }
}

fn rate(model: &str, input_micros: u64, output_micros: u64) -> RateTableEntry {
    RateTableEntry { model: model.to_string(), input_cost_per_1k: input_micros, output_cost_per_1k: output_micros }
}

fn usage(model: &str, input: u32, output: u32) -> Usage {
    Usage { input_tokens: input, output_tokens: output, model: model.to_string() }
}

#[test]
fn ledger_happy_path() {
    let mut l = IntelligenceLedger::new();
    l.set_budget(budget("agent-1", 10 * UNIT, 8 * UNIT, 0));
    l.set_rate(rate("gpt-4", 30_000, 60_000));
    let lease = l.request_lease("agent-1", UNIT, 100).unwrap();
    let receipt = l.commit_usage(&lease, usage("gpt-4", 1000, 1000), 101).unwrap();
    assert_eq!(receipt.cost, 90_000_000);
    assert_eq!(receipt.remaining_budget, 9_910_000_000);
    assert!(receipt.warning.is_none());
    assert_eq!(l.get_budget("agent-1").unwrap().spent, 90_000_000);
    assert_eq!(l.open_lease_count(), 0);
}

#[test]
fn hard_cap_rejection_leaves_budget_unchanged() {
    let mut l = IntelligenceLedger::new();
    l.set_budget(budget("agent-1", UNIT, UNIT, 950_000_000));
    let r = l.request_lease("agent-1", 60_000_000, 0);
    assert!(matches!(r, Err(LedgerError::BudgetExceeded(_))));
    let b = l.get_budget("agent-1").unwrap();
    assert_eq!(b.spent, 950_000_000);
    assert_eq!(l.open_lease_count(), 0);
    assert_eq!(l.entry_count(), 0);
}

#[test]
fn soft_cap_warning() {
    let mut l = IntelligenceLedger::new();
    l.set_budget(budget("agent-1", 10 * UNIT, 5 * UNIT, 4_950_000_000));
    l.set_rate(rate("m", 1_000_000, 1_000_000));
    let lease = l.request_lease("agent-1", 100_000_000, 0).unwrap();
    let receipt = l.commit_usage(&lease, usage("m", 50, 50), 1).unwrap();
    assert_eq!(receipt.cost, 100_000_000);
    // hard limit minus spent: 10.00 - (4.95 + 0.10)
    assert_eq!(receipt.remaining_budget, 4_950_000_000);
    assert_eq!(receipt.warning.as_deref(), Some("soft limit exceeded"));
}

#[test]
fn cost_is_exact() {
    let mut l = IntelligenceLedger::new();
    l.set_budget(budget("e", 100 * UNIT, 100 * UNIT, 0));
    // 0.000123 per 1k input, 0.000007 per 1k output
    l.set_rate(rate("tiny", 123, 7));
    let lease = l.request_lease("e", UNIT, 0).unwrap();
    let receipt = l.commit_usage(&lease, usage("tiny", 3, 1001), 0).unwrap();
    assert_eq!(receipt.cost, 3 * 123 + 1001 * 7);
}

#[test]
fn frozen_budget_refuses_leases() {
    let mut l = IntelligenceLedger::new();
    l.set_budget(budget("e", 10 * UNIT, 10 * UNIT, 0));
    l.freeze_budget("e", "manual", 5).unwrap();
    assert_eq!(l.get_budget("e").unwrap().status, BudgetStatus::Frozen);
    assert_eq!(l.entry_count(), 1);
    assert!(matches!(l.request_lease("e", 1, 6), Err(LedgerError::BudgetFrozen(_))));
}

#[test]
fn freeze_unknown_entity_fails() {
    let mut l = IntelligenceLedger::new();
    assert!(l.freeze_budget("ghost", "manual", 0).is_err());
}

#[test]
fn missing_budget_is_budget_exceeded() {
    let mut l = IntelligenceLedger::new();
    assert!(matches!(l.request_lease("nobody", 1, 0), Err(LedgerError::BudgetExceeded(_))));
}

#[test]
fn lease_cannot_be_committed_twice() {
    let mut l = IntelligenceLedger::new();
    l.set_budget(budget("e", 10 * UNIT, 10 * UNIT, 0));
    l.set_rate(rate("m", 1000, 1000));
    let lease = l.request_lease("e", UNIT, 0).unwrap();
    assert!(l.commit_usage(&lease, usage("m", 10, 10), 1).is_ok());
    let again = l.commit_usage(&lease, usage("m", 10, 10), 2);
    assert!(matches!(again, Err(LedgerError::LeaseNotFound(_))));
    assert_eq!(l.get_budget("e").unwrap().spent, 20_000);
}

#[test]
fn unknown_rate_is_rate_not_found() {
    let mut l = IntelligenceLedger::new();
    l.set_budget(budget("e", 10 * UNIT, 10 * UNIT, 0));
    let lease = l.request_lease("e", UNIT, 0).unwrap();
    let r = l.commit_usage(&lease, usage("unknown", 1, 1), 1);
    assert!(matches!(r, Err(LedgerError::RateNotFound(_))));
    assert_eq!(l.open_lease_count(), 1);
}

#[test]
fn expired_lease_is_not_found_and_swept() {
    let mut l = IntelligenceLedger::new();
    l.set_budget(budget("e", 10 * UNIT, 10 * UNIT, 0));
    l.set_rate(rate("m", 1000, 1000));
    let lease = l.request_lease("e", UNIT, 0).unwrap();
    let r = l.commit_usage(&lease, usage("m", 1, 1), 300);
    assert!(matches!(r, Err(LedgerError::LeaseNotFound(_))));
    assert_eq!(l.sweep_expired(300), 1);
    assert_eq!(l.open_lease_count(), 0);
    assert_eq!(l.get_budget("e").unwrap().spent, 0);
    // grant + zero settlement
    assert_eq!(l.entry_count(), 2);
}

#[test]
fn outstanding_leases_count_against_the_cap() {
    let mut l = IntelligenceLedger::new();
    l.set_budget(budget("e", UNIT, UNIT, 0));
    assert!(l.request_lease("e", 600_000_000, 0).is_ok());
    assert!(matches!(l.request_lease("e", 600_000_000, 0), Err(LedgerError::BudgetExceeded(_))));
    assert!(l.request_lease("e", 400_000_000, 0).is_ok());
}

#[test]
fn release_gives_the_reservation_back() {
    let mut l = IntelligenceLedger::new();
    l.set_budget(budget("e", UNIT, UNIT, 0));
    let lease = l.request_lease("e", UNIT, 0).unwrap();
    assert!(l.request_lease("e", 1, 0).is_err());
    l.release_lease(&lease, 1).unwrap();
    assert!(l.request_lease("e", UNIT, 2).is_ok());
    assert!(matches!(l.release_lease(&lease, 3), Err(LedgerError::LeaseNotFound(_))));
}

#[test]
fn reaching_the_hard_limit_depletes() {
    let mut l = IntelligenceLedger::new();
    l.set_budget(budget("e", 1_000, 1_000, 0));
    l.set_rate(rate("m", 1, 1));
    let lease = l.request_lease("e", 1_000, 0).unwrap();
    let receipt = l.commit_usage(&lease, usage("m", 500, 500), 1).unwrap();
    assert_eq!(receipt.remaining_budget, 0);
    assert_eq!(l.get_budget("e").unwrap().status, BudgetStatus::Depleted);
}

#[test]
fn commit_leaves_one_grant_and_one_settlement() {
    let mut l = IntelligenceLedger::new();
    l.set_budget(budget("e", 10 * UNIT, 10 * UNIT, 0));
    l.set_rate(rate("m", 1000, 2000));
    let a = l.request_lease("e", UNIT, 0).unwrap();
    let b = l.request_lease("e", UNIT, 0).unwrap();
    assert_ne!(a, b);
    l.commit_usage(&a, usage("m", 1000, 1000), 1).unwrap();
    let count = |id: &str, kind: TransactionType| {
        l.entries().iter().filter(|e| e.transaction_type == kind && e.lease_id.as_deref() == Some(id)).count()
    };
    assert_eq!(count(&a, TransactionType::Grant), 1);
    assert_eq!(count(&a, TransactionType::Settlement), 1);
    assert_eq!(count(&b, TransactionType::Grant), 1);
    assert_eq!(count(&b, TransactionType::Settlement), 0);
    let settlement = l.entries().iter().find(|e| e.transaction_type == TransactionType::Settlement).unwrap();
    assert_eq!(settlement.amount, 3_000_000);
    assert_eq!(l.leases().len(), 1);
}

#[test]
fn cost_beyond_range_is_internal_and_changes_nothing() {
    let mut l = IntelligenceLedger::new();
    l.set_budget(budget("e", 10 * UNIT, 10 * UNIT, 0));
    l.set_rate(rate("huge", u64::MAX, 0));
    let lease = l.request_lease("e", UNIT, 0).unwrap();
    let r = l.commit_usage(&lease, usage("huge", 2, 0), 1);
    assert!(matches!(r, Err(LedgerError::Internal(_))));
    assert_eq!(l.open_lease_count(), 1);
    assert_eq!(l.get_budget("e").unwrap().spent, 0);
}

#[test]
fn reused_lease_name_is_refused() {
    let mut l = IntelligenceLedger::new();
    l.set_budget(budget("e", 10 * UNIT, 10 * UNIT, 0));
    assert!(l.request_lease_with_id("e", 1, 0, "L".to_string()).is_ok());
    assert!(matches!(l.request_lease_with_id("e", 1, 0, "L".to_string()), Err(LedgerError::Internal(_))));
    l.release_lease("L", 0).unwrap();
    // a closed lease's name stays in the journal and is not handed out again
    assert!(matches!(l.request_lease_with_id("e", 1, 0, "L".to_string()), Err(LedgerError::Internal(_))));
}

#[test]
fn errors_name_what_they_are_about() {
    let mut l = IntelligenceLedger::new();
    l.set_budget(budget("e", UNIT, UNIT, 0));
    l.freeze_budget("e", "manual", 0).unwrap();
    match l.request_lease("e", 1, 0) {
        Err(LedgerError::BudgetFrozen(m)) => assert_eq!(m, "e"),
        other => panic!("unexpected {:?}", other),
    }
    match l.commit_usage("no-such-lease", usage("m", 1, 1), 0) {
        Err(LedgerError::LeaseNotFound(m)) => assert_eq!(m, "no-such-lease"),
        other => panic!("unexpected {:?}", other),
    }
    let mut l2 = IntelligenceLedger::new();
    l2.set_budget(budget("f", UNIT, UNIT, 0));
    let lease = l2.request_lease("f", 1, 0).unwrap();
    match l2.commit_usage(&lease, usage("gone", 1, 1), 0) {
        Err(LedgerError::RateNotFound(m)) => assert_eq!(m, "gone"),
        other => panic!("unexpected {:?}", other),
    }
    let granted = l2.leases()[0].clone();
    assert_eq!(granted.expires_at, granted.created_at + 300);
}
