use zed42::ledger::{Budget, BudgetStatus, IntelligenceLedger, RateTableEntry, TransactionType};
use zed42::router::{
    backoff_ms, backpressure, select_client, start_tier, tier_estimate, transient, ExecutionProfile, LlmError,
    ProviderOutcome, RetryCause, RouteAction, Router,
};
use zed42::circuit::CircuitBreaker;

const UNIT: u64 = 1_000_000_000;

fn funded_router() -> Router {
    let mut l = IntelligenceLedger::new();
    l.set_budget(Budget {
        entity_id: "agent".to_string(),
        hard_limit: 10 * UNIT,
        soft_limit: 10 * UNIT,
        spent: 0,
        currency: "USD".to_string(),
        status: BudgetStatus::Active,
        updated_at: 0,
    });
    l.set_rate(RateTableEntry { model: "t1".to_string(), input_cost_per_1k: 1_000, output_cost_per_1k: 2_000 });
    l.set_rate(RateTableEntry { model: "t2".to_string(), input_cost_per_1k: 3_000, output_cost_per_1k: 4_000 });
    Router::new(l)
}

fn profile() -> ExecutionProfile {
    ExecutionProfile::new("agent", "t1".to_string()).with_tier_2("t2".to_string())
}

/// Drives a request to its end; `t1_fails` failures are answered for t1.
fn drive(router: &mut Router, cause: Option<RetryCause>, t1_error: Option<LlmError>) -> (RouteAction, u32, u32, Vec<u64>) {
    let mut s = router.begin("agent", &profile(), &cause).unwrap();
    let mut n = 0;
    let mut action = router.advance(&mut s, 0, "lease-0".to_string());
    let (mut c1, mut c2) = (0, 0);
    let mut waits = Vec::new();
    loop {
        match &action {
            RouteAction::Call { model, wait_ms, .. } => {
                waits.push(*wait_ms);
                let outcome = if model == "t1" {
                    c1 += 1;
                    match &t1_error {
                        Some(e) => ProviderOutcome::Failure(e.clone()),
                        None => ProviderOutcome::Success { prompt_tokens: 100, completion_tokens: 100 },
                    }
                } else {
                    c2 += 1;
                    ProviderOutcome::Success { prompt_tokens: 1000, completion_tokens: 1000 }
                };
                n += 1;
                action = router.on_outcome(&mut s, outcome, 0, format!("lease-{}", n));
            }
            _ => return (action, c1, c2, waits),
        }
    }
}

#[test]
fn waterfall_failover() {
    let mut router = funded_router();
    let (action, c1, c2, waits) = drive(&mut router, None, Some(LlmError::RateLimitExceeded));
    assert_eq!(c1, 3);
    assert_eq!(c2, 1);
    assert_eq!(waits, vec![0, 200, 400, 0]);
    match action {
        RouteAction::Done(d) => {
            assert_eq!(d.model, "t2");
            assert_eq!(d.tier, 2);
            assert_eq!(d.cost, Some(7_000_000));
        }
        other => panic!("unexpected {:?}", other),
    }
    let settled: Vec<_> = router
        .ledger
        .entries()
        .iter()
        .filter(|e| e.transaction_type == TransactionType::Settlement && e.amount > 0)
        .collect();
    assert_eq!(settled.len(), 1);
    assert_eq!(router.ledger.open_lease_count(), 0);
    assert_eq!(router.ledger.get_budget("agent").unwrap().spent, 7_000_000);
}

#[test]
fn smart_escalation_skips_tier_one() {
    let mut router = funded_router();
    let (action, c1, c2, _) = drive(&mut router, Some(RetryCause::ValidationFailure), None);
    assert_eq!(c1, 0);
    assert_eq!(c2, 1);
    assert!(matches!(action, RouteAction::Done(_)));
}

#[test]
fn non_transient_error_moves_on_at_once() {
    let mut router = funded_router();
    let (action, c1, c2, _) = drive(&mut router, None, Some(LlmError::InvalidSchema("bad".to_string())));
    assert_eq!(c1, 1);
    assert_eq!(c2, 1);
    assert!(matches!(action, RouteAction::Done(_)));
}

#[test]
fn backpressure_refuses_before_any_lease() {
    let mut cb = CircuitBreaker::new().with_thresholds(1, 300_000, 30_000);
    for m in ["a", "b", "c"] {
        cb.report_failure(m, 0);
    }
    let router = funded_router().with_circuit_breaker(cb);
    let r = router.begin("agent", &profile(), &None);
    assert!(matches!(r, Err(LlmError::Backpressure(30_000))));
    assert_eq!(router.ledger.open_lease_count(), 0);
}

#[test]
fn all_tiers_failing_returns_last_error_and_leaks_no_lease() {
    let mut router = funded_router();
    let mut s = router.begin("agent", &profile(), &None).unwrap();
    let mut action = router.advance(&mut s, 0, "first".to_string());
    let mut calls = 0;
    while let RouteAction::Call { .. } = action {
        calls += 1;
        action = router.on_outcome(&mut s, ProviderOutcome::Failure(LlmError::NetworkError("down".to_string())), 0, format!("n{}", calls));
    }
    assert_eq!(calls, 6);
    assert!(matches!(action, RouteAction::Fail(LlmError::NetworkError(_))));
    assert_eq!(router.ledger.open_lease_count(), 0);
    assert_eq!(router.ledger.get_budget("agent").unwrap().spent, 0);
}

#[test]
fn open_circuit_skips_tier() {
    let mut router = funded_router();
    router.breaker = CircuitBreaker::new().with_thresholds(1, 300_000, 30_000);
    router.breaker.report_failure("t1", 0);
    let (action, c1, c2, _) = drive(&mut router, None, None);
    assert_eq!(c1, 0);
    assert_eq!(c2, 1);
    assert!(matches!(action, RouteAction::Done(_)));
}

#[test]
fn budget_refusal_is_fatal() {
    let mut router = Router::new(IntelligenceLedger::new());
    let mut s = router.begin("agent", &profile(), &None).unwrap();
    let action = router.advance(&mut s, 0, "x".to_string());
    match action {
        RouteAction::Fail(LlmError::ApiError(m)) => assert!(m.starts_with("Budget exceeded: ")),
        other => panic!("unexpected {:?}", other),
    }
}

#[test]
fn cancel_releases_the_lease() {
    let mut router = funded_router();
    let mut s = router.begin("agent", &profile(), &None).unwrap();
    let _ = router.advance(&mut s, 0, "c".to_string());
    assert_eq!(router.ledger.open_lease_count(), 1);
    router.cancel(&mut s, 0);
    assert_eq!(router.ledger.open_lease_count(), 0);
}

#[test]
fn small_decisions() {
    assert!(backpressure(4, 5));
    assert!(!backpressure(3, 5));
    assert!(!backpressure(2, 2));
    assert!(backpressure(3, 3));
    assert_eq!(start_tier(&Some(RetryCause::ValidationFailure)), 1);
    assert_eq!(start_tier(&Some(RetryCause::RateLimit)), 0);
    assert_eq!(start_tier(&None), 0);
    assert_eq!(tier_estimate(0), 10_000_000);
    assert_eq!(tier_estimate(1), 50_000_000);
    assert_eq!(tier_estimate(2), 200_000_000);
    assert_eq!(backoff_ms(1), 200);
    assert_eq!(backoff_ms(2), 400);
    assert!(transient(&LlmError::ApiError(String::new())));
    assert!(!transient(&LlmError::InvalidResponse(String::new())));
}

#[test]
fn longest_prefix_picks_the_client() {
    let prefixes = vec!["acme".to_string(), "acme/big-4".to_string(), "globex".to_string()];
    assert_eq!(select_client(&prefixes, "acme/big-4o"), Some(1));
    assert_eq!(select_client(&prefixes, "acme/small"), Some(0));
    assert_eq!(select_client(&prefixes, "globex/large"), Some(2));
    assert_eq!(select_client(&prefixes, "initech/medium"), None);
}

#[test]
fn a_slow_call_is_still_charged() {
    let mut router = funded_router();
    let mut s = router.begin("agent", &profile(), &None).unwrap();
    let start_ms = 1_700_000_000_000;
    let action = router.advance(&mut s, start_ms, "slow".to_string());
    assert!(matches!(action, RouteAction::Call { .. }));
    // two minutes later, well inside the lease's five minutes
    let done = router.on_outcome(&mut s, ProviderOutcome::Success { prompt_tokens: 1000, completion_tokens: 0 }, start_ms + 120_000, "unused".to_string());
    match done {
        RouteAction::Done(d) => assert_eq!(d.cost, Some(1_000_000)),
        other => panic!("unexpected {:?}", other),
    }
    assert_eq!(router.ledger.get_budget("agent").unwrap().spent, 1_000_000);
}

#[test]
fn a_refused_lease_puts_the_canary_back() {
    let mut router = Router::new(IntelligenceLedger::new());
    router.breaker = CircuitBreaker::new().with_thresholds(1, 100, 30_000);
    router.breaker.report_failure("t1", 0);
    let mut s = router.begin("agent", &profile(), &None).unwrap();
    // the circuit's time is up, but the agent has no budget: no call is made
    let action = router.advance(&mut s, 1_000, "a".to_string());
    assert!(matches!(action, RouteAction::Fail(LlmError::ApiError(_))));
    assert_eq!(router.breaker.get_status()[0].state, "Open");
    // so the next request may still send its canary
    assert!(!router.breaker.is_open("t1", 1_001));
}

#[test]
fn a_reused_lease_name_is_refused() {
    let mut router = funded_router();
    let mut s = router.begin("agent", &profile(), &None).unwrap();
    let _ = router.advance(&mut s, 0, "same".to_string());
    router.cancel(&mut s, 0);
    let mut s2 = router.begin("agent", &profile(), &None).unwrap();
    assert!(matches!(router.advance(&mut s2, 0, "same".to_string()), RouteAction::Fail(LlmError::ApiError(_))));
}
