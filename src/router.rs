//! Tiered model routing: a backpressure gate, smart escalation, a waterfall
//! over up to three tiers with a lease per tier, bounded retries with
//! exponential backoff, and a guarantee that no lease outlives a request.
//!
//! The provider calls and the waits happen outside: a caller opens a
//! session with `Router::begin`, asks for the first call with
//! `Router::advance`, performs each call it is handed, and reports each
//! outcome to `Router::on_outcome` until it gets `Done` or `Fail`.
use vstd::prelude::*;
use crate::circuit::{admit_step, failure_step, fresh_state, success_step, CircuitBreaker, CircuitState};
use crate::ledger::{IntelligenceLedger, LedgerError, Usage, BudgetStatus, TransactionType, cost_spec, entry_refers, is_expired, outstanding, settled_budget};
use crate::text::{concat, owned, starts_with};

verus! {

/// Wait recommended to a caller refused by backpressure, in milliseconds.
pub const BACKPRESSURE_WAIT_MS: u64 = 30_000;
/// Retries of one tier after its first attempt.
pub const MAX_RETRIES: u8 = 2;
/// Base of the exponential backoff, in milliseconds.
pub const BACKOFF_BASE_MS: u64 = 100;
/// Number of tiers in a profile.
pub const TIER_COUNT: usize = 3;

/// Why a request is being retried by its caller.
#[derive(Clone, Debug)]
pub enum RetryCause {
    RateLimit,
    ServerBusy,
    ValidationFailure,
    Other(String),
}

/// Errors of a model call.
#[derive(Clone, Debug)]
pub enum LlmError {
    ApiError(String),
    NetworkError(String),
    SerializationError(String),
    InvalidSchema(String),
    RateLimitExceeded,
    InvalidResponse(String),
    /// Too many circuits are open; retry after the given milliseconds.
    Backpressure(u64),
}

/// Whether an error is transient, so that the same tier is tried again.
pub open spec fn is_transient(e: LlmError) -> bool {
    e is RateLimitExceeded || e is NetworkError || e is ApiError
}

/// The models of an agent's tiers; the first is always present.
#[derive(Clone, Debug)]
pub struct ExecutionProfile {
    pub agent_id: String,
    pub tier_1: String,
    pub tier_2: Option<String>,
    pub tier_3: Option<String>,
}

impl ExecutionProfile {
    /// A profile with only a first tier.
    pub fn new(agent_id: &str, tier_1: String) -> (r: Self)
        ensures
            r.agent_id@ == agent_id@,
            r.tier_1 == tier_1,
            r.tier_2 is None,
            r.tier_3 is None,
    {
        ExecutionProfile { agent_id: owned(agent_id), tier_1, tier_2: None, tier_3: None }
    }

    /// The same profile with `model` as its second tier.
    pub fn with_tier_2(self, model: String) -> (r: Self)
        ensures
            r == (ExecutionProfile { tier_2: Some(model), ..self }),
    {
        ExecutionProfile { tier_2: Some(model), ..self }
    }

    /// The same profile with `model` as its third tier.
    pub fn with_tier_3(self, model: String) -> (r: Self)
        ensures
            r == (ExecutionProfile { tier_3: Some(model), ..self }),
    {
        ExecutionProfile { tier_3: Some(model), ..self }
    }
}

/// What a provider call came back with.
#[derive(Clone, Debug)]
pub enum ProviderOutcome {
    Success { prompt_tokens: u32, completion_tokens: u32 },
    Failure(LlmError),
}

/// The tier being tried and its lease.
#[derive(Clone, Debug)]
pub struct ActiveTier {
    /// Index of the tier, from 0.
    pub index: usize,
    pub model: String,
    pub lease_id: String,
}

/// A routing record of a successful request.
#[derive(Clone, Debug)]
pub struct RouteSuccess {
    /// Tier number, from 1.
    pub tier: u8,
    pub model: String,
    pub retry_count: u8,
    /// Settled cost, in nano-units; absent when the commit failed and the
    /// lease was released instead.
    pub cost: Option<u64>,
}

/// What the caller does next.
#[derive(Clone, Debug)]
pub enum RouteAction {
    /// Wait `wait_ms`, then call `model` (tier number `tier`, from 1).
    Call { tier: u8, model: String, attempt: u8, wait_ms: u64 },
    /// The request succeeded.
    Done(RouteSuccess),
    /// The request failed.
    Fail(LlmError),
}

/// The state of one routed request.
pub struct RouteSession {
    pub agent_id: String,
    /// The models of the three tiers.
    pub tiers: Vec<Option<String>>,
    /// Index of the next tier to consider.
    pub next_tier: usize,
    pub current: Option<ActiveTier>,
    pub attempt: u8,
    pub last_error: LlmError,
}

/// Whether too many monitored circuits are open: at least three models are
/// monitored and at least 80% of them are open.
pub open spec fn backpressure_spec(open: nat, total: nat) -> bool {
    total >= 3 && 5 * open >= 4 * total
}

/// Index of the first tier tried: the second one after a validation failure.
pub open spec fn start_tier_spec(cause: Option<RetryCause>) -> usize {
    if cause matches Some(RetryCause::ValidationFailure) { 1 } else { 0 }
}

/// Reservation of tier index `i`, in nano-units: 0.01, 0.05, then 0.20.
pub open spec fn tier_estimate_spec(i: usize) -> u64 {
    if i == 0 { 10_000_000 } else if i == 1 { 50_000_000 } else { 200_000_000 }
}

/// Wait before attempt number `attempt` (from 1) of a tier.
pub open spec fn backoff_spec(attempt: u8) -> nat {
    BACKOFF_BASE_MS as nat * pow2(attempt as nat)
}

pub open spec fn pow2(n: nat) -> nat
    decreases n,
{
    if n == 0 { 1 } else { 2 * pow2((n - 1) as nat) }
}

/// Whether `s` begins with `p`.
pub open spec fn has_prefix(s: Seq<char>, p: Seq<char>) -> bool {
    p.len() <= s.len() && s.subrange(0, p.len() as int) == p
}

/// The cost a commit of `p` prompt and `c` completion tokens on `model`
/// settles lease `id` at, when the ledger accepts it at `now`.
pub open spec fn settled_cost(l: IntelligenceLedger, id: Seq<char>, model: Seq<char>, p: u32, c: u32, now: u64) -> Option<u64> {
    match l.lease_of(id) {
        Some(le) => if is_expired(le, now) {
            None
        } else {
            match l.rate_of(model) {
                Some(rate) => {
                    let b = l.budget_of(le.entity_id@).unwrap();
                    let cost = cost_spec(p, c, rate);
                    if cost > u64::MAX || b.spent + cost > u64::MAX { None } else { Some(cost as u64) }
                },
                None => None,
            }
        },
        None => None,
    }
}

/// Whether the ledger would refuse a lease of `est` to `entity` whatever
/// name it is given.
pub open spec fn lease_denied(l: IntelligenceLedger, entity: Seq<char>, est: u64) -> bool {
    match l.budget_of(entity) {
        None => true,
        Some(b) => b.status != BudgetStatus::Active || b.spent + outstanding(l.leases_view(), entity) + est > b.hard_limit,
    }
}

/// Whether the backpressure gate is shut for `open` open circuits out of `total`.
pub fn backpressure(open: usize, total: usize) -> (r: bool)
    ensures
        r == backpressure_spec(open as nat, total as nat),
{
    total >= 3 && 5 * (open as u128) >= 4 * (total as u128)
}

/// Index of the first tier tried for a request retried for `cause`.
pub fn start_tier(cause: &Option<RetryCause>) -> (r: usize)
    ensures
        r == start_tier_spec(*cause),
{
    match cause {
        Some(RetryCause::ValidationFailure) => 1,
        _ => 0,
    }
}

/// Reservation of tier index `i`, in nano-units.
pub fn tier_estimate(i: usize) -> (r: u64)
    ensures
        r == tier_estimate_spec(i),
{
    if i == 0 {
        10_000_000
    } else if i == 1 {
        50_000_000
    } else {
        200_000_000
    }
}

/// Wait before attempt `attempt` (1 or 2) of a tier: 100 ms times 2 to the attempt.
pub fn backoff_ms(attempt: u8) -> (r: u64)
    requires
        1 <= attempt <= MAX_RETRIES,
    ensures
        r == backoff_spec(attempt),
{
    proof {
        assert(pow2(0) == 1);
        assert(pow2(1) == 2);
        assert(pow2(2) == 4);
    }
    if attempt == 1 { 200 } else { 400 }
}

/// Whether `e` is transient.
pub fn transient(e: &LlmError) -> (r: bool)
    ensures
        r == is_transient(*e),
{
    match e {
        LlmError::RateLimitExceeded => true,
        LlmError::NetworkError(_) => true,
        LlmError::ApiError(_) => true,
        _ => false,
    }
}

/// Index of the longest prefix in `prefixes` that `model` starts with (the
/// first of equal ones), or `None` when none matches and the default client
/// is to be used.
pub fn select_client(prefixes: &Vec<String>, model: &str) -> (r: Option<usize>)
    ensures
        match r {
            Some(i) => i < prefixes@.len() && has_prefix(model@, prefixes@[i as int]@) && forall|j: int|
                0 <= j < prefixes@.len() && has_prefix(model@, #[trigger] prefixes@[j]@) ==> prefixes@[j]@.len()
                    <= prefixes@[i as int]@.len(),
            None => forall|j: int| 0 <= j < prefixes@.len() ==> !has_prefix(model@, #[trigger] prefixes@[j]@),
        },
{
    let mut best: Option<usize> = None;
    let mut best_len: usize = 0;
    let mut i: usize = 0;
    while i < prefixes.len()
        invariant
            i <= prefixes@.len(),
            match best {
                Some(b) => b < i && has_prefix(model@, prefixes@[b as int]@) && best_len == prefixes@[b as int]@.len()
                    && forall|j: int| 0 <= j < i && has_prefix(model@, #[trigger] prefixes@[j]@) ==> prefixes@[j]@.len() <= best_len,
                None => forall|j: int| 0 <= j < i ==> !has_prefix(model@, #[trigger] prefixes@[j]@),
            },
        decreases prefixes@.len() - i,
    {
        if starts_with(model, prefixes[i].as_str()) {
            let len = prefixes[i].as_str().unicode_len();
            match best {
                Some(_) => {
                    if len > best_len {
                        best = Some(i);
                        best_len = len;
                    }
                },
                None => {
                    best = Some(i);
                    best_len = len;
                },
            }
        }
        i = i + 1;
    }
    best
}

/// The router: the ledger that funds requests, the per-model circuits, and
/// the provider prefixes that pick a client.
pub struct Router {
    pub ledger: IntelligenceLedger,
    pub breaker: CircuitBreaker,
    pub prefixes: Vec<String>,
}

impl Router {
    pub open spec fn wf(&self) -> bool {
        self.ledger.wf() && self.breaker.wf()
    }

    /// A router over `ledger` with a fresh breaker and no provider prefix.
    pub fn new(ledger: IntelligenceLedger) -> (r: Self)
        requires
            ledger.wf(),
        ensures
            r.wf(),
            r.ledger == ledger,
            r.breaker.monitored() == 0,
            r.prefixes@.len() == 0,
    {
        Router { ledger, breaker: CircuitBreaker::new(), prefixes: Vec::new() }
    }

    /// The same router with another breaker.
    pub fn with_circuit_breaker(self, cb: CircuitBreaker) -> (r: Self)
        ensures
            r.ledger == self.ledger,
            r.breaker == cb,
            r.prefixes == self.prefixes,
    {
        Router { breaker: cb, ..self }
    }

    /// Opens a routing session for `agent_id` over `profile`. Fails with
    /// `Backpressure` when too many circuits are open, before any lease.
    pub fn begin(&self, agent_id: &str, profile: &ExecutionProfile, cause: &Option<RetryCause>) -> (r: Result<
        RouteSession,
        LlmError,
    >)
        requires
            self.wf(),
        ensures
            backpressure_spec(self.breaker.open_count(), self.breaker.monitored())
                <==> r is Err,
            r matches Err(e) ==> e == LlmError::Backpressure(BACKPRESSURE_WAIT_MS),
            r matches Ok(s) ==> {
                &&& s.agent_id@ == agent_id@
                &&& s.tiers@.len() == TIER_COUNT
                &&& s.tiers@[0] == Some(profile.tier_1)
                &&& s.tiers@[1] == profile.tier_2
                &&& s.tiers@[2] == profile.tier_3
                &&& s.next_tier == start_tier_spec(*cause)
                &&& s.current is None
                &&& s.attempt == 0
            },
    {
        let total = self.breaker.total_models();
        let open = self.breaker.count_open();
        if backpressure(open, total) {
            return Err(LlmError::Backpressure(BACKPRESSURE_WAIT_MS));
        }
        let mut tiers: Vec<Option<String>> = Vec::new();
        tiers.push(Some(profile.tier_1.clone()));
        tiers.push(profile.tier_2.clone());
        tiers.push(profile.tier_3.clone());
        Ok(RouteSession {
            agent_id: owned(agent_id),
            tiers,
            next_tier: start_tier(cause),
            current: None,
            attempt: 0,
            last_error: LlmError::InvalidResponse(owned("No models configured")),
        })
    }

    /// Moves to the first tier from `s.next_tier` on whose circuit admits a
    /// call, and leases that tier's estimate under the name `lease_id`.
    /// Tiers without a model and tiers whose circuit refuses are skipped.
    /// With no tier left it fails with the last provider error; when the
    /// ledger refuses the lease it fails with `ApiError`, and the admitted
    /// circuit is put back as it was. `now_ms` is the wall clock in
    /// milliseconds since the Unix epoch; the ledger sees it in seconds.
    pub fn advance(&mut self, s: &mut RouteSession, now_ms: u64, lease_id: String) -> (r: RouteAction)
        requires
            old(self).wf(),
            old(s).current is None,
            old(s).tiers@.len() == TIER_COUNT,
            old(s).next_tier <= TIER_COUNT,
        ensures
            final(self).wf(),
            final(s).tiers == old(s).tiers,
            final(s).agent_id == old(s).agent_id,
            final(s).last_error == old(s).last_error,
            final(s).next_tier <= TIER_COUNT,
            final(s).attempt == 0 || final(s).attempt == old(s).attempt,
            final(self).prefixes == old(self).prefixes,
            final(self).breaker.threshold() == old(self).breaker.threshold(),
            final(self).breaker.reset_ms() == old(self).breaker.reset_ms(),
            final(self).breaker.window() == old(self).breaker.window(),
            advance_post(
                old(self).ledger,
                old(self).breaker.states_view(),
                old(s).tiers@,
                old(s).next_tier as int,
                old(s).agent_id@,
                old(s).last_error,
                now_ms,
                lease_id@,
                r,
                final(self).ledger,
                final(self).breaker.states_view(),
                final(s).current,
                final(s).next_tier as int,
            ),
            old(self).ledger.all_within_cap() ==> final(self).ledger.all_within_cap(),
    {
        let now = now_ms / 1000;
        proof {
            assert(first_admitted(old(self).breaker.states_view(), old(s).tiers@, old(s).next_tier as int, now_ms) == first_admitted(
                old(self).breaker.states_view(),
                s.tiers@,
                s.next_tier as int,
                now_ms,
            ));
        }
        while s.next_tier < TIER_COUNT
            invariant
                self.wf(),
                s.current is None,
                s.tiers == old(s).tiers,
                s.agent_id == old(s).agent_id,
                s.last_error == old(s).last_error,
                s.attempt == old(s).attempt,
                s.tiers@.len() == TIER_COUNT,
                old(s).next_tier <= s.next_tier <= TIER_COUNT,
                now == now_ms / 1000,
                self.ledger == old(self).ledger,
                self.prefixes == old(self).prefixes,
                self.breaker.states_view() == old(self).breaker.states_view(),
                self.breaker.threshold() == old(self).breaker.threshold(),
                self.breaker.reset_ms() == old(self).breaker.reset_ms(),
                self.breaker.window() == old(self).breaker.window(),
                first_admitted(old(self).breaker.states_view(), old(s).tiers@, old(s).next_tier as int, now_ms) == first_admitted(
                    old(self).breaker.states_view(),
                    s.tiers@,
                    s.next_tier as int,
                    now_ms,
                ),
            decreases TIER_COUNT - s.next_tier,
        {
            let k = s.next_tier;
            s.next_tier = k + 1;
            let model = match &s.tiers[k] {
                Some(m) => m.clone(),
                None => {
                    continue;
                },
            };
            let prev = self.breaker.state(model.as_str());
            let refused = self.breaker.is_open(model.as_str(), now_ms);
            if refused {
                proof {
                    let st = old(self).breaker.state_of(model@).unwrap();
                    assert(admit_step(st, now_ms).1 == st);
                    assert(old(self).breaker.states_view().insert(model@, st) =~= old(self).breaker.states_view());
                }
                continue;
            }
            proof {
                assert(first_admitted(old(self).breaker.states_view(), s.tiers@, k as int, now_ms) == Some(k as int));
            }
            let r = self.ledger.request_lease_with_id(s.agent_id.as_str(), tier_estimate(k), now, lease_id);
            match r {
                Ok(id) => {
                    s.current = Some(ActiveTier { index: k, model: model.clone(), lease_id: id });
                    s.attempt = 0;
                    proof {
                        assert(old(s).tiers@[k as int] == Some(model));
                    }
                    return RouteAction::Call { tier: (k + 1) as u8, model, attempt: 0, wait_ms: 0 };
                },
                Err(e) => {
                    match prev {
                        Some(p) => {
                            self.breaker.restore(model.as_str(), p);
                            proof {
                                assert(old(self).breaker.states_view().insert(model@, admit_step(p, now_ms).1).insert(model@, p)
                                    =~= old(self).breaker.states_view());
                            }
                        },
                        None => {},
                    }
                    return RouteAction::Fail(LlmError::ApiError(concat("Budget exceeded: ", ledger_error_text(&e))));
                },
            }
        }
        RouteAction::Fail(clone_error(&s.last_error))
    }
}

impl Router {
    /// Takes the outcome of the call last handed out, at `now_ms` (wall
    /// clock, milliseconds since the Unix epoch).
    ///
    /// A success closes the circuit, settles the lease with the usage (and
    /// releases it at no cost when the settlement is refused) and ends the
    /// request. A transient failure with retries left asks for the same tier
    /// again after a backoff. Any other failure records a failure of the
    /// circuit, releases the lease and moves on as `advance` does, with
    /// `next_lease_id` as the name of the next lease.
    pub fn on_outcome(&mut self, s: &mut RouteSession, outcome: ProviderOutcome, now_ms: u64, next_lease_id: String) -> (r: RouteAction)
        requires
            old(self).wf(),
            old(s).current matches Some(a) && old(self).ledger.lease_of(a.lease_id@) is Some && a.index < TIER_COUNT,
            old(s).tiers@.len() == TIER_COUNT,
            old(s).next_tier <= TIER_COUNT,
            old(s).attempt <= MAX_RETRIES,
        ensures
            final(self).wf(),
            final(s).tiers == old(s).tiers,
            final(s).agent_id == old(s).agent_id,
            final(s).next_tier <= TIER_COUNT,
            final(s).attempt <= MAX_RETRIES,
            final(self).prefixes == old(self).prefixes,
            ({
                let a = old(s).current.unwrap();
                match outcome {
                    ProviderOutcome::Success { prompt_tokens, completion_tokens } => {
                        &&& r matches RouteAction::Done(d) && d.model == a.model && d.tier == a.index + 1
                            && d.retry_count == old(s).attempt
                            && d.cost == settled_cost(old(self).ledger, a.lease_id@, a.model@, prompt_tokens, completion_tokens, now_ms / 1000)
                        &&& final(s).current is None
                        &&& final(self).ledger.lease_of(a.lease_id@) is None
                        &&& settled_or_released(
                            old(self).ledger,
                            final(self).ledger,
                            a.lease_id@,
                            a.model@,
                            prompt_tokens,
                            completion_tokens,
                            now_ms / 1000,
                        )
                        &&& (old(self).ledger.all_within_cap() && (settled_cost(old(self).ledger, a.lease_id@, a.model@, prompt_tokens,
                            completion_tokens, now_ms / 1000) matches Some(c) ==> c <= old(self).ledger.lease_of(a.lease_id@).unwrap().estimated_cost)
                            ==> final(self).ledger.all_within_cap())
                        &&& final(self).breaker.state_of(a.model@) == match old(self).breaker.state_of(a.model@) {
                            Some(st) => Some(success_step(st)),
                            None => None::<CircuitState>,
                        }
                    },
                    ProviderOutcome::Failure(e) => if is_transient(e) && old(s).attempt < MAX_RETRIES {
                        &&& r == RouteAction::Call {
                            tier: (a.index + 1) as u8,
                            model: a.model,
                            attempt: (old(s).attempt + 1) as u8,
                            wait_ms: backoff_spec((old(s).attempt + 1) as u8) as u64,
                        }
                        &&& final(s).current == old(s).current
                        &&& final(s).attempt == old(s).attempt + 1
                        &&& final(self).ledger == old(self).ledger
                        &&& final(self).breaker == old(self).breaker
                    } else {
                        &&& final(s).last_error == e
                        &&& final(self).ledger.lease_of(a.lease_id@) is None
                        &&& exists|mid: IntelligenceLedger| #[trigger] released(old(self).ledger, mid, a.lease_id@) && advance_post(
                            mid,
                            old(self).breaker.states_view().insert(
                                a.model@,
                                failure_step(
                                    match old(self).breaker.state_of(a.model@) {
                                        Some(st) => st,
                                        None => fresh_state(now_ms),
                                    },
                                    now_ms,
                                    old(self).breaker.threshold(),
                                    old(self).breaker.reset_ms(),
                                    old(self).breaker.window(),
                                ),
                            ),
                            old(s).tiers@,
                            old(s).next_tier as int,
                            old(s).agent_id@,
                            e,
                            now_ms,
                            next_lease_id@,
                            r,
                            final(self).ledger,
                            final(self).breaker.states_view(),
                            final(s).current,
                            final(s).next_tier as int,
                        )
                    },
                }
            }),
    {
        let now = now_ms / 1000;
        let a = match &s.current {
            Some(a) => clone_tier(a),
            None => {
                return RouteAction::Fail(clone_error(&s.last_error));
            },
        };
        match outcome {
            ProviderOutcome::Success { prompt_tokens, completion_tokens } => {
                self.breaker.report_success(a.model.as_str());
                let usage = Usage { input_tokens: prompt_tokens, output_tokens: completion_tokens, model: a.model.clone() };
                let cost = match self.ledger.commit_usage(a.lease_id.as_str(), usage, now) {
                    Ok(receipt) => Some(receipt.cost),
                    Err(_) => {
                        let _ = self.ledger.release_lease(a.lease_id.as_str(), now);
                        None
                    },
                };
                let attempt = s.attempt;
                s.current = None;
                RouteAction::Done(RouteSuccess { tier: (a.index + 1) as u8, model: a.model, retry_count: attempt, cost })
            },
            ProviderOutcome::Failure(e) => {
                if transient(&e) && s.attempt < MAX_RETRIES {
                    s.attempt = s.attempt + 1;
                    RouteAction::Call { tier: (a.index + 1) as u8, model: a.model, attempt: s.attempt, wait_ms: backoff_ms(s.attempt) }
                } else {
                    self.breaker.report_failure(a.model.as_str(), now_ms);
                    let _ = self.ledger.release_lease(a.lease_id.as_str(), now);
                    let ghost mid = self.ledger;
                    proof {
                        assert(released(old(self).ledger, mid, a.lease_id@));
                    }
                    s.last_error = e;
                    s.current = None;
                    s.attempt = 0;
                    let ghost nid = next_lease_id@;
                    let r = self.advance(s, now_ms, next_lease_id);
                    proof {
                        assert(released(old(self).ledger, mid, a.lease_id@));
                        let lid = a.lease_id@;
                        let me = mid.entries_view();
                        assert(me[me.len() - 1] == me.last());
                        assert(mid.journal_mentions(lid));
                        if self.ledger.lease_of(lid) is Some {
                            let fl = self.ledger;
                            let k = fl.lease_index(lid).unwrap();
                            let n = fl.leases_view().len();
                            if n > mid.leases_view().len() && k == n - 1 {
                                assert(fl.leases_view()[k].id@ == lid);
                                assert(fl.lease_of(nid) is Some);
                                let j = fl.lease_index(nid).unwrap();
                                if j < n - 1 {
                                    assert(mid.leases_view()[j] == fl.leases_view()[j]);
                                    assert(mid.lease_index(nid) is Some);
                                }
                                assert(j == k);
                                assert(!mid.journal_mentions(nid));
                            } else {
                                assert(fl.leases_view().drop_last() == mid.leases_view() || fl == mid);
                                if fl == mid {
                                } else {
                                    assert(mid.leases_view()[k] == fl.leases_view()[k]);
                                    assert(mid.lease_index(lid) is Some);
                                }
                            }
                        }
                    }
                    r
                }
            },
        }
    }

    /// Gives back the lease of a session that its caller abandons; the
    /// session then holds none. `now_ms` is the wall clock in milliseconds.
    pub fn cancel(&mut self, s: &mut RouteSession, now_ms: u64)
        requires
            old(self).wf(),
        ensures
            final(self).wf(),
            final(s).current is None,
            old(s).current matches Some(a) ==> final(self).ledger.lease_of(a.lease_id@) is None,
            old(s).current is None ==> final(self).ledger == old(self).ledger,
            old(self).ledger.all_within_cap() ==> final(self).ledger.all_within_cap(),
    {
        match &s.current {
            Some(a) => {
                let _ = self.ledger.release_lease(a.lease_id.as_str(), now_ms / 1000);
            },
            None => {},
        }
        s.current = None;
    }
}

/// Whether a tier with model `m` is passed over at `now_ms` by circuits in
/// `states`: it has no model, or its circuit refuses the call.
pub open spec fn skipped_in(states: Map<Seq<char>, CircuitState>, m: Option<String>, now_ms: u64) -> bool {
    match m {
        None => true,
        Some(model) => states.contains_key(model@) && admit_step(states[model@], now_ms).0,
    }
}

/// The first tier from `from` on that is not passed over, if any.
pub open spec fn first_admitted(states: Map<Seq<char>, CircuitState>, tiers: Seq<Option<String>>, from: int, now_ms: u64) -> Option<int>
    decreases tiers.len() - from,
{
    if from < 0 || from >= tiers.len() {
        None
    } else if skipped_in(states, tiers[from], now_ms) {
        first_admitted(states, tiers, from + 1, now_ms)
    } else {
        Some(from)
    }
}

/// Whether the ledger refuses a lease of `est` for `agent` named `id`: the
/// budget refuses it, or the name is already known to the ledger.
pub open spec fn lease_refused(l: IntelligenceLedger, agent: Seq<char>, est: u64, id: Seq<char>) -> bool {
    lease_denied(l, agent, est) || l.lease_of(id) is Some || l.journal_mentions(id)
}

/// `fl` is `l` after lease `id` settles `p` prompt and `c` completion
/// tokens on `model` at `now` (seconds): committed at its exact cost when
/// the ledger accepts the commit, otherwise released at no cost.
pub open spec fn settled_or_released(l: IntelligenceLedger, fl: IntelligenceLedger, id: Seq<char>, model: Seq<char>, p: u32, c: u32, now: u64) -> bool {
    match settled_cost(l, id, model, p, c, now) {
        Some(cost) => {
            let le = l.lease_of(id).unwrap();
            let b = l.budget_of(le.entity_id@).unwrap();
            &&& fl.wf()
            &&& fl.leases_view() == l.leases_view().remove(l.lease_index(id).unwrap())
            &&& fl.entries_view().drop_last() == l.entries_view()
            &&& entry_refers(fl.entries_view().last(), id, TransactionType::Settlement)
            &&& fl.entries_view().last().amount == cost
            &&& fl.entries_view().last().entity_id@ == le.entity_id@
            &&& fl.budget_of(le.entity_id@) == Some(settled_budget(b, cost as int, now))
            &&& forall|e: Seq<char>| e != le.entity_id@ ==> #[trigger] fl.budget_of(e) == l.budget_of(e)
            &&& fl.rates_view() == l.rates_view()
        },
        None => released(l, fl, id),
    }
}

/// `mid` is `old` after lease `id` is released at no cost.
pub open spec fn released(old: IntelligenceLedger, mid: IntelligenceLedger, id: Seq<char>) -> bool {
    &&& old.lease_index(id) is Some
    &&& mid.wf()
    &&& mid.budgets_view() == old.budgets_view()
    &&& mid.rates_view() == old.rates_view()
    &&& mid.leases_view() == old.leases_view().remove(old.lease_index(id).unwrap())
    &&& mid.entries_view().drop_last() == old.entries_view()
    &&& entry_refers(mid.entries_view().last(), id, TransactionType::Settlement)
    &&& mid.entries_view().last().amount == 0
    &&& mid.lease_of(id) is None
}

/// What moving on from tier `from` does, from a ledger `l` and circuits
/// `states`, to the result `r`, the final ledger `fl`, circuits `fs`,
/// active tier `cur` and next tier to consider `fnext`: with no tier
/// admitted, the last error, nothing changed and no tier left; at the first
/// admitted tier `k`, either a refused lease and nothing changed, or a call
/// on tier `k` holding a lease named `id`; either way tier `k + 1` is next.
pub open spec fn advance_post(
    l: IntelligenceLedger,
    states: Map<Seq<char>, CircuitState>,
    tiers: Seq<Option<String>>,
    from: int,
    agent: Seq<char>,
    last_error: LlmError,
    now_ms: u64,
    id: Seq<char>,
    r: RouteAction,
    fl: IntelligenceLedger,
    fs: Map<Seq<char>, CircuitState>,
    cur: Option<ActiveTier>,
    fnext: int,
) -> bool {
    match first_admitted(states, tiers, from, now_ms) {
        None => r == RouteAction::Fail(last_error) && fl == l && fs == states && cur is None && fnext == tiers.len(),
        Some(k) => {
            let model = tiers[k].unwrap();
            let est = tier_estimate_spec(k as usize);
            if lease_refused(l, agent, est, id) {
                &&& r matches RouteAction::Fail(LlmError::ApiError(_))
                &&& fl == l
                &&& fs == states
                &&& cur is None
                &&& fnext == k + 1
            } else {
                &&& fnext == k + 1
                &&& r == RouteAction::Call { tier: (k + 1) as u8, model, attempt: 0, wait_ms: 0 }
                &&& cur matches Some(a) && a.index == k && a.model == model && a.lease_id@ == id
                &&& fl.lease_of(id) matches Some(le) && le.entity_id@ == agent && le.estimated_cost == est
                    && le.created_at == now_ms / 1000
                &&& fl.leases_view().drop_last() == l.leases_view()
                &&& fl.budgets_view() == l.budgets_view()
                &&& fs == if states.contains_key(model@) {
                    states.insert(model@, admit_step(states[model@], now_ms).1)
                } else {
                    states
                }
            }
        },
    }
}

/// A copy of an active tier with the same fields.
pub fn clone_tier(a: &ActiveTier) -> (r: ActiveTier)
    ensures
        r == *a,
{
    ActiveTier { index: a.index, model: a.model.clone(), lease_id: a.lease_id.clone() }
}

/// A copy of an error with the same fields.
pub fn clone_error(e: &LlmError) -> (r: LlmError)
    ensures
        r == *e,
{
    match e {
        LlmError::ApiError(m) => LlmError::ApiError(m.clone()),
        LlmError::NetworkError(m) => LlmError::NetworkError(m.clone()),
        LlmError::SerializationError(m) => LlmError::SerializationError(m.clone()),
        LlmError::InvalidSchema(m) => LlmError::InvalidSchema(m.clone()),
        LlmError::RateLimitExceeded => LlmError::RateLimitExceeded,
        LlmError::InvalidResponse(m) => LlmError::InvalidResponse(m.clone()),
        LlmError::Backpressure(ms) => LlmError::Backpressure(*ms),
    }
}

/// The text carried by a ledger error.
pub fn ledger_error_text(e: &LedgerError) -> (r: &str)
    ensures
        r@ == match e {
            LedgerError::BudgetExceeded(m) => m@,
            LedgerError::BudgetFrozen(m) => m@,
            LedgerError::LeaseNotFound(m) => m@,
            LedgerError::RateNotFound(m) => m@,
            LedgerError::Internal(m) => m@,
        },
{
    match e {
        LedgerError::BudgetExceeded(m) => m.as_str(),
        LedgerError::BudgetFrozen(m) => m.as_str(),
        LedgerError::LeaseNotFound(m) => m.as_str(),
        LedgerError::RateNotFound(m) => m.as_str(),
        LedgerError::Internal(m) => m.as_str(),
    }
}

} // verus!
