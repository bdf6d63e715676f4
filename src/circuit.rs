//! Per-model circuit breaker: Closed, Open and HalfOpen, with one canary
//! call at a time while half open. Instants are milliseconds on a
//! monotonic clock, handed in by the caller.
use vstd::prelude::*;
use crate::text::owned;
use dashmap::DashMap;

verus! {

/// Default number of failures within the window that opens a circuit.
pub const DEFAULT_FAILURE_THRESHOLD: u32 = 3;
/// Default time an open circuit stays open, in milliseconds.
pub const DEFAULT_RESET_TIMEOUT_MS: u64 = 300_000;
/// Default failure-counting window, in milliseconds.
pub const DEFAULT_WINDOW_MS: u64 = 30_000;
/// Age after which a canary in flight counts as stuck, in milliseconds.
pub const CANARY_TIMEOUT_MS: u64 = 60_000;

/// Phase of one circuit.
#[derive(Clone, Copy, Debug, PartialEq, Eq, Structural)]
pub enum Phase {
    Closed,
    Open,
    HalfOpen,
}

/// Health state of one model.
#[derive(Clone, Copy, Debug, PartialEq, Eq, Structural)]
pub struct CircuitState {
    pub phase: Phase,
    pub failures: u32,
    pub last_failure: u64,
    pub open_until: Option<u64>,
    pub canary_in_flight: bool,
    pub canary_sent_at: Option<u64>,
}

/// What introspection reports of one model.
#[derive(Clone, Debug)]
pub struct CircuitStatus {
    pub model: String,
    pub is_open: bool,
    pub state: String,
    pub failures: u32,
}

/// `a + b`, held at `u64::MAX`.
pub open spec fn sat_add(a: u64, b: u64) -> u64 {
    if a as int + b as int > u64::MAX as int { u64::MAX } else { (a + b) as u64 }
}

fn saturating_sum(a: u64, b: u64) -> (r: u64)
    ensures
        r == sat_add(a, b),
{
    if a > u64::MAX - b { u64::MAX } else { a + b }
}

/// Whether a canary sent at `sent` is still within its timeout at `now`.
pub open spec fn canary_fresh(sent: Option<u64>, now: u64) -> bool {
    match sent {
        Some(t) => (now as int) - (t as int) < CANARY_TIMEOUT_MS as int,
        None => false,
    }
}

/// Outcome of an admission check at `now`: whether the call is refused, and
/// the state afterwards.
pub open spec fn admit_step(s: CircuitState, now: u64) -> (bool, CircuitState) {
    match s.phase {
        Phase::Closed => (false, s),
        Phase::Open => match s.open_until {
            Some(t) => if now < t {
                (true, s)
            } else {
                (false, CircuitState { phase: Phase::HalfOpen, canary_in_flight: true, canary_sent_at: Some(now), ..s })
            },
            None => (true, s),
        },
        Phase::HalfOpen => if s.canary_in_flight && canary_fresh(s.canary_sent_at, now) {
            (true, s)
        } else {
            (false, CircuitState { canary_in_flight: true, canary_sent_at: Some(now), ..s })
        },
    }
}

/// State after a failure of the model at `now`.
pub open spec fn failure_step(s: CircuitState, now: u64, threshold: u32, reset_ms: u64, window_ms: u64) -> CircuitState {
    match s.phase {
        Phase::HalfOpen => CircuitState {
            phase: Phase::Open,
            open_until: Some(sat_add(now, reset_ms)),
            failures: threshold,
            canary_in_flight: false,
            canary_sent_at: None,
            ..s
        },
        Phase::Open => CircuitState { open_until: Some(sat_add(now, reset_ms)), ..s },
        Phase::Closed => {
            let base: int = if (now as int) - (s.last_failure as int) > window_ms as int { 0 } else { s.failures as int };
            let failures: u32 = if base + 1 > u32::MAX as int { u32::MAX } else { (base + 1) as u32 };
            if failures >= threshold {
                CircuitState {
                    phase: Phase::Open,
                    failures,
                    last_failure: now,
                    open_until: Some(sat_add(now, reset_ms)),
                    ..s
                }
            } else {
                CircuitState { failures, last_failure: now, ..s }
            }
        },
    }
}

/// State after a success of the model: closed and cleared.
pub open spec fn success_step(s: CircuitState) -> CircuitState {
    CircuitState { phase: Phase::Closed, failures: 0, open_until: None, canary_in_flight: false, canary_sent_at: None, ..s }
}

/// State of a model seen fail for the first time at `now`.
pub open spec fn fresh_state(now: u64) -> CircuitState {
    CircuitState {
        phase: Phase::Closed,
        failures: 0,
        last_failure: now,
        open_until: None,
        canary_in_flight: false,
        canary_sent_at: None,
    }
}

/// An open circuit refuses every call before its `open_until`.
pub proof fn lemma_open_refuses(s: CircuitState, now: u64)
    requires
        s.phase == Phase::Open,
        (s.open_until matches Some(t) && now < t),
    ensures
        admit_step(s, now).0,
        admit_step(s, now).1 == s,
{
}

/// When an open circuit lets its canary through, every other call within
/// the canary timeout is refused; once the canary is stuck, exactly one
/// replacement is let through and the next call is refused again.
pub proof fn lemma_one_canary(s: CircuitState, now1: u64, now2: u64, now3: u64)
    requires
        s.phase == Phase::Open,
        (s.open_until matches Some(t) && t <= now1),
        now1 <= now2,
        now2 as int - now1 as int >= CANARY_TIMEOUT_MS as int,
        now2 <= now3 < now2 as int + CANARY_TIMEOUT_MS as int,
    ensures
        !admit_step(s, now1).0,
        admit_step(s, now1).1.phase == Phase::HalfOpen,
        forall|n: u64| now1 <= n < now1 as int + CANARY_TIMEOUT_MS as int ==> #[trigger] admit_step(admit_step(s, now1).1, n).0,
        !admit_step(admit_step(s, now1).1, now2).0,
        admit_step(admit_step(admit_step(s, now1).1, now2).1, now3).0,
{
}

#[verifier::external_type_specification]
#[verifier::external_body]
#[verifier::reject_recursive_types(K)]
#[verifier::reject_recursive_types(V)]
#[verifier::reject_recursive_types(S)]
pub struct ExDashMap<K, V, S>(DashMap<K, V, S>);

/// What a model map holds: each model's state, by model name.
pub uninterp spec fn circuit_states(m: DashMap<String, CircuitState>) -> Map<Seq<char>, CircuitState>;

/// Relies on `dashmap::DashMap::new`: a map with no entry.
#[verifier::external_body]
fn states_new() -> (r: DashMap<String, CircuitState>)
    ensures
        circuit_states(r).dom().finite(),
        circuit_states(r).dom().len() == 0,
{
    DashMap::new()
}

/// Relies on `dashmap::DashMap::get`: the value stored under the key, if any.
#[verifier::external_body]
fn states_get(m: &DashMap<String, CircuitState>, model: &str) -> (r: Option<CircuitState>)
    ensures
        circuit_states(*m).contains_key(model@) ==> r == Some(circuit_states(*m)[model@]),
        !circuit_states(*m).contains_key(model@) ==> r is None,
{
    m.get(model).map(|e| *e)
}

/// Relies on `dashmap::DashMap::insert`: the value is stored under the key,
/// replacing any earlier one.
#[verifier::external_body]
fn states_insert(m: &mut DashMap<String, CircuitState>, model: String, state: CircuitState)
    ensures
        circuit_states(*final(m)) == circuit_states(*old(m)).insert(model@, state),
{
    m.insert(model, state);
}

/// Relies on `dashmap::DashMap::iter`: every entry once, in no set order.
#[verifier::external_body]
fn states_entries(m: &DashMap<String, CircuitState>) -> (r: Vec<(String, CircuitState)>)
    ensures
        r@.len() == circuit_states(*m).dom().len(),
        forall|i: int| 0 <= i < r@.len() ==> circuit_states(*m).contains_key((#[trigger] r@[i]).0@) && circuit_states(
            *m,
        )[r@[i].0@] == r@[i].1,
        forall|i: int, j: int| 0 <= i < r@.len() && 0 <= j < r@.len() && (#[trigger] r@[i]).0@ == (#[trigger] r@[j]).0@ ==> i == j,
{
    m.iter().map(|e| (e.key().clone(), *e.value())).collect()
}

/// The models of `m` whose circuit is not closed.
pub open spec fn not_closed(m: Map<Seq<char>, CircuitState>) -> Set<Seq<char>> {
    m.dom().filter(|k: Seq<char>| m[k].phase != Phase::Closed)
}

/// Circuit breaker over any number of models.
pub struct CircuitBreaker {
    states: DashMap<String, CircuitState>,
    failure_threshold: u32,
    reset_timeout_ms: u64,
    window_ms: u64,
}

impl CircuitBreaker {
    /// Each monitored model's state.
    pub closed spec fn states_view(&self) -> Map<Seq<char>, CircuitState> {
        circuit_states(self.states)
    }

    pub closed spec fn threshold(&self) -> u32 {
        self.failure_threshold
    }

    pub closed spec fn reset_ms(&self) -> u64 {
        self.reset_timeout_ms
    }

    pub closed spec fn window(&self) -> u64 {
        self.window_ms
    }

    /// Finitely many models are monitored.
    pub open spec fn wf(&self) -> bool {
        self.states_view().dom().finite()
    }

    /// State of `model`, if it is monitored.
    pub open spec fn state_of(&self, model: Seq<char>) -> Option<CircuitState> {
        if self.states_view().contains_key(model) {
            Some(self.states_view()[model])
        } else {
            None
        }
    }

    /// Number of monitored models.
    pub open spec fn monitored(&self) -> nat {
        self.states_view().dom().len()
    }

    /// Number of monitored models whose circuit is not closed.
    pub open spec fn open_count(&self) -> nat {
        not_closed(self.states_view()).len()
    }

    /// A breaker with the default thresholds and no monitored model.
    pub fn new() -> (r: Self)
        ensures
            r.wf(),
            r.monitored() == 0,
            forall|m: Seq<char>| #[trigger] r.state_of(m) is None,
            r.threshold() == DEFAULT_FAILURE_THRESHOLD,
            r.reset_ms() == DEFAULT_RESET_TIMEOUT_MS,
            r.window() == DEFAULT_WINDOW_MS,
    {
        let r = CircuitBreaker {
            states: states_new(),
            failure_threshold: DEFAULT_FAILURE_THRESHOLD,
            reset_timeout_ms: DEFAULT_RESET_TIMEOUT_MS,
            window_ms: DEFAULT_WINDOW_MS,
        };
        proof {
            r.states_view().dom().lemma_len0_is_empty();
        }
        r
    }

    /// The same breaker with other thresholds.
    pub fn with_thresholds(self, failures: u32, reset_ms: u64, window_ms: u64) -> (r: Self)
        ensures
            r.states_view() == self.states_view(),
            r.threshold() == failures,
            r.reset_ms() == reset_ms,
            r.window() == window_ms,
            self.wf() ==> r.wf(),
    {
        CircuitBreaker { states: self.states, failure_threshold: failures, reset_timeout_ms: reset_ms, window_ms }
    }

    /// The state of `model`, if it is monitored.
    pub fn state(&self, model: &str) -> (r: Option<CircuitState>)
        ensures
            r == self.state_of(model@),
    {
        states_get(&self.states, model)
    }

    /// Puts back `state` as the state of `model`, as a call that was
    /// admitted but never made leaves it.
    pub fn restore(&mut self, model: &str, state: CircuitState)
        requires
            old(self).wf(),
        ensures
            final(self).wf(),
            final(self).states_view() == old(self).states_view().insert(model@, state),
            final(self).threshold() == old(self).threshold(),
            final(self).reset_ms() == old(self).reset_ms(),
            final(self).window() == old(self).window(),
    {
        self.store(model, state);
    }

    fn store(&mut self, model: &str, state: CircuitState)
        requires
            old(self).wf(),
        ensures
            final(self).wf(),
            final(self).states_view() == old(self).states_view().insert(model@, state),
            final(self).threshold() == old(self).threshold(),
            final(self).reset_ms() == old(self).reset_ms(),
            final(self).window() == old(self).window(),
    {
        states_insert(&mut self.states, owned(model), state);
        proof {
            assert(self.states_view().dom() =~= old(self).states_view().dom().insert(model@));
        }
    }

    /// Whether a call to `model` is refused at `now`. An unknown model is
    /// never refused. An open circuit whose time is up turns half open and
    /// lets this one call through as its canary.
    pub fn is_open(&mut self, model: &str, now: u64) -> (r: bool)
        requires
            old(self).wf(),
        ensures
            final(self).wf(),
            final(self).threshold() == old(self).threshold(),
            final(self).reset_ms() == old(self).reset_ms(),
            final(self).window() == old(self).window(),
            match old(self).state_of(model@) {
                None => !r && final(self).states_view() == old(self).states_view(),
                Some(s) => r == admit_step(s, now).0 && final(self).states_view() == old(self).states_view().insert(
                    model@,
                    admit_step(s, now).1,
                ),
            },
    {
        let s = match states_get(&self.states, model) {
            Some(s) => s,
            None => {
                return false;
            },
        };
        let (refused, next) = match s.phase {
            Phase::Closed => (false, s),
            Phase::Open => match s.open_until {
                Some(t) => if now < t {
                    (true, s)
                } else {
                    (false, CircuitState { phase: Phase::HalfOpen, canary_in_flight: true, canary_sent_at: Some(now), ..s })
                },
                None => (true, s),
            },
            Phase::HalfOpen => {
                let fresh = match s.canary_sent_at {
                    Some(t) => now < t || now - t < CANARY_TIMEOUT_MS,
                    None => false,
                };
                if s.canary_in_flight && fresh {
                    (true, s)
                } else {
                    (false, CircuitState { canary_in_flight: true, canary_sent_at: Some(now), ..s })
                }
            },
        };
        self.store(model, next);
        refused
    }

    /// Records a failure of `model` at `now`; a model not yet monitored
    /// starts closed with no failure.
    pub fn report_failure(&mut self, model: &str, now: u64)
        requires
            old(self).wf(),
        ensures
            final(self).wf(),
            final(self).threshold() == old(self).threshold(),
            final(self).reset_ms() == old(self).reset_ms(),
            final(self).window() == old(self).window(),
            final(self).states_view() == old(self).states_view().insert(
                model@,
                failure_step(
                    match old(self).state_of(model@) {
                        Some(s) => s,
                        None => fresh_state(now),
                    },
                    now,
                    old(self).threshold(),
                    old(self).reset_ms(),
                    old(self).window(),
                ),
            ),
    {
        let s = match states_get(&self.states, model) {
            Some(s) => s,
            None => CircuitState {
                phase: Phase::Closed,
                failures: 0,
                last_failure: now,
                open_until: None,
                canary_in_flight: false,
                canary_sent_at: None,
            },
        };
        let next = match s.phase {
            Phase::HalfOpen => CircuitState {
                phase: Phase::Open,
                open_until: Some(saturating_sum(now, self.reset_timeout_ms)),
                failures: self.failure_threshold,
                canary_in_flight: false,
                canary_sent_at: None,
                ..s
            },
            Phase::Open => CircuitState { open_until: Some(saturating_sum(now, self.reset_timeout_ms)), ..s },
            Phase::Closed => {
                let stale = now > s.last_failure && now - s.last_failure > self.window_ms;
                let base: u32 = if stale { 0 } else { s.failures };
                let failures: u32 = if base == u32::MAX { u32::MAX } else { base + 1 };
                if failures >= self.failure_threshold {
                    CircuitState {
                        phase: Phase::Open,
                        failures,
                        last_failure: now,
                        open_until: Some(saturating_sum(now, self.reset_timeout_ms)),
                        ..s
                    }
                } else {
                    CircuitState { failures, last_failure: now, ..s }
                }
            },
        };
        self.store(model, next);
    }

    /// Records a success of `model`: its circuit closes and clears. An
    /// unknown model stays unknown.
    pub fn report_success(&mut self, model: &str)
        requires
            old(self).wf(),
        ensures
            final(self).wf(),
            final(self).threshold() == old(self).threshold(),
            final(self).reset_ms() == old(self).reset_ms(),
            final(self).window() == old(self).window(),
            match old(self).state_of(model@) {
                None => final(self).states_view() == old(self).states_view(),
                Some(s) => final(self).states_view() == old(self).states_view().insert(model@, success_step(s)),
            },
    {
        match states_get(&self.states, model) {
            Some(s) => {
                let next = CircuitState {
                    phase: Phase::Closed,
                    failures: 0,
                    open_until: None,
                    canary_in_flight: false,
                    canary_sent_at: None,
                    ..s
                };
                self.store(model, next);
            },
            None => {},
        }
    }

    /// Number of monitored models whose circuit is not closed.
    pub fn count_open(&self) -> (r: usize)
        requires
            self.wf(),
        ensures
            r == self.open_count(),
    {
        let entries = states_entries(&self.states);
        let ghost m = self.states_view();
        let mut n: usize = 0;
        let mut i: usize = 0;
        let ghost mut seen: Set<Seq<char>> = Set::empty();
        proof {
            assert(seen.filter(|k: Seq<char>| m[k].phase != Phase::Closed) =~= Set::<Seq<char>>::empty());
        }
        while i < entries.len()
            invariant
                i <= entries@.len(),
                entries@.len() == m.dom().len(),
                forall|k: int| 0 <= k < entries@.len() ==> m.contains_key((#[trigger] entries@[k]).0@) && m[entries@[k].0@]
                    == entries@[k].1,
                forall|a: int, b: int| 0 <= a < entries@.len() && 0 <= b < entries@.len() && (#[trigger] entries@[a]).0@ == (
                #[trigger] entries@[b]).0@ ==> a == b,
                seen.finite(),
                seen.len() == i,
                forall|k: Seq<char>| #[trigger] seen.contains(k) <==> exists|j: int| 0 <= j < i && entries@[j].0@ == k,
                n == seen.filter(|k: Seq<char>| m[k].phase != Phase::Closed).len(),
                n <= i,
            decreases entries@.len() - i,
        {
            let ghost key = entries@[i as int].0@;
            proof {
                assert(!seen.contains(key)) by {
                    if seen.contains(key) {
                        let j = choose|j: int| 0 <= j < i && entries@[j].0@ == key;
                        assert(entries@[j].0@ == entries@[i as int].0@);
                    }
                }
                let f = |k: Seq<char>| m[k].phase != Phase::Closed;
                let s2 = seen.insert(key);
                if f(key) {
                    assert(s2.filter(f) =~= seen.filter(f).insert(key));
                    assert(!seen.filter(f).contains(key));
                } else {
                    assert(s2.filter(f) =~= seen.filter(f));
                }
                seen.lemma_len_filter(f);
            }
            if entries[i].1.phase != Phase::Closed {
                n = n + 1;
            }
            proof {
                seen = seen.insert(key);
                assert forall|k: Seq<char>| #[trigger] seen.contains(k) <==> exists|j: int| 0 <= j < i + 1 && entries@[j].0@ == k by {
                    if k == key {
                        assert(entries@[i as int].0@ == k);
                    }
                }
            }
            i = i + 1;
        }
        proof {
            assert(seen.subset_of(m.dom())) by {
                assert forall|k: Seq<char>| seen.contains(k) implies m.dom().contains(k) by {
                    let j = choose|j: int| 0 <= j < i && entries@[j].0@ == k;
                    assert(m.contains_key(entries@[j].0@));
                }
            }
            vstd::set_lib::lemma_subset_equality(seen, m.dom());
            assert(not_closed(m) =~= seen.filter(|k: Seq<char>| m[k].phase != Phase::Closed));
        }
        n
    }

    /// Number of monitored models.
    pub fn total_models(&self) -> (r: usize)
        ensures
            r == self.monitored(),
    {
        states_entries(&self.states).len()
    }

    /// One status line per monitored model, in no set order.
    pub fn get_status(&self) -> (r: Vec<CircuitStatus>)
        ensures
            r@.len() == self.monitored(),
            forall|i: int| 0 <= i < r@.len() ==> {
                let st = #[trigger] r@[i];
                &&& self.states_view().contains_key(st.model@)
                &&& st.is_open == (self.states_view()[st.model@].phase != Phase::Closed)
                &&& st.failures == self.states_view()[st.model@].failures
                &&& st.state@ == phase_name(self.states_view()[st.model@].phase)
            },
            forall|i: int, j: int| 0 <= i < r@.len() && 0 <= j < r@.len() && (#[trigger] r@[i]).model@ == (#[trigger] r@[j]).model@ ==> i == j,
    {
        let entries = states_entries(&self.states);
        let mut out: Vec<CircuitStatus> = Vec::new();
        let mut i: usize = 0;
        while i < entries.len()
            invariant
                i <= entries@.len(),
                out@.len() == i,
                forall|k: int| 0 <= k < entries@.len() ==> self.states_view().contains_key((#[trigger] entries@[k]).0@)
                    && self.states_view()[entries@[k].0@] == entries@[k].1,
                forall|k: int| 0 <= k < i ==> (#[trigger] out@[k]).model@ == entries@[k].0@ && out@[k].is_open == (
                entries@[k].1.phase != Phase::Closed) && out@[k].failures == entries@[k].1.failures && out@[k].state@
                    == phase_name(entries@[k].1.phase),
            decreases entries@.len() - i,
        {
            let e = &entries[i];
            out.push(CircuitStatus {
                model: e.0.clone(),
                is_open: e.1.phase != Phase::Closed,
                state: phase_label(e.1.phase),
                failures: e.1.failures,
            });
            i = i + 1;
        }
        proof {
            assert forall|a: int, b: int| 0 <= a < out@.len() && 0 <= b < out@.len() && (#[trigger] out@[a]).model@ == (
            #[trigger] out@[b]).model@ implies a == b by {
                assert(entries@[a].0@ == entries@[b].0@);
            }
        }
        out
    }
}

/// Name of a phase.
pub open spec fn phase_name(p: Phase) -> Seq<char> {
    match p {
        Phase::Closed => "Closed"@,
        Phase::Open => "Open"@,
        Phase::HalfOpen => "HalfOpen"@,
    }
}

/// Name of a phase, as a `String`.
pub fn phase_label(p: Phase) -> (r: String)
    ensures
        r@ == phase_name(p),
{
    match p {
        Phase::Closed => owned("Closed"),
        Phase::Open => owned("Open"),
        Phase::HalfOpen => owned("HalfOpen"),
    }
}

} // verus!
