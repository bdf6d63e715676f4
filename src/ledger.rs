//! Intelligence ledger: per-entity budgets, two-phase spend reservations
//! (lease, then commit) and an append-only journal of entries.
//!
//! Amounts are exact fixed-point integers. A budget amount or a cost is in
//! nano-units (10^-9 of the currency); a rate is in micro-units (10^-6 of the
//! currency) per 1000 tokens, so that `tokens * rate` is a cost in nano-units
//! with no rounding.
use vstd::prelude::*;
use crate::text::{concat, owned, str_eq};
use crate::vox::fresh_uuid;

verus! {

/// Lifetime of a lease, in seconds.
pub const LEASE_TTL_SECS: u64 = 300;

/// Status of a budget.
#[derive(Clone, Copy, Debug, PartialEq, Eq, Structural)]
pub enum BudgetStatus {
    Active,
    Frozen,
    Depleted,
}

/// Kind of a journal entry.
#[derive(Clone, Copy, Debug, PartialEq, Eq, Structural)]
pub enum TransactionType {
    /// A reservation of funds (a lease).
    Grant,
    /// A final deduction of funds (a commit or a sweep).
    Settlement,
    /// A manual adjustment.
    Adjustment,
    /// A status change such as a freeze.
    SystemAudit,
}

/// Token usage reported by one inference call.
#[derive(Clone, Debug)]
pub struct Usage {
    pub input_tokens: u32,
    pub output_tokens: u32,
    pub model: String,
}

/// Cost rates of one model, in micro-units per 1000 tokens.
#[derive(Clone, Debug)]
pub struct RateTableEntry {
    pub model: String,
    pub input_cost_per_1k: u64,
    pub output_cost_per_1k: u64,
}

/// Budget of one entity; amounts in nano-units.
#[derive(Clone, Debug)]
pub struct Budget {
    pub entity_id: String,
    pub hard_limit: u64,
    pub soft_limit: u64,
    pub spent: u64,
    pub currency: String,
    pub status: BudgetStatus,
    pub updated_at: u64,
}

/// An open reservation of funds.
#[derive(Clone, Debug)]
pub struct Lease {
    pub id: String,
    pub entity_id: String,
    pub estimated_cost: u64,
    pub created_at: u64,
    pub expires_at: u64,
}

/// An immutable journal record.
#[derive(Clone, Debug)]
pub struct LedgerEntry {
    pub timestamp: u64,
    pub entity_id: String,
    pub lease_id: Option<String>,
    pub transaction_type: TransactionType,
    pub amount: u64,
    pub details: String,
}

/// What a successful commit hands back.
#[derive(Clone, Debug)]
pub struct Receipt {
    /// Cost of the usage, in nano-units.
    pub cost: u64,
    /// Hard limit minus spent, in nano-units (negative once overspent).
    pub remaining_budget: i128,
    pub timestamp: u64,
    /// Present exactly when spent exceeds the soft limit.
    pub warning: Option<String>,
}

/// Errors of the ledger.
#[derive(Clone, Debug)]
pub enum LedgerError {
    BudgetExceeded(String),
    BudgetFrozen(String),
    LeaseNotFound(String),
    RateNotFound(String),
    /// A fault of the ledger itself (an identifier collision, an amount
    /// beyond the representable range).
    Internal(String),
}

/// Exact cost of a usage at a rate, in nano-units.
pub open spec fn cost_spec(input_tokens: u32, output_tokens: u32, rate: RateTableEntry) -> int {
    input_tokens as int * rate.input_cost_per_1k as int + output_tokens as int * rate.output_cost_per_1k as int
}

/// Sum of the estimates of the leases of `entity` in `leases`.
pub open spec fn outstanding(leases: Seq<Lease>, entity: Seq<char>) -> int
    decreases leases.len(),
{
    if leases.len() == 0 {
        0
    } else {
        outstanding(leases.drop_last(), entity) + if leases.last().entity_id@ == entity {
            leases.last().estimated_cost as int
        } else {
            0
        }
    }
}

/// Number of entries of `kind` that reference lease `id`.
pub open spec fn count_entries(entries: Seq<LedgerEntry>, id: Seq<char>, kind: TransactionType) -> nat
    decreases entries.len(),
{
    if entries.len() == 0 {
        0
    } else {
        count_entries(entries.drop_last(), id, kind) + if entry_refers(entries.last(), id, kind) {
            1nat
        } else {
            0nat
        }
    }
}

pub open spec fn entry_refers(e: LedgerEntry, id: Seq<char>, kind: TransactionType) -> bool {
    e.transaction_type == kind && e.lease_id is Some && e.lease_id.unwrap()@ == id
}

pub open spec fn is_budget_of(b: Budget, entity: Seq<char>) -> bool {
    b.entity_id@ == entity
}

pub proof fn lemma_outstanding_push(leases: Seq<Lease>, l: Lease, entity: Seq<char>)
    ensures
        outstanding(leases.push(l), entity) == outstanding(leases, entity) + if l.entity_id@ == entity {
            l.estimated_cost as int
        } else {
            0
        },
{
    assert(leases.push(l).drop_last() =~= leases);
}

pub proof fn lemma_outstanding_remove(leases: Seq<Lease>, i: int, entity: Seq<char>)
    requires
        0 <= i < leases.len(),
    ensures
        outstanding(leases.remove(i), entity) == outstanding(leases, entity) - if leases[i].entity_id@ == entity {
            leases[i].estimated_cost as int
        } else {
            0
        },
    decreases leases.len(),
{
    if i == leases.len() - 1 {
        assert(leases.remove(i) =~= leases.drop_last());
    } else {
        lemma_outstanding_remove(leases.drop_last(), i, entity);
        assert(leases.remove(i).drop_last() =~= leases.drop_last().remove(i));
        assert(leases.remove(i).last() == leases.last());
    }
}

pub proof fn lemma_outstanding_nonneg(leases: Seq<Lease>, entity: Seq<char>)
    ensures
        outstanding(leases, entity) >= 0,
    decreases leases.len(),
{
    if leases.len() > 0 {
        lemma_outstanding_nonneg(leases.drop_last(), entity);
    }
}

pub proof fn lemma_count_push(entries: Seq<LedgerEntry>, e: LedgerEntry, id: Seq<char>, kind: TransactionType)
    ensures
        count_entries(entries.push(e), id, kind) == count_entries(entries, id, kind) + if entry_refers(e, id, kind) {
            1nat
        } else {
            0nat
        },
{
    assert(entries.push(e).drop_last() =~= entries);
}

pub proof fn lemma_count_zero(entries: Seq<LedgerEntry>, id: Seq<char>, kind: TransactionType)
    requires
        forall|k: int| 0 <= k < entries.len() ==> !entry_refers(#[trigger] entries[k], id, kind),
    ensures
        count_entries(entries, id, kind) == 0,
    decreases entries.len(),
{
    if entries.len() > 0 {
        lemma_count_zero(entries.drop_last(), id, kind);
    }
}

/// The in-memory ledger: budgets, rates, open leases and the journal.
pub struct IntelligenceLedger {
    budgets: Vec<Budget>,
    rates: Vec<RateTableEntry>,
    leases: Vec<Lease>,
    entries: Vec<LedgerEntry>,
}

impl IntelligenceLedger {
    pub closed spec fn budgets_view(&self) -> Seq<Budget> {
        self.budgets@
    }

    pub closed spec fn rates_view(&self) -> Seq<RateTableEntry> {
        self.rates@
    }

    pub closed spec fn leases_view(&self) -> Seq<Lease> {
        self.leases@
    }

    pub closed spec fn entries_view(&self) -> Seq<LedgerEntry> {
        self.entries@
    }

    /// Index of the budget of `entity`, if any.
    pub open spec fn budget_index(&self, entity: Seq<char>) -> Option<int> {
        if exists|i: int| 0 <= i < self.budgets_view().len() && is_budget_of(#[trigger] self.budgets_view()[i], entity) {
            Some(choose|i: int| 0 <= i < self.budgets_view().len() && is_budget_of(#[trigger] self.budgets_view()[i], entity))
        } else {
            None
        }
    }

    /// The budget of `entity`, if any.
    pub open spec fn budget_of(&self, entity: Seq<char>) -> Option<Budget> {
        match self.budget_index(entity) {
            Some(i) => Some(self.budgets_view()[i]),
            None => None,
        }
    }

    /// Index of the open lease named `id`, if any.
    pub open spec fn lease_index(&self, id: Seq<char>) -> Option<int> {
        if exists|i: int| 0 <= i < self.leases_view().len() && (#[trigger] self.leases_view()[i]).id@ == id {
            Some(choose|i: int| 0 <= i < self.leases_view().len() && (#[trigger] self.leases_view()[i]).id@ == id)
        } else {
            None
        }
    }

    /// The open lease named `id`, if any.
    pub open spec fn lease_of(&self, id: Seq<char>) -> Option<Lease> {
        match self.lease_index(id) {
            Some(i) => Some(self.leases_view()[i]),
            None => None,
        }
    }

    /// The rate of `model`, if any.
    pub open spec fn rate_of(&self, model: Seq<char>) -> Option<RateTableEntry> {
        if exists|i: int| 0 <= i < self.rates_view().len() && (#[trigger] self.rates_view()[i]).model@ == model {
            Some(self.rates_view()[choose|i: int| 0 <= i < self.rates_view().len() && (#[trigger] self.rates_view()[i]).model@ == model])
        } else {
            None
        }
    }

    /// Whether lease id `id` is referenced by the journal.
    pub open spec fn journal_mentions(&self, id: Seq<char>) -> bool {
        exists|k: int| 0 <= k < self.entries_view().len() && {
            let e = #[trigger] self.entries_view()[k];
            e.lease_id is Some && e.lease_id.unwrap()@ == id
        }
    }

    /// Well-formedness: keys are unique, every lease belongs to a budgeted
    /// entity, and every open lease has exactly one grant and no settlement.
    pub open spec fn wf(&self) -> bool {
        &&& forall|i: int, j: int|
            0 <= i < self.budgets_view().len() && 0 <= j < self.budgets_view().len()
                && (#[trigger] self.budgets_view()[i]).entity_id@ == (#[trigger] self.budgets_view()[j]).entity_id@ ==> i == j
        &&& forall|i: int, j: int|
            0 <= i < self.rates_view().len() && 0 <= j < self.rates_view().len()
                && (#[trigger] self.rates_view()[i]).model@ == (#[trigger] self.rates_view()[j]).model@ ==> i == j
        &&& forall|i: int, j: int|
            0 <= i < self.leases_view().len() && 0 <= j < self.leases_view().len()
                && (#[trigger] self.leases_view()[i]).id@ == (#[trigger] self.leases_view()[j]).id@ ==> i == j
        &&& forall|i: int| 0 <= i < self.leases_view().len() ==> self.budget_of(
            (#[trigger] self.leases_view()[i]).entity_id@,
        ) is Some
        &&& forall|i: int| 0 <= i < self.leases_view().len() ==> {
            &&& count_entries(self.entries_view(), (#[trigger] self.leases_view()[i]).id@, TransactionType::Grant) == 1
            &&& count_entries(self.entries_view(), self.leases_view()[i].id@, TransactionType::Settlement) == 0
        }
    }

    /// The reservation cap of an entity: what it spent plus what its open
    /// leases reserve stays within its hard limit.
    pub open spec fn within_cap(&self, entity: Seq<char>) -> bool {
        match self.budget_of(entity) {
            Some(b) => b.spent <= b.hard_limit && b.spent + outstanding(self.leases_view(), entity) <= b.hard_limit,
            None => true,
        }
    }

    /// Every budgeted entity is within its cap.
    pub open spec fn all_within_cap(&self) -> bool {
        forall|e: Seq<char>| #[trigger] self.within_cap(e)
    }

    /// An empty ledger.
    pub fn new() -> (r: Self)
        ensures
            r.wf(),
            r.all_within_cap(),
            r.budgets_view().len() == 0,
            r.rates_view().len() == 0,
            r.leases_view().len() == 0,
            r.entries_view().len() == 0,
    {
        IntelligenceLedger { budgets: Vec::new(), rates: Vec::new(), leases: Vec::new(), entries: Vec::new() }
    }

    fn find_budget(&self, entity: &str) -> (r: Option<usize>)
        requires
            self.wf(),
        ensures
            match r {
                Some(i) => self.budget_index(entity@) == Some(i as int) && i < self.budgets_view().len(),
                None => self.budget_index(entity@) is None,
            },
    {
        let mut i: usize = 0;
        while i < self.budgets.len()
            invariant
                self.wf(),
                i <= self.budgets.len(),
                forall|k: int| 0 <= k < i ==> !is_budget_of(#[trigger] self.budgets@[k], entity@),
            decreases self.budgets.len() - i,
        {
            if str_eq(self.budgets[i].entity_id.as_str(), entity) {
                assert(is_budget_of(self.budgets_view()[i as int], entity@));
                return Some(i);
            }
            i = i + 1;
        }
        None
    }

    fn find_lease(&self, id: &str) -> (r: Option<usize>)
        requires
            self.wf(),
        ensures
            match r {
                Some(i) => self.lease_index(id@) == Some(i as int) && i < self.leases_view().len(),
                None => self.lease_index(id@) is None,
            },
    {
        let mut i: usize = 0;
        while i < self.leases.len()
            invariant
                self.wf(),
                i <= self.leases.len(),
                forall|k: int| 0 <= k < i ==> (#[trigger] self.leases@[k]).id@ != id@,
            decreases self.leases.len() - i,
        {
            if str_eq(self.leases[i].id.as_str(), id) {
                assert(self.leases_view()[i as int].id@ == id@);
                return Some(i);
            }
            i = i + 1;
        }
        None
    }

    fn find_rate(&self, model: &str) -> (r: Option<usize>)
        requires
            self.wf(),
        ensures
            match r {
                Some(i) => i < self.rates_view().len() && self.rate_of(model@) == Some(self.rates_view()[i as int]),
                None => self.rate_of(model@) is None,
            },
    {
        let mut i: usize = 0;
        while i < self.rates.len()
            invariant
                self.wf(),
                i <= self.rates.len(),
                forall|k: int| 0 <= k < i ==> (#[trigger] self.rates@[k]).model@ != model@,
            decreases self.rates.len() - i,
        {
            if str_eq(self.rates[i].model.as_str(), model) {
                assert(self.rates_view()[i as int].model@ == model@);
                return Some(i);
            }
            i = i + 1;
        }
        None
    }

    fn mentions(&self, id: &str) -> (r: bool)
        ensures
            r == self.journal_mentions(id@),
    {
        let mut i: usize = 0;
        while i < self.entries.len()
            invariant
                i <= self.entries.len(),
                forall|k: int| 0 <= k < i ==> {
                    let e = #[trigger] self.entries@[k];
                    !(e.lease_id is Some && e.lease_id.unwrap()@ == id@)
                },
            decreases self.entries.len() - i,
        {
            match &self.entries[i].lease_id {
                Some(l) => {
                    if str_eq(l.as_str(), id) {
                        assert(self.entries_view()[i as int].lease_id is Some);
                        return true;
                    }
                },
                None => {},
            }
            i = i + 1;
        }
        false
    }

    /// Sum of the estimates of the open leases of `entity`.
    fn outstanding_of(&self, entity: &str) -> (r: u128)
        ensures
            r == outstanding(self.leases_view(), entity@),
            r <= 0xFFFF_FFFF_FFFF_FFFFu64 * 0xFFFF_FFFF_FFFF_FFFFu64,
    {
        let mut acc: u128 = 0;
        let mut i: usize = 0;
        while i < self.leases.len()
            invariant
                i <= self.leases.len(),
                acc == outstanding(self.leases@.subrange(0, i as int), entity@),
                acc <= i * 0xFFFF_FFFF_FFFF_FFFFu64,
            decreases self.leases.len() - i,
        {
            proof {
                let s = self.leases@.subrange(0, i as int + 1);
                assert(s.drop_last() =~= self.leases@.subrange(0, i as int));
            }
            if str_eq(self.leases[i].entity_id.as_str(), entity) {
                proof {
                    assert((i + 1) * 0xFFFF_FFFF_FFFF_FFFFu64 == i * 0xFFFF_FFFF_FFFF_FFFFu64 + 0xFFFF_FFFF_FFFF_FFFFu64) by (nonlinear_arith);
                    assert(i * 0xFFFF_FFFF_FFFF_FFFFu64 <= 0xFFFF_FFFF_FFFF_FFFFu64 * 0xFFFF_FFFF_FFFF_FFFFu64) by (nonlinear_arith)
                        requires i <= 0xFFFF_FFFF_FFFF_FFFFu64;
                }
                acc = acc + self.leases[i].estimated_cost as u128;
            } else {
                proof {
                    assert((i + 1) * 0xFFFF_FFFF_FFFF_FFFFu64 == i * 0xFFFF_FFFF_FFFF_FFFFu64 + 0xFFFF_FFFF_FFFF_FFFFu64) by (nonlinear_arith);
                }
            }
            i = i + 1;
        }
        assert(self.leases@.subrange(0, i as int) =~= self.leases@);
        assert(i * 0xFFFF_FFFF_FFFF_FFFFu64 <= 0xFFFF_FFFF_FFFF_FFFFu64 * 0xFFFF_FFFF_FFFF_FFFFu64) by (nonlinear_arith)
            requires i <= 0xFFFF_FFFF_FFFF_FFFFu64;
        acc
    }

    /// Sets (inserts or replaces) the budget of `budget.entity_id`.
    pub fn set_budget(&mut self, budget: Budget)
        requires
            old(self).wf(),
        ensures
            final(self).wf(),
            final(self).budget_of(budget.entity_id@) == Some(budget),
            forall|e: Seq<char>| e != budget.entity_id@ ==> #[trigger] final(self).budget_of(e) == old(self).budget_of(e),
            final(self).leases_view() == old(self).leases_view(),
            final(self).entries_view() == old(self).entries_view(),
            final(self).rates_view() == old(self).rates_view(),
    {
        let ghost entity = budget.entity_id@;
        let ghost old_self = *self;
        match self.find_budget(budget.entity_id.as_str()) {
            Some(i) => {
                self.budgets.set(i, budget);
                proof {
                    assert(is_budget_of(self.budgets_view()[i as int], entity));
                    assert(is_budget_of(old_self.budgets_view()[i as int], entity));
                    assert forall|a: int, b: int|
                        0 <= a < self.budgets_view().len() && 0 <= b < self.budgets_view().len()
                            && (#[trigger] self.budgets_view()[a]).entity_id@ == (#[trigger] self.budgets_view()[b]).entity_id@ implies a == b by {
                        assert(old_self.budgets_view()[a].entity_id@ == self.budgets_view()[a].entity_id@);
                        assert(old_self.budgets_view()[b].entity_id@ == self.budgets_view()[b].entity_id@);
                    }
                    assert forall|e: Seq<char>| e != entity implies #[trigger] self.budget_of(e) == old_self.budget_of(e) by {
                        if old_self.budget_index(e) is Some {
                            let k = old_self.budget_index(e).unwrap();
                            assert(is_budget_of(self.budgets_view()[k], e));
                        }
                        if self.budget_index(e) is Some {
                            let k = self.budget_index(e).unwrap();
                            assert(is_budget_of(old_self.budgets_view()[k], e));
                        }
                    }
                    assert forall|j: int| 0 <= j < self.leases_view().len() implies self.budget_of(
                        (#[trigger] self.leases_view()[j]).entity_id@,
                    ) is Some by {
                        let e = self.leases_view()[j].entity_id@;
                        if e != entity {
                            assert(self.budget_of(e) == old_self.budget_of(e));
                        }
                    }
                }
            },
            None => {
                self.budgets.push(budget);
                proof {
                    let n = self.budgets_view().len() - 1;
                    assert(is_budget_of(self.budgets_view()[n], entity));
                    assert forall|a: int, b: int|
                        0 <= a < self.budgets_view().len() && 0 <= b < self.budgets_view().len()
                            && (#[trigger] self.budgets_view()[a]).entity_id@ == (#[trigger] self.budgets_view()[b]).entity_id@ implies a == b by {
                        if a < n && b == n {
                            assert(is_budget_of(old_self.budgets_view()[a], entity));
                        }
                        if b < n && a == n {
                            assert(is_budget_of(old_self.budgets_view()[b], entity));
                        }
                    }
                    assert forall|e: Seq<char>| e != entity implies #[trigger] self.budget_of(e) == old_self.budget_of(e) by {
                        if old_self.budget_index(e) is Some {
                            let k = old_self.budget_index(e).unwrap();
                            assert(is_budget_of(self.budgets_view()[k], e));
                        }
                        if self.budget_index(e) is Some {
                            let k = self.budget_index(e).unwrap();
                            assert(is_budget_of(old_self.budgets_view()[k], e));
                        }
                    }
                    assert forall|j: int| 0 <= j < self.leases_view().len() implies self.budget_of(
                        (#[trigger] self.leases_view()[j]).entity_id@,
                    ) is Some by {
                        let e = self.leases_view()[j].entity_id@;
                        if e != entity {
                            assert(self.budget_of(e) == old_self.budget_of(e));
                        } else {
                            assert(is_budget_of(self.budgets_view()[n], e));
                        }
                    }
                }
            },
        }
        proof {
            assert(self.rates_view() == old_self.rates_view());
            assert(self.leases_view() == old_self.leases_view());
            assert(self.entries_view() == old_self.entries_view());
        }
    }
}


/// A copy of a budget with the same fields.
pub fn clone_budget(b: &Budget) -> (r: Budget)
    ensures
        r == *b,
{
    Budget {
        entity_id: b.entity_id.clone(),
        hard_limit: b.hard_limit,
        soft_limit: b.soft_limit,
        spent: b.spent,
        currency: b.currency.clone(),
        status: b.status,
        updated_at: b.updated_at,
    }
}

/// Expiry instant of a lease created at `now`.
pub open spec fn expiry_of(now: u64) -> u64 {
    if now > u64::MAX - LEASE_TTL_SECS { u64::MAX } else { (now + LEASE_TTL_SECS) as u64 }
}

/// Whether a lease is past its expiry at `now`.
pub open spec fn is_expired(l: Lease, now: u64) -> bool {
    now >= l.expires_at
}

impl IntelligenceLedger {
    /// Replaces budget `i` by `b`, which keeps its entity.
    fn replace_budget(&mut self, i: usize, b: Budget)
        requires
            old(self).wf(),
            i < old(self).budgets_view().len(),
            old(self).budgets_view()[i as int].entity_id@ == b.entity_id@,
        ensures
            final(self).wf(),
            final(self).budgets_view() == old(self).budgets_view().update(i as int, b),
            final(self).budget_of(b.entity_id@) == Some(b),
            forall|e: Seq<char>| e != b.entity_id@ ==> #[trigger] final(self).budget_of(e) == old(self).budget_of(e),
            forall|e: Seq<char>| #[trigger] final(self).budget_index(e) == old(self).budget_index(e),
            final(self).leases_view() == old(self).leases_view(),
            final(self).entries_view() == old(self).entries_view(),
            final(self).rates_view() == old(self).rates_view(),
    {
        let ghost old_self = *self;
        let ghost entity = b.entity_id@;
        self.budgets.set(i, b);
        proof {
            assert(is_budget_of(self.budgets_view()[i as int], entity));
            assert(is_budget_of(old_self.budgets_view()[i as int], entity));
            assert forall|a: int, c: int|
                0 <= a < self.budgets_view().len() && 0 <= c < self.budgets_view().len()
                    && (#[trigger] self.budgets_view()[a]).entity_id@ == (#[trigger] self.budgets_view()[c]).entity_id@ implies a == c by {
                assert(old_self.budgets_view()[a].entity_id@ == self.budgets_view()[a].entity_id@);
                assert(old_self.budgets_view()[c].entity_id@ == self.budgets_view()[c].entity_id@);
            }
            assert forall|e: Seq<char>| #[trigger] self.budget_index(e) == old_self.budget_index(e) by {
                if old_self.budget_index(e) is Some {
                    let k = old_self.budget_index(e).unwrap();
                    assert(is_budget_of(self.budgets_view()[k], e));
                }
                if self.budget_index(e) is Some {
                    let k = self.budget_index(e).unwrap();
                    assert(is_budget_of(old_self.budgets_view()[k], e));
                }
            }
            assert forall|e: Seq<char>| e != entity implies #[trigger] self.budget_of(e) == old_self.budget_of(e) by {
                assert(self.budget_index(e) == old_self.budget_index(e));
                if self.budget_index(e) is Some {
                    let k = self.budget_index(e).unwrap();
                    assert(is_budget_of(old_self.budgets_view()[k], e));
                    assert(k != i);
                }
            }
            assert(self.budget_index(entity) == old_self.budget_index(entity));
            assert forall|j: int| 0 <= j < self.leases_view().len() implies self.budget_of(
                (#[trigger] self.leases_view()[j]).entity_id@,
            ) is Some by {
                let e = self.leases_view()[j].entity_id@;
                assert(self.budget_index(e) == old_self.budget_index(e));
            }
            assert(self.rates_view() == old_self.rates_view());
            assert(self.leases_view() == old_self.leases_view());
            assert(self.entries_view() == old_self.entries_view());
        }
    }

    /// Sets (inserts or replaces) the rate of `rate.model`.
    pub fn set_rate(&mut self, rate: RateTableEntry)
        requires
            old(self).wf(),
        ensures
            final(self).wf(),
            final(self).rate_of(rate.model@) == Some(rate),
            forall|m: Seq<char>| m != rate.model@ ==> #[trigger] final(self).rate_of(m) == old(self).rate_of(m),
            final(self).budgets_view() == old(self).budgets_view(),
            final(self).leases_view() == old(self).leases_view(),
            final(self).entries_view() == old(self).entries_view(),
    {
        let ghost old_self = *self;
        let ghost model = rate.model@;
        match self.find_rate(rate.model.as_str()) {
            Some(i) => {
                proof {
                    let k = choose|k: int| 0 <= k < old_self.rates_view().len() && (#[trigger] old_self.rates_view()[k]).model@ == model;
                    assert(old_self.rates_view()[i as int].model@ == model);
                }
                self.rates.set(i, rate);
                proof {
                    assert(self.rates_view()[i as int].model@ == model);
                    assert forall|a: int, c: int|
                        0 <= a < self.rates_view().len() && 0 <= c < self.rates_view().len()
                            && (#[trigger] self.rates_view()[a]).model@ == (#[trigger] self.rates_view()[c]).model@ implies a == c by {
                        assert(old_self.rates_view()[a].model@ == self.rates_view()[a].model@);
                        assert(old_self.rates_view()[c].model@ == self.rates_view()[c].model@);
                    }
                    assert forall|m: Seq<char>| m != model implies #[trigger] self.rate_of(m) == old_self.rate_of(m) by {
                        if exists|k: int| 0 <= k < old_self.rates_view().len() && (#[trigger] old_self.rates_view()[k]).model@ == m {
                            let k = choose|k: int| 0 <= k < old_self.rates_view().len() && (#[trigger] old_self.rates_view()[k]).model@ == m;
                            assert(self.rates_view()[k].model@ == m);
                        }
                        if exists|k: int| 0 <= k < self.rates_view().len() && (#[trigger] self.rates_view()[k]).model@ == m {
                            let k = choose|k: int| 0 <= k < self.rates_view().len() && (#[trigger] self.rates_view()[k]).model@ == m;
                            assert(old_self.rates_view()[k].model@ == m);
                        }
                    }
                }
            },
            None => {
                self.rates.push(rate);
                proof {
                    let n = self.rates_view().len() - 1;
                    assert(self.rates_view()[n].model@ == model);
                    assert forall|a: int, c: int|
                        0 <= a < self.rates_view().len() && 0 <= c < self.rates_view().len()
                            && (#[trigger] self.rates_view()[a]).model@ == (#[trigger] self.rates_view()[c]).model@ implies a == c by {
                        if a < n && c == n {
                            assert(old_self.rates_view()[a].model@ == model);
                        }
                        if c < n && a == n {
                            assert(old_self.rates_view()[c].model@ == model);
                        }
                    }
                    assert forall|m: Seq<char>| m != model implies #[trigger] self.rate_of(m) == old_self.rate_of(m) by {
                        if exists|k: int| 0 <= k < old_self.rates_view().len() && (#[trigger] old_self.rates_view()[k]).model@ == m {
                            let k = choose|k: int| 0 <= k < old_self.rates_view().len() && (#[trigger] old_self.rates_view()[k]).model@ == m;
                            assert(self.rates_view()[k].model@ == m);
                        }
                        if exists|k: int| 0 <= k < self.rates_view().len() && (#[trigger] self.rates_view()[k]).model@ == m {
                            let k = choose|k: int| 0 <= k < self.rates_view().len() && (#[trigger] self.rates_view()[k]).model@ == m;
                            assert(old_self.rates_view()[k].model@ == m);
                        }
                    }
                }
            },
        }
        proof {
            assert(self.budgets_view() == old_self.budgets_view());
            assert(self.leases_view() == old_self.leases_view());
            assert(self.entries_view() == old_self.entries_view());
            assert forall|j: int| 0 <= j < self.leases_view().len() implies self.budget_of(
                (#[trigger] self.leases_view()[j]).entity_id@,
            ) is Some by {
                assert(old_self.budget_of(self.leases_view()[j].entity_id@) is Some);
            }
        }
    }

    /// The budget of `entity_id`, if one was set.
    pub fn get_budget(&self, entity_id: &str) -> (r: Option<Budget>)
        requires
            self.wf(),
        ensures
            r == self.budget_of(entity_id@),
    {
        match self.find_budget(entity_id) {
            Some(i) => Some(clone_budget(&self.budgets[i])),
            None => None,
        }
    }

    /// The number of open leases.
    pub fn open_lease_count(&self) -> (r: usize)
        ensures
            r == self.leases_view().len(),
    {
        self.leases.len()
    }

    /// The journal, oldest entry first.
    pub fn entries(&self) -> (r: &Vec<LedgerEntry>)
        ensures
            r@ == self.entries_view(),
    {
        &self.entries
    }

    /// The open leases.
    pub fn leases(&self) -> (r: &Vec<Lease>)
        ensures
            r@ == self.leases_view(),
    {
        &self.leases
    }

    /// The number of journal entries.
    pub fn entry_count(&self) -> (r: usize)
        ensures
            r == self.entries_view().len(),
    {
        self.entries.len()
    }
}



impl IntelligenceLedger {
    /// Reserves `estimated_cost` for `entity_id` under the lease name `lease_id`.
    ///
    /// Fails with `BudgetExceeded` when the entity has no budget or when its
    /// spent amount, its open reservations and the estimate together pass the
    /// hard limit, with `BudgetFrozen` when the budget is not active, and with
    /// `Internal` when the name is already known to the ledger. On success
    /// one lease and one grant entry are added.
    pub fn request_lease_with_id(&mut self, entity_id: &str, estimated_cost: u64, now: u64, lease_id: String) -> (r: Result<String, LedgerError>)
        requires
            old(self).wf(),
        ensures
            final(self).wf(),
            old(self).budget_of(entity_id@) is None ==> r matches Err(LedgerError::BudgetExceeded(_)),
            old(self).budget_of(entity_id@) matches Some(b) && b.status != BudgetStatus::Active ==> (r matches Err(
                LedgerError::BudgetFrozen(m),
            ) && m@ == entity_id@),
            old(self).budget_of(entity_id@) matches Some(b) && b.status == BudgetStatus::Active && b.spent
                + outstanding(old(self).leases_view(), entity_id@) + estimated_cost > b.hard_limit ==> (r matches Err(
                LedgerError::BudgetExceeded(m),
            ) && m@ == entity_id@),
            old(self).budget_of(entity_id@) matches Some(b) && b.status == BudgetStatus::Active && b.spent
                + outstanding(old(self).leases_view(), entity_id@) + estimated_cost <= b.hard_limit ==> {
                if old(self).lease_of(lease_id@) is Some || old(self).journal_mentions(lease_id@) {
                    r matches Err(LedgerError::Internal(_))
                } else {
                    r matches Ok(id) && id@ == lease_id@
                }
            },
            r is Err ==> *final(self) == *old(self),
            r is Ok ==> {
                &&& final(self).budgets_view() == old(self).budgets_view()
                &&& final(self).rates_view() == old(self).rates_view()
                &&& final(self).leases_view().len() == old(self).leases_view().len() + 1
                &&& final(self).leases_view().drop_last() == old(self).leases_view()
                &&& final(self).leases_view().last().id@ == lease_id@
                &&& final(self).leases_view().last().entity_id@ == entity_id@
                &&& final(self).leases_view().last().estimated_cost == estimated_cost
                &&& final(self).leases_view().last().created_at == now
                &&& final(self).leases_view().last().expires_at == expiry_of(now)
                &&& final(self).entries_view().drop_last() == old(self).entries_view()
                &&& final(self).entries_view().len() == old(self).entries_view().len() + 1
                &&& entry_refers(final(self).entries_view().last(), lease_id@, TransactionType::Grant)
                &&& final(self).entries_view().last().amount == estimated_cost
                &&& final(self).entries_view().last().entity_id@ == entity_id@
                &&& final(self).lease_of(lease_id@) is Some
                &&& count_entries(final(self).entries_view(), lease_id@, TransactionType::Grant) == 1
            },
            old(self).all_within_cap() ==> final(self).all_within_cap(),
    {
        let bi = match self.find_budget(entity_id) {
            Some(i) => i,
            None => {
                return Err(LedgerError::BudgetExceeded(concat("No budget found for entity ", entity_id)));
            },
        };
        if self.budgets[bi].status != BudgetStatus::Active {
            return Err(LedgerError::BudgetFrozen(owned(entity_id)));
        }
        let reserved = self.outstanding_of(entity_id);
        if self.budgets[bi].spent as u128 + reserved + estimated_cost as u128 > self.budgets[bi].hard_limit as u128 {
            return Err(LedgerError::BudgetExceeded(owned(entity_id)));
        }
        if self.find_lease(lease_id.as_str()).is_some() || self.mentions(lease_id.as_str()) {
            return Err(LedgerError::Internal(concat("Lease identifier already in use: ", lease_id.as_str())));
        }
        let ghost old_self = *self;
        let expires_at = if now > u64::MAX - LEASE_TTL_SECS { u64::MAX } else { now + LEASE_TTL_SECS };
        let lease = Lease {
            id: lease_id.clone(),
            entity_id: owned(entity_id),
            estimated_cost,
            created_at: now,
            expires_at,
        };
        let entry = LedgerEntry {
            timestamp: now,
            entity_id: owned(entity_id),
            lease_id: Some(lease_id.clone()),
            transaction_type: TransactionType::Grant,
            amount: estimated_cost,
            details: owned("Lease requested"),
        };
        let ghost l = lease;
        let ghost e = entry;
        self.leases.push(lease);
        self.entries.push(entry);
        proof {
            let id = lease_id@;
            let n = self.leases_view().len() - 1;
            assert(self.leases_view().drop_last() =~= old_self.leases_view());
            assert(self.entries_view().drop_last() =~= old_self.entries_view());
            assert(self.budgets_view() == old_self.budgets_view());
            assert(self.rates_view() == old_self.rates_view());
            assert(forall|e2: Seq<char>| #[trigger] self.budget_of(e2) == old_self.budget_of(e2));
            // the new name is fresh
            assert forall|k: int| 0 <= k < old_self.leases_view().len() implies (#[trigger] old_self.leases_view()[k]).id@ != id by {
                if old_self.leases_view()[k].id@ == id {
                    assert(old_self.lease_index(id) is Some);
                }
            }
            assert forall|k: int| 0 <= k < old_self.entries_view().len() implies !entry_refers(#[trigger] old_self.entries_view()[k], id, TransactionType::Grant) by {
                if entry_refers(old_self.entries_view()[k], id, TransactionType::Grant) {
                    assert(old_self.journal_mentions(id));
                }
            }
            lemma_count_zero(old_self.entries_view(), id, TransactionType::Grant);
            assert forall|k: int| 0 <= k < old_self.entries_view().len() implies !entry_refers(#[trigger] old_self.entries_view()[k], id, TransactionType::Settlement) by {
                if entry_refers(old_self.entries_view()[k], id, TransactionType::Settlement) {
                    assert(old_self.journal_mentions(id));
                }
            }
            lemma_count_zero(old_self.entries_view(), id, TransactionType::Settlement);
            lemma_count_push(old_self.entries_view(), e, id, TransactionType::Grant);
            assert(self.entries_view() == old_self.entries_view().push(e));
            assert(self.leases_view() == old_self.leases_view().push(l));
            assert(self.leases_view()[n].id@ == id);
            assert forall|a: int, c: int|
                0 <= a < self.leases_view().len() && 0 <= c < self.leases_view().len()
                    && (#[trigger] self.leases_view()[a]).id@ == (#[trigger] self.leases_view()[c]).id@ implies a == c by {
                if a < n && c < n {
                    assert(old_self.leases_view()[a].id@ == old_self.leases_view()[c].id@);
                }
                if a < n && c == n {
                    assert(old_self.leases_view()[a].id@ != id);
                }
                if c < n && a == n {
                    assert(old_self.leases_view()[c].id@ != id);
                }
            }
            assert forall|j: int| 0 <= j < self.leases_view().len() implies self.budget_of(
                (#[trigger] self.leases_view()[j]).entity_id@,
            ) is Some by {
                if j < n {
                    assert(old_self.leases_view()[j] == self.leases_view()[j]);
                } else {
                    assert(is_budget_of(old_self.budgets_view()[bi as int], entity_id@));
                }
            }
            assert forall|j: int| 0 <= j < self.leases_view().len() implies {
                &&& count_entries(self.entries_view(), (#[trigger] self.leases_view()[j]).id@, TransactionType::Grant) == 1
                &&& count_entries(self.entries_view(), self.leases_view()[j].id@, TransactionType::Settlement) == 0
            } by {
                let lid = self.leases_view()[j].id@;
                lemma_count_push(old_self.entries_view(), e, lid, TransactionType::Grant);
                lemma_count_push(old_self.entries_view(), e, lid, TransactionType::Settlement);
                if j < n {
                    assert(old_self.leases_view()[j] == self.leases_view()[j]);
                    assert(lid != id);
                }
            }
            // the lease is now visible by name
            assert(self.leases_view()[n].id@ == id);
            assert(self.lease_index(id) is Some);
            // the reservation cap
            assert forall|e2: Seq<char>| old_self.all_within_cap() implies #[trigger] self.within_cap(e2) by {
                assert(old_self.within_cap(e2));
                lemma_outstanding_push(old_self.leases_view(), l, e2);
                if e2 == entity_id@ {
                    assert(old_self.budget_index(e2) == Some(bi as int));
                }
            }
        }
        Ok(lease_id)
    }

    /// Reserves `estimated_cost` for `entity_id` under a fresh random lease name.
    ///
    /// Behaves as `request_lease_with_id` on that name.
    pub fn request_lease(&mut self, entity_id: &str, estimated_cost: u64, now: u64) -> (r: Result<String, LedgerError>)
        requires
            old(self).wf(),
        ensures
            final(self).wf(),
            old(self).budget_of(entity_id@) is None ==> r matches Err(LedgerError::BudgetExceeded(_)),
            old(self).budget_of(entity_id@) matches Some(b) && b.status != BudgetStatus::Active ==> (r matches Err(
                LedgerError::BudgetFrozen(m),
            ) && m@ == entity_id@),
            old(self).budget_of(entity_id@) matches Some(b) && b.status == BudgetStatus::Active && b.spent
                + outstanding(old(self).leases_view(), entity_id@) + estimated_cost > b.hard_limit ==> (r matches Err(
                LedgerError::BudgetExceeded(m),
            ) && m@ == entity_id@),
            r is Err ==> *final(self) == *old(self),
            r matches Ok(id) ==> {
                &&& final(self).lease_of(id@) is Some
                &&& final(self).lease_of(id@).unwrap().entity_id@ == entity_id@
                &&& final(self).lease_of(id@).unwrap().estimated_cost == estimated_cost
                &&& final(self).lease_of(id@).unwrap().created_at == now
                &&& final(self).lease_of(id@).unwrap().expires_at == expiry_of(now)
                &&& final(self).leases_view().drop_last() == old(self).leases_view()
                &&& final(self).leases_view().last() == final(self).lease_of(id@).unwrap()
                &&& final(self).entries_view().drop_last() == old(self).entries_view()
                &&& final(self).entries_view().len() == old(self).entries_view().len() + 1
                &&& entry_refers(final(self).entries_view().last(), id@, TransactionType::Grant)
                &&& final(self).entries_view().last().amount == estimated_cost
                &&& final(self).entries_view().last().entity_id@ == entity_id@
                &&& count_entries(final(self).entries_view(), id@, TransactionType::Grant) == 1
                &&& final(self).budgets_view() == old(self).budgets_view()
                &&& final(self).rates_view() == old(self).rates_view()
                &&& !old(self).journal_mentions(id@)
            },
            old(self).all_within_cap() ==> final(self).all_within_cap(),
    {
        let id = fresh_uuid();
        let r = self.request_lease_with_id(entity_id, estimated_cost, now, id);
        proof {
            if r is Ok {
                let lid = r.unwrap()@;
                let n = self.leases_view().len() - 1;
                assert(self.leases_view()[n].id@ == lid);
                let k = self.lease_index(lid).unwrap();
                assert(k == n);
            }
        }
        r
    }
}


/// A budget after `cost` is charged to it at `now`: spent grows by the cost
/// and an active budget that reaches its hard limit becomes depleted.
pub open spec fn charged(b: Budget, cost: int, now: u64) -> Budget {
    let spent = b.spent + cost;
    Budget {
        spent: spent as u64,
        updated_at: now,
        status: if b.status == BudgetStatus::Active && spent >= b.hard_limit {
            BudgetStatus::Depleted
        } else {
            b.status
        },
        ..b
    }
}

/// A budget after a settlement of `cost` at `now`: untouched for a zero
/// cost, charged otherwise.
pub open spec fn settled_budget(b: Budget, cost: int, now: u64) -> Budget {
    if cost == 0 { b } else { charged(b, cost, now) }
}

impl IntelligenceLedger {
    /// Closes lease `li` with a settlement of `cost`, charged to its entity.
    fn settle_lease(&mut self, li: usize, cost: u64, now: u64, details: String) -> (b: Budget)
        requires
            old(self).wf(),
            li < old(self).leases_view().len(),
            old(self).budget_of(old(self).leases_view()[li as int].entity_id@).unwrap().spent + cost <= u64::MAX,
        ensures
            final(self).wf(),
            ({
                let l = old(self).leases_view()[li as int];
                let ob = old(self).budget_of(l.entity_id@).unwrap();
                &&& b == settled_budget(ob, cost as int, now)
                &&& final(self).budget_of(l.entity_id@) == Some(b)
                &&& (cost == 0 ==> final(self).budgets_view() == old(self).budgets_view())
                &&& final(self).entries_view().last().entity_id@ == l.entity_id@
                &&& forall|e: Seq<char>| e != l.entity_id@ ==> #[trigger] final(self).budget_of(e) == old(self).budget_of(e)
                &&& final(self).leases_view() == old(self).leases_view().remove(li as int)
                &&& final(self).entries_view().drop_last() == old(self).entries_view()
                &&& final(self).entries_view().len() == old(self).entries_view().len() + 1
                &&& entry_refers(final(self).entries_view().last(), l.id@, TransactionType::Settlement)
                &&& final(self).entries_view().last().amount == cost
                &&& count_entries(final(self).entries_view(), l.id@, TransactionType::Grant) == 1
                &&& count_entries(final(self).entries_view(), l.id@, TransactionType::Settlement) == 1
                &&& final(self).lease_of(l.id@) is None
                &&& (old(self).all_within_cap() && cost <= l.estimated_cost ==> final(self).all_within_cap())
            }),
            final(self).rates_view() == old(self).rates_view(),
    {
        let ghost old_self = *self;
        let ghost l = self.leases@[li as int];
        let ghost lid = l.id@;
        let ghost ent = l.entity_id@;
        let bi = match self.find_budget(self.leases[li].entity_id.as_str()) {
            Some(i) => i,
            None => {
                proof {
                    assert(old_self.budget_of(self.leases_view()[li as int].entity_id@) is Some);
                }
                return clone_budget(&self.budgets[0]);
            },
        };
        proof {
            assert(is_budget_of(self.budgets_view()[bi as int], ent));
        }
        let nb = if cost == 0 {
            clone_budget(&self.budgets[bi])
        } else {
            let mut b = clone_budget(&self.budgets[bi]);
            let spent = b.spent + cost;
            if b.status == BudgetStatus::Active && spent >= b.hard_limit {
                b.status = BudgetStatus::Depleted;
            }
            b.spent = spent;
            b.updated_at = now;
            let nb = clone_budget(&b);
            self.replace_budget(bi, b);
            nb
        };
        let ghost mid = *self;
        let entry = LedgerEntry {
            timestamp: now,
            entity_id: self.leases[li].entity_id.clone(),
            lease_id: Some(self.leases[li].id.clone()),
            transaction_type: TransactionType::Settlement,
            amount: cost,
            details,
        };
        let ghost e = entry;
        self.entries.push(entry);
        self.leases.remove(li);
        proof {
            assert(self.budgets_view() == mid.budgets_view());
            assert forall|e2: Seq<char>| #[trigger] self.budget_of(e2) == mid.budget_of(e2) by {
                assert(self.budget_index(e2) == mid.budget_index(e2));
            }
            let mid_entries = old_self.entries_view();
            assert(self.entries_view() == mid_entries.push(e));
            assert(self.entries_view().drop_last() =~= mid_entries);
            assert(self.leases_view() == old_self.leases_view().remove(li as int));
            lemma_count_push(mid_entries, e, lid, TransactionType::Grant);
            lemma_count_push(mid_entries, e, lid, TransactionType::Settlement);
            assert(old_self.leases_view()[li as int] == l);
            // lease ids stay unique
            assert forall|a: int, c: int|
                0 <= a < self.leases_view().len() && 0 <= c < self.leases_view().len()
                    && (#[trigger] self.leases_view()[a]).id@ == (#[trigger] self.leases_view()[c]).id@ implies a == c by {
                let a2 = if a < li { a } else { a + 1 };
                let c2 = if c < li { c } else { c + 1 };
                assert(self.leases_view()[a] == old_self.leases_view()[a2]);
                assert(self.leases_view()[c] == old_self.leases_view()[c2]);
            }
            assert forall|j: int| 0 <= j < self.leases_view().len() implies self.budget_of(
                (#[trigger] self.leases_view()[j]).entity_id@,
            ) is Some by {
                let j2 = if j < li { j } else { j + 1 };
                assert(self.leases_view()[j] == old_self.leases_view()[j2]);
                let e2 = old_self.leases_view()[j2].entity_id@;
                if e2 != ent {
                    assert(self.budget_of(e2) == old_self.budget_of(e2));
                }
            }
            assert forall|j: int| 0 <= j < self.leases_view().len() implies {
                &&& count_entries(self.entries_view(), (#[trigger] self.leases_view()[j]).id@, TransactionType::Grant) == 1
                &&& count_entries(self.entries_view(), self.leases_view()[j].id@, TransactionType::Settlement) == 0
            } by {
                let j2 = if j < li { j } else { j + 1 };
                assert(self.leases_view()[j] == old_self.leases_view()[j2]);
                let oid = old_self.leases_view()[j2].id@;
                assert(oid != lid);
                lemma_count_push(mid_entries, e, oid, TransactionType::Grant);
                lemma_count_push(mid_entries, e, oid, TransactionType::Settlement);
            }
            if cost == 0 {
                assert(self.budgets_view() == old_self.budgets_view());
            }
            assert(self.rates_view() == old_self.rates_view());
            assert(self.wf());
            // the lease is gone
            if self.lease_index(lid) is Some {
                let k = self.lease_index(lid).unwrap();
                let k2 = if k < li { k } else { k + 1 };
                assert(self.leases_view()[k] == old_self.leases_view()[k2]);
            }
            // the reservation cap
            assert forall|e2: Seq<char>| old_self.all_within_cap() && cost <= l.estimated_cost implies #[trigger] self.within_cap(e2) by {
                assert(old_self.within_cap(e2));
                lemma_outstanding_remove(old_self.leases_view(), li as int, e2);
                lemma_outstanding_nonneg(self.leases_view(), e2);
                if e2 == ent {
                    assert(old_self.budget_of(e2).unwrap() == old_self.budgets_view()[bi as int]);
                }
            }
        }
        nb
    }

    /// Settles lease `lease_id` with the cost of `usage` at its model's rate.
    ///
    /// Fails with `LeaseNotFound` when no such lease is open or it expired
    /// (`now >= expires_at`), with `RateNotFound` when the model has no rate,
    /// and with `Internal` when an amount would pass `u64::MAX`. On success
    /// the entity's spent grows by the exact cost, one settlement entry is
    /// added and the lease is closed, so that it cannot be committed again.
    ///
    /// The usage is recorded even when it costs more than the lease
    /// reserved; only then can spent pass the hard limit, which turns an
    /// active budget depleted. The reservation cap is kept whenever the cost
    /// is at most the lease's estimate.
    pub fn commit_usage(&mut self, lease_id: &str, usage: Usage, now: u64) -> (r: Result<Receipt, LedgerError>)
        requires
            old(self).wf(),
        ensures
            final(self).wf(),
            old(self).lease_of(lease_id@) is None ==> (r matches Err(LedgerError::LeaseNotFound(m)) && m@ == lease_id@),
            old(self).lease_of(lease_id@) matches Some(l) && is_expired(l, now) ==> (r matches Err(LedgerError::LeaseNotFound(m))
                && m@ == lease_id@),
            old(self).lease_of(lease_id@) matches Some(l) && !is_expired(l, now) && old(self).rate_of(usage.model@) is None
                ==> (r matches Err(LedgerError::RateNotFound(m)) && m@ == usage.model@),
            old(self).lease_of(lease_id@) matches Some(l) ==> (!is_expired(l, now) ==> (old(self).rate_of(usage.model@) matches Some(rate)
                ==> {
                let b = old(self).budget_of(l.entity_id@).unwrap();
                let cost = cost_spec(usage.input_tokens, usage.output_tokens, rate);
                if cost > u64::MAX || b.spent + cost > u64::MAX {
                    r matches Err(LedgerError::Internal(_))
                } else {
                    let nb = settled_budget(b, cost, now);
                    &&& r matches Ok(receipt)
                    &&& receipt.cost == cost
                    &&& receipt.remaining_budget == nb.hard_limit - nb.spent
                    &&& receipt.timestamp == now
                    &&& (receipt.warning is Some <==> nb.spent > nb.soft_limit)
                    &&& final(self).budget_of(l.entity_id@) == Some(nb)
                    &&& forall|e: Seq<char>| e != l.entity_id@ ==> #[trigger] final(self).budget_of(e) == old(self).budget_of(e)
                    &&& final(self).leases_view() == old(self).leases_view().remove(old(self).lease_index(lease_id@).unwrap())
                    &&& final(self).entries_view().drop_last() == old(self).entries_view()
                    &&& entry_refers(final(self).entries_view().last(), lease_id@, TransactionType::Settlement)
                    &&& final(self).entries_view().last().amount == cost
                    &&& final(self).entries_view().last().entity_id@ == l.entity_id@
                    &&& count_entries(final(self).entries_view(), lease_id@, TransactionType::Grant) == 1
                    &&& count_entries(final(self).entries_view(), lease_id@, TransactionType::Settlement) == 1
                    &&& final(self).lease_of(lease_id@) is None
                    &&& (old(self).all_within_cap() && cost <= l.estimated_cost ==> final(self).all_within_cap())
                }
            })),
            final(self).rates_view() == old(self).rates_view(),
            r matches Ok(receipt) ==> (receipt.warning matches Some(w) ==> w@ == "soft limit exceeded"@),
            r is Err ==> *final(self) == *old(self),
    {
        let li = match self.find_lease(lease_id) {
            Some(i) => i,
            None => {
                return Err(LedgerError::LeaseNotFound(owned(lease_id)));
            },
        };
        if now >= self.leases[li].expires_at {
            return Err(LedgerError::LeaseNotFound(owned(lease_id)));
        }
        let ri = match self.find_rate(usage.model.as_str()) {
            Some(i) => i,
            None => {
                return Err(LedgerError::RateNotFound(usage.model));
            },
        };
        proof {
            let a = usage.input_tokens as int;
            let b = self.rates@[ri as int].input_cost_per_1k as int;
            let c = usage.output_tokens as int;
            let d = self.rates@[ri as int].output_cost_per_1k as int;
            assert(a * b <= 0xFFFF_FFFFu32 * 0xFFFF_FFFF_FFFF_FFFFu64) by (nonlinear_arith)
                requires 0 <= a <= 0xFFFF_FFFFu32, 0 <= b <= 0xFFFF_FFFF_FFFF_FFFFu64;
            assert(c * d <= 0xFFFF_FFFFu32 * 0xFFFF_FFFF_FFFF_FFFFu64) by (nonlinear_arith)
                requires 0 <= c <= 0xFFFF_FFFFu32, 0 <= d <= 0xFFFF_FFFF_FFFF_FFFFu64;
        }
        let cost_wide: u128 = usage.input_tokens as u128 * self.rates[ri].input_cost_per_1k as u128
            + usage.output_tokens as u128 * self.rates[ri].output_cost_per_1k as u128;
        if cost_wide > u64::MAX as u128 {
            return Err(LedgerError::Internal(owned("Cost beyond the representable range")));
        }
        let cost = cost_wide as u64;
        let spent = match self.find_budget(self.leases[li].entity_id.as_str()) {
            Some(bi) => self.budgets[bi].spent,
            None => {
                return Err(LedgerError::Internal(owned("Budget missing during commit")));
            },
        };
        if spent as u128 + cost as u128 > u64::MAX as u128 {
            return Err(LedgerError::Internal(owned("Spent amount beyond the representable range")));
        }
        let b = self.settle_lease(li, cost, now, concat("Usage committed on ", usage.model.as_str()));
        let warning = if b.spent > b.soft_limit {
            Some(owned("soft limit exceeded"))
        } else {
            None
        };
        Ok(Receipt {
            cost,
            remaining_budget: b.hard_limit as i128 - b.spent as i128,
            timestamp: now,
            warning,
        })
    }

    /// Closes lease `lease_id` at no cost, giving its reservation back.
    ///
    /// Fails with `LeaseNotFound` when no such lease is open.
    pub fn release_lease(&mut self, lease_id: &str, now: u64) -> (r: Result<(), LedgerError>)
        requires
            old(self).wf(),
        ensures
            final(self).wf(),
            old(self).lease_of(lease_id@) is None <==> r is Err,
            r is Err ==> (r matches Err(LedgerError::LeaseNotFound(m)) && m@ == lease_id@),
            r is Err ==> *final(self) == *old(self),
            r is Ok ==> {
                &&& final(self).budgets_view() == old(self).budgets_view()
                &&& final(self).rates_view() == old(self).rates_view()
                &&& final(self).entries_view().last().entity_id@ == old(self).lease_of(lease_id@).unwrap().entity_id@
                &&& final(self).leases_view() == old(self).leases_view().remove(old(self).lease_index(lease_id@).unwrap())
                &&& entry_refers(final(self).entries_view().last(), lease_id@, TransactionType::Settlement)
                &&& final(self).entries_view().last().amount == 0
                &&& final(self).entries_view().drop_last() == old(self).entries_view()
                &&& count_entries(final(self).entries_view(), lease_id@, TransactionType::Settlement) == 1
                &&& final(self).lease_of(lease_id@) is None
                &&& forall|e: Seq<char>| (#[trigger] final(self).budget_of(e) is Some <==> old(self).budget_of(e) is Some)
                &&& forall|e: Seq<char>| #[trigger] final(self).budget_of(e) is Some ==> final(self).budget_of(e).unwrap().spent
                    == old(self).budget_of(e).unwrap().spent
            },
            old(self).all_within_cap() ==> final(self).all_within_cap(),
    {
        let li = match self.find_lease(lease_id) {
            Some(i) => i,
            None => {
                return Err(LedgerError::LeaseNotFound(owned(lease_id)));
            },
        };
        proof {
            let l = self.leases_view()[li as int];
            assert(self.budget_of(l.entity_id@) is Some);
        }
        let _ = self.settle_lease(li, 0, now, owned("Lease released"));
        Ok(())
    }

    /// Closes every lease expired at `now` with a zero-cost settlement and
    /// returns how many were closed.
    pub fn sweep_expired(&mut self, now: u64) -> (n: usize)
        requires
            old(self).wf(),
        ensures
            final(self).wf(),
            final(self).leases_view() == old(self).leases_view().filter(|l: Lease| !is_expired(l, now)),
            forall|i: int| 0 <= i < final(self).leases_view().len() ==> !is_expired(#[trigger] final(self).leases_view()[i], now),
            final(self).leases_view().len() + n == old(self).leases_view().len(),
            old(self).all_within_cap() ==> final(self).all_within_cap(),
    {
        let n0: usize = self.leases.len();
        let mut i: usize = 0;
        let mut n: usize = 0;
        let ghost mut k: int = 0;
        proof {
            assert(old(self).leases_view().subrange(0, 0).filter(|l: Lease| !is_expired(l, now)) =~= Seq::<Lease>::empty()) by {
                reveal(Seq::filter);
            }
            assert(self.leases_view() =~= old(self).leases_view().subrange(0, 0).filter(|l: Lease| !is_expired(l, now))
                + old(self).leases_view().subrange(0, n0 as int));
        }
        while i < self.leases.len()
            invariant
                self.wf(),
                n0 == old(self).leases_view().len(),
                0 <= k <= n0,
                self.leases_view() == old(self).leases_view().subrange(0, k).filter(|l: Lease| !is_expired(l, now))
                    + old(self).leases_view().subrange(k, n0 as int),
                i == old(self).leases_view().subrange(0, k).filter(|l: Lease| !is_expired(l, now)).len(),
                i <= self.leases_view().len(),
                forall|j: int| 0 <= j < i ==> !is_expired(#[trigger] self.leases_view()[j], now),
                self.leases_view().len() + n == n0,
                old(self).all_within_cap() ==> self.all_within_cap(),
            decreases self.leases_view().len() - i,
        {
            let ghost before = self.leases_view();
            let ghost f = old(self).leases_view().subrange(0, k).filter(|l: Lease| !is_expired(l, now));
            let ghost rest = old(self).leases_view().subrange(k, n0 as int);
            proof {
                assert(before[i as int] == rest[0]);
                assert(rest[0] == old(self).leases_view()[k]);
                crate::order::lemma_filter_step(old(self).leases_view(), k, |l: Lease| !is_expired(l, now));
                assert(rest.drop_first() =~= old(self).leases_view().subrange(k + 1, n0 as int));
            }
            if now >= self.leases[i].expires_at {
                proof {
                    let l = self.leases_view()[i as int];
                    assert(self.budget_of(l.entity_id@) is Some);
                }
                let _ = self.settle_lease(i, 0, now, owned("Expired lease swept"));
                assert(self.leases_view().len() + 1 == before.len());
                n = n + 1;
                proof {
                    assert(self.leases_view() =~= f + rest.drop_first());
                    k = k + 1;
                    assert forall|j: int| 0 <= j < i implies !is_expired(#[trigger] self.leases_view()[j], now) by {
                        assert(self.leases_view()[j] == before[j]);
                    }
                }
            } else {
                proof {
                    assert(before =~= f.push(rest[0]) + rest.drop_first());
                    k = k + 1;
                }
                i = i + 1;
            }
        }
        proof {
            assert(old(self).leases_view().subrange(k, n0 as int).len() == 0);
            assert(old(self).leases_view().subrange(0, k) =~= old(self).leases_view());
            assert(self.leases_view() =~= old(self).leases_view().filter(|l: Lease| !is_expired(l, now)));
        }
        n
    }

    /// Freezes the budget of `entity_id`, so that it grants no new lease, and
    /// records a system-audit entry with `reason`.
    ///
    /// Fails with `BudgetExceeded` when the entity has no budget.
    pub fn freeze_budget(&mut self, entity_id: &str, reason: &str, now: u64) -> (r: Result<(), LedgerError>)
        requires
            old(self).wf(),
        ensures
            final(self).wf(),
            old(self).budget_of(entity_id@) is None <==> r is Err,
            r is Err ==> *final(self) == *old(self),
            r is Ok ==> {
                let ob = old(self).budget_of(entity_id@).unwrap();
                &&& final(self).budget_of(entity_id@) == Some(Budget { status: BudgetStatus::Frozen, updated_at: now, ..ob })
                &&& forall|e: Seq<char>| e != entity_id@ ==> #[trigger] final(self).budget_of(e) == old(self).budget_of(e)
                &&& final(self).leases_view() == old(self).leases_view()
                &&& final(self).entries_view().drop_last() == old(self).entries_view()
                &&& final(self).entries_view().len() == old(self).entries_view().len() + 1
                &&& final(self).entries_view().last().transaction_type == TransactionType::SystemAudit
                &&& final(self).entries_view().last().entity_id@ == entity_id@
                &&& final(self).entries_view().last().amount == 0
                &&& final(self).entries_view().last().lease_id is None
                &&& final(self).entries_view().last().details@ == "Budget Frozen: "@ + reason@
            },
            old(self).all_within_cap() ==> final(self).all_within_cap(),
    {
        let bi = match self.find_budget(entity_id) {
            Some(i) => i,
            None => {
                return Err(LedgerError::BudgetExceeded(owned("Budget missing during freeze")));
            },
        };
        let ghost old_self = *self;
        let mut b = clone_budget(&self.budgets[bi]);
        b.status = BudgetStatus::Frozen;
        b.updated_at = now;
        proof {
            assert(is_budget_of(self.budgets_view()[bi as int], entity_id@));
        }
        self.replace_budget(bi, b);
        let ghost mid = *self;
        let entry = LedgerEntry {
            timestamp: now,
            entity_id: owned(entity_id),
            lease_id: None,
            transaction_type: TransactionType::SystemAudit,
            amount: 0,
            details: concat("Budget Frozen: ", reason),
        };
        let ghost e = entry;
        self.entries.push(entry);
        proof {
            assert(self.budgets_view() == mid.budgets_view());
            assert forall|e2: Seq<char>| #[trigger] self.budget_of(e2) == mid.budget_of(e2) by {
                assert(self.budget_index(e2) == mid.budget_index(e2));
            }
            let mid = old_self.entries_view();
            assert(self.entries_view() == mid.push(e));
            assert(self.entries_view().drop_last() =~= mid);
            assert forall|j: int| 0 <= j < self.leases_view().len() implies {
                &&& count_entries(self.entries_view(), (#[trigger] self.leases_view()[j]).id@, TransactionType::Grant) == 1
                &&& count_entries(self.entries_view(), self.leases_view()[j].id@, TransactionType::Settlement) == 0
            } by {
                let lid = self.leases_view()[j].id@;
                lemma_count_push(mid, e, lid, TransactionType::Grant);
                lemma_count_push(mid, e, lid, TransactionType::Settlement);
            }
            assert forall|e2: Seq<char>| old_self.all_within_cap() implies #[trigger] self.within_cap(e2) by {
                assert(old_self.within_cap(e2));
            }
        }
        Ok(())
    }
}

} // verus!
