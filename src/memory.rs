//! Merging of the unified memory query: tier relevance, recency decay and a
//! deterministic ranking. Relevances are fixed-point integers in millionths
//! (1.0 is `1_000_000`).
use vstd::prelude::*;
use crate::order::{stable_order, strictly_ordered, lists};

verus! {

/// One in fixed-point millionths.
pub const UNIT: i64 = 1_000_000;

/// The four memory tiers.
#[derive(Clone, Copy, Debug, PartialEq, Eq, Structural)]
pub enum MemoryTier {
    Working,
    Session,
    Project,
    Archive,
}

/// One hit of the unified query.
#[derive(Clone, Debug)]
pub struct MemoryResult {
    /// The hit, as JSON text.
    pub content: String,
    pub tier: MemoryTier,
    /// Relevance in millionths.
    pub relevance_score: i64,
    /// Creation instant, in seconds since the Unix epoch.
    pub timestamp: i64,
    /// Metadata, as JSON text.
    pub metadata: Option<String>,
}

/// Base relevance of a hit of `tier`, in millionths: 1.0 for an exact key in
/// working memory, 0.8 for a full-text hit, 0.7 times the similarity for a
/// semantic hit, and 0.5 for an archive hit.
pub open spec fn tier_relevance_spec(tier: MemoryTier, similarity: i64) -> int {
    match tier {
        MemoryTier::Working => UNIT as int,
        MemoryTier::Session => 800_000,
        MemoryTier::Project => similarity as int * 7 / 10,
        MemoryTier::Archive => 500_000,
    }
}

/// Base relevance of a hit of `tier` with `similarity` (in millionths, only
/// read for the project tier).
pub fn tier_relevance(tier: MemoryTier, similarity: i64) -> (r: i64)
    requires
        0 <= similarity <= UNIT,
    ensures
        r == tier_relevance_spec(tier, similarity),
{
    match tier {
        MemoryTier::Working => UNIT,
        MemoryTier::Session => 800_000,
        MemoryTier::Project => similarity * 7 / 10,
        MemoryTier::Archive => 500_000,
    }
}

/// `relevance` scaled by a decay `factor`, both in millionths, rounded down.
pub fn apply_decay(relevance: i64, factor: i64) -> (r: i64)
    requires
        0 <= relevance <= UNIT,
        0 <= factor <= UNIT,
    ensures
        r == relevance * factor / (UNIT as int),
        0 <= r <= relevance,
{
    proof {
        assert(0 <= relevance * factor <= relevance * UNIT) by (nonlinear_arith)
            requires 0 <= relevance <= UNIT, 0 <= factor <= UNIT;
        assert(relevance * factor / (UNIT as int) <= relevance) by (nonlinear_arith)
            requires 0 <= relevance * factor <= relevance * UNIT, 0 <= relevance;
    }
    relevance * factor / UNIT
}

/// The ranking keys of `results`: minus one minus the relevance, so that
/// ascending keys are descending relevance (and every key fits an `i64`).
pub open spec fn rank_keys(results: Seq<MemoryResult>) -> Seq<i64> {
    Seq::new(results.len(), |i: int| (-1 - results[i].relevance_score) as i64)
}

fn copy_result(m: &MemoryResult) -> (r: MemoryResult)
    ensures
        r == *m,
{
    MemoryResult {
        content: m.content.clone(),
        tier: m.tier,
        relevance_score: m.relevance_score,
        timestamp: m.timestamp,
        metadata: match &m.metadata {
            Some(s) => Some(s.clone()),
            None => None,
        },
    }
}

/// Orders `results` by relevance, highest first, hits of equal relevance in
/// the order given, and keeps at most `4 * max_results` of them.
///
/// The order is a function of the input sequence: the positions picked are
/// the only ones strictly ordered by (relevance descending, position).
pub fn rank_results(results: &Vec<MemoryResult>, max_results: usize) -> (r: Vec<MemoryResult>)
    ensures
        r@.len() as int == if (results@.len() as int) < 4 * max_results { results@.len() as int } else { 4 * max_results },
        exists|order: Seq<usize>| {
            &&& order.len() == results@.len()
            &&& strictly_ordered(rank_keys(results@), order)
            &&& forall|p: int| 0 <= p < results@.len() ==> #[trigger] lists(order, p)
            &&& forall|i: int| 0 <= i < r@.len() ==> #[trigger] r@[i] == results@[order[i] as int]
        },
        forall|i: int, j: int| 0 <= i < j < r@.len() ==> (#[trigger] r@[i]).relevance_score >= (#[trigger] r@[j]).relevance_score,
{
    let mut keys: Vec<i64> = Vec::new();
    let mut i: usize = 0;
    while i < results.len()
        invariant
            i <= results@.len(),
            keys@.len() == i,
            forall|k: int| 0 <= k < i ==> keys@[k] == -1 - (#[trigger] results@[k]).relevance_score,
        decreases results@.len() - i,
    {
        keys.push(-1 - results[i].relevance_score);
        i = i + 1;
    }
    assert(keys@ =~= rank_keys(results@));
    let order = stable_order(&keys);
    let limit: usize = if max_results > usize::MAX / 4 { usize::MAX } else { 4 * max_results };
    let mut out: Vec<MemoryResult> = Vec::new();
    let mut k: usize = 0;
    while k < order.len() && k < limit
        invariant
            order@.len() == results@.len(),
            strictly_ordered(keys@, order@),
            keys@ == rank_keys(results@),
            k <= order@.len(),
            k <= limit,
            limit as int == if max_results > usize::MAX / 4 { usize::MAX as int } else { 4 * max_results },
            out@.len() == k,
            forall|t: int| 0 <= t < k ==> #[trigger] out@[t] == results@[order@[t] as int],
        decreases order@.len() - k,
    {
        out.push(copy_result(&results[order[k]]));
        k = k + 1;
    }
    proof {
        assert forall|a: int, b: int| 0 <= a < b < out@.len() implies (#[trigger] out@[a]).relevance_score
            >= (#[trigger] out@[b]).relevance_score by {
            assert(crate::order::before(keys@, order@[a], order@[b]));
        }
    }
    out
}

/// The ranking is deterministic, ties included: the order that
/// `rank_results` promises is the only one, so the same hits always come
/// out in the same order.
pub proof fn lemma_ranking_deterministic(results: Seq<MemoryResult>, o1: Seq<usize>, o2: Seq<usize>)
    requires
        o1.len() == results.len(),
        o2.len() == results.len(),
        strictly_ordered(rank_keys(results), o1),
        strictly_ordered(rank_keys(results), o2),
        forall|p: int| 0 <= p < results.len() ==> #[trigger] lists(o1, p),
        forall|p: int| 0 <= p < results.len() ==> #[trigger] lists(o2, p),
    ensures
        o1 == o2,
{
    let keys = rank_keys(results);
    assert forall|p: int| #[trigger] lists(o1, p) <==> lists(o2, p) by {
        if lists(o1, p) {
            let i = choose|i: int| 0 <= i < o1.len() && o1[i] == p;
            assert(o1[i] < keys.len());
        }
        if lists(o2, p) {
            let i = choose|i: int| 0 <= i < o2.len() && o2[i] == p;
            assert(o2[i] < keys.len());
        }
    }
    crate::order::lemma_stable_order_unique(keys, o1, o2);
}

/// A hit of the session, project or archive tier before weighting.
#[derive(Clone, Debug)]
pub struct TierHit {
    /// The hit, as JSON text.
    pub content: String,
    /// Creation instant, in seconds since the Unix epoch.
    pub timestamp: i64,
    /// Metadata, as JSON text.
    pub metadata: Option<String>,
}

/// The first `max` hits of `hits` as results of `tier`, each with the
/// tier's relevance (the project tier's scaled by the hit's similarity).
pub open spec fn weighted(hits: Seq<(TierHit, i64)>, tier: MemoryTier, max: nat) -> Seq<MemoryResult> {
    let n: nat = if hits.len() < max { hits.len() } else { max };
    Seq::new(
        n,
        |i: int|
            MemoryResult {
                content: hits[i].0.content,
                tier,
                relevance_score: tier_relevance_spec(tier, hits[i].1) as i64,
                timestamp: hits[i].0.timestamp,
                metadata: hits[i].0.metadata,
            },
    )
}

fn copy_hit(h: &TierHit) -> (r: TierHit)
    ensures
        r == *h,
{
    TierHit {
        content: h.content.clone(),
        timestamp: h.timestamp,
        metadata: match &h.metadata {
            Some(s) => Some(s.clone()),
            None => None,
        },
    }
}

/// Appends the first `max` hits of `hits` to `out` as results of `tier`.
fn push_weighted(out: &mut Vec<MemoryResult>, hits: &Vec<(TierHit, i64)>, tier: MemoryTier, max: usize)
    requires
        forall|i: int| 0 <= i < hits@.len() ==> 0 <= (#[trigger] hits@[i]).1 <= UNIT,
    ensures
        final(out)@ == old(out)@ + weighted(hits@, tier, max as nat),
{
    let ghost base = out@;
    let mut i: usize = 0;
    while i < hits.len() && i < max
        invariant
            i <= hits@.len(),
            i <= max,
            forall|k: int| 0 <= k < hits@.len() ==> 0 <= (#[trigger] hits@[k]).1 <= UNIT,
            out@ == base + weighted(hits@, tier, max as nat).subrange(0, i as int),
        decreases hits@.len() - i,
    {
        let h = copy_hit(&hits[i].0);
        let rel = tier_relevance(tier, hits[i].1);
        out.push(MemoryResult { content: h.content, tier, relevance_score: rel, timestamp: h.timestamp, metadata: h.metadata });
        proof {
            let w = weighted(hits@, tier, max as nat);
            assert(w.subrange(0, i as int + 1) =~= w.subrange(0, i as int).push(w[i as int]));
            assert(out@ =~= base + w.subrange(0, i as int + 1));
        }
        i = i + 1;
    }
    proof {
        let w = weighted(hits@, tier, max as nat);
        assert(w.subrange(0, i as int) =~= w);
    }
}

/// The unified memory: the hot tier held here, the other tiers' hits handed
/// in by the caller.
pub struct MemorySubstrate {
    pub working: crate::working::WorkingMemory,
    /// The project tier, when one is attached.
    pub knowledge_graph: Option<crate::graph::KnowledgeGraph>,
}

impl MemorySubstrate {
    /// A substrate with an empty hot tier and no other tier.
    pub fn working_only() -> (r: Self)
        ensures
            r.working.wf(),
            r.working.view().len() == 0,
            r.knowledge_graph is None,
    {
        MemorySubstrate { working: crate::working::WorkingMemory::new(), knowledge_graph: None }
    }

    /// Stores `value` under `key` in the hot tier at full importance.
    pub fn store_working(&mut self, key: String, value: String, now_ms: u64)
        requires
            old(self).working.wf(),
        ensures
            final(self).working.wf(),
            final(self).working.cap() == old(self).working.cap(),
            exists|e: crate::working::CacheEntry| {
                &&& e.key@ == key@
                &&& e.value@ == value@
                &&& !e.is_pinned
                &&& e.importance_weight == 1_000_000
                &&& e.last_accessed == now_ms
                &&& e.access_count == 1
                &&& #[trigger] crate::working::stored_then_evicted(old(self).working.view(), e, final(self).working.view(), now_ms)
            },
    {
        self.working.insert(key, value, 1_000_000, false, now_ms);
    }

    /// The hits of one query before recency decay: an exact key hit of the
    /// hot tier at full relevance, stamped `now_secs`, then at most
    /// `max_results` hits of the session tier (0.8), of the project tier
    /// (0.7 times their similarity) and of the archive tier (0.5), in that
    /// order.
    pub fn gather(
        &mut self,
        query_text: &str,
        max_results: usize,
        now_secs: i64,
        now_ms: u64,
        session: &Vec<(TierHit, i64)>,
        project: &Vec<(TierHit, i64)>,
        archive: &Vec<(TierHit, i64)>,
    ) -> (r: Vec<MemoryResult>)
        requires
            old(self).working.wf(),
            forall|i: int| 0 <= i < project@.len() ==> 0 <= (#[trigger] project@[i]).1 <= UNIT,
            forall|i: int| 0 <= i < session@.len() ==> 0 <= (#[trigger] session@[i]).1 <= UNIT,
            forall|i: int| 0 <= i < archive@.len() ==> 0 <= (#[trigger] archive@[i]).1 <= UNIT,
        ensures
            final(self).working.wf(),
            ({
                let rest = weighted(session@, MemoryTier::Session, max_results as nat) + weighted(
                    project@,
                    MemoryTier::Project,
                    max_results as nat,
                ) + weighted(archive@, MemoryTier::Archive, max_results as nat);
                if old(self).working.has_key(query_text@) {
                    &&& r@.len() == rest.len() + 1
                    &&& r@[0].tier == MemoryTier::Working
                    &&& r@[0].relevance_score == UNIT
                    &&& r@[0].timestamp == now_secs
                    &&& r@.drop_first() == rest
                } else {
                    r@ == rest
                }
            }),
    {
        let mut out: Vec<MemoryResult> = Vec::new();
        match self.working.get(query_text, now_ms) {
            Some(v) => {
                out.push(MemoryResult { content: v, tier: MemoryTier::Working, relevance_score: UNIT, timestamp: now_secs, metadata: None });
            },
            None => {},
        }
        let ghost first = out@;
        push_weighted(&mut out, session, MemoryTier::Session, max_results);
        push_weighted(&mut out, project, MemoryTier::Project, max_results);
        push_weighted(&mut out, archive, MemoryTier::Archive, max_results);
        proof {
            let rest = weighted(session@, MemoryTier::Session, max_results as nat) + weighted(
                project@,
                MemoryTier::Project,
                max_results as nat,
            ) + weighted(archive@, MemoryTier::Archive, max_results as nat);
            assert(out@ =~= first + rest);
            if first.len() == 1 {
                assert(out@.drop_first() =~= rest);
            }
        }
        out
    }
}

} // verus!
