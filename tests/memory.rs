use zed42::memory::{apply_decay, rank_results, tier_relevance, MemoryResult, MemoryTier, UNIT};

fn hit(content: &str, tier: MemoryTier, relevance: i64) -> MemoryResult {
    MemoryResult { content: content.to_string(), tier, relevance_score: relevance, timestamp: 0, metadata: None }
}

#[test]
fn memory_recency_orders_working_before_session() {
    // a day-old session hit decays by half, the fresh working hit not at all
    let session = apply_decay(tier_relevance(MemoryTier::Session, 0), UNIT / 2);
    let working = apply_decay(tier_relevance(MemoryTier::Working, 0), UNIT);
    assert_eq!(session, 400_000);
    assert_eq!(working, 1_000_000);
    let ranked = rank_results(&vec![hit("alpha-session", MemoryTier::Session, session), hit("alpha-working", MemoryTier::Working, working)], 5);
    assert_eq!(ranked.len(), 2);
    assert_eq!(ranked[0].tier, MemoryTier::Working);
    assert_eq!(ranked[1].tier, MemoryTier::Session);
    assert_eq!(ranked[1].relevance_score, 400_000);
}

#[test]
fn ties_keep_their_order() {
    let input = vec![
        hit("a", MemoryTier::Archive, 500_000),
        hit("b", MemoryTier::Session, 800_000),
        hit("c", MemoryTier::Archive, 500_000),
        hit("d", MemoryTier::Archive, 500_000),
    ];
    let first: Vec<String> = rank_results(&input, 5).into_iter().map(|r| r.content).collect();
    let second: Vec<String> = rank_results(&input, 5).into_iter().map(|r| r.content).collect();
    assert_eq!(first, vec!["b", "a", "c", "d"]);
    assert_eq!(first, second);
}

#[test]
fn at_most_four_per_requested_result() {
    let input: Vec<MemoryResult> = (0..10).map(|i| hit(&i.to_string(), MemoryTier::Archive, i)).collect();
    let ranked = rank_results(&input, 2);
    assert_eq!(ranked.len(), 8);
    assert_eq!(ranked[0].content, "9");
    assert_eq!(ranked[7].content, "2");
    assert!(rank_results(&input, 0).is_empty());
    assert!(rank_results(&Vec::new(), 3).is_empty());
}

#[test]
fn tier_relevances() {
    assert_eq!(tier_relevance(MemoryTier::Working, 0), 1_000_000);
    assert_eq!(tier_relevance(MemoryTier::Session, 0), 800_000);
    assert_eq!(tier_relevance(MemoryTier::Project, 900_000), 630_000);
    assert_eq!(tier_relevance(MemoryTier::Archive, 0), 500_000);
    assert_eq!(apply_decay(800_000, 250_000), 200_000);
    assert_eq!(apply_decay(0, UNIT), 0);
}

use zed42::memory::{MemorySubstrate, TierHit};

#[test]
fn unified_query_recency_scenario() {
    let day = 86_400;
    let mut m = MemorySubstrate::working_only();
    m.store_working("alpha".to_string(), "{\"hot\":true}".to_string(), (day as u64) * 1000);
    let session = vec![(TierHit { content: "{\"row\":\"alpha\"}".to_string(), timestamp: 0, metadata: None }, 0)];
    let hits = m.gather("alpha", 5, day, (day as u64) * 1000, &session, &Vec::new(), &Vec::new());
    assert_eq!(hits.len(), 2);
    assert_eq!(hits[0].tier, MemoryTier::Working);
    assert_eq!(hits[0].relevance_score, UNIT);
    assert_eq!(hits[1].relevance_score, 800_000);
    // half-weight after a day, as in the scenario
    let decayed: Vec<MemoryResult> = hits
        .into_iter()
        .map(|mut h| {
            let factor = if h.timestamp == day { UNIT } else { UNIT / 2 };
            h.relevance_score = apply_decay(h.relevance_score, factor);
            h
        })
        .collect();
    let ranked = rank_results(&decayed, 5);
    assert_eq!(ranked[0].tier, MemoryTier::Working);
    assert_eq!(ranked[1].tier, MemoryTier::Session);
    assert_eq!(ranked[1].relevance_score, 400_000);
}

#[test]
fn gather_limits_each_tier() {
    let mut m = MemorySubstrate::working_only();
    let hit = |c: &str| TierHit { content: c.to_string(), timestamp: 0, metadata: None };
    let project = vec![(hit("p1"), 1_000_000), (hit("p2"), 500_000), (hit("p3"), 0)];
    let archive = vec![(hit("a1"), 0), (hit("a2"), 0), (hit("a3"), 0)];
    let hits = m.gather("missing", 2, 0, 0, &Vec::new(), &project, &archive);
    let got: Vec<(String, i64)> = hits.into_iter().map(|h| (h.content, h.relevance_score)).collect();
    assert_eq!(
        got,
        vec![("p1".to_string(), 700_000), ("p2".to_string(), 350_000), ("a1".to_string(), 500_000), ("a2".to_string(), 500_000)]
    );
}

#[test]
fn test_working_only_substrate() {
    let mut substrate = MemorySubstrate::working_only();
    // works with only the hot tier
    substrate.store_working("test".to_string(), "{\"data\":\"test\"}".to_string(), 0);
    let value = substrate.working.get("test", 1);
    assert!(value.is_some());
    // no other tier is attached
    assert!(substrate.knowledge_graph.is_none());
}

#[test]
fn extreme_relevances_rank_in_order() {
    let input = vec![hit("low", MemoryTier::Archive, i64::MIN), hit("high", MemoryTier::Archive, i64::MAX), hit("mid", MemoryTier::Archive, 0)];
    let got: Vec<String> = rank_results(&input, 1).into_iter().map(|r| r.content).collect();
    assert_eq!(got, vec!["high", "mid", "low"]);
}
