use zed42::working::{priority_of, CacheEntry, WorkingMemory, MAX_MEMORY_BYTES};

const HALF: u32 = 500_000;

fn big(i: usize) -> String {
    format!("{{\"index\":{},\"data\":[{}]}}", i, vec!["\"x\""; 1000].join(","))
}

#[test]
fn working_test_insert_and_get() {
    let mut memory = WorkingMemory::new();
    let value = "{\"test\":\"data\"}".to_string();
    memory.insert("key1".to_string(), value.clone(), HALF, false, 0);
    let retrieved = memory.get("key1", 1).unwrap();
    assert_eq!(retrieved, value);
}

#[test]
fn test_pinned_not_evicted() {
    let mut memory = WorkingMemory::new();
    memory.insert("pinned".to_string(), "{\"important\":true}".to_string(), 1_000_000, true, 0);
    for i in 0..1000 {
        memory.insert(format!("key{}", i), big(i), 100_000, false, i as u64);
    }
    assert!(memory.contains("pinned"));
}

#[test]
fn test_lru_eviction() {
    let mut memory = WorkingMemory::new();
    for i in 0..1000 {
        memory.insert(format!("key{}", i), big(i), HALF, false, i as u64);
    }
    let stats = memory.stats();
    assert!(stats.total_size_bytes <= MAX_MEMORY_BYTES as u128);
}

#[test]
fn pinned_entry_survives_eviction_pressure() {
    let mut memory = WorkingMemory::with_capacity(50_000);
    memory.insert("pinned".to_string(), "{\"important\":true}".to_string(), 1_000_000, true, 0);
    for i in 0..1000 {
        memory.insert(format!("key{}", i), big(i), 100_000, false, i as u64);
    }
    assert!(memory.contains("pinned"));
    assert!(memory.stats().total_size_bytes <= 50_000);
}

#[test]
fn eviction_keeps_the_total_within_capacity() {
    let mut memory = WorkingMemory::with_capacity(100_000);
    for i in 0..1000 {
        memory.insert(format!("key{}", i), big(i), HALF, false, i as u64);
    }
    let stats = memory.stats();
    assert!(stats.total_size_bytes <= 100_000);
    assert!(stats.entry_count < 1000);
    // the most recent entry survives
    assert!(memory.contains("key999"));
}

#[test]
fn test_access_updates_recency() {
    let mut memory = WorkingMemory::new();
    memory.insert("key1".to_string(), "{\"data\":1}".to_string(), HALF, false, 0);
    memory.insert("key2".to_string(), "{\"data\":2}".to_string(), HALF, false, 0);
    for t in 0..10 {
        memory.get("key1", t);
    }
    assert!(memory.contains("key1"));
    assert!(memory.contains("key2"));
}

#[test]
fn test_remove() {
    let mut memory = WorkingMemory::new();
    memory.insert("key1".to_string(), "{\"data\":1}".to_string(), HALF, false, 0);
    assert!(memory.contains("key1"));
    memory.remove("key1");
    assert!(!memory.contains("key1"));
}

#[test]
fn test_clear_preserves_pinned() {
    let mut memory = WorkingMemory::new();
    memory.insert("pinned".to_string(), "{\"pin\":true}".to_string(), 1_000_000, true, 0);
    memory.insert("normal".to_string(), "{\"pin\":false}".to_string(), HALF, false, 0);
    memory.clear();
    assert!(memory.contains("pinned"));
    assert!(!memory.contains("normal"));
}

#[test]
fn working_test_stats() {
    let mut memory = WorkingMemory::new();
    for i in 0..10 {
        memory.insert(format!("key{}", i), format!("{{\"data\":{}}}", i), HALF, i < 2, 0);
    }
    let stats = memory.stats();
    assert_eq!(stats.entry_count, 10);
    assert_eq!(stats.pinned_count, 2);
    assert_eq!(stats.capacity_bytes, MAX_MEMORY_BYTES);
    let utilization_pct = stats.total_size_bytes as f64 / stats.capacity_bytes as f64 * 100.0;
    assert!(utilization_pct >= 0.0 && utilization_pct <= 100.0);
}

#[test]
fn replacing_a_key_keeps_one_entry_and_the_size_in_step() {
    let mut memory = WorkingMemory::new();
    memory.insert("k".to_string(), "12345".to_string(), HALF, false, 0);
    assert_eq!(memory.stats().total_size_bytes, 6);
    memory.insert("k".to_string(), "1".to_string(), HALF, false, 1);
    let stats = memory.stats();
    assert_eq!(stats.entry_count, 1);
    assert_eq!(stats.total_size_bytes, 2);
    assert_eq!(memory.get("k", 2).as_deref(), Some("1"));
}

#[test]
fn only_pinned_entries_may_stay_over_capacity() {
    let mut memory = WorkingMemory::with_capacity(10);
    memory.insert("p".to_string(), "0123456789".to_string(), HALF, true, 0);
    memory.insert("q".to_string(), "x".to_string(), HALF, false, 1);
    assert!(memory.contains("p"));
    assert!(!memory.contains("q"));
    assert_eq!(memory.stats().entry_count, 1);
}

#[test]
fn eviction_priority_formula() {
    let e = CacheEntry {
        key: "k".to_string(),
        value: "v".to_string(),
        last_accessed: 0,
        access_count: 3,
        importance_weight: 500_000,
        is_pinned: false,
        estimated_size: 2,
        created_at: 0,
    };
    // idle 999 ms: recency 1_000_000; ln(1 + 3) = 1.386294 in millionths; importance 500_000
    assert_eq!(priority_of(&e, 999), (4 * 1_000_000 + 3 * 1_386_294 + 3 * 500_000) / 10);
}

#[test]
fn access_logarithm_is_close_to_ln() {
    let mut e = CacheEntry {
        key: "k".to_string(),
        value: "v".to_string(),
        last_accessed: 0,
        access_count: 2,
        importance_weight: 0,
        is_pinned: false,
        estimated_size: 2,
        created_at: 0,
    };
    // idle 9_999_999 ms gives recency 100; ln(3) = 1.098612
    assert_eq!(priority_of(&e, 9_999_999), (4 * 100 + 3 * 1_098_610) / 10);
    e.access_count = 0;
    assert_eq!(priority_of(&e, 9_999_999), (4 * 100) / 10);
}
