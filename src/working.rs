//! Working memory, the hot tier: a bounded key-value cache whose eviction
//! weighs recency, use and importance, and never touches pinned entries.
//! Values are JSON text; instants are milliseconds.
use vstd::prelude::*;
use crate::text::str_eq;
use crate::router::pow2;

verus! {

/// Capacity of the cache in estimated bytes (500 MiB).
pub const MAX_MEMORY_BYTES: usize = 524_288_000;

/// One cached value and what eviction weighs.
#[derive(Clone, Debug)]
pub struct CacheEntry {
    pub key: String,
    pub value: String,
    pub last_accessed: u64,
    pub access_count: u32,
    /// Importance in millionths, from 0 to 1_000_000.
    pub importance_weight: u32,
    pub is_pinned: bool,
    pub estimated_size: usize,
    pub created_at: u64,
}

/// Usage figures of the cache.
#[derive(Clone, Copy, Debug)]
pub struct CacheStats {
    pub entry_count: usize,
    pub pinned_count: usize,
    pub total_size_bytes: u128,
    pub capacity_bytes: usize,
}

/// One in the fixed point of binary logarithms (16 fractional bits).
pub const LOG_ONE: u64 = 65536;

/// The largest power of two at most `x`, and its exponent, searched upward
/// from `p` = 2 to the `k`.
pub open spec fn top_power(x: nat, p: nat, k: nat) -> (nat, nat)
    decreases x - p,
{
    if p >= 1 && p * 2 <= x { top_power(x, p * 2, k + 1) } else { (p, k) }
}

/// The first `n` fractional bits of the binary logarithm of `y / LOG_ONE`,
/// for `LOG_ONE <= y < 2 * LOG_ONE`, by repeated squaring: squaring the
/// mantissa doubles its logarithm, and a square of two or more yields a
/// one bit.
pub open spec fn frac_bits(y: nat, n: nat) -> nat
    decreases n,
{
    if n == 0 {
        0
    } else {
        let z = y * y / (LOG_ONE as nat);
        if z >= 2 * LOG_ONE {
            pow2((n - 1) as nat) + frac_bits(z / 2, (n - 1) as nat)
        } else {
            frac_bits(z, (n - 1) as nat)
        }
    }
}

/// The natural logarithm of `x >= 1` in millionths: its binary logarithm
/// to 16 fractional bits times ln 2, rounded down.
pub open spec fn ln_micro(x: nat) -> int {
    let (p, k) = top_power(x, 1, 0);
    let y = x * (LOG_ONE as nat) / p;
    (k * (LOG_ONE as nat) + frac_bits(y, 16)) as int * 693_147 / (LOG_ONE as int)
}

/// Eviction priority of `e` at `now` in millionths, lower evicted first:
/// 0.4 times the recency score (one over the idle seconds), plus 0.3 times
/// the natural logarithm of one plus the access count, plus 0.3 times the
/// importance.
pub open spec fn eviction_priority(e: CacheEntry, now: u64) -> int {
    let idle_ms: int = if now >= e.last_accessed { now - e.last_accessed } else { 0 };
    let recency: int = 1_000_000_000int / (idle_ms + 1);
    let access: int = ln_micro(1 + (e.access_count as nat));
    (4 * recency + 3 * access + 3 * e.importance_weight as int) / 10
}

proof fn lemma_frac_bits_bound(y: nat, n: nat)
    ensures
        frac_bits(y, n) < pow2(n),
    decreases n,
{
    if n > 0 {
        let z = y * y / (LOG_ONE as nat);
        lemma_frac_bits_bound(z / 2, (n - 1) as nat);
        lemma_frac_bits_bound(z, (n - 1) as nat);
    }
}

/// The natural logarithm of `x` in millionths, as `ln_micro` states.
fn ln_micro_of(x: u64) -> (r: u64)
    requires
        1 <= x <= 0x1_0000_0000u64,
    ensures
        r == ln_micro((x as nat)),
{
    let mut p: u64 = 1;
    let mut k: u64 = 0;
    while p * 2 <= x
        invariant
            1 <= p <= x,
            x <= 0x1_0000_0000u64,
            k + 1 <= p,
            p == pow2(k as nat),
            top_power(x as nat, p as nat, k as nat) == top_power(x as nat, 1, 0),
        decreases x - p,
    {
        proof {
            assert(pow2((k + 1) as nat) == 2 * pow2(k as nat));
        }
        p = p * 2;
        k = k + 1;
    }
    proof {
        assert(top_power((x as nat), (p as nat), (k as nat)) == ((p as nat), (k as nat)));
        assert((x as nat) * (LOG_ONE as nat) / (p as nat) >= (LOG_ONE as nat)) by (nonlinear_arith)
            requires (p as nat) <= (x as nat), p >= 1;
        assert((x as nat) * (LOG_ONE as nat) / (p as nat) < 2 * (LOG_ONE as nat)) by (nonlinear_arith)
            requires x < 2 * p, p >= 1;
        assert((x as nat) * (LOG_ONE as nat) <= (0x1_0000_0000u64 as nat) * 65536) by (nonlinear_arith)
            requires x <= 0x1_0000_0000u64;
    }
    let y0: u64 = x * LOG_ONE / p;
    let mut y: u64 = y0;
    let mut n: u64 = 16;
    let mut acc: u64 = 0;
    let mut w: u64 = 32768;
    proof {
        lemma_frac_bits_bound((y0 as nat), 16);
        reveal_with_fuel(pow2, 17);
        assert(pow2(16) == 65536);
        assert(pow2(15) == 32768);
    }
    while n > 0
        invariant
            LOG_ONE <= y < 2 * LOG_ONE,
            n <= 16,
            n > 0 ==> w == pow2((n - 1) as nat),
            (acc as nat) + frac_bits((y as nat), (n as nat)) == frac_bits((y0 as nat), 16),
            frac_bits((y0 as nat), 16) < 65536,
        decreases n,
    {
        proof {
            assert(y * y < 4 * LOG_ONE * LOG_ONE) by (nonlinear_arith)
                requires y < 2 * LOG_ONE;
            assert((y as nat) * (y as nat) / (LOG_ONE as nat) >= (LOG_ONE as nat)) by (nonlinear_arith)
                requires y >= LOG_ONE;
            assert((y as nat) * (y as nat) / (LOG_ONE as nat) < 4 * (LOG_ONE as nat)) by (nonlinear_arith)
                requires (y as nat) * (y as nat) < 4 * (LOG_ONE as nat) * (LOG_ONE as nat);
            lemma_frac_bits_bound((y as nat), (n as nat));
        }
        let z: u64 = y * y / LOG_ONE;
        if z >= 2 * LOG_ONE {
            acc = acc + w;
            y = z / 2;
        } else {
            y = z;
        }
        proof {
            if n >= 2 {
                assert(pow2((n - 1) as nat) == 2 * pow2((n - 2) as nat));
            }
        }
        n = n - 1;
        w = w / 2;
    }
    proof {
        assert(frac_bits((y as nat), 0) == 0);
        assert(((k as nat) * (LOG_ONE as nat) + (acc as nat)) * 693_147 / 65536 <= ((k as nat) + 1) * 693_147) by (nonlinear_arith)
            requires acc < 65536;
        assert(((k as nat) + 1) * 693_147 <= 0x1_0000_0001u64 * 693_147) by (nonlinear_arith)
            requires k + 1 <= 0x1_0000_0000u64;
    }
    ((k as u128 * LOG_ONE as u128 + acc as u128) * 693_147 / LOG_ONE as u128) as u64
}



/// Eviction priority of `e` at `now`.
pub fn priority_of(e: &CacheEntry, now: u64) -> (r: u64)
    ensures
        r == eviction_priority(*e, now),
{
    let idle: u64 = if now >= e.last_accessed { now - e.last_accessed } else { 0 };
    let recency: u64 = 1_000_000_000 / (if idle == u64::MAX { u64::MAX } else { idle + 1 });
    proof {
        if idle == u64::MAX {
            assert(1_000_000_000int / (idle as int + 1) == 0) by (nonlinear_arith)
                requires idle as int + 1 > 1_000_000_000int;
            assert(1_000_000_000int / (u64::MAX as int) == 0) by (nonlinear_arith);
        }
        assert(recency <= 1_000_000_000);
    }
    let lg = ln_micro_of(1 + e.access_count as u64);
    ((4 * recency as u128 + 3 * lg as u128 + 3 * e.importance_weight as u128) / 10) as u64
}

/// Sum of the estimated sizes of `s`.
pub open spec fn size_sum(s: Seq<CacheEntry>) -> int
    decreases s.len(),
{
    if s.len() == 0 { 0 } else { size_sum(s.drop_last()) + s.last().estimated_size as int }
}

proof fn lemma_size_push(s: Seq<CacheEntry>, e: CacheEntry)
    ensures
        size_sum(s.push(e)) == size_sum(s) + e.estimated_size,
{
    assert(s.push(e).drop_last() =~= s);
}

proof fn lemma_size_remove(s: Seq<CacheEntry>, i: int)
    requires
        0 <= i < s.len(),
    ensures
        size_sum(s.remove(i)) == size_sum(s) - s[i].estimated_size,
    decreases s.len(),
{
    if i == s.len() - 1 {
        assert(s.remove(i) =~= s.drop_last());
    } else {
        lemma_size_remove(s.drop_last(), i);
        assert(s.remove(i).drop_last() =~= s.drop_last().remove(i));
    }
}

proof fn lemma_size_nonneg(s: Seq<CacheEntry>)
    ensures
        0 <= size_sum(s) <= s.len() * (usize::MAX as int),
    decreases s.len(),
{
    if s.len() > 0 {
        lemma_size_nonneg(s.drop_last());
        assert(s.len() * (usize::MAX as int) == (s.len() - 1) * (usize::MAX as int) + usize::MAX) by (nonlinear_arith)
            requires s.len() >= 1;
    }
}

/// Whether `s` holds an entry with key `k`.
pub open spec fn seq_has_key(s: Seq<CacheEntry>, k: Seq<char>) -> bool {
    exists|i: int| 0 <= i < s.len() && (#[trigger] s[i]).key@ == k
}

/// Whether `e` is one of the entries of `s`, with all its fields.
pub open spec fn kept(s: Seq<CacheEntry>, e: CacheEntry) -> bool {
    exists|j: int| 0 <= j < s.len() && #[trigger] s[j] == e
}

/// Whether `e` ranks at most as high as every unpinned entry of `s` at `now`.
pub open spec fn lowest(e: CacheEntry, s: Seq<CacheEntry>, now: u64) -> bool {
    forall|j: int| 0 <= j < s.len() && !(#[trigger] s[j]).is_pinned ==> eviction_priority(e, now) <= eviction_priority(s[j], now)
}

/// Whether every entry of `a` missing from `b` was unpinned and ranks at
/// most as high as every unpinned entry left in `b`.
pub open spec fn evicted_lowest(a: Seq<CacheEntry>, b: Seq<CacheEntry>, now: u64) -> bool {
    forall|i: int| 0 <= i < a.len() && !kept(b, #[trigger] a[i]) ==> !a[i].is_pinned && lowest(a[i], b, now)
}

/// Whether `fin` is `old` with `e` stored under its key and then evicted
/// from: `e` and every other entry of `old` are kept, unless evicted as
/// unpinned entries of lowest priority.
pub open spec fn stored_then_evicted(old: Seq<CacheEntry>, e: CacheEntry, fin: Seq<CacheEntry>, now: u64) -> bool {
    &&& (kept(fin, e) || (!e.is_pinned && lowest(e, fin, now)))
    &&& forall|i: int| 0 <= i < old.len() && (#[trigger] old[i]).key@ != e.key@ ==> kept(fin, old[i]) || (!old[i].is_pinned
        && lowest(old[i], fin, now))
}

proof fn lemma_evict_step(o: Seq<CacheEntry>, before: Seq<CacheEntry>, v: int, now: u64)
    requires
        evicted_lowest(o, before, now),
        0 <= v < before.len(),
        !before[v].is_pinned,
        lowest(before[v], before, now),
    ensures
        evicted_lowest(o, before.remove(v), now),
{
    let after = before.remove(v);
    assert forall|i: int| 0 <= i < o.len() && !kept(after, #[trigger] o[i]) implies !o[i].is_pinned && lowest(o[i], after, now) by {
        assert forall|j: int| 0 <= j < after.len() && !(#[trigger] after[j]).is_pinned implies eviction_priority(o[i], now)
            <= eviction_priority(after[j], now) by {
            let j2 = if j < v { j } else { j + 1 };
            assert(after[j] == before[j2]);
            if kept(before, o[i]) {
                let x = choose|x: int| 0 <= x < before.len() && before[x] == o[i];
                if x != v {
                    let x2 = if x < v { x } else { x - 1 };
                    assert(after[x2] == before[x]);
                }
            }
        }
        if kept(before, o[i]) {
            let x = choose|x: int| 0 <= x < before.len() && before[x] == o[i];
            if x != v {
                let x2 = if x < v { x } else { x - 1 };
                assert(after[x2] == before[x]);
            }
        }
    }
}

/// Whether every entry of `a` is an entry of `b`.
pub open spec fn drawn_from(a: Seq<CacheEntry>, b: Seq<CacheEntry>) -> bool {
    forall|i: int| 0 <= i < a.len() ==> exists|j: int| 0 <= j < b.len() && #[trigger] a[i] == b[j]
}

/// Whether `s` holds a pinned entry with key `k`.
pub open spec fn seq_has_pinned(s: Seq<CacheEntry>, k: Seq<char>) -> bool {
    exists|i: int| 0 <= i < s.len() && (#[trigger] s[i]).key@ == k && s[i].is_pinned
}

proof fn lemma_remove_unpinned(s: Seq<CacheEntry>, i: int)
    requires
        0 <= i < s.len(),
        !s[i].is_pinned,
    ensures
        forall|k: Seq<char>| #[trigger] seq_has_pinned(s, k) ==> seq_has_pinned(s.remove(i), k),
{
    assert forall|k: Seq<char>| #[trigger] seq_has_pinned(s, k) implies seq_has_pinned(s.remove(i), k) by {
        let j = choose|j: int| 0 <= j < s.len() && (#[trigger] s[j]).key@ == k && s[j].is_pinned;
        let j2 = if j < i { j } else { j - 1 };
        assert(s.remove(i)[j2] == s[j]);
    }
}

/// Sum of the estimated sizes of the pinned entries of `s`.
pub open spec fn pinned_size(s: Seq<CacheEntry>) -> int
    decreases s.len(),
{
    if s.len() == 0 {
        0
    } else {
        pinned_size(s.drop_last()) + if s.last().is_pinned { s.last().estimated_size as int } else { 0 }
    }
}

proof fn lemma_all_pinned_size(s: Seq<CacheEntry>)
    requires
        forall|i: int| 0 <= i < s.len() ==> (#[trigger] s[i]).is_pinned,
    ensures
        pinned_size(s) == size_sum(s),
    decreases s.len(),
{
    if s.len() > 0 {
        assert forall|i: int| 0 <= i < s.drop_last().len() implies (#[trigger] s.drop_last()[i]).is_pinned by {
            assert(s.drop_last()[i] == s[i]);
        }
        lemma_all_pinned_size(s.drop_last());
        assert(s[s.len() - 1] == s.last());
    }
}

/// After an insert, the cache's total size is within capacity whenever its
/// pinned entries alone fit: eviction leaves an over-full cache only when
/// nothing but pinned entries is left.
pub proof fn lemma_within_capacity_when_pinned_fit(w: WorkingMemory)
    requires
        w.wf(),
        w.total() <= w.cap() || w.all_pinned(),
        pinned_size(w.view()) <= w.cap(),
    ensures
        w.total() <= w.cap(),
{
    if w.all_pinned() {
        lemma_all_pinned_size(w.view());
    }
}

/// The hot cache.
pub struct WorkingMemory {
    entries: Vec<CacheEntry>,
    total_size: u128,
    capacity: usize,
}

impl WorkingMemory {
    pub closed spec fn view(&self) -> Seq<CacheEntry> {
        self.entries@
    }

    pub closed spec fn total(&self) -> int {
        self.total_size as int
    }

    pub closed spec fn cap(&self) -> int {
        self.capacity as int
    }

    /// Keys are unique and the running total is the sum of the sizes.
    pub open spec fn wf(&self) -> bool {
        &&& forall|i: int, j: int|
            0 <= i < self.view().len() && 0 <= j < self.view().len() && (#[trigger] self.view()[i]).key@
                == (#[trigger] self.view()[j]).key@ ==> i == j
        &&& self.total() == size_sum(self.view())
    }

    /// Whether an entry with key `k` is held.
    pub open spec fn has_key(&self, k: Seq<char>) -> bool {
        seq_has_key(self.view(), k)
    }

    /// Whether a pinned entry with key `k` is held.
    pub open spec fn has_pinned(&self, k: Seq<char>) -> bool {
        seq_has_pinned(self.view(), k)
    }

    /// Whether every entry held is pinned.
    pub open spec fn all_pinned(&self) -> bool {
        forall|i: int| 0 <= i < self.view().len() ==> (#[trigger] self.view()[i]).is_pinned
    }

    /// An empty cache of the standard capacity.
    pub fn new() -> (r: Self)
        ensures
            r.wf(),
            r.view().len() == 0,
            r.cap() == MAX_MEMORY_BYTES,
    {
        WorkingMemory { entries: Vec::new(), total_size: 0, capacity: MAX_MEMORY_BYTES }
    }

    /// An empty cache of `capacity` estimated bytes.
    pub fn with_capacity(capacity: usize) -> (r: Self)
        ensures
            r.wf(),
            r.view().len() == 0,
            r.cap() == capacity,
    {
        WorkingMemory { entries: Vec::new(), total_size: 0, capacity }
    }

    fn find(&self, key: &str) -> (r: Option<usize>)
        ensures
            match r {
                Some(i) => i < self.view().len() && self.view()[i as int].key@ == key@,
                None => !self.has_key(key@),
            },
    {
        let mut i: usize = 0;
        while i < self.entries.len()
            invariant
                i <= self.entries@.len(),
                forall|k: int| 0 <= k < i ==> (#[trigger] self.entries@[k]).key@ != key@,
            decreases self.entries@.len() - i,
        {
            if str_eq(self.entries[i].key.as_str(), key) {
                return Some(i);
            }
            i = i + 1;
        }
        None
    }

    /// Whether `key` is held.
    pub fn contains(&self, key: &str) -> (r: bool)
        ensures
            r == self.has_key(key@),
    {
        self.find(key).is_some()
    }

    fn remove_at(&mut self, i: usize)
        requires
            old(self).wf(),
            i < old(self).view().len(),
        ensures
            final(self).wf(),
            final(self).view() == old(self).view().remove(i as int),
            final(self).cap() == old(self).cap(),
    {
        proof {
            lemma_size_remove(self.entries@, i as int);
            lemma_size_nonneg(self.entries@.remove(i as int));
        }
        let e = self.entries.remove(i);
        self.total_size = self.total_size - e.estimated_size as u128;
        proof {
            let v = self.view();
            assert forall|a: int, b: int|
                0 <= a < v.len() && 0 <= b < v.len() && (#[trigger] v[a]).key@ == (#[trigger] v[b]).key@ implies a == b by {
                let a2 = if a < i { a } else { a + 1 };
                let b2 = if b < i { b } else { b + 1 };
                assert(v[a] == old(self).view()[a2]);
                assert(v[b] == old(self).view()[b2]);
            }
        }
    }

    /// Removes `key`, if held.
    pub fn remove(&mut self, key: &str)
        requires
            old(self).wf(),
        ensures
            final(self).wf(),
            !final(self).has_key(key@),
            final(self).cap() == old(self).cap(),
            forall|k: Seq<char>| k != key@ ==> (#[trigger] final(self).has_pinned(k) == old(self).has_pinned(k)),
            forall|k: Seq<char>| k != key@ ==> (#[trigger] final(self).has_key(k) == old(self).has_key(k)),
            old(self).has_key(key@) ==> exists|i: int| 0 <= i < old(self).view().len() && (#[trigger] old(self).view()[i]).key@
                == key@ && final(self).view() == old(self).view().remove(i),
            !old(self).has_key(key@) ==> final(self).view() == old(self).view(),
            final(self).total() == size_sum(final(self).view()),
    {
        match self.find(key) {
            Some(i) => {
                let ghost before = self.view();
                self.remove_at(i);
                proof {
                    let v = self.view();
                    assert forall|k: Seq<char>| k != key@ implies (#[trigger] self.has_pinned(k) == old(self).has_pinned(k)) by {
                        if old(self).has_pinned(k) {
                            let j = choose|j: int| 0 <= j < before.len() && (#[trigger] before[j]).key@ == k && before[j].is_pinned;
                            assert(j != i);
                            let j2 = if j < i { j } else { j - 1 };
                            assert(v[j2] == before[j]);
                        }
                        if self.has_pinned(k) {
                            let j = choose|j: int| 0 <= j < v.len() && (#[trigger] v[j]).key@ == k && v[j].is_pinned;
                            let j2 = if j < i { j } else { j + 1 };
                            assert(v[j] == before[j2]);
                        }
                    }
                    assert forall|k: Seq<char>| k != key@ implies (#[trigger] self.has_key(k) == old(self).has_key(k)) by {
                        if old(self).has_key(k) {
                            let j = choose|j: int| 0 <= j < before.len() && (#[trigger] before[j]).key@ == k;
                            assert(j != i);
                            let j2 = if j < i { j } else { j - 1 };
                            assert(v[j2] == before[j]);
                        }
                        if self.has_key(k) {
                            let j = choose|j: int| 0 <= j < v.len() && (#[trigger] v[j]).key@ == k;
                            let j2 = if j < i { j } else { j + 1 };
                            assert(v[j] == before[j2]);
                        }
                    }
                    if self.has_key(key@) {
                        let j = choose|j: int| 0 <= j < v.len() && (#[trigger] v[j]).key@ == key@;
                        let j2 = if j < i { j } else { j + 1 };
                        assert(v[j] == before[j2]);
                        assert(before[i as int].key@ == key@);
                    }
                }
            },
            None => {},
        }
    }
}


impl WorkingMemory {
    /// Evicts unpinned entries, lowest eviction priority first, until the
    /// total size is within capacity or only pinned entries are left.
    /// The unpinned entry of lowest eviction priority at `now`, if any.
    fn find_victim(&self, now: u64) -> (r: Option<usize>)
        ensures
            match r {
                Some(v) => v < self.view().len() && !self.view()[v as int].is_pinned && lowest(self.view()[v as int], self.view(), now),
                None => self.all_pinned(),
            },
    {
        let mut victim: Option<usize> = None;
        let mut best: u64 = 0;
        let mut i: usize = 0;
        while i < self.entries.len()
            invariant
                i <= self.entries@.len(),
                match victim {
                    Some(v) => v < i && !self.entries@[v as int].is_pinned && best == eviction_priority(self.entries@[v as int], now)
                        && forall|j: int| 0 <= j < i && !(#[trigger] self.entries@[j]).is_pinned ==> eviction_priority(self.entries@[j], now) >= best,
                    None => forall|j: int| 0 <= j < i ==> (#[trigger] self.entries@[j]).is_pinned,
                },
            decreases self.entries@.len() - i,
        {
            if !self.entries[i].is_pinned {
                let p = priority_of(&self.entries[i], now);
                match victim {
                    Some(_) => {
                        if p < best {
                            victim = Some(i);
                            best = p;
                        }
                    },
                    None => {
                        victim = Some(i);
                        best = p;
                    },
                }
            }
            i = i + 1;
        }
        victim
    }

    fn evict_if_needed(&mut self, now: u64)
        requires
            old(self).wf(),
        ensures
            final(self).wf(),
            final(self).cap() == old(self).cap(),
            final(self).total() <= final(self).cap() || final(self).all_pinned(),
            forall|k: Seq<char>| #[trigger] old(self).has_pinned(k) ==> final(self).has_pinned(k),
            forall|k: Seq<char>| #[trigger] final(self).has_key(k) ==> old(self).has_key(k),
            drawn_from(final(self).view(), old(self).view()),
            evicted_lowest(old(self).view(), final(self).view(), now),
            old(self).total() <= old(self).cap() ==> final(self).view() == old(self).view(),
    {
        proof {
            assert forall|i: int| 0 <= i < old(self).view().len() implies kept(self.view(), #[trigger] old(self).view()[i]) by {
                assert(self.view()[i] == old(self).view()[i]);
            }
            assert forall|i: int| 0 <= i < self.view().len() implies exists|j: int| 0 <= j < old(self).view().len()
                && #[trigger] self.view()[i] == old(self).view()[j] by {
                assert(self.view()[i] == old(self).view()[i]);
            }
        }
        while self.total_size > self.capacity as u128
            invariant
                self.wf(),
                self.cap() == old(self).cap(),
                forall|k: Seq<char>| #[trigger] old(self).has_pinned(k) ==> self.has_pinned(k),
                forall|k: Seq<char>| #[trigger] self.has_key(k) ==> old(self).has_key(k),
                drawn_from(self.view(), old(self).view()),
                evicted_lowest(old(self).view(), self.view(), now),
                old(self).total() <= old(self).cap() ==> self.view() == old(self).view(),
                old(self).wf(),
            ensures
                self.wf(),
                self.cap() == old(self).cap(),
                self.total() <= self.cap() || self.all_pinned(),
                forall|k: Seq<char>| #[trigger] old(self).has_pinned(k) ==> self.has_pinned(k),
                forall|k: Seq<char>| #[trigger] self.has_key(k) ==> old(self).has_key(k),
                drawn_from(self.view(), old(self).view()),
                evicted_lowest(old(self).view(), self.view(), now),
                old(self).total() <= old(self).cap() ==> self.view() == old(self).view(),
            decreases self.entries@.len(),
        {
            proof {
                if old(self).total() <= old(self).cap() {
                    assert(self.total() == size_sum(self.view()));
                    assert(self.total() == old(self).total());
                }
            }
            let victim = self.find_victim(now);
            match victim {
                Some(v) => {
                    let ghost pre = *self;
                    let ghost before = self.view();
                    proof {
                        lemma_remove_unpinned(before, v as int);
                        lemma_evict_step(old(self).view(), before, v as int, now);
                    }
                    self.remove_at(v);
                    proof {
                        assert forall|k: Seq<char>| #[trigger] self.has_key(k) implies old(self).has_key(k) by {
                            let j = choose|j: int| 0 <= j < self.view().len() && (#[trigger] self.view()[j]).key@ == k;
                            let j2 = if j < v { j } else { j + 1 };
                            assert(self.view()[j] == before[j2]);
                            assert(seq_has_key(before, k));
                            assert(pre.has_key(k));
                        }
                        assert forall|a: int| 0 <= a < self.view().len() implies exists|j: int| 0 <= j < old(self).view().len()
                            && #[trigger] self.view()[a] == old(self).view()[j] by {
                            let a2 = if a < v { a } else { a + 1 };
                            assert(self.view()[a] == before[a2]);
                            assert(drawn_from(before, old(self).view()));
                            assert(exists|j: int| 0 <= j < old(self).view().len() && before[a2] == old(self).view()[j]);
                        }
                    }
                },
                None => {
                    assert(self.all_pinned());
                    break;
                },
            }
        }
    }

    /// Stores `value` under `key`, replacing what was there, then evicts
    /// until the cache is within capacity or only pinned entries are left.
    pub fn insert(&mut self, key: String, value: String, importance_weight: u32, is_pinned: bool, now: u64)
        requires
            old(self).wf(),
        ensures
            final(self).wf(),
            final(self).cap() == old(self).cap(),
            final(self).total() <= final(self).cap() || final(self).all_pinned(),
            forall|k: Seq<char>| k != key@ && #[trigger] old(self).has_pinned(k) ==> final(self).has_pinned(k),
            is_pinned ==> final(self).has_pinned(key@),
            forall|k: Seq<char>| #[trigger] final(self).has_key(k) ==> old(self).has_key(k) || k == key@,
            forall|i: int| 0 <= i < final(self).view().len() && (#[trigger] final(self).view()[i]).key@ == key@
                ==> final(self).view()[i].value@ == value@ && final(self).view()[i].is_pinned == is_pinned,
            exists|e: CacheEntry| {
                &&& e.key@ == key@
                &&& e.value@ == value@
                &&& e.is_pinned == is_pinned
                &&& e.importance_weight == importance_weight
                &&& e.last_accessed == now
                &&& e.access_count == 1
                &&& #[trigger] stored_then_evicted(old(self).view(), e, final(self).view(), now)
            },
    {
        let kl = key.as_str().len();
        let vl = value.as_str().len();
        let size: usize = if kl > usize::MAX - vl { usize::MAX } else { kl + vl };
        let ghost k0 = key@;
        let entry = CacheEntry {
            key,
            value,
            last_accessed: now,
            access_count: 1,
            importance_weight,
            is_pinned,
            estimated_size: size,
            created_at: now,
        };
        let ghost e = entry;
        let ghost before = old(self).view();
        match self.find(entry.key.as_str()) {
            Some(i) => {
                proof {
                    lemma_size_remove(before, i as int);
                    lemma_size_push(before.remove(i as int), e);
                    lemma_size_nonneg(before.remove(i as int));
                    lemma_size_nonneg(before.remove(i as int).push(e));
                }
                self.total_size = self.total_size - self.entries[i].estimated_size as u128;
                self.entries.remove(i);
                self.entries.push(entry);
                let n = self.entries.len();
                proof {
                    assert(self.entries@ == before.remove(i as int).push(e));
                    assert(n * (usize::MAX as int) <= (usize::MAX as int) * (usize::MAX as int)) by (nonlinear_arith)
                        requires n <= usize::MAX;
                    assert((usize::MAX as int) * (usize::MAX as int) < u128::MAX as int) by (nonlinear_arith);
                    assert(self.total_size as int + size as int == size_sum(self.entries@));
                    assert(size_sum(self.entries@) <= n * (usize::MAX as int));
                }
                self.total_size = self.total_size + size as u128;
                proof {
                    let v = self.view();
                    assert(v == before.remove(i as int).push(e));
                    let n = v.len() - 1;
                    assert forall|a: int, b: int|
                        0 <= a < v.len() && 0 <= b < v.len() && (#[trigger] v[a]).key@ == (#[trigger] v[b]).key@ implies a == b by {
                        let a2 = if a < i { a } else { a + 1 };
                        let b2 = if b < i { b } else { b + 1 };
                        if a < n && b < n {
                            assert(v[a] == before[a2] && v[b] == before[b2]);
                        } else if a < n {
                            assert(v[a] == before[a2]);
                            assert(before[i as int].key@ == k0);
                        } else if b < n {
                            assert(v[b] == before[b2]);
                            assert(before[i as int].key@ == k0);
                        }
                    }
                    assert forall|k: Seq<char>| k != k0 && #[trigger] seq_has_pinned(before, k) implies seq_has_pinned(v, k) by {
                        let j = choose|j: int| 0 <= j < before.len() && (#[trigger] before[j]).key@ == k && before[j].is_pinned;
                        assert(j != i);
                        let j2 = if j < i { j } else { j - 1 };
                        assert(v[j2] == before[j]);
                    }
                    assert forall|x: int| 0 <= x < before.len() && (#[trigger] before[x]).key@ != k0 implies kept(v, before[x]) by {
                        assert(before[i as int].key@ == k0);
                        let x2 = if x < i { x } else { x - 1 };
                        assert(v[x2] == before[x]);
                    }
                    assert forall|k: Seq<char>| #[trigger] seq_has_key(v, k) implies seq_has_key(before, k) || k == k0 by {
                        let j = choose|j: int| 0 <= j < v.len() && (#[trigger] v[j]).key@ == k;
                        if j < n {
                            let j2 = if j < i { j } else { j + 1 };
                            assert(v[j] == before[j2]);
                        }
                    }
                    if is_pinned {
                        assert(v[n].key@ == k0 && v[n].is_pinned);
                    }
                }
            },
            None => {
                proof {
                    lemma_size_push(before, e);
                    lemma_size_nonneg(before.push(e));
                }
                self.entries.push(entry);
                let n = self.entries.len();
                proof {
                    assert(self.entries@ == before.push(e));
                    assert(n * (usize::MAX as int) <= (usize::MAX as int) * (usize::MAX as int)) by (nonlinear_arith)
                        requires n <= usize::MAX;
                    assert((usize::MAX as int) * (usize::MAX as int) < u128::MAX as int) by (nonlinear_arith);
                    assert(self.total_size as int + size as int == size_sum(self.entries@));
                    assert(size_sum(self.entries@) <= n * (usize::MAX as int));
                }
                self.total_size = self.total_size + size as u128;
                proof {
                    let v = self.view();
                    let n = v.len() - 1;
                    assert forall|a: int, b: int|
                        0 <= a < v.len() && 0 <= b < v.len() && (#[trigger] v[a]).key@ == (#[trigger] v[b]).key@ implies a == b by {
                        if a < n && b == n {
                            assert(before[a].key@ == k0);
                        }
                        if b < n && a == n {
                            assert(before[b].key@ == k0);
                        }
                    }
                    assert forall|k: Seq<char>| #[trigger] seq_has_pinned(before, k) implies seq_has_pinned(v, k) by {
                        let j = choose|j: int| 0 <= j < before.len() && (#[trigger] before[j]).key@ == k && before[j].is_pinned;
                        assert(v[j] == before[j]);
                    }
                    assert forall|x: int| 0 <= x < before.len() && (#[trigger] before[x]).key@ != k0 implies kept(v, before[x]) by {
                        assert(v[x] == before[x]);
                    }
                    assert forall|k: Seq<char>| #[trigger] seq_has_key(v, k) implies seq_has_key(before, k) || k == k0 by {
                        let j = choose|j: int| 0 <= j < v.len() && (#[trigger] v[j]).key@ == k;
                        if j < n {
                            assert(v[j] == before[j]);
                        }
                    }
                    if is_pinned {
                        assert(v[n].key@ == k0 && v[n].is_pinned);
                    }
                }
            },
        }
        let ghost mid = *self;
        proof {
            assert forall|k: Seq<char>| k != k0 && #[trigger] old(self).has_pinned(k) implies mid.has_pinned(k) by {
                assert(seq_has_pinned(before, k));
            }
            if is_pinned {
                assert(seq_has_pinned(mid.view(), k0));
                assert(mid.has_pinned(k0));
            }
            assert forall|k: Seq<char>| #[trigger] mid.has_key(k) implies old(self).has_key(k) || k == k0 by {
                assert(seq_has_key(mid.view(), k));
            }
        }
        proof {
            let v = mid.view();
            assert(v[v.len() - 1] == e);
            assert forall|i: int| 0 <= i < v.len() && (#[trigger] v[i]).key@ == k0 implies v[i] == e by {
                assert(v[i].key@ == v[v.len() - 1].key@);
            }
        }
        self.evict_if_needed(now);
        proof {
            assert forall|i: int| 0 <= i < self.view().len() && (#[trigger] self.view()[i]).key@ == k0 implies self.view()[i].value@
                == e.value@ && self.view()[i].is_pinned == is_pinned by {
                let j = choose|j: int| 0 <= j < mid.view().len() && self.view()[i] == mid.view()[j];
                assert(mid.view()[j].key@ == k0);
            }
            let v = mid.view();
            let fin = self.view();
            assert(v[v.len() - 1] == e);
            if !kept(fin, e) {
                assert(!kept(fin, v[v.len() - 1]));
            }
            assert forall|x: int| 0 <= x < before.len() && (#[trigger] before[x]).key@ != k0 implies kept(fin, before[x]) || (
            !before[x].is_pinned && lowest(before[x], fin, now)) by {
                assert(kept(v, before[x]));
                let j = choose|j: int| 0 <= j < v.len() && v[j] == before[x];
                if !kept(fin, before[x]) {
                    assert(!kept(fin, v[j]));
                }
            }
            assert(stored_then_evicted(before, e, fin, now));
        }
    }

    /// The value under `key`, if held; a hit counts as an access at `now`.
    pub fn get(&mut self, key: &str, now: u64) -> (r: Option<String>)
        requires
            old(self).wf(),
        ensures
            final(self).wf(),
            final(self).cap() == old(self).cap(),
            r is Some <==> old(self).has_key(key@),
            r matches Some(v) ==> exists|i: int| 0 <= i < old(self).view().len() && (#[trigger] old(self).view()[i]).key@ == key@
                && old(self).view()[i].value@ == v@,
            final(self).view().len() == old(self).view().len(),
            forall|i: int| 0 <= i < final(self).view().len() ==> {
                &&& (#[trigger] final(self).view()[i]).key == old(self).view()[i].key
                &&& final(self).view()[i].value == old(self).view()[i].value
                &&& final(self).view()[i].is_pinned == old(self).view()[i].is_pinned
                &&& final(self).view()[i].estimated_size == old(self).view()[i].estimated_size
                &&& final(self).view()[i].importance_weight == old(self).view()[i].importance_weight
                &&& final(self).view()[i].created_at == old(self).view()[i].created_at
                &&& if old(self).view()[i].key@ == key@ {
                    &&& final(self).view()[i].last_accessed == now
                    &&& final(self).view()[i].access_count == if old(self).view()[i].access_count == u32::MAX {
                        u32::MAX
                    } else {
                        (old(self).view()[i].access_count + 1) as u32
                    }
                } else {
                    final(self).view()[i] == old(self).view()[i]
                }
            },
    {
        match self.find(key) {
            Some(i) => {
                let ghost before = self.view();
                let old_e = &self.entries[i];
                let count = if old_e.access_count == u32::MAX { u32::MAX } else { old_e.access_count + 1 };
                let touched = CacheEntry {
                    key: old_e.key.clone(),
                    value: old_e.value.clone(),
                    last_accessed: now,
                    access_count: count,
                    importance_weight: old_e.importance_weight,
                    is_pinned: old_e.is_pinned,
                    estimated_size: old_e.estimated_size,
                    created_at: old_e.created_at,
                };
                let out = old_e.value.clone();
                self.entries.set(i, touched);
                proof {
                    let v = self.view();
                    assert(v == before.update(i as int, v[i as int]));
                    assert(size_sum(v) == size_sum(before)) by {
                        lemma_size_remove(before, i as int);
                        lemma_size_remove(v, i as int);
                        assert(v.remove(i as int) =~= before.remove(i as int));
                    }
                    assert forall|a: int, b: int|
                        0 <= a < v.len() && 0 <= b < v.len() && (#[trigger] v[a]).key@ == (#[trigger] v[b]).key@ implies a == b by {
                        assert(v[a].key == before[a].key && v[b].key == before[b].key);
                    }
                }
                Some(out)
            },
            None => None,
        }
    }

    /// Removes every entry that is not pinned.
    pub fn clear(&mut self)
        requires
            old(self).wf(),
        ensures
            final(self).wf(),
            final(self).cap() == old(self).cap(),
            final(self).all_pinned(),
            forall|k: Seq<char>| #[trigger] old(self).has_pinned(k) ==> final(self).has_pinned(k),
    {
        let mut i: usize = 0;
        while i < self.entries.len()
            invariant
                self.wf(),
                self.cap() == old(self).cap(),
                i <= self.entries@.len(),
                forall|j: int| 0 <= j < i ==> (#[trigger] self.entries@[j]).is_pinned,
                forall|k: Seq<char>| #[trigger] old(self).has_pinned(k) ==> self.has_pinned(k),
            decreases self.entries@.len() - i,
        {
            if self.entries[i].is_pinned {
                i = i + 1;
            } else {
                let ghost before = self.view();
                proof {
                    lemma_remove_unpinned(before, i as int);
                }
                self.remove_at(i);
                proof {
                    assert forall|j: int| 0 <= j < i implies (#[trigger] self.entries@[j]).is_pinned by {
                        assert(self.view()[j] == before[j]);
                    }
                }
            }
        }
    }

    /// Entry count, pinned count, total estimated size and capacity.
    pub fn stats(&self) -> (r: CacheStats)
        ensures
            r.entry_count == self.view().len(),
            r.total_size_bytes == self.total(),
            r.capacity_bytes == self.cap(),
            r.pinned_count <= r.entry_count,
    {
        let mut pinned: usize = 0;
        let mut i: usize = 0;
        while i < self.entries.len()
            invariant
                i <= self.entries@.len(),
                pinned <= i,
            decreases self.entries@.len() - i,
        {
            if self.entries[i].is_pinned {
                pinned = pinned + 1;
            }
            i = i + 1;
        }
        CacheStats {
            entry_count: self.entries.len(),
            pinned_count: pinned,
            total_size_bytes: self.total_size,
            capacity_bytes: self.capacity,
        }
    }
}

} // verus!
