//! Transposition table.
//!
//! The results of searched positions, by their hash. The table is made of
//! clusters of four entries. A position belongs to the cluster that its hash
//! gives modulo the number of clusters, which is a power of two.

use crate::movegen::moves::Move;
use vstd::arithmetic::power2::{lemma_pow2_unfold, pow2};
use vstd::prelude::*;
use vstd::wrapping::u8_specs;

verus! {

/// Number of entries per cluster.
pub const CLUSTER_SIZE: usize = 4;

/// What a stored score tells us about the true value.
#[derive(Clone, Copy, PartialEq, Eq, Debug, Structural)]
pub enum Bound {
    /// Empty slot.
    Empty,
    /// Exact value (a full-window search).
    Exact,
    /// A lower bound: true value is `>= score` (the node failed high).
    Lower,
    /// An upper bound: true value is `<= score` (the node failed low).
    Upper,
}

/// One table entry.
#[derive(Clone, Copy, PartialEq, Eq, Debug, Structural)]
pub struct Entry {
    /// The hash of the position.
    pub key: u64,
    /// The packed best move (0 = none).
    pub mv: u16,
    pub score: i16,
    pub depth: u8,
    pub bound: Bound,
    /// The search in which the entry was stored.
    pub generation: u8,
}

/// An entry that holds nothing.
pub open spec fn blank() -> Entry {
    Entry { key: 0, mv: 0, score: 0, depth: 0, bound: Bound::Empty, generation: 0 }
}

impl Default for Entry {
    /// An entry that holds nothing.
    fn default() -> (r: Entry)
        ensures
            r == blank(),
    {
        Entry { key: 0, mv: 0, score: 0, depth: 0, bound: Bound::Empty, generation: 0 }
    }
}

/// A cluster of [`CLUSTER_SIZE`] entries.
#[derive(Clone, Copy, Debug)]
pub struct Cluster {
    pub entries: [Entry; 4],
}

/// A successful probe result.
#[derive(Clone, Copy, PartialEq, Eq, Debug, Structural)]
pub struct TTData {
    pub score: i16,
    pub depth: u8,
    pub bound: Bound,
    pub mv: u16,
}

impl TTData {
    /// The stored best move.
    pub open spec fn best(self) -> Option<Move> {
        if self.mv != 0 {
            Some(Move(self.mv))
        } else {
            None
        }
    }

    /// The stored best move, if any.
    pub fn best_move(&self) -> (r: Option<Move>)
        ensures
            r == self.best(),
    {
        if self.mv != 0 {
            Some(Move::from_bits(self.mv))
        } else {
            None
        }
    }
}

/// The contents of a table.
pub struct TableState {
    pub clusters: Seq<Seq<Entry>>,
    pub generation: u8,
}

/// What a probe that finds an entry reports.
pub open spec fn report(e: Entry) -> TTData {
    TTData { score: e.score, depth: e.depth, bound: e.bound, mv: e.mv }
}

/// The first of the entries from `i` on that holds `key`.
pub open spec fn find_key(entries: Seq<Entry>, key: u64, i: int) -> Option<int>
    decreases 4 - i,
{
    if i >= 4 {
        None
    } else if entries[i].bound != Bound::Empty && entries[i].key == key {
        Some(i)
    } else {
        find_key(entries, key, i + 1)
    }
}

/// The first of the entries from `i` on that is empty or has the key `key`.
pub open spec fn find_slot(entries: Seq<Entry>, key: u64, i: int) -> Option<int>
    decreases 4 - i,
{
    if i >= 4 {
        None
    } else if entries[i].key == key || entries[i].bound == Bound::Empty {
        Some(i)
    } else {
        find_slot(entries, key, i + 1)
    }
}

/// How much an entry is worth keeping: its depth, less four for each search
/// that began since it was stored.
pub open spec fn quality(e: Entry, generation: u8) -> int {
    e.depth - 4 * u8_specs::wrapping_sub(generation, e.generation)
}

/// The first of the entries up to `i` that is worth the least.
pub open spec fn worst(entries: Seq<Entry>, generation: u8, i: int) -> int
    decreases i,
{
    if i <= 0 {
        0
    } else {
        let w = worst(entries, generation, i - 1);
        if quality(entries[i], generation) < quality(entries[w], generation) {
            i
        } else {
            w
        }
    }
}

impl TableState {
    /// The table at the start of the next search.
    pub open spec fn next_generation(self) -> TableState {
        TableState { generation: u8_specs::wrapping_add(self.generation, 1), ..self }
    }

    /// The cluster of a key.
    pub open spec fn cluster_of(self, key: u64) -> int {
        key as int % self.clusters.len() as int
    }

    /// What is stored for a key.
    pub open spec fn probe(self, key: u64) -> Option<TTData> {
        let c = self.clusters[self.cluster_of(key)];
        match find_key(c, key, 0) {
            Some(i) => Some(report(c[i])),
            None => None,
        }
    }

    /// The entry that a result for `key` replaces: that of the same key, an
    /// empty one, or the one that is worth the least.
    pub open spec fn victim(self, key: u64) -> int {
        let c = self.clusters[self.cluster_of(key)];
        match find_slot(c, key, 0) {
            Some(i) => i,
            None => worst(c, self.generation, 3),
        }
    }

    /// The entry that a result is stored as. A result without a move keeps the
    /// move that was stored for the same key.
    pub open spec fn fresh_entry(
        self,
        key: u64,
        depth: int,
        score: i16,
        bound: Bound,
        mv: Option<Move>,
    ) -> Entry {
        let old = self.clusters[self.cluster_of(key)][self.victim(key)];
        Entry {
            key,
            mv: match mv {
                Some(m) => m.0,
                None => if old.key == key {
                    old.mv
                } else {
                    0
                },
            },
            score,
            depth: (depth % 256) as u8,
            bound,
            generation: self.generation,
        }
    }

    /// The table after storing a result.
    pub open spec fn store(
        self,
        key: u64,
        depth: int,
        score: i16,
        bound: Bound,
        mv: Option<Move>,
    ) -> TableState {
        let c = self.cluster_of(key);
        TableState {
            clusters: self.clusters.update(
                c,
                self.clusters[c].update(
                    self.victim(key),
                    self.fresh_entry(key, depth, score, bound, mv),
                ),
            ),
            ..self
        }
    }

    /// The clusters have four entries each, and there is one at least.
    pub open spec fn wf(self) -> bool {
        self.clusters.len() > 0 && forall|i: int|
            0 <= i < self.clusters.len() ==> (#[trigger] self.clusters[i]).len() == 4
    }
}

proof fn lemma_find_key(entries: Seq<Entry>, key: u64, i: int)
    requires
        0 <= i,
    ensures
        find_key(entries, key, i) matches Some(k) ==> i <= k < 4 && entries[k].bound != Bound::Empty
            && entries[k].key == key && forall|j: int|
            i <= j < k ==> !(entries[j].bound != Bound::Empty && (#[trigger] entries[j]).key == key),
        find_key(entries, key, i) is None ==> forall|j: int|
            i <= j < 4 ==> !(entries[j].bound != Bound::Empty && (#[trigger] entries[j]).key == key),
    decreases 4 - i,
{
    if i < 4 {
        lemma_find_key(entries, key, i + 1);
    }
}

proof fn lemma_find_slot(entries: Seq<Entry>, key: u64, i: int)
    requires
        0 <= i,
    ensures
        find_slot(entries, key, i) matches Some(k) ==> i <= k < 4 && (entries[k].key == key
            || entries[k].bound == Bound::Empty) && forall|j: int|
            i <= j < k ==> (#[trigger] entries[j]).key != key,
        find_slot(entries, key, i) is None ==> forall|j: int|
            i <= j < 4 ==> (#[trigger] entries[j]).key != key && entries[j].bound != Bound::Empty,
    decreases 4 - i,
{
    if i < 4 {
        lemma_find_slot(entries, key, i + 1);
    }
}

proof fn lemma_worst(entries: Seq<Entry>, generation: u8, i: int)
    requires
        0 <= i,
    ensures
        0 <= worst(entries, generation, i) <= i,
    decreases i,
{
    if i > 0 {
        lemma_worst(entries, generation, i - 1);
    }
}

proof fn lemma_find_key_at(entries: Seq<Entry>, key: u64, i: int, k: int)
    requires
        0 <= i <= k < 4,
        entries[k].bound != Bound::Empty,
        entries[k].key == key,
        forall|j: int| i <= j < k ==> (#[trigger] entries[j]).key != key,
    ensures
        find_key(entries, key, i) == Some(k),
    decreases 4 - i,
{
    if i < k {
        assert(entries[i].key != key);
        lemma_find_key_at(entries, key, i + 1, k);
    }
}

/// The entry that a result replaces is one of its cluster.
pub proof fn lemma_victim(t: TableState, key: u64)
    requires
        t.wf(),
    ensures
        0 <= t.cluster_of(key) < t.clusters.len(),
        0 <= t.victim(key) < 4,
{
    let c = t.clusters[t.cluster_of(key)];
    lemma_find_slot(c, key, 0);
    lemma_worst(c, t.generation, 3);
}

/// What was stored for a key is found again, with the depth reduced to 8 bits.
pub proof fn law_probe_after_store(
    t: TableState,
    key: u64,
    depth: int,
    score: i16,
    bound: Bound,
    mv: Option<Move>,
)
    requires
        t.wf(),
        bound != Bound::Empty,
    ensures
        t.store(key, depth, score, bound, mv).wf(),
        t.store(key, depth, score, bound, mv).probe(key) == Some(
            report(t.fresh_entry(key, depth, score, bound, mv)),
        ),
{
    lemma_victim(t, key);
    let c = t.clusters[t.cluster_of(key)];
    let u = t.store(key, depth, score, bound, mv);
    let d = u.clusters[u.cluster_of(key)];
    let k = t.victim(key);
    lemma_find_slot(c, key, 0);
    assert forall|j: int| 0 <= j < k implies (#[trigger] d[j]).key != key by {
        assert(c[j].key != key);
    }
    lemma_find_key_at(d, key, 0, k);
}

/// Storing a result changes nothing that is stored in other clusters.
pub proof fn law_store_leaves_other_clusters(
    t: TableState,
    key: u64,
    depth: int,
    score: i16,
    bound: Bound,
    mv: Option<Move>,
    other: u64,
)
    requires
        t.wf(),
        t.cluster_of(other) != t.cluster_of(key),
    ensures
        t.store(key, depth, score, bound, mv).probe(other) == t.probe(other),
{
    lemma_victim(t, key);
    lemma_victim(t, other);
}

/// What a probe finds was stored for that key.
pub proof fn law_probe_finds_own_key(t: TableState, key: u64)
    requires
        t.wf(),
    ensures
        t.probe(key) matches Some(d) ==> exists|i: int|
            0 <= i < 4 && (#[trigger] t.clusters[t.cluster_of(key)][i]).key == key && report(
                t.clusters[t.cluster_of(key)][i],
            ) == d,
{
    lemma_find_key(t.clusters[t.cluster_of(key)], key, 0);
}

/// The number of used entries of the current search among the first `n` of a
/// cluster.
pub open spec fn used_in(entries: Seq<Entry>, generation: u8, n: int) -> int
    decreases n,
{
    if n <= 0 {
        0
    } else {
        used_in(entries, generation, n - 1) + (if entries[n - 1].bound != Bound::Empty && entries[n
            - 1].generation == generation {
            1int
        } else {
            0int
        })
    }
}

/// The number of used entries of the current search in the first `n` clusters.
pub open spec fn used(t: TableState, n: int) -> int
    decreases n,
{
    if n <= 0 {
        0
    } else {
        used(t, n - 1) + used_in(t.clusters[n - 1], t.generation, 4)
    }
}

/// The fill level of the first 250 clusters, in permille.
pub open spec fn fill(t: TableState) -> int {
    let n = if t.clusters.len() < 250 {
        t.clusters.len() as int
    } else {
        250
    };
    used(t, n) * 1000 / (n * 4)
}

proof fn lemma_used(t: TableState, n: int)
    requires
        0 <= n,
    ensures
        0 <= used(t, n) <= 4 * n,
    decreases n,
{
    if n > 0 {
        lemma_used(t, n - 1);
        let c = t.clusters[n - 1];
        reveal_with_fuel(used_in, 5);
    }
}

/// A 4-way set-associative transposition table.
pub struct TranspositionTable {
    pub clusters: Vec<Cluster>,
    /// Incremented at the start of each search; old entries are evicted first.
    pub generation: u8,
}

/// A table with the results of the first `n` clusters of another stored, and of
/// the first `k` entries of the next.
pub open spec fn absorbed(t: TableState, other: TableState, n: int, k: int) -> TableState
    decreases n, k,
{
    if k > 0 {
        let s = absorbed(t, other, n, k - 1);
        let e = other.clusters[n][k - 1];
        if e.bound == Bound::Empty {
            s
        } else {
            s.store(e.key, e.depth as int, e.score, e.bound, report(e).best())
        }
    } else if n > 0 {
        absorbed(t, other, n - 1, 4)
    } else {
        t
    }
}

impl View for TranspositionTable {
    type V = TableState;

    open spec fn view(&self) -> TableState {
        TableState {
            clusters: self.clusters@.map_values(|c: Cluster| c.entries@),
            generation: self.generation,
        }
    }
}

/// The number of clusters that fit into a size given in megabytes.
pub open spec fn wanted_clusters(size_mb: int) -> int {
    (if size_mb < 1 {
        1
    } else {
        size_mb
    }) * 1_048_576 / 64
}

/// The largest power of two that is no larger than `n`.
pub open spec fn floor_pow2(n: int) -> int
    decreases n,
{
    if n < 2 {
        1
    } else {
        2 * floor_pow2(n / 2)
    }
}

/// A power of two no larger than `n`, and more than half of it.
pub proof fn law_floor_pow2(n: int)
    requires
        n >= 1,
    ensures
        exists|k: nat| floor_pow2(n) == #[trigger] pow2(k),
        floor_pow2(n) <= n < 2 * floor_pow2(n),
    decreases n,
{
    if n < 2 {
        vstd::arithmetic::power2::lemma2_to64();
        assert(floor_pow2(n) == pow2(0));
    } else {
        law_floor_pow2(n / 2);
        let k = choose|k: nat| floor_pow2(n / 2) == #[trigger] pow2(k);
        lemma_pow2_unfold(k + 1);
        assert(floor_pow2(n) == pow2(k + 1));
    }
}

/// The largest power of two that is no larger than `n`.
fn round_down(n: usize) -> (r: usize)
    requires
        n >= 1,
    ensures
        r == floor_pow2(n as int),
        1 <= r <= n,
    decreases n,
{
    if n < 2 {
        1
    } else {
        2 * round_down(n / 2)
    }
}

/// A table of `n` empty clusters.
pub open spec fn empty_table(n: int) -> TableState {
    TableState {
        clusters: Seq::new(n as nat, |i: int| Seq::new(4, |k: int| blank())),
        generation: 0,
    }
}

impl TranspositionTable {
    /// There is a cluster at least.
    pub open spec fn wf(&self) -> bool {
        self.clusters@.len() > 0
    }

    /// A well-formed table is well-formed in its contents.
    pub proof fn lemma_wf(&self)
        requires
            self.wf(),
        ensures
            self@.wf(),
    {
        assert forall|i: int| 0 <= i < self@.clusters.len() implies (#[trigger] self@.clusters[i]).len()
            == 4 by {
            assert(self@.clusters[i] == self.clusters@[i].entries@);
        }
    }

    /// A list of empty clusters.
    fn blank_clusters(count: usize) -> (r: Vec<Cluster>)
        ensures
            r@.len() == count,
            forall|i: int|
                0 <= i < count ==> (#[trigger] r@[i]).entries@ == Seq::new(4, |k: int| blank()),
    {
        let empty = Cluster { entries: [Entry::default();4] };
        proof {
            assert(empty.entries@ =~= Seq::new(4, |k: int| blank()));
        }
        let mut clusters: Vec<Cluster> = Vec::with_capacity(count);
        let mut i: usize = 0;
        while i < count
            invariant
                i <= count,
                clusters@.len() == i,
                empty.entries@ == Seq::new(4, |k: int| blank()),
                forall|k: int|
                    0 <= k < i ==> (#[trigger] clusters@[k]).entries@ == Seq::new(
                        4,
                        |k: int| blank(),
                    ),
            decreases count - i,
        {
            clusters.push(empty);
            i += 1;
        }
        clusters
    }

    /// Allocate a table of roughly `size_mb` megabytes (rounded down to a
    /// power-of-two number of clusters).
    pub fn new(size_mb: usize) -> (r: TranspositionTable)
        requires
            size_mb * 1_048_576 <= usize::MAX,
        ensures
            r.wf(),
            r@ == empty_table(floor_pow2(wanted_clusters(size_mb as int))),
    {
        let mb: usize = if size_mb < 1 {
            1
        } else {
            size_mb
        };
        let count: usize = round_down(mb * 1_048_576 / 64);
        let r = TranspositionTable {
            clusters: TranspositionTable::blank_clusters(count),
            generation: 0,
        };
        proof {
            assert(r@.clusters =~= empty_table(count as int).clusters);
        }
        r
    }

    /// Begin a new search; entries from prior searches become preferred
    /// eviction targets.
    pub fn new_generation(&mut self)
        ensures
            final(self)@ == old(self)@.next_generation(),
            final(self).wf() == old(self).wf(),
    {
        self.generation = self.generation.wrapping_add(1);
    }

    /// Forget everything.
    pub fn clear(&mut self)
        ensures
            final(self)@ == empty_table(old(self)@.clusters.len() as int),
            final(self).wf() == old(self).wf(),
    {
        let n: usize = self.clusters.len();
        self.clusters = TranspositionTable::blank_clusters(n);
        self.generation = 0;
        proof {
            assert(self@.clusters =~= empty_table(n as int).clusters);
        }
    }

    /// The index of the cluster of a key.
    fn cluster_index(&self, key: u64) -> (r: usize)
        requires
            self.wf(),
        ensures
            r == self@.cluster_of(key),
            r < self.clusters@.len(),
            self@.clusters[r as int] == self.clusters@[r as int].entries@,
    {
        (key % self.clusters.len() as u64) as usize
    }

    /// Look up a position.  Returns `None` on a miss or a key collision.
    pub fn probe(&self, key: u64) -> (r: Option<TTData>)
        requires
            self.wf(),
        ensures
            r == self@.probe(key),
    {
        let c: usize = self.cluster_index(key);
        let ghost entries = self@.clusters[c as int];
        let mut i: usize = 0;
        while i < 4
            invariant
                i <= 4,
                c < self.clusters@.len(),
                c == self@.cluster_of(key),
                entries == self@.clusters[c as int],
                entries == self.clusters@[c as int].entries@,
                find_key(entries, key, 0) == find_key(entries, key, i as int),
            decreases 4 - i,
        {
            let e = self.clusters[c].entries[i];
            if e.bound != Bound::Empty && e.key == key {
                return Some(
                    TTData { score: e.score, depth: e.depth, bound: e.bound, mv: e.mv },
                );
            }
            i += 1;
        }
        None
    }

    /// The entry that a result for `key` replaces.
    fn choose_slot(&self, c: usize, key: u64) -> (r: usize)
        requires
            self.wf(),
            c == self@.cluster_of(key),
            c < self.clusters@.len(),
            self@.clusters[c as int] == self.clusters@[c as int].entries@,
        ensures
            r == self@.victim(key),
            r < 4,
    {
        let ghost entries = self@.clusters[c as int];
        let mut i: usize = 0;
        while i < 4
            invariant
                i <= 4,
                c < self.clusters@.len(),
                c == self@.cluster_of(key),
                entries == self@.clusters[c as int],
                entries == self.clusters@[c as int].entries@,
                find_slot(entries, key, 0) == find_slot(entries, key, i as int),
            decreases 4 - i,
        {
            let e = self.clusters[c].entries[i];
            if e.key == key || e.bound == Bound::Empty {
                return i;
            }
            i += 1;
        }
        // All slots occupied: evict the one with lowest quality.
        let mut w: usize = 0;
        let mut low: i32 = self.entry_quality(c, 0);
        let mut j: usize = 1;
        while j < 4
            invariant
                1 <= j <= 4,
                w < 4,
                c < self.clusters@.len(),
                entries == self.clusters@[c as int].entries@,
                w == worst(entries, self.generation, j - 1),
                low == quality(entries[w as int], self.generation),
            decreases 4 - j,
        {
            let q: i32 = self.entry_quality(c, j);
            if q < low {
                w = j;
                low = q;
            }
            j += 1;
        }
        w
    }

    fn entry_quality(&self, c: usize, i: usize) -> (r: i32)
        requires
            c < self.clusters@.len(),
            i < 4,
        ensures
            r == quality(self.clusters@[c as int].entries@[i as int], self.generation),
    {
        let e = self.clusters[c].entries[i];
        let age: u8 = self.generation.wrapping_sub(e.generation);
        e.depth as i32 - 4 * (age as i32)
    }

    /// Store a result.
    ///
    /// It replaces, in this order: the entry of the same key, an empty entry,
    /// the entry that is worth the least.
    pub fn store(&mut self, key: u64, depth: u32, score: i16, bound: Bound, mv: Option<Move>)
        requires
            old(self).wf(),
        ensures
            final(self).wf(),
            final(self)@ == old(self)@.store(key, depth as int, score, bound, mv),
    {
        let ghost before = self@;
        let c: usize = self.cluster_index(key);
        let i: usize = self.choose_slot(c, key);
        let prior = self.clusters[c].entries[i];
        let bits: u16 = match mv {
            Some(m) => m.bits(),
            None => if prior.key == key {
                prior.mv
            } else {
                0
            },
        };
        let entry = Entry {
            key,
            mv: bits,
            score,
            depth: (depth % 256) as u8,
            bound,
            generation: self.generation,
        };
        let mut cluster = self.clusters[c];
        cluster.entries[i] = entry;
        self.clusters[c] = cluster;
        proof {
            assert(self@.clusters =~= before.store(key, depth as int, score, bound, mv).clusters);
        }
    }

    /// Store every result of another table, in the order of its entries.
    pub fn absorb(&mut self, other: &TranspositionTable)
        requires
            old(self).wf(),
        ensures
            final(self).wf(),
            final(self)@ == absorbed(
                old(self)@,
                other@,
                other@.clusters.len() as int,
                0,
            ),
    {
        let mut i: usize = 0;
        while i < other.clusters.len()
            invariant
                i <= other.clusters@.len(),
                self.wf(),
                self@ == absorbed(old(self)@, other@, i as int, 0),
            decreases other.clusters@.len() - i,
        {
            let cluster = other.clusters[i];
            let mut k: usize = 0;
            while k < 4
                invariant
                    k <= 4,
                    i < other.clusters@.len(),
                    cluster == other.clusters@[i as int],
                    self.wf(),
                    self@ == absorbed(old(self)@, other@, i as int, k as int),
                decreases 4 - k,
            {
                let e = cluster.entries[k];
                proof {
                    assert(other@.clusters[i as int] == cluster.entries@);
                }
                if e.bound != Bound::Empty {
                    self.store(
                        e.key,
                        e.depth as u32,
                        e.score,
                        e.bound,
                        if e.mv != 0 {
                            Some(Move(e.mv))
                        } else {
                            None
                        },
                    );
                }
                k += 1;
            }
            i += 1;
        }
    }

    /// Approximate fill level of the current generation, in permille (0..=1000).
    pub fn hashfull(&self) -> (r: u32)
        requires
            self.wf(),
        ensures
            r == fill(self@),
            r <= 1000,
    {
        let sample: usize = if self.clusters.len() < 250 {
            self.clusters.len()
        } else {
            250
        };
        let mut count: usize = 0;
        let mut i: usize = 0;
        while i < sample
            invariant
                i <= sample <= 250,
                sample <= self.clusters@.len(),
                count == used(self@, i as int),
                count <= 4 * i,
            decreases sample - i,
        {
            let mut j: usize = 0;
            let ghost start = count;
            while j < 4
                invariant
                    j <= 4,
                    i < sample <= 250,
                    sample <= self.clusters@.len(),
                    start <= 4 * i,
                    count == start + used_in(
                        self@.clusters[i as int],
                        self.generation,
                        j as int,
                    ),
                    count <= start + j,
                decreases 4 - j,
            {
                let e = self.clusters[i].entries[j];
                proof {
                    assert(self@.clusters[i as int] == self.clusters@[i as int].entries@);
                }
                if e.bound != Bound::Empty && e.generation == self.generation {
                    count += 1;
                }
                j += 1;
            }
            i += 1;
        }
        proof {
            assert(count * 1000 / (sample * 4) <= 1000) by (nonlinear_arith)
                requires
                    count <= 4 * sample,
                    sample > 0,
            ;
        }
        (count * 1000 / (sample * 4)) as u32
    }
}

/// An empty table finds nothing.
pub proof fn law_clear_forgets(n: int, key: u64)
    requires
        n > 0,
    ensures
        empty_table(n).wf(),
        empty_table(n).probe(key) is None,
{
    lemma_victim(empty_table(n), key);
    reveal_with_fuel(find_key, 5);
}

/// How much a result of an earlier search is worth: its depth, less four for each search
/// since then.
pub open spec fn worth_keeping(e: Entry, generation: u8) -> int {
    e.depth - 4 * ((generation - e.generation) % 256)
}

proof fn lemma_worst_is_least(c: Seq<Entry>, generation: u8, i: int)
    requires
        0 <= i < c.len(),
    ensures
        0 <= worst(c, generation, i) <= i,
        forall|k: int|
            0 <= k <= i ==> quality(c[worst(c, generation, i)], generation) <= #[trigger] quality(
                c[k],
                generation,
            ),
    decreases i,
{
    if i > 0 {
        lemma_worst_is_least(c, generation, i - 1);
    }
}

proof fn lemma_slot_found(c: Seq<Entry>, key: u64, i: int)
    requires
        c.len() == 4,
        0 <= i <= 4,
    ensures
        find_slot(c, key, i) matches Some(k) ==> i <= k < 4 && (c[k].key == key || c[k].bound
            == Bound::Empty),
        find_slot(c, key, i) is None ==> forall|k: int|
            i <= k < 4 ==> (#[trigger] c[k]).key != key && c[k].bound != Bound::Empty,
    decreases 4 - i,
{
    if i < 4 {
        lemma_slot_found(c, key, i + 1);
    }
}

/// A result replaces one of the same position or an empty entry of its cluster, if there
/// is such an entry, and else the one that is worth the least.
pub proof fn law_replaced_entry(t: TableState, key: u64)
    requires
        t.wf(),
    ensures
        ({
            let c = t.clusters[t.cluster_of(key)];
            let v = t.victim(key);
            &&& 0 <= v < 4
            &&& (exists|k: int|
                0 <= k < 4 && ((#[trigger] c[k]).key == key || c[k].bound == Bound::Empty))
                ==> c[v].key == key || c[v].bound == Bound::Empty
            &&& (forall|k: int|
                0 <= k < 4 ==> (#[trigger] c[k]).key != key && c[k].bound != Bound::Empty)
                ==> forall|k: int|
                0 <= k < 4 ==> worth_keeping(c[v], t.generation) <= worth_keeping(
                    #[trigger] c[k],
                    t.generation,
                )
        }),
{
    let c = t.clusters[t.cluster_of(key)];
    lemma_slot_found(c, key, 0);
    lemma_worst_is_least(c, t.generation, 3);
    assert forall|k: int| 0 <= k < 4 implies worth_keeping(#[trigger] c[k], t.generation) == quality(
        c[k],
        t.generation,
    ) by {}
}

/// What is stored for a position is found again: the score, the bound, the depth in 8
/// bits, and the move; without a move, the one that was stored for the position before.
pub proof fn law_stored_result(
    t: TableState,
    key: u64,
    depth: int,
    score: i16,
    bound: Bound,
    mv: Option<Move>,
)
    requires
        t.wf(),
        bound != Bound::Empty,
        0 <= depth < 256,
    ensures
        t.store(key, depth, score, bound, mv).probe(key) matches Some(d) && {
            &&& d.score == score
            &&& d.depth == depth
            &&& d.bound == bound
            &&& mv matches Some(m) ==> d.mv == m.0
            &&& mv is None ==> (t.probe(key) matches Some(o) ==> t.clusters[t.cluster_of(
                key,
            )][t.victim(key)].bound != Bound::Empty ==> d.mv == o.mv)
        },
{
    law_probe_after_store(t, key, depth, score, bound, mv);
    let c = t.clusters[t.cluster_of(key)];
    lemma_same_slot(c, key, 0);
    lemma_slot_found(c, key, 0);
}

proof fn lemma_same_slot(c: Seq<Entry>, key: u64, i: int)
    requires
        c.len() == 4,
        0 <= i <= 4,
    ensures
        find_slot(c, key, i) matches Some(k) ==> c[k].bound != Bound::Empty ==> find_key(c, key, i)
            == Some(k),
        find_slot(c, key, i) is None ==> find_key(c, key, i) is None,
        find_key(c, key, i) matches Some(k) ==> i <= k < 4 && c[k].key == key,
    decreases 4 - i,
{
    if i < 4 {
        lemma_same_slot(c, key, i + 1);
    }
}

proof fn lemma_used_between(t: TableState, n: int)
    requires
        0 <= n <= t.clusters.len(),
    ensures
        0 <= used(t, n) <= 4 * n,
        (forall|i: int, k: int|
            0 <= i < n && 0 <= k < 4 ==> (#[trigger] t.clusters[i][k]).bound != Bound::Empty
                && t.clusters[i][k].generation == t.generation) ==> used(t, n) == 4 * n,
        (forall|i: int, k: int|
            0 <= i < n && 0 <= k < 4 ==> (#[trigger] t.clusters[i][k]).bound == Bound::Empty
                || t.clusters[i][k].generation != t.generation) ==> used(t, n) == 0,
    decreases n,
{
    if n > 0 {
        lemma_used_between(t, n - 1);
        reveal_with_fuel(used_in, 5);
        let c = t.clusters[n - 1];
        assert(c[0] == t.clusters[n - 1][0] && c[1] == t.clusters[n - 1][1] && c[2]
            == t.clusters[n - 1][2] && c[3] == t.clusters[n - 1][3]);
    }
}

/// The fill level goes from 0, where no entry of the first 250 clusters is of the current
/// search, to 1000, where all are.
pub proof fn law_fill_level(t: TableState)
    requires
        t.wf(),
    ensures
        ({
            let n = if t.clusters.len() < 250 {
                t.clusters.len() as int
            } else {
                250
            };
            &&& 0 <= fill(t) <= 1000
            &&& (forall|i: int, k: int|
                0 <= i < n && 0 <= k < 4 ==> (#[trigger] t.clusters[i][k]).bound != Bound::Empty
                    && t.clusters[i][k].generation == t.generation) ==> fill(t) == 1000
            &&& (forall|i: int, k: int|
                0 <= i < n && 0 <= k < 4 ==> (#[trigger] t.clusters[i][k]).bound == Bound::Empty
                    || t.clusters[i][k].generation != t.generation) ==> fill(t) == 0
        }),
{
    let n = if t.clusters.len() < 250 {
        t.clusters.len() as int
    } else {
        250
    };
    lemma_used_between(t, n);
    let u = used(t, n);
    assert(0 <= u * 1000 / (n * 4) <= 1000) by (nonlinear_arith)
        requires
            n > 0,
            0 <= u <= 4 * n,
    ;
    assert(u == 4 * n ==> u * 1000 / (n * 4) == 1000) by (nonlinear_arith)
        requires
            n > 0,
    ;
    assert(u == 0 ==> u * 1000 / (n * 4) == 0) by (nonlinear_arith)
        requires
            n > 0,
    ;
}

} // verus!
