//! The transposition table: what earlier searches found out about positions,
//! in buckets of four entries.
use vstd::prelude::*;
use crate::moves::Move;

verus! {

#[derive(Copy, Clone, Debug, PartialEq, Eq, Structural)]
pub enum Bound {
    Exact,
    Lower,
    Upper,
}

#[derive(Copy, Clone, Debug, PartialEq, Eq, Structural)]
pub struct TTEntry {
    pub key: u64,
    /// Negative for an entry that holds nothing.
    pub depth: i32,
    pub score: i32,
    pub bound: Bound,
    pub best_move: Move,
    pub generation: u8,
}

impl TTEntry {
    pub open spec fn vacant(self) -> bool {
        self.depth < 0
    }

    /// The entry that holds nothing.
    pub fn empty() -> (r: TTEntry)
        ensures
            r == empty_entry(),
    {
        TTEntry {
            key: 0,
            depth: -1,
            score: 0,
            bound: Bound::Exact,
            best_move: Move::null(),
            generation: 0,
        }
    }

    #[inline(always)]
    pub fn is_empty(&self) -> (r: bool)
        ensures
            r == self.vacant(),
    {
        self.depth < 0
    }
}

pub open spec fn empty_entry() -> TTEntry {
    TTEntry {
        key: 0,
        depth: -1i32 as i32,
        score: 0,
        bound: Bound::Exact,
        best_move: Move(0xFFFF_FFFF),
        generation: 0,
    }
}

/// Entries in a bucket.
pub const TT_BUCKET_SIZE: usize = 4;

/// Memory that a bucket takes, for sizing the table.
pub const BUCKET_BYTES: usize = 96;

pub const MIN_BUCKETS: usize = 4096;

/// The first entry for `key` among the first `n` of a bucket.
pub open spec fn find_entry(bucket: Seq<TTEntry>, key: u64, n: int) -> Option<int>
    decreases n,
{
    if n <= 0 {
        None
    } else {
        match find_entry(bucket, key, n - 1) {
            Some(i) => Some(i),
            None => if !bucket[n - 1].vacant() && bucket[n - 1].key == key {
                Some(n - 1)
            } else {
                None
            },
        }
    }
}

/// The first vacant entry among the first `n` of a bucket.
pub open spec fn find_vacant(bucket: Seq<TTEntry>, n: int) -> Option<int>
    decreases n,
{
    if n <= 0 {
        None
    } else {
        match find_vacant(bucket, n - 1) {
            Some(i) => Some(i),
            None => if bucket[n - 1].vacant() {
                Some(n - 1)
            } else {
                None
            },
        }
    }
}

/// How much an entry is worth keeping: deep and recent.
pub open spec fn keep_value(e: TTEntry, generation: u8) -> i32 {
    let age = vstd::wrapping::u8_specs::wrapping_sub(generation, e.generation);
    vstd::wrapping::i32_specs::wrapping_sub(e.depth, (8 * age) as i32)
}

/// The first of the entries least worth keeping, among the first `n`.
pub open spec fn find_worst(bucket: Seq<TTEntry>, generation: u8, n: int) -> int
    decreases n,
{
    if n <= 1 {
        0
    } else {
        let w = find_worst(bucket, generation, n - 1);
        if keep_value(bucket[n - 1], generation) < keep_value(bucket[w], generation) {
            n - 1
        } else {
            w
        }
    }
}

/// What is known in a bucket about `key`.
pub open spec fn bucket_probe(bucket: Seq<TTEntry>, key: u64) -> Option<TTEntry> {
    match find_entry(bucket, key, 4) {
        Some(i) => Some(bucket[i]),
        None => None,
    }
}

/// A bucket after storing `e`: an entry for the same position is replaced
/// unless it is deeper, of this generation, and the new one is not exact; else
/// a vacant entry is filled; else the entry least worth keeping is evicted.
pub open spec fn bucket_store(bucket: Seq<TTEntry>, e: TTEntry) -> Seq<TTEntry> {
    match find_entry(bucket, e.key, 4) {
        Some(i) => if e.depth >= bucket[i].depth || e.bound == Bound::Exact || bucket[i].generation
            != e.generation {
            bucket.update(i, e)
        } else {
            bucket
        },
        None => match find_vacant(bucket, 4) {
            Some(i) => bucket.update(i, e),
            None => bucket.update(find_worst(bucket, e.generation, 4), e),
        },
    }
}

pub struct TranspositionTable {
    pub buckets: Vec<[TTEntry; 4]>,
    pub mask: u64,
    pub generation: u8,
}

/// A transposition table, as mathematics.
pub struct TableModel {
    pub buckets: Seq<Seq<TTEntry>>,
    pub mask: u64,
    pub generation: u8,
}

pub open spec fn bucket_views(buckets: Seq<[TTEntry; 4]>) -> Seq<Seq<TTEntry>> {
    buckets.map_values(|b: [TTEntry; 4]| b@)
}

impl TableModel {
    pub open spec fn index(self, key: u64) -> int {
        (key & self.mask) as int
    }

    pub open spec fn probe(self, key: u64) -> Option<TTEntry> {
        bucket_probe(self.buckets[self.index(key)], key)
    }

    pub open spec fn store(
        self,
        key: u64,
        depth: i32,
        score: i32,
        bound: Bound,
        best_move: Move,
    ) -> TableModel {
        let e = TTEntry { key, depth, score, bound, best_move, generation: self.generation };
        let i = self.index(key);
        TableModel { buckets: self.buckets.update(i, bucket_store(self.buckets[i], e)), ..self }
    }

    /// Every key has a bucket.
    pub open spec fn wf(self) -> bool {
        &&& self.buckets.len() == self.mask + 1
        &&& forall|i: int| 0 <= i < self.buckets.len() ==> (#[trigger] self.buckets[i]).len() == 4
    }
}

proof fn find_entry_range(bucket: Seq<TTEntry>, key: u64, n: int)
    ensures
        find_entry(bucket, key, n) matches Some(i) ==> 0 <= i < n && !bucket[i].vacant()
            && bucket[i].key == key && forall|j: int| 0 <= j < i ==> bucket[j].vacant()
            || bucket[j].key != key,
        find_entry(bucket, key, n) is None ==> forall|j: int|
            0 <= j < n ==> bucket[j].vacant() || bucket[j].key != key,
    decreases n,
{
    if n > 0 {
        find_entry_range(bucket, key, n - 1);
    }
}

proof fn find_entry_first(bucket: Seq<TTEntry>, key: u64, i: int, n: int)
    requires
        0 <= i < n,
        !bucket[i].vacant(),
        bucket[i].key == key,
        forall|j: int| 0 <= j < i ==> bucket[j].vacant() || bucket[j].key != key,
    ensures
        find_entry(bucket, key, n) == Some(i),
    decreases n,
{
    find_entry_range(bucket, key, n - 1);
    if i < n - 1 {
        find_entry_first(bucket, key, i, n - 1);
    }
}

proof fn find_vacant_range(bucket: Seq<TTEntry>, n: int)
    ensures
        find_vacant(bucket, n) matches Some(i) ==> 0 <= i < n,
    decreases n,
{
    if n > 0 {
        find_vacant_range(bucket, n - 1);
    }
}

proof fn find_worst_range(bucket: Seq<TTEntry>, generation: u8, n: int)
    requires
        n >= 1,
    ensures
        0 <= find_worst(bucket, generation, n) < n,
    decreases n,
{
    if n > 1 {
        find_worst_range(bucket, generation, n - 1);
    }
}

/// Every key falls into the table.
pub proof fn index_in_range(t: TableModel, key: u64)
    requires
        t.wf(),
    ensures
        0 <= t.index(key) < t.buckets.len(),
{
    let mask = t.mask;
    assert(key & mask <= mask) by (bit_vector);
}

proof fn bucket_store_len(bucket: Seq<TTEntry>, e: TTEntry)
    requires
        bucket.len() == 4,
    ensures
        bucket_store(bucket, e).len() == 4,
{
    find_entry_range(bucket, e.key, 4);
    find_vacant_range(bucket, 4);
    find_worst_range(bucket, e.generation, 4);
}

/// After storing what a search of some depth found about a position, the table
/// knows the position: it gives back the new entry, or an older one that is
/// deeper.
pub proof fn stored_is_found(
    t: TableModel,
    key: u64,
    depth: i32,
    score: i32,
    bound: Bound,
    best_move: Move,
)
    requires
        t.wf(),
        depth >= 0,
    ensures
        ({
            let e = TTEntry { key, depth, score, bound, best_move, generation: t.generation };
            match t.store(key, depth, score, bound, best_move).probe(key) {
                Some(f) => f == e || (f.key == key && f.depth > depth && t.probe(key) == Some(f)),
                None => false,
            }
        }),
{
    let e = TTEntry { key, depth, score, bound, best_move, generation: t.generation };
    index_in_range(t, key);
    let bucket = t.buckets[t.index(key)];
    let after = bucket_store(bucket, e);
    find_entry_range(bucket, key, 4);
    match find_entry(bucket, key, 4) {
        Some(i) => {
            find_entry_first(after, key, i, 4);
        },
        None => {
            find_vacant_range(bucket, 4);
            find_worst_range(bucket, e.generation, 4);
            let i = match find_vacant(bucket, 4) {
                Some(i) => i,
                None => find_worst(bucket, e.generation, 4),
            };
            find_entry_first(after, key, i, 4);
        },
    }
}

/// Storing leaves all that is known about positions in other buckets.
pub proof fn store_keeps_others(
    t: TableModel,
    key: u64,
    depth: i32,
    score: i32,
    bound: Bound,
    best_move: Move,
    other: u64,
)
    requires
        t.wf(),
        t.index(other) != t.index(key),
    ensures
        t.store(key, depth, score, bound, best_move).probe(other) == t.probe(other),
{
    index_in_range(t, key);
    index_in_range(t, other);
}

/// Storing keeps the shape of the table.
pub proof fn store_wf(
    t: TableModel,
    key: u64,
    depth: i32,
    score: i32,
    bound: Bound,
    best_move: Move,
)
    requires
        t.wf(),
    ensures
        t.store(key, depth, score, bound, best_move).wf(),
{
    index_in_range(t, key);
    let e = TTEntry { key, depth, score, bound, best_move, generation: t.generation };
    bucket_store_len(t.buckets[t.index(key)], e);
}

/// A power of two that is at least `n`, and 1 for zero.
pub open spec fn power_at_least(n: int, p: int) -> int
    decreases
            if n > p {
                n - p
            } else {
                0
            },
{
    if p >= n || p <= 0 {
        p
    } else {
        power_at_least(n, 2 * p)
    }
}

/// The number of buckets for a table of `mb` megabytes.
pub open spec fn bucket_count(mb: int) -> int {
    let n = power_at_least(mb * 1048576 / 96, 1);
    if n < 4096 {
        4096
    } else {
        n
    }
}

fn next_power_of_two(n: usize) -> (r: usize)
    requires
        n <= usize::MAX / 4,
    ensures
        r == power_at_least(n as int, 1),
        1 <= r <= 2 * n + 1,
{
    let mut p: usize = 1;
    while p < n
        invariant
            n <= usize::MAX / 4,
            1 <= p <= 2 * n + 1,
            power_at_least(n as int, p as int) == power_at_least(n as int, 1),
        decreases
                if n > p {
                    n - p
                } else {
                    0
                },
    {
        p = 2 * p;
    }
    p
}

impl TranspositionTable {
    pub open spec fn view(&self) -> TableModel {
        TableModel {
            buckets: bucket_views(self.buckets@),
            mask: self.mask,
            generation: self.generation,
        }
    }

    pub open spec fn wf(&self) -> bool {
        self.buckets@.len() == self.mask + 1
    }

    /// An empty table of about `mb` megabytes.
    pub fn new(mb: usize) -> (r: Self)
        requires
            mb <= usize::MAX / 1048576,
        ensures
            r.wf(),
            r@.wf(),
            r.buckets@.len() == bucket_count(mb as int),
            r.generation == 0,
            forall|i: int, j: int|
                0 <= i < r.buckets@.len() && 0 <= j < 4 ==> #[trigger] r.buckets@[i][j]
                    == empty_entry(),
    {
        let mut bucket_count = next_power_of_two(mb * 1048576 / BUCKET_BYTES);
        if bucket_count < MIN_BUCKETS {
            bucket_count = MIN_BUCKETS;
        }
        let e = TTEntry::empty();
        let empty: [TTEntry; 4] = [e, e, e, e];
        let mut buckets: Vec<[TTEntry; 4]> = Vec::with_capacity(bucket_count);
        let mut i: usize = 0;
        while i < bucket_count
            invariant
                i <= bucket_count,
                buckets@.len() == i,
                forall|j: int| 0 <= j < 4 ==> #[trigger] empty[j] == empty_entry(),
                forall|k: int, j: int|
                    0 <= k < i && 0 <= j < 4 ==> #[trigger] buckets@[k][j] == empty_entry(),
            decreases bucket_count - i,
        {
            buckets.push(empty);
            i += 1;
        }
        TranspositionTable { buckets, mask: (bucket_count - 1) as u64, generation: 0 }
    }

    /// Entries from before lose in worth.
    pub fn new_generation(&mut self)
        ensures
            final(self).generation == vstd::wrapping::u8_specs::wrapping_add(
                old(self).generation,
                1,
            ),
            final(self).buckets == old(self).buckets,
            final(self).mask == old(self).mask,
    {
        self.generation = self.generation.wrapping_add(1);
    }

    #[inline]
    fn bucket_idx(&self, key: u64) -> (r: usize)
        requires
            self.wf(),
        ensures
            r == self@.index(key),
            r < self.buckets@.len(),
    {
        let mask = self.mask;
        proof {
            assert(key & mask <= mask) by (bit_vector);
        }
        let total: usize = self.buckets.len();
        (key & mask) as usize
    }

    pub fn probe(&self, key: u64) -> (r: Option<TTEntry>)
        requires
            self.wf(),
        ensures
            r == self@.probe(key),
    {
        let idx = self.bucket_idx(key);
        let bucket = self.buckets[idx];
        proof {
            assert(self@.buckets[idx as int] == bucket@);
        }
        let mut i: usize = 0;
        while i < 4
            invariant
                i <= 4,
                find_entry(bucket@, key, i as int) is None,
                self@.probe(key) == bucket_probe(bucket@, key),
            decreases 4 - i,
        {
            let e = bucket[i];
            if !e.is_empty() && e.key == key {
                proof {
                    find_entry_range(bucket@, key, i as int);
                    find_entry_first(bucket@, key, i as int, 4);
                }
                return Some(e);
            }
            i += 1;
        }
        None
    }

    pub fn store(&mut self, key: u64, depth: i32, score: i32, bound: Bound, best_move: Move)
        requires
            old(self).wf(),
        ensures
            final(self).wf(),
            final(self)@ == old(self)@.store(key, depth, score, bound, best_move),
    {
        let idx = self.bucket_idx(key);
        let generation = self.generation;
        let e = TTEntry { key, depth, score, bound, best_move, generation };
        let mut bucket = self.buckets[idx];
        let ghost before = bucket@;
        let slot = choose_slot(&bucket, &e);
        if let Some(i) = slot {
            bucket[i] = e;
            self.buckets[idx] = bucket;
        }
        proof {
            assert(old(self)@.buckets[idx as int] == before);
            assert(self@.buckets =~= old(self)@.store(key, depth, score, bound, best_move).buckets);
        }
    }
}

/// Which entry of a bucket a new one replaces, if any.
fn choose_slot(bucket: &[TTEntry; 4], e: &TTEntry) -> (r: Option<usize>)
    ensures
        match r {
            Some(i) => i < 4 && bucket_store(bucket@, *e) == bucket@.update(i as int, *e),
            None => bucket_store(bucket@, *e) == bucket@,
        },
{
    let mut i: usize = 0;
    while i < 4
        invariant
            i <= 4,
            find_entry(bucket@, e.key, i as int) is None,
        decreases 4 - i,
    {
        let slot = bucket[i];
        if !slot.is_empty() && slot.key == e.key {
            proof {
                find_entry_range(bucket@, e.key, i as int);
                find_entry_first(bucket@, e.key, i as int, 4);
            }
            if e.depth >= slot.depth || e.bound == Bound::Exact || slot.generation != e.generation {
                return Some(i);
            }
            return None;
        }
        i += 1;
    }
    let mut k: usize = 0;
    while k < 4
        invariant
            k <= 4,
            find_entry(bucket@, e.key, 4) is None,
            find_vacant(bucket@, k as int) is None,
        decreases 4 - k,
    {
        if bucket[k].is_empty() {
            proof {
                vacant_first(bucket@, k as int, 4);
            }
            return Some(k);
        }
        k += 1;
    }
    let mut worst_i: usize = 0;
    let mut worst_value = value_of_entry(&bucket[0], e.generation);
    let mut n: usize = 1;
    while n < 4
        invariant
            1 <= n <= 4,
            worst_i < 4,
            worst_i == find_worst(bucket@, e.generation, n as int),
            worst_value == keep_value(bucket@[worst_i as int], e.generation),
        decreases 4 - n,
    {
        let value = value_of_entry(&bucket[n], e.generation);
        if value < worst_value {
            worst_value = value;
            worst_i = n;
        }
        n += 1;
    }
    Some(worst_i)
}

proof fn vacant_first(bucket: Seq<TTEntry>, i: int, n: int)
    requires
        0 <= i < n,
        find_vacant(bucket, i) is None,
        bucket[i].vacant(),
    ensures
        find_vacant(bucket, n) == Some(i),
    decreases n,
{
    if i < n - 1 {
        vacant_first(bucket, i, n - 1);
    }
}

fn value_of_entry(e: &TTEntry, generation: u8) -> (r: i32)
    ensures
        r == keep_value(*e, generation),
{
    let age: u8 = generation.wrapping_sub(e.generation);
    e.depth.wrapping_sub(8 * age as i32)
}

/// What all root moves of a search share.
pub struct SharedSearch {
    pub tt: TranspositionTable,
    pub nodes_aggregate: u64,
}

impl SharedSearch {
    pub fn new(mb: usize) -> (r: Self)
        requires
            mb <= usize::MAX / 1048576,
        ensures
            r.tt.wf(),
            r.tt@.wf(),
            r.nodes_aggregate == 0,
            r.tt.generation == 0,
            r.tt.buckets@.len() == bucket_count(mb as int),
            forall|i: int, j: int|
                0 <= i < r.tt.buckets@.len() && 0 <= j < 4 ==> #[trigger] r.tt.buckets@[i][j]
                    == empty_entry(),
    {
        SharedSearch { tt: TranspositionTable::new(mb), nodes_aggregate: 0 }
    }

    #[inline]
    pub fn probe(&self, key: u64) -> (r: Option<TTEntry>)
        requires
            self.tt.wf(),
        ensures
            r == self.tt@.probe(key),
    {
        self.tt.probe(key)
    }

    pub fn store(&mut self, key: u64, depth: i32, score: i32, bound: Bound, best_move: Move)
        requires
            old(self).tt.wf(),
        ensures
            final(self).tt.wf(),
            final(self).tt@ == old(self).tt@.store(key, depth, score, bound, best_move),
            final(self).nodes_aggregate == old(self).nodes_aggregate,
    {
        self.tt.store(key, depth, score, bound, best_move);
    }

    pub fn new_generation(&mut self)
        ensures
            final(self).tt.generation == vstd::wrapping::u8_specs::wrapping_add(
                old(self).tt.generation,
                1,
            ),
            final(self).tt.buckets == old(self).tt.buckets,
            final(self).tt.mask == old(self).tt.mask,
            final(self).nodes_aggregate == old(self).nodes_aggregate,
    {
        self.tt.new_generation();
    }
}

} // verus!
