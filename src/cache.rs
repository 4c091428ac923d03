//! A capacity-bounded cache of per-vertex computation results.
//!
//! Entries are addressed by the pair (vertex id, key); the pair itself is the
//! key, so distinct pairs can never collide. A vertex index remembers, for
//! each vertex, the keys put for it in order of first insertion, each key at
//! most once. Index rows may still name keys whose entries were evicted: those
//! are skipped on lookup.
//!
//! Every operation takes `&mut self` or `&self`, so check-evict-insert in
//! `put` is one exclusive step and the table never holds more than
//! `max_entries` entries (for `max_entries >= 1`). Sharing between tasks is
//! done by the caller, behind one lock.
use vstd::prelude::*;
use vstd::string::StringExecFns;
use crate::clock::current_time_ms;

verus! {

/// One cached value for a (vertex, key) pair.
#[derive(Clone, Debug)]
pub struct CacheEntry<V> {
    pub vertex_id: String,
    pub key: String,
    pub value: Vec<V>,
    /// Time of the last write or read hit, in milliseconds.
    pub timestamp: u64,
    pub access_count: usize,
    pub computation_cost: V,
}

/// The mathematical content of a `CacheEntry`.
pub struct EntryView<V> {
    pub vertex_id: Seq<char>,
    pub key: Seq<char>,
    pub value: Seq<V>,
    pub timestamp: u64,
    pub access_count: usize,
    pub computation_cost: V,
}

impl<V> View for CacheEntry<V> {
    type V = EntryView<V>;

    open spec fn view(&self) -> EntryView<V> {
        EntryView {
            vertex_id: self.vertex_id@,
            key: self.key@,
            value: self.value@,
            timestamp: self.timestamp,
            access_count: self.access_count,
            computation_cost: self.computation_cost,
        }
    }
}

/// Whether `e` is the entry for the pair (`v`, `k`).
pub open spec fn is_entry_for<V>(e: EntryView<V>, v: Seq<char>, k: Seq<char>) -> bool {
    e.vertex_id == v && e.key == k
}

pub open spec fn contains_key<V>(t: Seq<EntryView<V>>, v: Seq<char>, k: Seq<char>) -> bool {
    exists|i: int| 0 <= i < t.len() && is_entry_for(#[trigger] t[i], v, k)
}

/// Where the entry for (`v`, `k`) stands; meaningful when `contains_key` holds.
pub open spec fn position<V>(t: Seq<EntryView<V>>, v: Seq<char>, k: Seq<char>) -> int {
    choose|i: int| 0 <= i < t.len() && is_entry_for(#[trigger] t[i], v, k)
}

/// No two entries share a (vertex, key) pair.
pub open spec fn pairs_unique<V>(t: Seq<EntryView<V>>) -> bool {
    forall|i: int, j: int|
        0 <= i < t.len() && 0 <= j < t.len() && #[trigger] t[i].vertex_id == #[trigger] t[j].vertex_id
            && t[i].key == t[j].key ==> i == j
}

/// The value stored for (`v`, `k`), if any.
pub open spec fn lookup<V>(t: Seq<EntryView<V>>, v: Seq<char>, k: Seq<char>) -> Option<Seq<V>> {
    if contains_key(t, v, k) {
        Some(t[position(t, v, k)].value)
    } else {
        None
    }
}

pub open spec fn values_view<V>(r: Option<Vec<V>>) -> Option<Seq<V>> {
    match r {
        Some(x) => Some(x@),
        None => None,
    }
}

/// Counters grow by one and stay at the largest value once there.
pub open spec fn bump(n: usize) -> usize {
    if n < usize::MAX {
        (n + 1) as usize
    } else {
        n
    }
}

/// The table after a lookup of (`v`, `k`) at time `now`: a hit refreshes the
/// entry's time and counts the access; a miss changes nothing.
pub open spec fn touched<V>(t: Seq<EntryView<V>>, v: Seq<char>, k: Seq<char>, now: u64) -> Seq<EntryView<V>> {
    if contains_key(t, v, k) {
        let p = position(t, v, k);
        let e = t[p];
        t.update(
            p,
            EntryView {
                vertex_id: e.vertex_id,
                key: e.key,
                value: e.value,
                timestamp: now,
                access_count: bump(e.access_count),
                computation_cost: e.computation_cost,
            },
        )
    } else {
        t
    }
}

/// Copies a slice of plain values one by one.
fn copy_values<V: Copy>(src: &Vec<V>) -> (r: Vec<V>)
    ensures
        r@ == src@,
{
    let mut r: Vec<V> = Vec::new();
    let mut i: usize = 0;
    while i < src.len()
        invariant
            i <= src@.len(),
            r@ == src@.subrange(0, i as int),
        decreases src@.len() - i,
    {
        r.push(src[i]);
        i = i + 1;
        proof {
            assert(r@ =~= src@.subrange(0, i as int));
        }
    }
    proof {
        assert(r@ =~= src@);
    }
    r
}

impl<V: Copy> CacheEntry<V> {
    /// A field-by-field copy of the entry.
    pub fn copy(&self) -> (r: CacheEntry<V>)
        ensures
            r@ == self@,
    {
        CacheEntry {
            vertex_id: self.vertex_id.clone(),
            key: self.key.clone(),
            value: copy_values(&self.value),
            timestamp: self.timestamp,
            access_count: self.access_count,
            computation_cost: self.computation_cost,
        }
    }
}

/// The keys put for one vertex, each at most once, in order of first insertion.
struct IndexRow {
    vertex_id: String,
    keys: Vec<String>,
}

pub open spec fn string_views(s: Seq<String>) -> Seq<Seq<char>> {
    s.map_values(|x: String| x@)
}

/// The keys that the index lists for `v`; empty when it has no row for `v`.
pub open spec fn row_of(rows: Seq<(Seq<char>, Seq<Seq<char>>)>, v: Seq<char>) -> Seq<Seq<char>> {
    if exists|i: int| 0 <= i < rows.len() && (#[trigger] rows[i]).0 == v {
        rows[choose|i: int| 0 <= i < rows.len() && (#[trigger] rows[i]).0 == v].1
    } else {
        Seq::empty()
    }
}

/// Whether the entry at `i` has the smallest timestamp of the table.
pub open spec fn is_lru_victim<V>(t: Seq<EntryView<V>>, i: int) -> bool {
    &&& 0 <= i < t.len()
    &&& forall|j: int| 0 <= j < t.len() ==> t[i].timestamp <= (#[trigger] t[j]).timestamp
}

/// The table with `e` written in: it replaces the entry for its pair, or is
/// appended when the pair is new.
pub open spec fn placed<V>(t: Seq<EntryView<V>>, e: EntryView<V>) -> Seq<EntryView<V>> {
    if contains_key(t, e.vertex_id, e.key) {
        t.update(position(t, e.vertex_id, e.key), e)
    } else {
        t.push(e)
    }
}

/// The entry that a write of `value` at time `now` creates.
pub open spec fn fresh_entry<V>(v: Seq<char>, k: Seq<char>, value: Seq<V>, cost: V, now: u64) -> EntryView<V> {
    EntryView { vertex_id: v, key: k, value, timestamp: now, access_count: 1, computation_cost: cost }
}

/// How a write of `e` turns table `t0`, of a cache of capacity `cap`, into
/// `t1`: a full table first loses one least recently used entry.
pub open spec fn written<V>(t0: Seq<EntryView<V>>, cap: usize, e: EntryView<V>, t1: Seq<EntryView<V>>) -> bool {
    if t0.len() >= cap && t0.len() > 0 {
        exists|i: int| is_lru_victim(t0, i) && t1 == #[trigger] placed(t0.remove(i), e)
    } else {
        t1 == placed(t0, e)
    }
}

pub open spec fn has_row(rows: Seq<(Seq<char>, Seq<Seq<char>>)>, v: Seq<char>) -> bool {
    exists|i: int| 0 <= i < rows.len() && (#[trigger] rows[i]).0 == v
}

pub open spec fn row_position(rows: Seq<(Seq<char>, Seq<Seq<char>>)>, v: Seq<char>) -> int {
    choose|i: int| 0 <= i < rows.len() && (#[trigger] rows[i]).0 == v
}

pub open spec fn ids_unique(rows: Seq<(Seq<char>, Seq<Seq<char>>)>) -> bool {
    forall|i: int, j: int|
        0 <= i < rows.len() && 0 <= j < rows.len() && #[trigger] rows[i].0 == #[trigger] rows[j].0 ==> i == j
}

/// The index with `k` recorded for `v`: appended to `v`'s row unless already
/// there, or in a new row for a new vertex.
pub open spec fn with_key(rows: Seq<(Seq<char>, Seq<Seq<char>>)>, v: Seq<char>, k: Seq<char>) -> Seq<(Seq<char>, Seq<Seq<char>>)> {
    if has_row(rows, v) {
        let p = row_position(rows, v);
        if rows[p].1.contains(k) {
            rows
        } else {
            rows.update(p, (v, rows[p].1.push(k)))
        }
    } else {
        rows.push((v, seq![k]))
    }
}

proof fn lemma_row_of_at(rows: Seq<(Seq<char>, Seq<Seq<char>>)>, p: int)
    requires
        ids_unique(rows),
        0 <= p < rows.len(),
    ensures
        row_of(rows, rows[p].0) == rows[p].1,
{
    let u = rows[p].0;
    assert(has_row(rows, u));
    let q = choose|i: int| 0 <= i < rows.len() && (#[trigger] rows[i]).0 == u;
    assert(rows[q].0 == rows[p].0);
}

proof fn lemma_with_key(rows: Seq<(Seq<char>, Seq<Seq<char>>)>, v: Seq<char>, k: Seq<char>, u: Seq<char>, x: Seq<char>)
    requires
        ids_unique(rows),
    ensures
        ids_unique(with_key(rows, v, k)),
        row_of(with_key(rows, v, k), v).contains(k),
        row_of(rows, u).contains(x) ==> row_of(with_key(rows, v, k), u).contains(x),
{
    let n = with_key(rows, v, k);
    if has_row(rows, v) {
        let p = row_position(rows, v);
        lemma_row_of_at(rows, p);
        if rows[p].1.contains(k) {
        } else {
            assert forall|i: int, j: int|
                0 <= i < n.len() && 0 <= j < n.len() && #[trigger] n[i].0 == #[trigger] n[j].0 implies i == j by {
                assert(n[i].0 == rows[i].0);
                assert(n[j].0 == rows[j].0);
            }
            lemma_row_of_at(n, p);
            assert(n[p].1 == rows[p].1.push(k));
            assert(n[p].1[rows[p].1.len() as int] == k);
            if row_of(rows, u).contains(x) {
                let ex = choose|i: int| 0 <= i < rows.len() && (#[trigger] rows[i]).0 == u;
                lemma_row_of_at(rows, ex);
                lemma_row_of_at(n, ex);
                if ex == p {
                    let xi = choose|xi: int| 0 <= xi < rows[p].1.len() && rows[p].1[xi] == x;
                    assert(n[p].1[xi] == x);
                }
            }
        }
    } else {
        assert forall|i: int, j: int|
            0 <= i < n.len() && 0 <= j < n.len() && #[trigger] n[i].0 == #[trigger] n[j].0 implies i == j by {
            if i < rows.len() && j == rows.len() {
                assert(rows[i].0 == v);
            }
            if j < rows.len() && i == rows.len() {
                assert(rows[j].0 == v);
            }
        }
        lemma_row_of_at(n, rows.len() as int);
        assert(n[rows.len() as int].1[0] == k);
        if row_of(rows, u).contains(x) {
            let ex = choose|i: int| 0 <= i < rows.len() && (#[trigger] rows[i]).0 == u;
            lemma_row_of_at(rows, ex);
            lemma_row_of_at(n, ex);
        }
    }
}

/// The live entries of vertex `v` that `keys` name, in the order of `keys`;
/// keys without a live entry are skipped.
pub open spec fn resolved<V>(t: Seq<EntryView<V>>, v: Seq<char>, keys: Seq<Seq<char>>) -> Seq<EntryView<V>>
    decreases keys.len(),
{
    if keys.len() == 0 {
        Seq::empty()
    } else {
        let prev = resolved(t, v, keys.drop_last());
        if contains_key(t, v, keys.last()) {
            prev.push(t[position(t, v, keys.last())])
        } else {
            prev
        }
    }
}

/// The entries that a lookup through the index finds for `v`.
pub open spec fn vertex_entries<V>(t: Seq<EntryView<V>>, rows: Seq<(Seq<char>, Seq<Seq<char>>)>, v: Seq<char>) -> Seq<EntryView<V>> {
    resolved(t, v, row_of(rows, v))
}

/// How many entries lookups through the index find for each of `ids`.
pub open spec fn found_total<V>(t: Seq<EntryView<V>>, rows: Seq<(Seq<char>, Seq<Seq<char>>)>, ids: Seq<Seq<char>>) -> int
    decreases ids.len(),
{
    if ids.len() == 0 {
        0
    } else {
        found_total(t, rows, ids.drop_last()) + vertex_entries(t, rows, ids.last()).len()
    }
}

pub open spec fn entry_views<V>(s: Seq<CacheEntry<V>>) -> Seq<EntryView<V>> {
    s.map_values(|e: CacheEntry<V>| e@)
}

/// The index without the row of `v`.
pub open spec fn without_row(rows: Seq<(Seq<char>, Seq<Seq<char>>)>, v: Seq<char>) -> Seq<(Seq<char>, Seq<Seq<char>>)> {
    if has_row(rows, v) {
        rows.remove(row_position(rows, v))
    } else {
        rows
    }
}

/// The table without the entries of vertex `v`.
pub open spec fn without_vertex<V>(t: Seq<EntryView<V>>, v: Seq<char>) -> Seq<EntryView<V>> {
    t.filter(|e: EntryView<V>| e.vertex_id != v)
}

proof fn lemma_without_row(rows: Seq<(Seq<char>, Seq<Seq<char>>)>, v: Seq<char>, u: Seq<char>)
    requires
        ids_unique(rows),
    ensures
        ids_unique(without_row(rows, v)),
        !has_row(without_row(rows, v), v),
        u != v ==> row_of(without_row(rows, v), u) == row_of(rows, u),
{
    let n = without_row(rows, v);
    if has_row(rows, v) {
        let p = row_position(rows, v);
        assert forall|i: int, j: int|
            0 <= i < n.len() && 0 <= j < n.len() && #[trigger] n[i].0 == #[trigger] n[j].0 implies i == j by {
            let i0 = if i < p { i } else { i + 1 };
            let j0 = if j < p { j } else { j + 1 };
            assert(n[i] == rows[i0]);
            assert(n[j] == rows[j0]);
        }
        if has_row(n, v) {
            let q = choose|i: int| 0 <= i < n.len() && (#[trigger] n[i]).0 == v;
            let q0 = if q < p { q } else { q + 1 };
            assert(n[q] == rows[q0]);
        }
        if u != v {
            if has_row(rows, u) {
                let ex = choose|i: int| 0 <= i < rows.len() && (#[trigger] rows[i]).0 == u;
                lemma_row_of_at(rows, ex);
                assert(ex != p);
                let e1 = if ex < p { ex } else { ex - 1 };
                assert(n[e1] == rows[ex]);
                lemma_row_of_at(n, e1);
            } else {
                if has_row(n, u) {
                    let q = choose|i: int| 0 <= i < n.len() && (#[trigger] n[i]).0 == u;
                    let q0 = if q < p { q } else { q + 1 };
                    assert(n[q] == rows[q0]);
                }
            }
        }
    }
}

/// The exact rational `num / den`; `den` is never 0.
#[derive(Clone, Debug)]
pub struct Ratio {
    pub num: u128,
    pub den: u128,
}

/// A snapshot of the cache's size and counters.
#[derive(Clone, Debug)]
pub struct CacheStats {
    pub total_entries: usize,
    pub total_hits: usize,
    pub total_misses: usize,
    /// hits / (hits + misses), and 0 / 1 before any lookup.
    pub hit_rate: Ratio,
    /// The mean access count of the live entries, and 0 / 1 when there are none.
    pub avg_access_count: Ratio,
    /// A rough estimate of the memory held: one KiB per entry.
    pub memory_usage_kb: usize,
}

/// The sum of the access counts in `t`.
pub open spec fn access_total<V>(t: Seq<EntryView<V>>) -> int
    decreases t.len(),
{
    if t.len() == 0 {
        0
    } else {
        access_total(t.drop_last()) + t.last().access_count
    }
}

/// The statistics of a cache with table `t` and counters `hits`, `misses`.
pub open spec fn stats_of<V>(t: Seq<EntryView<V>>, hits: usize, misses: usize, r: CacheStats) -> bool {
    &&& r.total_entries == t.len()
    &&& r.total_hits == hits
    &&& r.total_misses == misses
    &&& r.hit_rate.num == hits
    &&& r.hit_rate.den == if hits + misses == 0 { 1 } else { hits + misses }
    &&& r.avg_access_count.num == access_total(t)
    &&& r.avg_access_count.den == if t.len() == 0 { 1 } else { t.len() }
    &&& r.memory_usage_kb == t.len()
}

/// Why a cache operation could not be carried out. The in-memory table
/// never fails; the type keeps the signatures stable for a backing store
/// that can.
#[derive(Clone, Debug)]
pub enum CacheError {
    Unavailable,
}

pub struct VertexCentricCache<V> {
    entries: Vec<CacheEntry<V>>,
    index: Vec<IndexRow>,
    max_entries: usize,
    hits: usize,
    misses: usize,
}

impl<V: Copy> VertexCentricCache<V> {
    /// The live entries, in table order.
    pub closed spec fn table(&self) -> Seq<EntryView<V>> {
        self.entries@.map_values(|e: CacheEntry<V>| e@)
    }

    /// The vertex index.
    pub closed spec fn rows(&self) -> Seq<(Seq<char>, Seq<Seq<char>>)> {
        self.index@.map_values(|r: IndexRow| (r.vertex_id@, string_views(r.keys@)))
    }

    pub closed spec fn capacity(&self) -> usize {
        self.max_entries
    }

    pub closed spec fn hit_count(&self) -> usize {
        self.hits
    }

    pub closed spec fn miss_count(&self) -> usize {
        self.misses
    }

    /// The invariant: pairs are unique, the table respects the capacity, and
    /// every live entry is listed in its vertex's index row.
    pub closed spec fn wf(&self) -> bool {
        &&& pairs_unique(self.table())
        &&& self.table().len() <= if self.max_entries == 0 { 1 } else { self.max_entries as int }
        &&& ids_unique(self.rows())
        &&& forall|i: int|
            0 <= i < self.table().len() ==> row_of(self.rows(), (#[trigger] self.table()[i]).vertex_id).contains(
                self.table()[i].key,
            )
    }

    /// An empty cache holding at most `max_entries` entries (at most one when
    /// `max_entries` is 0).
    pub fn new(max_entries: usize) -> (r: Self)
        ensures
            r.wf(),
            r.table() == Seq::<EntryView<V>>::empty(),
            r.rows() == Seq::<(Seq<char>, Seq<Seq<char>>)>::empty(),
            r.capacity() == max_entries,
            r.hit_count() == 0,
            r.miss_count() == 0,
    {
        let r = VertexCentricCache { entries: Vec::new(), index: Vec::new(), max_entries, hits: 0, misses: 0 };
        proof {
            assert(r.table() =~= Seq::<EntryView<V>>::empty());
            assert(r.rows() =~= Seq::<(Seq<char>, Seq<Seq<char>>)>::empty());
        }
        r
    }

    fn find(&self, vertex_id: &String, key: &String) -> (r: Option<usize>)
        requires
            self.wf(),
        ensures
            match r {
                Some(i) => i < self.table().len() && is_entry_for(self.table()[i as int], vertex_id@, key@)
                    && i == position(self.table(), vertex_id@, key@),
                None => !contains_key(self.table(), vertex_id@, key@),
            },
    {
        let mut i: usize = 0;
        while i < self.entries.len()
            invariant
                self.wf(),
                i <= self.table().len(),
                self.table().len() == self.entries@.len(),
                forall|j: int| 0 <= j < i ==> !is_entry_for(#[trigger] self.table()[j], vertex_id@, key@),
            decreases self.entries@.len() - i,
        {
            let e = &self.entries[i];
            if e.vertex_id == *vertex_id && e.key == *key {
                proof {
                    let t = self.table();
                    assert(is_entry_for(t[i as int], vertex_id@, key@));
                    let p = position(t, vertex_id@, key@);
                    assert(is_entry_for(t[p], vertex_id@, key@));
                    assert(t[p].vertex_id == t[i as int].vertex_id);
                }
                return Some(i);
            }
            i = i + 1;
        }
        None
    }
    /// Looks up (`vertex_id`, `key`) at time `now`. A hit refreshes the
    /// entry's timestamp, counts the access and the hit, and returns a copy of
    /// the value; a miss counts the miss and returns `None`.
    pub fn get_at(&mut self, vertex_id: &str, key: &str, now: u64) -> (r: Option<Vec<V>>)
        requires
            old(self).wf(),
        ensures
            final(self).wf(),
            final(self).table() == touched(old(self).table(), vertex_id@, key@, now),
            values_view(r) == lookup(old(self).table(), vertex_id@, key@),
            final(self).rows() == old(self).rows(),
            final(self).capacity() == old(self).capacity(),
            contains_key(old(self).table(), vertex_id@, key@) ==> {
                &&& r is Some
                &&& r->Some_0@ == old(self).table()[position(old(self).table(), vertex_id@, key@)].value
                &&& final(self).hit_count() == bump(old(self).hit_count())
                &&& final(self).miss_count() == old(self).miss_count()
            },
            !contains_key(old(self).table(), vertex_id@, key@) ==> {
                &&& r is None
                &&& final(self).hit_count() == old(self).hit_count()
                &&& final(self).miss_count() == bump(old(self).miss_count())
            },
    {
        let v = String::from_str(vertex_id);
        let k = String::from_str(key);
        match self.find(&v, &k) {
            Some(i) => {
                let ghost t0 = self.table();
                let mut e = self.entries.remove(i);
                e.timestamp = now;
                e.access_count = e.access_count.saturating_add(1);
                let out = copy_values(&e.value);
                self.entries.insert(i, e);
                self.hits = self.hits.saturating_add(1);
                proof {
                    assert(self.table() =~= touched(t0, vertex_id@, key@, now));
                    assert(self.rows() == old(self).rows());
                    assert forall|a: int, b: int|
                        0 <= a < self.table().len() && 0 <= b < self.table().len()
                            && #[trigger] self.table()[a].vertex_id == #[trigger] self.table()[b].vertex_id
                            && self.table()[a].key == self.table()[b].key implies a == b by {
                        assert(t0[a].vertex_id == self.table()[a].vertex_id);
                        assert(t0[b].vertex_id == self.table()[b].vertex_id);
                    }
                    assert forall|a: int| 0 <= a < self.table().len() implies row_of(
                        self.rows(),
                        (#[trigger] self.table()[a]).vertex_id,
                    ).contains(self.table()[a].key) by {
                        assert(t0[a].vertex_id == self.table()[a].vertex_id);
                        assert(t0[a].key == self.table()[a].key);
                    }
                    assert(self.table().len() == t0.len());
                    assert(self.wf());
                }
                proof {
                    assert(lookup(t0, vertex_id@, key@) == Some(old(self).table()[i as int].value));
                }
                Some(out)
            },
            None => {
                self.misses = self.misses.saturating_add(1);
                proof {
                    assert(self.entries@ == old(self).entries@);
                    assert(self.index@ == old(self).index@);
                    assert(self.table() == old(self).table());
                    assert(self.rows() == old(self).rows());
                }
                None
            },
        }
    }

    /// Looks up (`vertex_id`, `key`) at the current time; see `get_at`.
    pub fn get(&mut self, vertex_id: &str, key: &str) -> (r: Option<Vec<V>>)
        requires
            old(self).wf(),
        ensures
            final(self).wf(),
            exists|now: u64| final(self).table() == touched(old(self).table(), vertex_id@, key@, now),
            values_view(r) == lookup(old(self).table(), vertex_id@, key@),
            final(self).rows() == old(self).rows(),
            final(self).capacity() == old(self).capacity(),
            contains_key(old(self).table(), vertex_id@, key@) ==> {
                &&& r is Some
                &&& r->Some_0@ == old(self).table()[position(old(self).table(), vertex_id@, key@)].value
                &&& final(self).hit_count() == bump(old(self).hit_count())
                &&& final(self).miss_count() == old(self).miss_count()
            },
            !contains_key(old(self).table(), vertex_id@, key@) ==> {
                &&& r is None
                &&& final(self).hit_count() == old(self).hit_count()
                &&& final(self).miss_count() == bump(old(self).miss_count())
            },
    {
        let now = current_time_ms();
        self.get_at(vertex_id, key, now)
    }
    fn find_row(&self, vertex_id: &String) -> (r: Option<usize>)
        requires
            self.wf(),
        ensures
            match r {
                Some(i) => i < self.rows().len() && self.rows()[i as int].0 == vertex_id@
                    && i == row_position(self.rows(), vertex_id@) && has_row(self.rows(), vertex_id@),
                None => !has_row(self.rows(), vertex_id@),
            },
    {
        let mut i: usize = 0;
        while i < self.index.len()
            invariant
                self.wf(),
                i <= self.rows().len(),
                self.rows().len() == self.index@.len(),
                forall|j: int| 0 <= j < i ==> (#[trigger] self.rows()[j]).0 != vertex_id@,
            decreases self.index@.len() - i,
        {
            if self.index[i].vertex_id == *vertex_id {
                proof {
                    let rs = self.rows();
                    assert(rs[i as int].0 == vertex_id@);
                    let p = row_position(rs, vertex_id@);
                    assert(rs[p].0 == rs[i as int].0);
                }
                return Some(i);
            }
            i = i + 1;
        }
        None
    }

    /// The position of an entry with the smallest timestamp (the first such).
    fn lru_position(&self) -> (r: usize)
        requires
            self.entries@.len() > 0,
        ensures
            is_lru_victim(self.table(), r as int),
    {
        let mut best: usize = 0;
        let mut i: usize = 1;
        while i < self.entries.len()
            invariant
                1 <= i <= self.entries@.len(),
                best < i,
                self.table().len() == self.entries@.len(),
                forall|j: int| 0 <= j < i ==> self.table()[best as int].timestamp <= (#[trigger] self.table()[j]).timestamp,
            decreases self.entries@.len() - i,
        {
            if self.entries[i].timestamp < self.entries[best].timestamp {
                best = i;
            }
            i = i + 1;
        }
        best
    }

    /// Records `key` in the index row of `vertex_id`.
    fn record_key(&mut self, vertex_id: &String, key: &String)
        requires
            old(self).wf(),
        ensures
            final(self).entries == old(self).entries,
            final(self).max_entries == old(self).max_entries,
            final(self).hits == old(self).hits,
            final(self).misses == old(self).misses,
            final(self).rows() == with_key(old(self).rows(), vertex_id@, key@),
            final(self).wf(),
    {
        let ghost rs = self.rows();
        proof {
            lemma_with_key(rs, vertex_id@, key@, vertex_id@, key@);
        }
        match self.find_row(vertex_id) {
            Some(p) => {
                let mut j: usize = 0;
                let mut present = false;
                while j < self.index[p].keys.len()
                    invariant
                        p < self.index@.len(),
                        j <= self.index@[p as int].keys@.len(),
                        present == exists|m: int| 0 <= m < j && (#[trigger] self.index@[p as int].keys@[m])@ == key@,
                    decreases self.index@[p as int].keys@.len() - j,
                {
                    if self.index[p].keys[j] == *key {
                        present = true;
                    }
                    j = j + 1;
                }
                let ghost ks = self.index@[p as int].keys@;
                assert(rs[p as int].1 == string_views(ks));
                if present {
                    proof {
                        let m = choose|m: int| 0 <= m < ks.len() && (#[trigger] ks[m])@ == key@;
                        assert(rs[p as int].1[m] == key@);
                    }
                } else {
                    let mut row = self.index.remove(p);
                    row.keys.push(key.clone());
                    self.index.insert(p, row);
                    proof {
                        assert(!rs[p as int].1.contains(key@)) by {
                            if rs[p as int].1.contains(key@) {
                                let m = choose|m: int| 0 <= m < rs[p as int].1.len() && rs[p as int].1[m] == key@;
                                assert(ks[m]@ == key@);
                            }
                        }
                        assert(string_views(self.index@[p as int].keys@) =~= rs[p as int].1.push(key@));
                        assert(self.rows() =~= with_key(rs, vertex_id@, key@));
                    }
                }
            },
            None => {
                let mut keys: Vec<String> = Vec::new();
                keys.push(key.clone());
                self.index.push(IndexRow { vertex_id: vertex_id.clone(), keys });
                proof {
                    assert(string_views(self.index@[rs.len() as int].keys@) =~= seq![key@]);
                    assert(self.rows() =~= with_key(rs, vertex_id@, key@));
                }
            },
        }
        proof {
            let t = self.table();
            assert forall|i: int| 0 <= i < t.len() implies row_of(self.rows(), (#[trigger] t[i]).vertex_id).contains(
                t[i].key,
            ) by {
                lemma_with_key(rs, vertex_id@, key@, t[i].vertex_id, t[i].key);
            }
        }
    }
    /// The part of the invariant that removing entries keeps.
    proof fn lemma_subset_wf(&self, t0: Seq<EntryView<V>>, i: int)
        requires
            pairs_unique(t0),
            0 <= i < t0.len(),
            self.table() == t0.remove(i),
            ids_unique(self.rows()),
            forall|a: int| 0 <= a < t0.len() ==> row_of(self.rows(), (#[trigger] t0[a]).vertex_id).contains(t0[a].key),
        ensures
            pairs_unique(self.table()),
            forall|a: int|
                0 <= a < self.table().len() ==> row_of(self.rows(), (#[trigger] self.table()[a]).vertex_id).contains(
                    self.table()[a].key,
                ),
    {
        let t = self.table();
        assert forall|a: int, b: int|
            0 <= a < t.len() && 0 <= b < t.len() && #[trigger] t[a].vertex_id == #[trigger] t[b].vertex_id
                && t[a].key == t[b].key implies a == b by {
            let a0 = if a < i { a } else { a + 1 };
            let b0 = if b < i { b } else { b + 1 };
            assert(t[a] == t0[a0]);
            assert(t[b] == t0[b0]);
        }
        assert forall|a: int| 0 <= a < t.len() implies row_of(self.rows(), (#[trigger] t[a]).vertex_id).contains(
            t[a].key,
        ) by {
            let a0 = if a < i { a } else { a + 1 };
            assert(t[a] == t0[a0]);
        }
    }

    /// Writes `value` for (`vertex_id`, `key`) at time `now`. When the table
    /// holds `max_entries` entries or more, one entry with the smallest
    /// timestamp is evicted first; then the entry for the pair is replaced,
    /// or appended, with access count 1, and the key is recorded in the
    /// vertex's index row. Never fails.
    pub fn put_at(&mut self, vertex_id: &str, key: &str, value: Vec<V>, computation_cost: V, now: u64) -> (r: Result<
        (),
        CacheError,
    >)
        requires
            old(self).wf(),
        ensures
            final(self).wf(),
            r is Ok,
            written(old(self).table(), old(self).capacity(), fresh_entry(vertex_id@, key@, value@, computation_cost, now), final(self).table()),
            final(self).rows() == with_key(old(self).rows(), vertex_id@, key@),
            final(self).capacity() == old(self).capacity(),
            final(self).hit_count() == old(self).hit_count(),
            final(self).miss_count() == old(self).miss_count(),
    {
        let v = String::from_str(vertex_id);
        let k = String::from_str(key);
        let ghost t0 = self.table();
        let ghost e_view = fresh_entry(vertex_id@, key@, value@, computation_cost, now);
        self.record_key(&v, &k);
        proof {
            lemma_with_key(old(self).rows(), vertex_id@, key@, vertex_id@, key@);
        }
        let ghost mut victim: int = -1;
        if self.entries.len() >= self.max_entries && self.entries.len() > 0 {
            let i = self.lru_position();
            self.entries.remove(i);
            proof {
                victim = i as int;
                assert(self.table() =~= t0.remove(i as int));
                self.lemma_subset_wf(t0, i as int);
            }
        }
        let ghost t1 = self.table();
        let e = CacheEntry { vertex_id: v, key: k, value, timestamp: now, access_count: 1, computation_cost };
        assert(e@ == e_view);
        match self.find(&e.vertex_id, &e.key) {
            Some(j) => {
                self.entries.remove(j);
                self.entries.insert(j, e);
                proof {
                    assert(self.table() =~= t1.update(j as int, e_view));
                    let t = self.table();
                    assert forall|a: int, b: int|
                        0 <= a < t.len() && 0 <= b < t.len() && #[trigger] t[a].vertex_id == #[trigger] t[b].vertex_id
                            && t[a].key == t[b].key implies a == b by {
                        assert(t[a].vertex_id == t1[a].vertex_id && t[a].key == t1[a].key);
                        assert(t[b].vertex_id == t1[b].vertex_id && t[b].key == t1[b].key);
                    }
                    assert forall|a: int| 0 <= a < t.len() implies row_of(self.rows(), (#[trigger] t[a]).vertex_id).contains(
                        t[a].key,
                    ) by {
                        assert(t[a].vertex_id == t1[a].vertex_id && t[a].key == t1[a].key);
                    }
                }
            },
            None => {
                self.entries.push(e);
                proof {
                    assert(self.table() =~= t1.push(e_view));
                    let t = self.table();
                    assert forall|a: int, b: int|
                        0 <= a < t.len() && 0 <= b < t.len() && #[trigger] t[a].vertex_id == #[trigger] t[b].vertex_id
                            && t[a].key == t[b].key implies a == b by {
                        if a < t1.len() && b == t1.len() {
                            assert(is_entry_for(t1[a], vertex_id@, key@));
                        }
                        if b < t1.len() && a == t1.len() {
                            assert(is_entry_for(t1[b], vertex_id@, key@));
                        }
                    }
                    assert forall|a: int| 0 <= a < t.len() implies row_of(self.rows(), (#[trigger] t[a]).vertex_id).contains(
                        t[a].key,
                    ) by {
                        if a < t1.len() {
                            assert(t[a] == t1[a]);
                        }
                    }
                }
            },
        }
        proof {
            assert(self.table() == placed(t1, e_view));
            if victim >= 0 {
                assert(is_lru_victim(t0, victim));
                assert(self.table() == placed(t0.remove(victim), e_view));
            }
            assert(written(t0, self.max_entries, e_view, self.table()));
        }
        Ok(())
    }

    /// Writes `value` for (`vertex_id`, `key`) at the current time; see `put_at`.
    pub fn put(&mut self, vertex_id: &str, key: &str, value: Vec<V>, computation_cost: V) -> (r: Result<(), CacheError>)
        requires
            old(self).wf(),
        ensures
            final(self).wf(),
            r is Ok,
            exists|now: u64|
                written(
                    old(self).table(),
                    old(self).capacity(),
                    #[trigger] fresh_entry(vertex_id@, key@, value@, computation_cost, now),
                    final(self).table(),
                ),
            final(self).rows() == with_key(old(self).rows(), vertex_id@, key@),
            final(self).capacity() == old(self).capacity(),
            final(self).hit_count() == old(self).hit_count(),
            final(self).miss_count() == old(self).miss_count(),
    {
        let now = current_time_ms();
        self.put_at(vertex_id, key, value, computation_cost, now)
    }
    /// The live entries of `vertex_id` that its index row names, in index
    /// order; keys whose entries are gone are skipped.
    pub fn get_vertex_entries(&self, vertex_id: &str) -> (r: Vec<CacheEntry<V>>)
        requires
            self.wf(),
        ensures
            entry_views(r@) == vertex_entries(self.table(), self.rows(), vertex_id@),
    {
        let v = String::from_str(vertex_id);
        let mut out: Vec<CacheEntry<V>> = Vec::new();
        match self.find_row(&v) {
            Some(p) => {
                let ghost keys = self.rows()[p as int].1;
                proof {
                    lemma_row_of_at(self.rows(), p as int);
                }
                let mut j: usize = 0;
                while j < self.index[p].keys.len()
                    invariant
                        self.wf(),
                        p < self.index@.len(),
                        keys == self.rows()[p as int].1,
                        keys == string_views(self.index@[p as int].keys@),
                        j <= keys.len(),
                        entry_views(out@) == resolved(self.table(), v@, keys.subrange(0, j as int)),
                    decreases keys.len() - j,
                {
                    let found = self.find(&v, &self.index[p].keys[j]);
                    proof {
                        assert(keys.subrange(0, j + 1).drop_last() =~= keys.subrange(0, j as int));
                        assert(keys.subrange(0, j + 1).last() == keys[j as int]);
                    }
                    match found {
                        Some(i) => {
                            let c = self.entries[i].copy();
                            out.push(c);
                            proof {
                                assert(entry_views(out@) =~= resolved(self.table(), v@, keys.subrange(0, j as int)).push(
                                    self.table()[i as int],
                                ));
                            }
                        },
                        None => {},
                    }
                    j = j + 1;
                }
                proof {
                    assert(keys.subrange(0, keys.len() as int) =~= keys);
                }
            },
            None => {
                proof {
                    assert(entry_views(out@) =~= Seq::<EntryView<V>>::empty());
                }
            },
        }
        out
    }

    /// Counts the live entries that index lookups find for each of
    /// `vertex_ids` (saturating at `usize::MAX`); computes nothing new.
    pub fn prefetch(&self, vertex_ids: &[String]) -> (r: Result<usize, CacheError>)
        requires
            self.wf(),
        ensures
            r is Ok,
            r->Ok_0 == if found_total(self.table(), self.rows(), vertex_ids@.map_values(|s: String| s@))
                < usize::MAX {
                found_total(self.table(), self.rows(), vertex_ids@.map_values(|s: String| s@))
            } else {
                usize::MAX as int
            },
    {
        let ghost ids = vertex_ids@.map_values(|s: String| s@);
        let mut total: usize = 0;
        let mut i: usize = 0;
        while i < vertex_ids.len()
            invariant
                self.wf(),
                i <= vertex_ids@.len(),
                ids == vertex_ids@.map_values(|s: String| s@),
                total == if found_total(self.table(), self.rows(), ids.subrange(0, i as int)) < usize::MAX {
                    found_total(self.table(), self.rows(), ids.subrange(0, i as int))
                } else {
                    usize::MAX as int
                },
            decreases vertex_ids@.len() - i,
        {
            let entries = self.get_vertex_entries(vertex_ids[i].as_str());
            proof {
                assert(ids.subrange(0, i + 1).drop_last() =~= ids.subrange(0, i as int));
                assert(ids.subrange(0, i + 1).last() == ids[i as int]);
                assert(entry_views(entries@).len() == entries@.len());
                assert(found_total(self.table(), self.rows(), ids.subrange(0, i + 1)) >= found_total(
                    self.table(),
                    self.rows(),
                    ids.subrange(0, i as int),
                ));
            }
            total = total.saturating_add(entries.len());
            i = i + 1;
        }
        proof {
            assert(ids.subrange(0, vertex_ids@.len() as int) =~= ids);
        }
        Ok(total)
    }
    /// Removes the index row of `vertex_id` and every entry of that vertex.
    /// Nothing changes for an unknown vertex.
    pub fn invalidate_vertex(&mut self, vertex_id: &str) -> (r: Result<(), CacheError>)
        requires
            old(self).wf(),
        ensures
            final(self).wf(),
            r is Ok,
            final(self).table() == without_vertex(old(self).table(), vertex_id@),
            final(self).rows() == without_row(old(self).rows(), vertex_id@),
            final(self).capacity() == old(self).capacity(),
            final(self).hit_count() == old(self).hit_count(),
            final(self).miss_count() == old(self).miss_count(),
    {
        let v = String::from_str(vertex_id);
        let ghost t0 = self.table();
        let ghost rows0 = self.rows();
        let ghost pred = |e: EntryView<V>| e.vertex_id != vertex_id@;
        proof {
            reveal(Seq::filter);
            assert(t0.subrange(0, 0) =~= Seq::<EntryView<V>>::empty());
            assert(entry_views(Seq::<CacheEntry<V>>::empty()) =~= Seq::<EntryView<V>>::empty());
        }
        let mut kept: Vec<CacheEntry<V>> = Vec::new();
        let mut i: usize = 0;
        while i < self.entries.len()
            invariant
                self.wf(),
                self.table() == t0,
                i <= t0.len(),
                t0.len() == self.entries@.len(),
                entry_views(kept@) == t0.subrange(0, i as int).filter(pred),
                pred == (|e: EntryView<V>| e.vertex_id != vertex_id@),
                v@ == vertex_id@,
                forall|a: int| 0 <= a < kept@.len() ==> exists|j: int| 0 <= j < i && t0[j] == #[trigger] entry_views(kept@)[a],
                pairs_unique(entry_views(kept@)),
            decreases t0.len() - i,
        {
            let ghost before = entry_views(kept@);
            proof {
                assert(t0.subrange(0, i + 1).drop_last() =~= t0.subrange(0, i as int));
                assert(t0.subrange(0, i + 1).last() == t0[i as int]);
                assert(t0[i as int] == self.entries@[i as int]@);
            }
            if !(self.entries[i].vertex_id == v) {
                let c = self.entries[i].copy();
                kept.push(c);
                proof {
                    let k = entry_views(kept@);
                    assert(k =~= before.push(t0[i as int]));
                    assert(pred(t0[i as int]));
                    reveal(Seq::filter);
                    assert(k == t0.subrange(0, i + 1).filter(pred));
                    assert forall|a: int| 0 <= a < k.len() implies exists|j: int| 0 <= j < i + 1 && t0[j] == #[trigger] k[a] by {
                        if a < before.len() {
                            assert(k[a] == before[a]);
                        } else {
                            assert(k[a] == t0[i as int]);
                        }
                    }
                    assert forall|a: int, b: int|
                        0 <= a < k.len() && 0 <= b < k.len() && #[trigger] k[a].vertex_id == #[trigger] k[b].vertex_id
                            && k[a].key == k[b].key implies a == b by {
                        if a < before.len() && b == before.len() {
                            assert(before[a] == k[a]);
                            let ja = choose|j: int| 0 <= j < i && t0[j] == #[trigger] before[a];
                            assert(t0[ja].vertex_id == t0[i as int].vertex_id);
                        }
                        if b < before.len() && a == before.len() {
                            assert(before[b] == k[b]);
                            let jb = choose|j: int| 0 <= j < i && t0[j] == #[trigger] before[b];
                            assert(t0[jb].vertex_id == t0[i as int].vertex_id);
                        }
                        if a < before.len() && b < before.len() {
                            assert(before[a] == k[a] && before[b] == k[b]);
                        }
                    }
                }
            } else {
                proof {
                    assert(!pred(t0[i as int]));
                    reveal(Seq::filter);
                    assert(entry_views(kept@) =~= t0.subrange(0, i + 1).filter(pred));
                }
            }
            i = i + 1;
        }
        proof {
            assert(t0.subrange(0, t0.len() as int) =~= t0);
            t0.lemma_filter_len(pred);
        }
        match self.find_row(&v) {
            Some(p) => {
                self.index.remove(p);
                proof {
                    assert(self.rows() =~= rows0.remove(p as int));
                }
            },
            None => {},
        }
        self.entries = kept;
        proof {
            let t = self.table();
            assert(t == t0.filter(pred));
            assert(self.rows() == without_row(rows0, vertex_id@));
            lemma_without_row(rows0, vertex_id@, vertex_id@);
            assert forall|a: int| 0 <= a < t.len() implies row_of(self.rows(), (#[trigger] t[a]).vertex_id).contains(
                t[a].key,
            ) by {
                t0.lemma_filter_pred(pred, a);
                lemma_without_row(rows0, vertex_id@, t[a].vertex_id);
            }
            assert(t.len() <= t0.len());
        }
        Ok(())
    }

    /// Empties the table and the index and sets both counters to zero, in
    /// one exclusive step.
    pub fn clear(&mut self) -> (r: Result<(), CacheError>)
        requires
            old(self).wf(),
        ensures
            final(self).wf(),
            r is Ok,
            final(self).table() == Seq::<EntryView<V>>::empty(),
            final(self).rows() == Seq::<(Seq<char>, Seq<Seq<char>>)>::empty(),
            final(self).capacity() == old(self).capacity(),
            final(self).hit_count() == 0,
            final(self).miss_count() == 0,
    {
        self.entries = Vec::new();
        self.index = Vec::new();
        self.hits = 0;
        self.misses = 0;
        proof {
            assert(self.table() =~= Seq::<EntryView<V>>::empty());
            assert(self.rows() =~= Seq::<(Seq<char>, Seq<Seq<char>>)>::empty());
        }
        Ok(())
    }
    /// The current statistics.
    pub fn get_stats(&self) -> (r: CacheStats)
        requires
            self.wf(),
        ensures
            stats_of(self.table(), self.hit_count(), self.miss_count(), r),
    {
        let ghost t = self.table();
        let n = self.entries.len();
        let mut sum: u128 = 0;
        let mut i: usize = 0;
        while i < n
            invariant
                n == self.entries@.len(),
                t == self.table(),
                t.len() == n,
                i <= n,
                sum == access_total(t.subrange(0, i as int)),
                sum <= i * (usize::MAX as int),
            decreases n - i,
        {
            proof {
                assert(t.subrange(0, i + 1).drop_last() =~= t.subrange(0, i as int));
                assert(t.subrange(0, i + 1).last() == t[i as int]);
                assert(t[i as int].access_count == self.entries@[i as int].access_count);
                assert((i + 1) * (usize::MAX as int) == i * (usize::MAX as int) + usize::MAX) by (nonlinear_arith);
                assert((i + 1) * (usize::MAX as int) <= (usize::MAX as int) * (usize::MAX as int)) by (nonlinear_arith)
                    requires
                        i < usize::MAX,
                ;
                assert(usize::MAX as int <= u64::MAX as int);
                assert((usize::MAX as int) * (usize::MAX as int) <= (u64::MAX as int) * (u64::MAX as int)) by (nonlinear_arith)
                    requires
                        0 <= usize::MAX as int <= u64::MAX as int,
                ;
                assert((u64::MAX as int) * (u64::MAX as int) < u128::MAX as int);
            }
            sum = sum + self.entries[i].access_count as u128;
            i = i + 1;
        }
        proof {
            assert(t.subrange(0, n as int) =~= t);
        }
        let requests = self.hits as u128 + self.misses as u128;
        CacheStats {
            total_entries: n,
            total_hits: self.hits,
            total_misses: self.misses,
            hit_rate: Ratio { num: self.hits as u128, den: if requests == 0 { 1 } else { requests } },
            avg_access_count: Ratio { num: sum, den: if n == 0 { 1 } else { n as u128 } },
            memory_usage_kb: n,
        }
    }
    /// A write is seen by the next lookup of the same pair: after `put` of
    /// `value` for (`v`, `k`), `get` of (`v`, `k`) returns exactly `value`.
    pub proof fn law_get_after_put(
        c0: Self,
        c1: Self,
        v: Seq<char>,
        k: Seq<char>,
        value: Seq<V>,
        cost: V,
        now: u64,
    )
        requires
            c0.wf(),
            c1.wf(),
            written(c0.table(), c0.capacity(), fresh_entry(v, k, value, cost, now), c1.table()),
        ensures
            lookup(c1.table(), v, k) == Some(value),
    {
        let e = fresh_entry(v, k, value, cost, now);
        let t1 = c1.table();
        let t = if c0.table().len() >= c0.capacity() && c0.table().len() > 0 {
            let i = choose|i: int| is_lru_victim(c0.table(), i) && t1 == #[trigger] placed(c0.table().remove(i), e);
            c0.table().remove(i)
        } else {
            c0.table()
        };
        assert(t1 == placed(t, e));
        let p = if contains_key(t, v, k) { position(t, v, k) } else { t.len() as int };
        assert(t1[p] == e);
        assert(contains_key(t1, v, k));
        let q = position(t1, v, k);
        assert(t1[q].vertex_id == t1[p].vertex_id && t1[q].key == t1[p].key);
    }

    /// A write never takes the table beyond its capacity, and a write to a
    /// full table removes one entry whose timestamp is the smallest present.
    pub proof fn law_put_bounded(c0: Self, c1: Self, e: EntryView<V>)
        requires
            c0.wf(),
            c0.capacity() >= 1,
            written(c0.table(), c0.capacity(), e, c1.table()),
        ensures
            c1.table().len() <= c0.capacity(),
            c0.table().len() >= c0.capacity() ==> exists|i: int|
                is_lru_victim(c0.table(), i) && c1.table() == #[trigger] placed(c0.table().remove(i), e),
    {
        if c0.table().len() >= c0.capacity() && c0.table().len() > 0 {
            let i = choose|i: int| is_lru_victim(c0.table(), i) && c1.table() == #[trigger] placed(c0.table().remove(i), e);
            assert(c0.table().remove(i).len() == c0.table().len() - 1);
        }
    }

    /// After `invalidate_vertex(v)`, `get_vertex_entries(v)` is empty and no
    /// pair of `v` can be found by `get`.
    pub proof fn law_invalidate_forgets(c0: Self, c1: Self, v: Seq<char>)
        requires
            c0.wf(),
            c1.table() == without_vertex(c0.table(), v),
            c1.rows() == without_row(c0.rows(), v),
        ensures
            vertex_entries(c1.table(), c1.rows(), v) == Seq::<EntryView<V>>::empty(),
            forall|k: Seq<char>| #[trigger] lookup(c1.table(), v, k) == None::<Seq<V>>,
    {
        lemma_without_row(c0.rows(), v, v);
        assert(row_of(c1.rows(), v) == Seq::<Seq<char>>::empty());
        assert forall|k: Seq<char>| #[trigger] lookup(c1.table(), v, k) == None::<Seq<V>> by {
            if contains_key(c1.table(), v, k) {
                let i = choose|i: int| 0 <= i < c1.table().len() && is_entry_for(#[trigger] c1.table()[i], v, k);
                c0.table().lemma_filter_pred(|e: EntryView<V>| e.vertex_id != v, i);
            }
        }
    }

    /// After `clear`, whatever came before, the statistics report no entries,
    /// no hits and no misses.
    pub proof fn law_clear_resets(c: Self, r: CacheStats)
        requires
            c.table() == Seq::<EntryView<V>>::empty(),
            c.hit_count() == 0,
            c.miss_count() == 0,
            stats_of(c.table(), c.hit_count(), c.miss_count(), r),
        ensures
            r.total_entries == 0,
            r.total_hits == 0,
            r.total_misses == 0,
    {
    }
}

} // verus!
