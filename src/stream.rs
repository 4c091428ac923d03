//! Chunked delivery of an answer text.
//!
//! The producer is a state machine: each step emits the next slice of the
//! answer as a chunk, after probing the cache for the chunk's synthetic
//! vertices. Whoever drives it (a background task) sends each chunk on and
//! cancels the producer when the receiving side is gone. The consumer side
//! folds a received run of chunks into one text or into statistics.
use vstd::prelude::*;
use vstd::string::StringExecFns;
use vstd::string::StrSliceExecFns;
use crate::cache::{bump, contains_key, is_entry_for, touched, EntryView, VertexCentricCache};
use crate::text::{decimal, to_decimal};

verus! {

/// How an answer is streamed.
#[derive(Clone, Debug)]
pub struct StreamConfig {
    /// Characters per chunk.
    pub chunk_size: usize,
    /// Pause before each chunk, in milliseconds.
    pub chunk_delay_ms: u64,
    /// Whether each chunk probes the cache.
    pub enable_parallel_graph: bool,
    /// A bound on concurrent operations, for callers that schedule work;
    /// the producer's fan-out is fixed at four probes per chunk.
    pub max_concurrent_ops: usize,
}

impl Default for StreamConfig {
    fn default() -> (r: Self)
        ensures
            r.chunk_size == 50,
            r.chunk_delay_ms == 100,
            r.enable_parallel_graph,
            r.max_concurrent_ops == 4,
    {
        StreamConfig { chunk_size: 50, chunk_delay_ms: 100, enable_parallel_graph: true, max_concurrent_ops: 4 }
    }
}

#[derive(Clone, Debug)]
pub struct ChunkMetadata {
    pub timestamp_ms: u64,
    /// The vertices probed in the cache for this chunk.
    pub graph_nodes_accessed: Vec<String>,
    pub cache_hits: usize,
    /// Confidence in basis points (1/10000); grows by 100 per chunk.
    pub confidence_bp: u64,
}

#[derive(Clone, Debug)]
pub struct StreamChunk {
    pub chunk_id: usize,
    pub content: String,
    pub is_final: bool,
    pub metadata: ChunkMetadata,
}

/// Totals over a received run of chunks.
#[derive(Clone, Debug)]
pub struct StreamStats {
    pub total_chunks: usize,
    pub total_graph_nodes: usize,
    pub total_cache_hits: usize,
    pub duration_ms: u64,
    pub avg_chunk_time_ms: u64,
}

/// How many chunks of size `c` a text of length `len` makes: ceil(len / c).
pub open spec fn chunk_count(len: nat, c: nat) -> nat
    recommends
        c > 0,
{
    ((len + c - 1) as nat / c) as nat
}

/// Chunk `i` of `s` cut in slices of size `c`; the last may be shorter.
pub open spec fn slice_at(s: Seq<char>, c: nat, i: int) -> Seq<char> {
    let hi = (i + 1) * c;
    s.subrange(i * c, if hi <= s.len() { hi } else { s.len() as int })
}

/// `s` cut in slices of size `c`.
pub open spec fn split_text(s: Seq<char>, c: nat) -> Seq<Seq<char>> {
    Seq::new(chunk_count(s.len(), c), |i: int| slice_at(s, c, i))
}

/// The vertex id that probe `j` of chunk `i` looks up: `vertex_<i>_<j>`.
pub open spec fn probe_vertex(i: nat, j: nat) -> Seq<char> {
    seq!['v', 'e', 'r', 't', 'e', 'x', '_'] + decimal(i) + seq!['_'] + decimal(j)
}

/// The key under which chunk probes look.
pub open spec fn probe_key() -> Seq<char> {
    "embedding"@
}

/// How many cache probes each chunk makes when probing is on.
pub const PROBE_FAN_OUT: usize = 4;

/// The table after lookups of (`ids[j]`, `k`) in order, the `j`-th at
/// `times[j]`.
pub open spec fn touched_all<V>(t: Seq<EntryView<V>>, ids: Seq<Seq<char>>, k: Seq<char>, times: Seq<u64>) -> Seq<EntryView<V>>
    decreases ids.len(),
{
    if ids.len() == 0 || times.len() != ids.len() {
        t
    } else {
        touched(touched_all(t, ids.drop_last(), k, times.drop_last()), ids.last(), k, times.last())
    }
}

/// The (hits, misses) counters after lookups of (`ids[j]`, `k`) in a table
/// whose pairs are those of `t`.
pub open spec fn counted<V>(t: Seq<EntryView<V>>, ids: Seq<Seq<char>>, k: Seq<char>, hits: usize, misses: usize) -> (usize, usize)
    decreases ids.len(),
{
    if ids.len() == 0 {
        (hits, misses)
    } else {
        let prev = counted(t, ids.drop_last(), k, hits, misses);
        if contains_key(t, ids.last(), k) {
            (bump(prev.0), prev.1)
        } else {
            (prev.0, bump(prev.1))
        }
    }
}

/// What probing `ids` under key `k` does to a cache: each id is looked up
/// once, in order.
pub open spec fn probed<V: Copy>(c0: VertexCentricCache<V>, c1: VertexCentricCache<V>, ids: Seq<Seq<char>>, k: Seq<char>) -> bool {
    &&& c1.wf()
    &&& c1.capacity() == c0.capacity()
    &&& c1.rows() == c0.rows()
    &&& exists|times: Seq<u64>| times.len() == ids.len() && c1.table() == #[trigger] touched_all(c0.table(), ids, k, times)
    &&& (c1.hit_count(), c1.miss_count()) == counted(c0.table(), ids, k, c0.hit_count(), c0.miss_count())
}

proof fn lemma_touched_keys<V>(t: Seq<EntryView<V>>, v: Seq<char>, k: Seq<char>, now: u64, a: Seq<char>, b: Seq<char>)
    ensures
        contains_key(touched(t, v, k, now), a, b) == contains_key(t, a, b),
        touched(t, v, k, now).len() == t.len(),
{
    let n = touched(t, v, k, now);
    if contains_key(t, a, b) {
        let i = choose|i: int| 0 <= i < t.len() && is_entry_for(#[trigger] t[i], a, b);
        assert(is_entry_for(n[i], a, b));
    }
    if contains_key(n, a, b) {
        let i = choose|i: int| 0 <= i < n.len() && is_entry_for(#[trigger] n[i], a, b);
        assert(is_entry_for(t[i], a, b));
    }
}

/// The vertex ids that chunk `i` probes, `n` of them.
pub open spec fn probe_vertices(i: nat, n: nat) -> Seq<Seq<char>> {
    Seq::new(n, |j: int| probe_vertex(i, j as nat))
}

pub open spec fn string_seq_view(s: Seq<String>) -> Seq<Seq<char>> {
    s.map_values(|x: String| x@)
}

proof fn lemma_count_bounds(n: int, c: int, k: int)
    requires
        c > 0,
        n >= 0,
        k >= 0,
        k * c >= n,
        k == 0 || (k - 1) * c < n,
    ensures
        k == (n + c - 1) / c,
{
    if k == 0 {
        assert(n == 0);
        assert((c - 1) / c == 0) by (nonlinear_arith)
            requires
                c > 0,
        ;
    } else {
        let q = (n + c - 1) / c;
        let r = (n + c - 1) % c;
        assert(n + c - 1 == q * c + r && 0 <= r < c) by (nonlinear_arith)
            requires
                c > 0,
                n >= 0,
                q == (n + c - 1) / c,
                r == (n + c - 1) % c,
        ;
        assert(q == k) by (nonlinear_arith)
            requires
                n + c - 1 == q * c + r,
                0 <= r < c,
                k * c >= n,
                (k - 1) * c < n,
                c > 0,
        ;
    }
}

/// Cuts `answer` in slices of `chunk_size` characters.
pub fn split_answer(answer: &str, chunk_size: usize) -> (r: Vec<String>)
    requires
        chunk_size > 0,
    ensures
        string_seq_view(r@) == split_text(answer@, chunk_size as nat),
{
    let ghost s = answer@;
    let ghost c = chunk_size as int;
    let n = answer.unicode_len();
    let mut out: Vec<String> = Vec::new();
    let mut start: usize = 0;
    let mut k: usize = 0;
    while start < n
        invariant
            n == s.len(),
            s == answer@,
            c == chunk_size as int,
            c > 0,
            start <= n,
            out@.len() == k,
            start == if k * c <= n { k * c } else { n as int },
            k == 0 || (k - 1) * c < n,
            forall|i: int| 0 <= i < k ==> (#[trigger] out@[i])@ == slice_at(s, c as nat, i),
        decreases n - start,
    {
        let end = if n - start <= chunk_size { n } else { start + chunk_size };
        proof {
            assert(start == k * c);
            assert((k + 1) * c == k * c + c) by (nonlinear_arith);
            assert(k * c < n);
        }
        let piece = String::from_str(answer.substring_char(start, end));
        out.push(piece);
        proof {
            assert(out@[k as int]@ == slice_at(s, c as nat, k as int));
        }
        proof {
            assert(k <= k * c) by (nonlinear_arith)
                requires
                    c >= 1,
                    k >= 0,
            ;
        }
        start = end;
        k = k + 1;
    }
    proof {
        assert(k * c >= n) by {
            if k * c < n {
                assert(start == k * c);
            }
        }
        lemma_count_bounds(n as int, c, k as int);
        assert(string_seq_view(out@) =~= split_text(s, c as nat));
    }
    out
}

/// The vertex id `vertex_<chunk>_<slot>`.
fn probe_vertex_id(chunk: usize, slot: usize) -> (r: String)
    ensures
        r@ == probe_vertex(chunk as nat, slot as nat),
{
    let mut r = String::from_str("vertex_");
    proof {
        reveal_strlit("vertex_");
    }
    let a = to_decimal(chunk);
    r.append(a.as_str());
    r.append("_");
    proof {
        reveal_strlit("_");
    }
    let b = to_decimal(slot);
    r.append(b.as_str());
    proof {
        assert(r@ =~= probe_vertex(chunk as nat, slot as nat));
    }
    r
}

/// What the producer has left to do.
pub struct StreamProducer {
    slices: Vec<String>,
    next: usize,
    cancelled: bool,
    probes: usize,
}

impl StreamProducer {
    /// The answer's slices, in order.
    pub closed spec fn slices(&self) -> Seq<Seq<char>> {
        string_seq_view(self.slices@)
    }

    /// The id of the next chunk.
    pub closed spec fn next_id(&self) -> nat {
        self.next as nat
    }

    pub closed spec fn is_cancelled(&self) -> bool {
        self.cancelled
    }

    /// How many cache probes each chunk makes.
    pub closed spec fn probe_count(&self) -> nat {
        self.probes as nat
    }

    pub closed spec fn wf(&self) -> bool {
        self.next <= self.slices@.len()
    }

    /// Whether another chunk will come.
    pub open spec fn pending(&self) -> bool {
        !self.is_cancelled() && self.next_id() < self.slices().len()
    }

    /// A producer for `answer`, cut by `config.chunk_size`; each chunk probes
    /// four vertices when `config.enable_parallel_graph`.
    pub fn new(answer: &str, config: &StreamConfig) -> (r: Self)
        requires
            config.chunk_size > 0,
        ensures
            r.wf(),
            r.slices() == split_text(answer@, config.chunk_size as nat),
            r.next_id() == 0,
            !r.is_cancelled(),
            r.probe_count() == if config.enable_parallel_graph { 4nat } else { 0nat },
    {
        let slices = split_answer(answer, config.chunk_size);
        StreamProducer {
            slices,
            next: 0,
            cancelled: false,
            probes: if config.enable_parallel_graph { PROBE_FAN_OUT } else { 0 },
        }
    }

    /// Stops the producer: the receiving side is gone.
    pub fn cancel(&mut self)
        requires
            old(self).wf(),
        ensures
            final(self).wf(),
            final(self).is_cancelled(),
            final(self).slices() == old(self).slices(),
            final(self).next_id() == old(self).next_id(),
            final(self).probe_count() == old(self).probe_count(),
    {
        self.cancelled = true;
    }

    /// Probes the cache for chunk `i`: looks up (`vertex_<i>_<j>`,
    /// "embedding") for each probe `j` in order, and returns those ids.
    fn probe<V: Copy>(&self, cache: &mut VertexCentricCache<V>, i: usize) -> (r: Vec<String>)
        requires
            old(cache).wf(),
        ensures
            probed(*old(cache), *final(cache), probe_vertices(i as nat, self.probe_count()), probe_key()),
            string_seq_view(r@) == probe_vertices(i as nat, self.probe_count()),
    {
        let ghost t0 = cache.table();
        let ghost h0 = cache.hit_count();
        let ghost m0 = cache.miss_count();
        let ghost mut times: Seq<u64> = Seq::empty();
        let mut ids: Vec<String> = Vec::new();
        let mut j: usize = 0;
        proof {
            reveal_strlit("embedding");
        }
        while j < self.probes
            invariant
                cache.wf(),
                cache.capacity() == old(cache).capacity(),
                cache.rows() == old(cache).rows(),
                t0 == old(cache).table(),
                h0 == old(cache).hit_count(),
                m0 == old(cache).miss_count(),
                j <= self.probes,
                times.len() == j,
                string_seq_view(ids@) == probe_vertices(i as nat, j as nat),
                cache.table() == touched_all(t0, probe_vertices(i as nat, j as nat), probe_key(), times),
                (cache.hit_count(), cache.miss_count()) == counted(t0, probe_vertices(i as nat, j as nat), probe_key(), h0, m0),
                forall|a: Seq<char>, b: Seq<char>| #[trigger] contains_key(cache.table(), a, b) == contains_key(t0, a, b),
            decreases self.probes - j,
        {
            let id = probe_vertex_id(i, j);
            let ghost before_t = cache.table();
            let _ = cache.get(id.as_str(), "embedding");
            let ghost ids_before = probe_vertices(i as nat, j as nat);
            let ghost ids_after = probe_vertices(i as nat, (j + 1) as nat);
            proof {
                let now = choose|now: u64| cache.table() == touched(before_t, id@, probe_key(), now);
                assert(ids_after =~= ids_before.push(probe_vertex(i as nat, j as nat)));
                assert(ids_after.drop_last() =~= ids_before);
                let nt = times.push(now);
                assert(nt.drop_last() =~= times);
                times = nt;
                assert(cache.table() == touched_all(t0, ids_after, probe_key(), times));
                assert(contains_key(before_t, id@, probe_key()) == contains_key(t0, id@, probe_key()));
                assert forall|a: Seq<char>, b: Seq<char>| #[trigger] contains_key(cache.table(), a, b) == contains_key(t0, a, b) by {
                    lemma_touched_keys(before_t, id@, probe_key(), now, a, b);
                }
            }
            let ghost before = string_seq_view(ids@);
            ids.push(id);
            proof {
                assert(string_seq_view(ids@) =~= before.push(probe_vertex(i as nat, j as nat)));
            }
            j = j + 1;
        }
        ids
    }

    /// Emits the next chunk, stamped with `now_ms`, or `None` once the last
    /// chunk went out or the producer was cancelled. Chunk ids run from 0
    /// without gaps, and only the last chunk is final.
    pub fn next_chunk<V: Copy>(&mut self, cache: &mut VertexCentricCache<V>, now_ms: u64) -> (r: Option<
        StreamChunk,
    >)
        requires
            old(self).wf(),
            old(cache).wf(),
        ensures
            final(self).wf(),
            final(cache).wf(),
            final(self).slices() == old(self).slices(),
            final(self).is_cancelled() == old(self).is_cancelled(),
            final(self).probe_count() == old(self).probe_count(),
            !old(self).pending() ==> r is None && final(self).next_id() == old(self).next_id() && *final(cache)
                == *old(cache),
            old(self).pending() ==> {
                &&& r is Some
                &&& probed(
                    *old(cache),
                    *final(cache),
                    probe_vertices(old(self).next_id(), old(self).probe_count()),
                    probe_key(),
                )
                &&& final(self).next_id() == old(self).next_id() + 1
                &&& chunk_matches(r->Some_0, old(self).slices(), old(self).next_id(), old(self).probe_count(), now_ms)
            },
    {
        if self.cancelled || self.next >= self.slices.len() {
            return None;
        }
        let i = self.next;
        let ids = self.probe(cache, i);
        let content = self.slices[i].clone();
        let is_final = i == self.slices.len() - 1;
        self.next = self.next + 1;
        let conf: u64 = if (i as u64) <= (u64::MAX - 8500) / 100 {
            8500 + 100 * (i as u64)
        } else {
            u64::MAX
        };
        Some(
            StreamChunk {
                chunk_id: i,
                content,
                is_final,
                metadata: ChunkMetadata {
                    timestamp_ms: now_ms,
                    graph_nodes_accessed: ids,
                    cache_hits: i % 3,
                    confidence_bp: conf,
                },
            },
        )
    }
}

/// Confidence of chunk `i`, in basis points: 0.85 plus 0.01 per chunk.
pub open spec fn chunk_confidence(i: nat) -> u64 {
    if 8500 + 100 * i <= u64::MAX {
        (8500 + 100 * i) as u64
    } else {
        u64::MAX
    }
}

/// Whether `c` is chunk `i` of a stream over `slices`, with `probes` probes.
pub open spec fn chunk_matches(c: StreamChunk, slices: Seq<Seq<char>>, i: nat, probes: nat, now: u64) -> bool {
    &&& c.chunk_id == i
    &&& c.content@ == slices[i as int]
    &&& c.is_final == (i + 1 == slices.len())
    &&& c.metadata.timestamp_ms == now
    &&& string_seq_view(c.metadata.graph_nodes_accessed@) == probe_vertices(i, probes)
    &&& c.metadata.cache_hits == i % 3
    &&& c.metadata.confidence_bp == chunk_confidence(i)
}

/// Whether a consumer of `cs` stops after `n` chunks: at the first final
/// chunk, or at the end of the run.
pub open spec fn is_stop(cs: Seq<StreamChunk>, n: int) -> bool {
    &&& 0 <= n <= cs.len()
    &&& (n >= 1 || cs.len() == 0)
    &&& forall|j: int| 0 <= j < n - 1 ==> !(#[trigger] cs[j]).is_final
    &&& (n == cs.len() || cs[n - 1].is_final)
}

/// How many chunks of `cs` a consumer takes.
pub open spec fn taken(cs: Seq<StreamChunk>) -> int {
    choose|n: int| is_stop(cs, n)
}

/// The contents of `cs`, joined.
pub open spec fn joined(cs: Seq<StreamChunk>) -> Seq<char>
    decreases cs.len(),
{
    if cs.len() == 0 {
        Seq::empty()
    } else {
        joined(cs.drop_last()) + cs.last().content@
    }
}

pub open spec fn node_total(cs: Seq<StreamChunk>) -> int
    decreases cs.len(),
{
    if cs.len() == 0 {
        0
    } else {
        node_total(cs.drop_last()) + cs.last().metadata.graph_nodes_accessed@.len()
    }
}

pub open spec fn hit_total(cs: Seq<StreamChunk>) -> int
    decreases cs.len(),
{
    if cs.len() == 0 {
        0
    } else {
        hit_total(cs.drop_last()) + cs.last().metadata.cache_hits
    }
}

pub open spec fn capped(x: int) -> int {
    if x < usize::MAX {
        x
    } else {
        usize::MAX as int
    }
}

/// The statistics of the chunks that a consumer of `cs` takes.
pub open spec fn stats_over(cs: Seq<StreamChunk>, r: StreamStats) -> bool {
    let n = taken(cs);
    let p = cs.subrange(0, n);
    let duration = if n == 0 || p[n - 1].metadata.timestamp_ms < p[0].metadata.timestamp_ms {
        0
    } else {
        p[n - 1].metadata.timestamp_ms - p[0].metadata.timestamp_ms
    };
    &&& r.total_chunks == n
    &&& r.total_graph_nodes == capped(node_total(p))
    &&& r.total_cache_hits == capped(hit_total(p))
    &&& r.duration_ms == duration
    &&& r.avg_chunk_time_ms == if n == 0 { 0 } else { duration / n }
}

proof fn lemma_stop_unique(cs: Seq<StreamChunk>, n: int)
    requires
        is_stop(cs, n),
    ensures
        taken(cs) == n,
{
    let m = taken(cs);
    assert(is_stop(cs, m));
    if m < n {
        assert(!cs[m - 1].is_final);
    } else if n < m {
        assert(!cs[n - 1].is_final);
    }
}

/// Scans `chunks` up to the first final one, returning how many a consumer
/// takes.
fn stop_index(chunks: &[StreamChunk]) -> (n: usize)
    ensures
        n == taken(chunks@),
        is_stop(chunks@, n as int),
{
    let mut i: usize = 0;
    while i < chunks.len()
        invariant
            i <= chunks@.len(),
            forall|j: int| 0 <= j < i ==> !(#[trigger] chunks@[j]).is_final,
        decreases chunks@.len() - i,
    {
        if chunks[i].is_final {
            proof {
                lemma_stop_unique(chunks@, i + 1);
            }
            return i + 1;
        }
        i = i + 1;
    }
    proof {
        lemma_stop_unique(chunks@, i as int);
    }
    i
}

/// The text of a received run of chunks: their contents joined, up to and
/// including the first final chunk.
pub fn collect_stream(chunks: &[StreamChunk]) -> (r: String)
    ensures
        r@ == joined(chunks@.subrange(0, taken(chunks@))),
{
    let n = stop_index(chunks);
    let ghost cs = chunks@;
    let mut out = String::new();
    let mut i: usize = 0;
    while i < n
        invariant
            cs == chunks@,
            n <= cs.len(),
            i <= n,
            out@ == joined(cs.subrange(0, i as int)),
        decreases n - i,
    {
        proof {
            assert(cs.subrange(0, i + 1).drop_last() =~= cs.subrange(0, i as int));
        }
        out.append(chunks[i].content.as_str());
        i = i + 1;
    }
    out
}

/// Totals over a received run of chunks, up to and including the first
/// final one; counts saturate at `usize::MAX`. With no chunk, every field
/// is 0.
pub fn get_stream_stats(chunks: &[StreamChunk]) -> (r: StreamStats)
    ensures
        stats_over(chunks@, r),
{
    let n = stop_index(chunks);
    let ghost cs = chunks@;
    let mut nodes: usize = 0;
    let mut hits: usize = 0;
    let mut i: usize = 0;
    while i < n
        invariant
            cs == chunks@,
            n <= cs.len(),
            i <= n,
            nodes == capped(node_total(cs.subrange(0, i as int))),
            hits == capped(hit_total(cs.subrange(0, i as int))),
            node_total(cs.subrange(0, i as int)) >= 0,
            hit_total(cs.subrange(0, i as int)) >= 0,
        decreases n - i,
    {
        proof {
            assert(cs.subrange(0, i + 1).drop_last() =~= cs.subrange(0, i as int));
        }
        nodes = nodes.saturating_add(chunks[i].metadata.graph_nodes_accessed.len());
        hits = hits.saturating_add(chunks[i].metadata.cache_hits);
        i = i + 1;
    }
    if n == 0 {
        return StreamStats {
            total_chunks: 0,
            total_graph_nodes: nodes,
            total_cache_hits: hits,
            duration_ms: 0,
            avg_chunk_time_ms: 0,
        };
    }
    let start = chunks[0].metadata.timestamp_ms;
    let end = chunks[n - 1].metadata.timestamp_ms;
    let duration = if end < start { 0 } else { end - start };
    StreamStats {
        total_chunks: n,
        total_graph_nodes: nodes,
        total_cache_hits: hits,
        duration_ms: duration,
        avg_chunk_time_ms: duration / (n as u64),
    }
}

/// A stream over a text of length `L` cut by `c` has ceil(L / c) chunks.
pub proof fn law_split_count(s: Seq<char>, c: nat)
    requires
        c > 0,
    ensures
        split_text(s, c).len() == (s.len() + c - 1) / (c as int),
{
}

/// Once cancelled, a producer emits nothing more: every later step returns
/// `None` and leaves the chunk id where it was.
pub proof fn law_cancel_stops(p: StreamProducer)
    requires
        p.is_cancelled(),
    ensures
        !p.pending(),
{
}

/// A producer that just emitted a final chunk has nothing more to emit.
pub proof fn law_final_is_last(p0: StreamProducer, p1: StreamProducer, c: StreamChunk, now: u64)
    requires
        p0.pending(),
        p1.slices() == p0.slices(),
        p1.is_cancelled() == p0.is_cancelled(),
        p1.next_id() == p0.next_id() + 1,
        chunk_matches(c, p0.slices(), p0.next_id(), p0.probe_count(), now),
        c.is_final,
    ensures
        !p1.pending(),
{
}

proof fn lemma_joined_prefix(s: Seq<char>, c: nat, chunks: Seq<StreamChunk>, k: int)
    requires
        c > 0,
        0 <= k <= chunks.len(),
        chunks.len() == split_text(s, c).len(),
        forall|j: int| 0 <= j < chunks.len() ==> (#[trigger] chunks[j]).content@ == split_text(s, c)[j],
    ensures
        joined(chunks.subrange(0, k)) == s.subrange(0, if k * c <= s.len() { k * c } else { s.len() as int }),
    decreases k,
{
    let n = chunk_count(s.len(), c) as int;
    lemma_count_bounds_rev(s.len() as int, c as int);
    if k == 0 {
        assert(chunks.subrange(0, 0) =~= Seq::<StreamChunk>::empty());
        assert(s.subrange(0, 0) =~= Seq::<char>::empty());
    } else {
        lemma_joined_prefix(s, c, chunks, k - 1);
        assert(chunks.subrange(0, k).drop_last() =~= chunks.subrange(0, k - 1));
        assert(k * c == (k - 1) * c + c) by (nonlinear_arith);
        assert((k - 1) * c < s.len()) by (nonlinear_arith)
            requires
                k <= n,
                n == 0 || (n - 1) * c < s.len(),
                k >= 1,
                c > 0,
        ;
        let lo = (k - 1) * c;
        let hi = if k * c <= s.len() { k * c } else { s.len() as int };
        assert(chunks[k - 1].content@ == s.subrange(lo, hi));
        assert(s.subrange(0, lo) + s.subrange(lo, hi) =~= s.subrange(0, hi));
    }
}

proof fn lemma_count_bounds_rev(len: int, c: int)
    requires
        c > 0,
        len >= 0,
    ensures
        ({
            let n = (len + c - 1) / c;
            &&& n >= 0
            &&& n * c >= len
            &&& (n == 0 || (n - 1) * c < len)
        }),
{
    let n = (len + c - 1) / c;
    let r = (len + c - 1) % c;
    assert(len + c - 1 == n * c + r && 0 <= r < c) by (nonlinear_arith)
        requires
            c > 0,
            len >= 0,
            n == (len + c - 1) / c,
            r == (len + c - 1) % c,
    ;
    assert(n >= 0) by (nonlinear_arith)
        requires
            len + c - 1 == n * c + r,
            0 <= r < c,
            len >= 0,
            c > 0,
    ;
    assert(n * c >= len && (n == 0 || (n - 1) * c < len)) by (nonlinear_arith)
        requires
            len + c - 1 == n * c + r,
            0 <= r < c,
            n >= 0,
    ;
}

/// A complete run of a producer over text `s` cut by `c`: it has ceil(L / c)
/// chunks, chunk `k` has id `k`, exactly the last one is final, and joining
/// the chunks gives `s` back.
pub proof fn law_complete_run(s: Seq<char>, c: nat, probes: nat, chunks: Seq<StreamChunk>, times: Seq<u64>)
    requires
        c > 0,
        chunks.len() == split_text(s, c).len(),
        times.len() == chunks.len(),
        forall|k: int| 0 <= k < chunks.len() ==> chunk_matches(#[trigger] chunks[k], split_text(s, c), k as nat, probes, times[k]),
    ensures
        chunks.len() == (s.len() + c - 1) / (c as int),
        forall|k: int| 0 <= k < chunks.len() ==> (#[trigger] chunks[k]).chunk_id == k,
        forall|k: int| 0 <= k < chunks.len() ==> ((#[trigger] chunks[k]).is_final <==> k == chunks.len() - 1),
        joined(chunks) == s,
{
    assert forall|j: int| 0 <= j < chunks.len() implies (#[trigger] chunks[j]).content@ == split_text(s, c)[j] by {
        assert(chunk_matches(chunks[j], split_text(s, c), j as nat, probes, times[j]));
    }
    lemma_joined_prefix(s, c, chunks, chunks.len() as int);
    lemma_count_bounds_rev(s.len() as int, c as int);
    assert(chunks.subrange(0, chunks.len() as int) =~= chunks);
    assert(s.subrange(0, s.len() as int) =~= s);
}

} // verus!
