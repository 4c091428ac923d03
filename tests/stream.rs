use graph_infer::cache::VertexCentricCache;
use graph_infer::reasoning::{GLMReasoning, QueryType};
use graph_infer::stream::{
    collect_stream, get_stream_stats, split_answer, ChunkMetadata, StreamChunk, StreamConfig, StreamProducer,
};

fn chunk(id: usize, content: &str, is_final: bool, ts: u64, nodes: usize, hits: usize) -> StreamChunk {
    StreamChunk {
        chunk_id: id,
        content: content.to_string(),
        is_final,
        metadata: ChunkMetadata {
            timestamp_ms: ts,
            graph_nodes_accessed: (0..nodes).map(|i| format!("n{}", i)).collect(),
            cache_hits: hits,
            confidence_bp: 8500,
        },
    }
}

fn drain(answer: &str, config: &StreamConfig) -> Vec<StreamChunk> {
    let mut cache: VertexCentricCache<f64> = VertexCentricCache::new(1000);
    let mut producer = StreamProducer::new(answer, config);
    let mut out = Vec::new();
    let mut now = 0u64;
    while let Some(c) = producer.next_chunk(&mut cache, now) {
        out.push(c);
        now += 100;
    }
    out
}

#[test]
fn test_streaming_inference() {
    let reasoning = GLMReasoning::new(10);
    let chain = reasoning.reason("Test query", QueryType::Reasoning).ok().unwrap();
    let chunks = drain(&chain.final_answer, &StreamConfig::default());
    let mut chunk_count = 0;
    for c in &chunks {
        chunk_count += 1;
        if c.is_final {
            break;
        }
    }
    assert!(chunk_count > 0);
}

#[test]
fn test_collect_stream() {
    let reasoning = GLMReasoning::new(10);
    let chain = reasoning.reason("Test query", QueryType::Factual).ok().unwrap();
    let chunks = drain(&chain.final_answer, &StreamConfig::default());
    let result = collect_stream(&chunks);
    assert!(!result.is_empty());
    assert_eq!(result, chain.final_answer);
}

#[test]
fn chunk_count_is_ceiling() {
    let config = StreamConfig { chunk_size: 3, ..StreamConfig::default() };
    let chunks = drain("abcdefg", &config);
    assert_eq!(chunks.len(), 3);
    let ids: Vec<usize> = chunks.iter().map(|c| c.chunk_id).collect();
    assert_eq!(ids, vec![0, 1, 2]);
    let finals: Vec<bool> = chunks.iter().map(|c| c.is_final).collect();
    assert_eq!(finals, vec![false, false, true]);
    assert_eq!(chunks[2].content, "g");
    let exact = drain("abcdef", &config);
    assert_eq!(exact.len(), 2);
    assert!(drain("", &config).is_empty());
}

#[test]
fn split_counts_characters() {
    let parts = split_answer("héllo wörld", 4);
    assert_eq!(parts, vec!["héll", "o wö", "rld"]);
}

#[test]
fn chunks_carry_probe_metadata() {
    let config = StreamConfig { chunk_size: 2, ..StreamConfig::default() };
    let mut cache: VertexCentricCache<f64> = VertexCentricCache::new(100);
    let mut p = StreamProducer::new("abcdefgh", &config);
    let mut last = None;
    for _ in 0..4 {
        last = p.next_chunk(&mut cache, 77);
    }
    let c = last.unwrap();
    assert_eq!(c.chunk_id, 3);
    assert_eq!(c.metadata.timestamp_ms, 77);
    assert_eq!(c.metadata.cache_hits, 0);
    assert_eq!(c.metadata.confidence_bp, 8800);
    assert_eq!(
        c.metadata.graph_nodes_accessed,
        vec!["vertex_3_0", "vertex_3_1", "vertex_3_2", "vertex_3_3"]
    );
    let stats = cache.get_stats();
    assert_eq!(stats.total_misses, 16);
    assert!(c.is_final);
    assert!(p.next_chunk(&mut cache, 78).is_none());
}

#[test]
fn probing_can_be_switched_off() {
    let config = StreamConfig { chunk_size: 2, enable_parallel_graph: false, ..StreamConfig::default() };
    let mut cache: VertexCentricCache<f64> = VertexCentricCache::new(100);
    let mut p = StreamProducer::new("abc", &config);
    let c = p.next_chunk(&mut cache, 1).unwrap();
    assert!(c.metadata.graph_nodes_accessed.is_empty());
    assert_eq!(cache.get_stats().total_misses, 0);
}

#[test]
fn cancel_stops_production() {
    let config = StreamConfig { chunk_size: 1, ..StreamConfig::default() };
    let mut cache: VertexCentricCache<f64> = VertexCentricCache::new(100);
    let mut p = StreamProducer::new("abcdef", &config);
    assert_eq!(p.next_chunk(&mut cache, 1).unwrap().chunk_id, 0);
    assert_eq!(p.next_chunk(&mut cache, 2).unwrap().chunk_id, 1);
    p.cancel();
    assert!(p.next_chunk(&mut cache, 3).is_none());
    assert!(p.next_chunk(&mut cache, 4).is_none());
}

#[test]
fn collect_joins_slices() {
    let chunks = vec![chunk(0, "ab", false, 1, 0, 0), chunk(1, "cd", false, 2, 0, 0), chunk(2, "ef", true, 3, 0, 0)];
    assert_eq!(collect_stream(&chunks), "abcdef");
}

#[test]
fn collect_stops_at_final_chunk() {
    let chunks = vec![chunk(0, "ab", true, 1, 0, 0), chunk(1, "cd", false, 2, 0, 0)];
    assert_eq!(collect_stream(&chunks), "ab");
    assert_eq!(collect_stream(&[]), "");
}

#[test]
fn stats_over_chunks() {
    let chunks = vec![
        chunk(0, "ab", false, 1000, 4, 0),
        chunk(1, "cd", false, 1100, 4, 1),
        chunk(2, "ef", true, 1250, 4, 2),
        chunk(3, "gh", false, 9999, 4, 2),
    ];
    let stats = get_stream_stats(&chunks);
    assert_eq!(stats.total_chunks, 3);
    assert_eq!(stats.total_graph_nodes, 12);
    assert_eq!(stats.total_cache_hits, 3);
    assert_eq!(stats.duration_ms, 250);
    assert_eq!(stats.avg_chunk_time_ms, 83);
}

#[test]
fn stats_of_empty_stream_are_zero() {
    let stats = get_stream_stats(&[]);
    assert_eq!(stats.total_chunks, 0);
    assert_eq!(stats.duration_ms, 0);
    assert_eq!(stats.avg_chunk_time_ms, 0);
}

#[test]
fn stats_tolerate_clock_going_back() {
    let chunks = vec![chunk(0, "a", false, 500, 0, 0), chunk(1, "b", true, 400, 0, 0)];
    let stats = get_stream_stats(&chunks);
    assert_eq!(stats.duration_ms, 0);
    assert_eq!(stats.avg_chunk_time_ms, 0);
}

#[test]
fn default_stream_config() {
    let c = StreamConfig::default();
    assert_eq!(c.chunk_size, 50);
    assert_eq!(c.chunk_delay_ms, 100);
    assert!(c.enable_parallel_graph);
    assert_eq!(c.max_concurrent_ops, 4);
}

#[test]
fn fan_out_is_four_whatever_the_concurrency_bound() {
    let config = StreamConfig { chunk_size: 5, max_concurrent_ops: 7, ..StreamConfig::default() };
    let mut cache: VertexCentricCache<f64> = VertexCentricCache::new(100);
    cache.put_at("vertex_0_2", "embedding", vec![1.0], 0.0, 1).unwrap();
    let mut p = StreamProducer::new("hello", &config);
    let c = p.next_chunk(&mut cache, 5).unwrap();
    assert_eq!(c.metadata.graph_nodes_accessed, vec!["vertex_0_0", "vertex_0_1", "vertex_0_2", "vertex_0_3"]);
    let stats = cache.get_stats();
    assert_eq!(stats.total_hits, 1);
    assert_eq!(stats.total_misses, 3);
}

#[test]
fn finished_producer_leaves_cache_alone() {
    let config = StreamConfig { chunk_size: 5, ..StreamConfig::default() };
    let mut cache: VertexCentricCache<f64> = VertexCentricCache::new(100);
    let mut p = StreamProducer::new("hi", &config);
    assert!(p.next_chunk(&mut cache, 1).is_some());
    let before = cache.get_stats();
    assert!(p.next_chunk(&mut cache, 2).is_none());
    let after = cache.get_stats();
    assert_eq!((before.total_hits, before.total_misses), (after.total_hits, after.total_misses));
}
