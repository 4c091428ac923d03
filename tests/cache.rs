use graph_infer::cache::VertexCentricCache;

#[test]
fn test_cache_put_get() {
    let mut cache = VertexCentricCache::new(100);
    cache.put("v1", "key1", vec![1.0, 2.0, 3.0], 0.5).unwrap();
    let value = cache.get("v1", "key1");
    assert!(value.is_some());
    assert_eq!(value.unwrap(), vec![1.0, 2.0, 3.0]);
}

#[test]
fn test_cache_stats() {
    let mut cache = VertexCentricCache::new(100);
    cache.put("v1", "key1", vec![1.0], 0.5).unwrap();
    cache.get("v1", "key1");
    cache.get("v1", "key2");
    let stats = cache.get_stats();
    assert_eq!(stats.total_hits, 1);
    assert_eq!(stats.total_misses, 1);
    assert_eq!(stats.hit_rate.num as f64 / stats.hit_rate.den as f64, 0.5);
}

#[test]
fn get_returns_last_value_written() {
    let mut cache = VertexCentricCache::new(10);
    cache.put_at("v", "k", vec![1.0, 2.0], 1.0, 5).unwrap();
    cache.put_at("v", "k", vec![7.5], 2.0, 6).unwrap();
    assert_eq!(cache.get_at("v", "k", 7), Some(vec![7.5]));
    assert_eq!(cache.get_stats().total_entries, 1);
}

#[test]
fn pairs_do_not_collide_across_delimiters() {
    let mut cache = VertexCentricCache::new(10);
    cache.put_at("a:b", "c", vec![1u32], 0, 1).unwrap();
    cache.put_at("a", "b:c", vec![2u32], 0, 2).unwrap();
    assert_eq!(cache.get_at("a:b", "c", 3), Some(vec![1u32]));
    assert_eq!(cache.get_at("a", "b:c", 4), Some(vec![2u32]));
    assert_eq!(cache.get_stats().total_entries, 2);
}

#[test]
fn eviction_removes_least_recently_used() {
    let mut cache = VertexCentricCache::new(2);
    cache.put_at("v", "a", vec![1u8], 0, 10).unwrap();
    cache.put_at("v", "b", vec![2u8], 0, 20).unwrap();
    // reading "a" makes "b" the oldest
    assert_eq!(cache.get_at("v", "a", 30), Some(vec![1u8]));
    cache.put_at("v", "c", vec![3u8], 0, 40).unwrap();
    assert_eq!(cache.get_stats().total_entries, 2);
    assert_eq!(cache.get_at("v", "b", 50), None);
    assert_eq!(cache.get_at("v", "a", 60), Some(vec![1u8]));
    assert_eq!(cache.get_at("v", "c", 70), Some(vec![3u8]));
}

#[test]
fn size_never_exceeds_capacity() {
    let mut cache = VertexCentricCache::new(3);
    for i in 0..10u64 {
        let key = format!("k{}", i);
        cache.put_at("v", &key, vec![i], 0, i).unwrap();
        assert!(cache.get_stats().total_entries <= 3);
    }
    assert_eq!(cache.get_at("v", "k9", 100), Some(vec![9u64]));
    assert_eq!(cache.get_at("v", "k6", 101), None);
}

#[test]
fn zero_capacity_keeps_one_entry() {
    let mut cache = VertexCentricCache::new(0);
    cache.put_at("v", "a", vec![1u8], 0, 1).unwrap();
    cache.put_at("v", "b", vec![2u8], 0, 2).unwrap();
    assert_eq!(cache.get_stats().total_entries, 1);
    assert_eq!(cache.get_at("v", "b", 3), Some(vec![2u8]));
}

#[test]
fn hit_rate_is_zero_before_any_lookup() {
    let cache: VertexCentricCache<f64> = VertexCentricCache::new(4);
    let stats = cache.get_stats();
    assert_eq!(stats.hit_rate.num, 0);
    assert_eq!(stats.hit_rate.den, 1);
    assert_eq!(stats.avg_access_count.num, 0);
    assert_eq!(stats.avg_access_count.den, 1);
}

#[test]
fn stats_track_access_counts_and_memory() {
    let mut cache = VertexCentricCache::new(8);
    cache.put_at("v1", "a", vec![1.0], 0.0, 1).unwrap();
    cache.put_at("v2", "b", vec![2.0], 0.0, 2).unwrap();
    cache.get_at("v1", "a", 3);
    cache.get_at("v1", "a", 4);
    cache.get_at("v3", "z", 5);
    let stats = cache.get_stats();
    assert_eq!(stats.total_entries, 2);
    assert_eq!(stats.total_hits, 2);
    assert_eq!(stats.total_misses, 1);
    assert_eq!((stats.hit_rate.num, stats.hit_rate.den), (2, 3));
    // access counts 3 and 1
    assert_eq!((stats.avg_access_count.num, stats.avg_access_count.den), (4, 2));
    assert_eq!(stats.memory_usage_kb, 2);
}

#[test]
fn vertex_entries_in_index_order() {
    let mut cache = VertexCentricCache::new(10);
    cache.put_at("v", "x", vec![1u8], 0, 1).unwrap();
    cache.put_at("w", "y", vec![2u8], 0, 2).unwrap();
    cache.put_at("v", "z", vec![3u8], 0, 3).unwrap();
    cache.put_at("v", "x", vec![4u8], 0, 4).unwrap();
    let entries = cache.get_vertex_entries("v");
    let keys: Vec<&str> = entries.iter().map(|e| e.key.as_str()).collect();
    assert_eq!(keys, vec!["x", "z"]);
    assert_eq!(entries[0].value, vec![4u8]);
    assert!(cache.get_vertex_entries("nobody").is_empty());
}

#[test]
fn vertex_entries_skip_evicted_keys() {
    let mut cache = VertexCentricCache::new(1);
    cache.put_at("v", "a", vec![1u8], 0, 1).unwrap();
    cache.put_at("v", "b", vec![2u8], 0, 2).unwrap();
    let entries = cache.get_vertex_entries("v");
    assert_eq!(entries.len(), 1);
    assert_eq!(entries[0].key, "b");
}

#[test]
fn invalidate_vertex_forgets_its_entries() {
    let mut cache = VertexCentricCache::new(10);
    cache.put_at("v", "a", vec![1u8], 0, 1).unwrap();
    cache.put_at("v", "b", vec![2u8], 0, 2).unwrap();
    cache.put_at("w", "a", vec![3u8], 0, 3).unwrap();
    cache.invalidate_vertex("v").unwrap();
    assert!(cache.get_vertex_entries("v").is_empty());
    assert_eq!(cache.get_at("v", "a", 4), None);
    assert_eq!(cache.get_at("v", "b", 5), None);
    assert_eq!(cache.get_at("w", "a", 6), Some(vec![3u8]));
    cache.invalidate_vertex("unknown").unwrap();
    assert_eq!(cache.get_stats().total_entries, 1);
}

#[test]
fn clear_resets_everything() {
    let mut cache = VertexCentricCache::new(10);
    cache.put_at("v", "a", vec![1u8], 0, 1).unwrap();
    cache.get_at("v", "a", 2);
    cache.get_at("v", "b", 3);
    cache.clear().unwrap();
    let stats = cache.get_stats();
    assert_eq!(stats.total_entries, 0);
    assert_eq!(stats.total_hits, 0);
    assert_eq!(stats.total_misses, 0);
    assert!(cache.get_vertex_entries("v").is_empty());
}

#[test]
fn prefetch_counts_cached_entries() {
    let mut cache = VertexCentricCache::new(10);
    cache.put_at("v", "a", vec![1u8], 0, 1).unwrap();
    cache.put_at("v", "b", vec![2u8], 0, 2).unwrap();
    cache.put_at("w", "a", vec![3u8], 0, 3).unwrap();
    let ids = vec!["v".to_string(), "w".to_string(), "none".to_string()];
    assert_eq!(cache.prefetch(&ids).unwrap(), 3);
    assert_eq!(cache.prefetch(&[]).unwrap(), 0);
}

#[test]
fn get_refreshes_timestamp_and_count() {
    let mut cache = VertexCentricCache::new(10);
    cache.put_at("v", "a", vec![1u8], 9, 1).unwrap();
    cache.get_at("v", "a", 42);
    let e = &cache.get_vertex_entries("v")[0];
    assert_eq!(e.timestamp, 42);
    assert_eq!(e.access_count, 2);
    assert_eq!(e.computation_cost, 9);
}

#[test]
fn put_and_get_stamp_with_the_clock() {
    let mut cache = VertexCentricCache::new(10);
    cache.put("v", "a", vec![1u8], 0).unwrap();
    let e = &cache.get_vertex_entries("v")[0];
    // milliseconds since 1970: far beyond 2020-01-01
    assert!(e.timestamp > 1_577_836_800_000);
}
