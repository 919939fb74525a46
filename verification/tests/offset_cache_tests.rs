use stream_scanner::offset_cache::{extract_bytes_at_offset, OffsetCache};

#[test]
fn test_offset_cache_basic_operations() {
    let mut cache = OffsetCache::new();

    // Test put and get
    let trace_id = "trace123";
    let data = b"This is test data";

    cache.put(trace_id, data);

    let retrieved = cache.get(trace_id).unwrap();
    assert_eq!(retrieved, data);

    // Test missing key
    assert!(cache.get("missing_key").is_none());

    // Test delete
    cache.delete(trace_id);
    assert!(cache.get(trace_id).is_none());
}

#[test]
fn test_batch_operations() {
    let mut cache = OffsetCache::new();

    let entries = vec![
        ("trace1".to_string(), b"data1".to_vec()),
        ("trace2".to_string(), b"data2".to_vec()),
        ("trace3".to_string(), b"data3".to_vec()),
    ];

    cache.put_batch(&entries);

    assert_eq!(cache.get("trace1").unwrap(), b"data1");
    assert_eq!(cache.get("trace2").unwrap(), b"data2");
    assert_eq!(cache.get("trace3").unwrap(), b"data3");
}

#[test]
fn put_replaces_the_data_of_a_trace_id() {
    let mut cache = OffsetCache::new();
    cache.put("trace", b"old");
    cache.put("trace", b"new");
    assert_eq!(cache.get("trace").unwrap(), b"new");
}

#[test]
fn full_cache_drops_the_least_recently_used_line() {
    let mut cache = OffsetCache::with_capacity(2);
    cache.put("a", b"1");
    cache.put("b", b"2");
    // Looking "a" up makes "b" the least recently used.
    assert_eq!(cache.get("a").unwrap(), b"1");
    cache.put("c", b"3");
    assert!(cache.get("b").is_none());
    assert_eq!(cache.get("a").unwrap(), b"1");
    assert_eq!(cache.get("c").unwrap(), b"3");
}

#[test]
fn clear_drops_every_line() {
    let mut cache = OffsetCache::new();
    cache.put("a", b"1");
    cache.put("b", b"2");
    cache.clear();
    assert!(cache.get("a").is_none());
    assert!(cache.get("b").is_none());
}

#[test]
fn extract_bytes_inside_the_line() {
    let line = b"0123456789";
    assert_eq!(extract_bytes_at_offset(line, 2, 3), Some(b"234".to_vec()));
    assert_eq!(extract_bytes_at_offset(line, 0, 10), Some(line.to_vec()));
    assert_eq!(extract_bytes_at_offset(line, 10, 0), Some(Vec::new()));
}

#[test]
fn extract_bytes_outside_the_line() {
    let line = b"0123456789";
    assert_eq!(extract_bytes_at_offset(line, 8, 3), None);
    assert_eq!(extract_bytes_at_offset(line, 11, 0), None);
    assert_eq!(extract_bytes_at_offset(line, usize::MAX, 2), None);
    assert_eq!(extract_bytes_at_offset(line, 2, usize::MAX), None);
}
