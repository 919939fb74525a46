use std::time::Duration;
use stream_scanner::context::ScanContext;
use stream_scanner::error::{EvaluatorExit, ScanError};
use stream_scanner::multi_stream::MultiStreamScanner;
use stream_scanner::rules::{RuleInfo, Rules};
use uuid::Uuid;

/// A rule set with one public rule over `num_patterns` patterns.
fn one_rule(name: &str, num_patterns: usize) -> Rules {
    let rule = RuleInfo { identifier: name.to_string(), namespace_id: 0, is_private: false };
    Rules::new(vec![rule], num_patterns, Vec::new()).unwrap()
}

/// Number of confirmed matches of a pattern in the installed stream.
fn count(ctx: &ScanContext, pattern_id: u32) -> usize {
    ctx.pattern_matches(pattern_id).map_or(0, |list| list.len())
}

/// Stream offset of the first match of a pattern in the installed stream.
fn first_offset(ctx: &ScanContext, pattern_id: u32) -> Option<u64> {
    ctx.pattern_matches(pattern_id).and_then(|list| list.iter().map(|m| m.start).min())
}

/// Stands in for the evaluator: a literal search for each pattern, then the
/// condition of rule 0 over what the harness holds.
struct Evaluator {
    patterns: Vec<&'static [u8]>,
    condition: fn(&ScanContext) -> bool,
}

impl Evaluator {
    fn run(&self, scanner: &mut MultiStreamScanner, data: &[u8]) -> EvaluatorExit {
        if scanner.begin_pattern_search() {
            for (id, pattern) in self.patterns.iter().enumerate() {
                if pattern.is_empty() || pattern.len() > data.len() {
                    continue;
                }
                for start in 0..=data.len() - pattern.len() {
                    if &data[start..start + pattern.len()] == *pattern {
                        scanner.track_pattern_match(id as u32, start, start + pattern.len(), None);
                    }
                }
            }
        }
        if (self.condition)(scanner.scan_context()) {
            scanner.track_rule_match(0);
        }
        EvaluatorExit::Returned(0)
    }

    fn scan_line(
        &self,
        scanner: &mut MultiStreamScanner,
        stream_id: &Uuid,
        line: &[u8],
    ) -> Result<(), ScanError> {
        scanner.scan_line(stream_id, line, 0);
        let exit = self.run(scanner, line);
        scanner.finish_scan(exit)
    }

    fn scan_chunk(
        &self,
        scanner: &mut MultiStreamScanner,
        stream_id: &Uuid,
        chunk: &[u8],
    ) -> Result<(), ScanError> {
        scanner.scan_chunk(stream_id, chunk, 0);
        let exit = self.run(scanner, chunk);
        scanner.finish_scan(exit)
    }
}

/// Number of rules that a stream's results report.
fn matching_count(scanner: &MultiStreamScanner, stream_id: &Uuid) -> usize {
    let results = scanner.get_matches(stream_id).unwrap();
    let mut rules = results.matching_rules();
    let mut n = 0;
    while rules.next().is_some() {
        n += 1;
    }
    n
}

#[test]
fn test_multi_stream_debug() {
    let rules = one_rule("test", 2);
    let eval = Evaluator {
        patterns: vec![b"AAA", b"BBB"],
        condition: |ctx| count(ctx, 0) > 0 || count(ctx, 1) > 0,
    };

    let mut scanner = MultiStreamScanner::new(&rules);
    let stream1 = Uuid::new_v4();

    // First scan: should match with AAA
    eval.scan_line(&mut scanner, &stream1, b"AAA").unwrap();
    assert_eq!(matching_count(&scanner, &stream1), 1, "Should match with AAA");

    // Second scan: should still match (accumulated)
    eval.scan_line(&mut scanner, &stream1, b"CCC").unwrap();
    assert_eq!(matching_count(&scanner, &stream1), 1, "Should still match");
}

#[test]
fn test_multi_stream_basic() {
    let rules = one_rule("test", 2);
    let eval = Evaluator {
        patterns: vec![b"pattern1", b"pattern2"],
        condition: |ctx| count(ctx, 0) > 0 && count(ctx, 1) > 0,
    };

    let mut scanner = MultiStreamScanner::new(&rules);

    // Create two stream IDs
    let stream1 = Uuid::new_v4();
    let stream2 = Uuid::new_v4();

    // Stream 1: Add pattern1
    eval.scan_line(&mut scanner, &stream1, b"first line with pattern1").unwrap();
    assert_eq!(matching_count(&scanner, &stream1), 0, "Stream 1: Rule shouldn't match yet");

    // Stream 2: Add both patterns in one line
    eval.scan_line(&mut scanner, &stream2, b"line with pattern1 and pattern2").unwrap();
    assert_eq!(matching_count(&scanner, &stream2), 1, "Stream 2: Rule should match");

    // Back to Stream 1: Add pattern2
    eval.scan_line(&mut scanner, &stream1, b"second line with pattern2").unwrap();
    assert_eq!(matching_count(&scanner, &stream1), 1, "Stream 1: Rule should now match");
}

#[test]
fn test_multi_stream_context_isolation() {
    let rules = one_rule("count_foo", 1);
    let eval = Evaluator { patterns: vec![b"foo"], condition: |ctx| count(ctx, 0) == 3 };

    let mut scanner = MultiStreamScanner::new(&rules);

    let stream1 = Uuid::new_v4();
    let stream2 = Uuid::new_v4();

    // Stream 1: Add 2 "foo"
    eval.scan_line(&mut scanner, &stream1, b"foo foo").unwrap();

    // Stream 2: Add 3 "foo"
    eval.scan_line(&mut scanner, &stream2, b"foo foo foo").unwrap();

    // Check Stream 2 matches
    assert_eq!(matching_count(&scanner, &stream2), 1, "Stream 2 should match with 3 foo");

    // Check Stream 1 doesn't match
    assert_eq!(matching_count(&scanner, &stream1), 0, "Stream 1 should not match with only 2 foo");

    // Add one more foo to Stream 1
    eval.scan_line(&mut scanner, &stream1, b"foo").unwrap();
    assert_eq!(matching_count(&scanner, &stream1), 1, "Stream 1 should now match with 3 foo");
}

#[test]
fn test_multi_stream_chunk_scanning() {
    let rules = one_rule("test_multiline", 3);
    let eval = Evaluator {
        patterns: vec![b"start", b"middle", b"end"],
        condition: |ctx| count(ctx, 0) > 0 && count(ctx, 1) > 0 && count(ctx, 2) > 0,
    };

    let mut scanner = MultiStreamScanner::new(&rules);

    let stream1 = Uuid::new_v4();
    let stream2 = Uuid::new_v4();

    // Stream 1: Use chunk scanning
    eval.scan_chunk(
        &mut scanner,
        &stream1,
        b"line with start\nline with middle\nline with end\n",
    )
    .unwrap();
    assert_eq!(
        matching_count(&scanner, &stream1),
        1,
        "Stream 1: Chunk scan should find all patterns"
    );

    // Stream 2: Use line-by-line scanning
    eval.scan_line(&mut scanner, &stream2, b"line with start").unwrap();
    eval.scan_line(&mut scanner, &stream2, b"line with middle").unwrap();
    assert_eq!(matching_count(&scanner, &stream2), 0, "Stream 2: Should not match yet");

    eval.scan_line(&mut scanner, &stream2, b"line with end").unwrap();
    assert_eq!(matching_count(&scanner, &stream2), 1, "Stream 2: Should match after all patterns");
}

#[test]
fn test_multi_stream_counters() {
    let rules = one_rule("dummy", 0);
    let eval = Evaluator { patterns: vec![], condition: |_| true };

    let mut scanner = MultiStreamScanner::new(&rules);

    let stream1 = Uuid::new_v4();
    let stream2 = Uuid::new_v4();

    // Stream 1: Process 20 bytes
    eval.scan_line(&mut scanner, &stream1, b"12345678901234567890").unwrap();
    assert_eq!(scanner.bytes_processed(&stream1), Some(20));
    assert_eq!(scanner.lines_processed(&stream1), Some(1));

    // Stream 2: Process different amount
    eval.scan_chunk(&mut scanner, &stream2, b"line1\nline2\nline3\n").unwrap();
    assert_eq!(scanner.bytes_processed(&stream2), Some(18));
    assert_eq!(scanner.lines_processed(&stream2), Some(3));

    // Stream 1: Add more data
    eval.scan_chunk(&mut scanner, &stream1, b"more\ndata\n").unwrap();
    assert_eq!(scanner.bytes_processed(&stream1), Some(30));
    assert_eq!(scanner.lines_processed(&stream1), Some(3)); // 1 + 2 from chunk
}

#[test]
fn test_multi_stream_reset() {
    let rules = one_rule("test", 1);
    let eval = Evaluator { patterns: vec![b"pattern"], condition: |ctx| count(ctx, 0) > 0 };

    let mut scanner = MultiStreamScanner::new(&rules);
    let stream1 = Uuid::new_v4();

    // Add pattern and verify match
    eval.scan_line(&mut scanner, &stream1, b"line with pattern").unwrap();
    assert_eq!(matching_count(&scanner, &stream1), 1);

    // Reset the stream
    scanner.reset_stream(&stream1).unwrap();

    // Verify stream was reset
    assert_eq!(matching_count(&scanner, &stream1), 0);
    assert_eq!(scanner.bytes_processed(&stream1), Some(0));
    assert_eq!(scanner.lines_processed(&stream1), Some(0));
}

#[test]
fn test_multi_stream_close() {
    let rules = one_rule("test", 1);
    let eval = Evaluator { patterns: vec![b"pattern"], condition: |ctx| count(ctx, 0) > 0 };

    let mut scanner = MultiStreamScanner::new(&rules);
    let stream1 = Uuid::new_v4();

    // Add pattern
    eval.scan_line(&mut scanner, &stream1, b"line with pattern").unwrap();

    // Close the stream
    let final_results = scanner.close_stream(&stream1).unwrap();
    assert_eq!(final_results.non_private_matching_rules.len(), 1);
    assert_eq!(final_results.bytes_processed, 17);
    assert_eq!(final_results.lines_processed, 1);

    // Verify stream is gone
    assert!(scanner.get_matches(&stream1).is_none());
    assert!(scanner.bytes_processed(&stream1).is_none());
}

#[test]
fn test_multi_stream_active_streams() {
    let rules = one_rule("dummy", 0);
    let eval = Evaluator { patterns: vec![], condition: |_| true };
    let mut scanner = MultiStreamScanner::new(&rules);

    let stream1 = Uuid::new_v4();
    let stream2 = Uuid::new_v4();
    let stream3 = Uuid::new_v4();

    // Initially no streams
    assert_eq!(scanner.active_streams().len(), 0);

    // Add streams
    eval.scan_line(&mut scanner, &stream1, b"data").unwrap();
    assert_eq!(scanner.active_streams().len(), 1);

    eval.scan_line(&mut scanner, &stream2, b"data").unwrap();
    eval.scan_line(&mut scanner, &stream3, b"data").unwrap();

    let active = scanner.active_streams();
    assert_eq!(active.len(), 3);
    assert!(active.contains(&stream1));
    assert!(active.contains(&stream2));
    assert!(active.contains(&stream3));

    // Close one stream
    scanner.close_stream(&stream2);
    let active = scanner.active_streams();
    assert_eq!(active.len(), 2);
    assert!(!active.contains(&stream2));
}

#[test]
fn test_multi_stream_global_offsets() {
    let rules = one_rule("test_offset", 1);
    let eval = Evaluator {
        patterns: vec![b"marker"],
        condition: |ctx| count(ctx, 0) > 0 && first_offset(ctx, 0) == Some(30),
    };

    let mut scanner = MultiStreamScanner::new(&rules);

    let stream1 = Uuid::new_v4();
    let stream2 = Uuid::new_v4();

    // Stream 1: marker at position 30
    eval.scan_chunk(&mut scanner, &stream1, b"123456789012345678901234567890marker").unwrap();
    assert_eq!(matching_count(&scanner, &stream1), 1, "Stream 1 should match with marker at 30");

    // Stream 2: marker at wrong position
    eval.scan_chunk(&mut scanner, &stream2, b"marker at wrong position").unwrap();
    assert_eq!(matching_count(&scanner, &stream2), 0, "Stream 2 should not match");

    // Stream 2: Add more data, but first marker is still at offset 0
    eval.scan_chunk(&mut scanner, &stream2, b"123456marker").unwrap();
    assert_eq!(
        matching_count(&scanner, &stream2),
        0,
        "Stream 2 should still not match - first marker at 0"
    );
}

#[test]
fn test_multi_stream_timeout() {
    let rules = one_rule("complex_regex", 1);
    let mut scanner = MultiStreamScanner::new(&rules);
    scanner.set_timeout(Duration::from_millis(1));

    let stream1 = Uuid::new_v4();

    // The evaluator may be stopped at the deadline or may complete.
    let line = b"aaaaaaaaaaaaaaaaaaaaaaaaaaaaaaaaaaaaaaaaaa";
    let request = scanner.scan_line(&stream1, line, 0);
    assert_eq!(request.timeout_secs, 1);
    assert_eq!(request.deadline, 1);
    assert!(request.start_heartbeat);
    let exit = if scanner.scan_context().deadline_passed(2) {
        EvaluatorExit::Failed(ScanError::Timeout)
    } else {
        EvaluatorExit::Returned(0)
    };
    let result = scanner.finish_scan(exit);

    // We accept either timeout or completion for this simple test
    match result {
        Err(ScanError::Timeout) => {
            // Test passes - timeout occurred
        }
        Ok(_) => {
            // Also acceptable - scan completed quickly
        }
        Err(other) => {
            panic!("Unexpected error: {:?}", other);
        }
    }
}

#[test]
fn test_multi_stream_many_streams() {
    let rules = one_rule("count_test", 1);
    let eval = Evaluator { patterns: vec![b"test"], condition: |ctx| count(ctx, 0) == 1 };

    let mut scanner = MultiStreamScanner::new(&rules);
    let mut streams = Vec::new();

    // Create 100 streams
    for _ in 0..100 {
        let stream_id = Uuid::new_v4();
        streams.push(stream_id);
        eval.scan_line(&mut scanner, &stream_id, b"this is a test").unwrap();
    }

    // Verify all streams have matches
    for stream_id in &streams {
        assert_eq!(matching_count(&scanner, stream_id), 1);
    }

    // Verify we have 100 active streams
    assert_eq!(scanner.active_streams().len(), 100);
}
