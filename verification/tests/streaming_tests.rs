use std::time::Duration;
use stream_scanner::context::ScanContext;
use stream_scanner::error::{EvaluatorExit, ScanError};
use stream_scanner::rules::{RuleInfo, Rules};
use stream_scanner::streaming::StreamingScanner;

/// A rule set with `num_rules` public rules over `num_patterns` patterns.
fn rule_set(num_rules: usize, num_patterns: usize) -> Rules {
    let rules = (0..num_rules)
        .map(|i| RuleInfo { identifier: format!("rule{}", i), namespace_id: 0, is_private: false })
        .collect();
    Rules::new(rules, num_patterns, Vec::new()).unwrap()
}

/// Number of confirmed matches of a pattern.
fn count(ctx: &ScanContext, pattern_id: u32) -> usize {
    ctx.pattern_matches(pattern_id).map_or(0, |list| list.len())
}

/// Stream offset of the first match of a pattern.
fn first_offset(ctx: &ScanContext, pattern_id: u32) -> Option<u64> {
    ctx.pattern_matches(pattern_id).and_then(|list| list.iter().map(|m| m.start).min())
}

/// How the stand-in for the pattern search finds a pattern.
enum Pattern {
    /// The bytes themselves.
    Literal(&'static [u8]),
    /// An `f` followed by as many `o` as there are, at least one.
    FoPlus,
}

impl Pattern {
    /// The occurrences in `data`, as half-open ranges.
    fn find(&self, data: &[u8]) -> Vec<(usize, usize)> {
        let mut found = Vec::new();
        match self {
            Pattern::Literal(bytes) => {
                if !bytes.is_empty() && bytes.len() <= data.len() {
                    for start in 0..=data.len() - bytes.len() {
                        if &data[start..start + bytes.len()] == *bytes {
                            found.push((start, start + bytes.len()));
                        }
                    }
                }
            }
            Pattern::FoPlus => {
                for start in 0..data.len() {
                    if data[start] == b'f' {
                        let mut end = start + 1;
                        while end < data.len() && data[end] == b'o' {
                            end += 1;
                        }
                        if end > start + 1 {
                            found.push((start, end));
                        }
                    }
                }
            }
        }
        found
    }
}

/// Stands in for the evaluator: a search for each pattern, then the
/// condition of each rule over what the harness holds.
struct Evaluator {
    patterns: Vec<Pattern>,
    conditions: Vec<fn(&ScanContext) -> bool>,
}

impl Evaluator {
    fn run(&self, scanner: &mut StreamingScanner, data: &[u8]) -> EvaluatorExit {
        if scanner.begin_pattern_search() {
            for (id, pattern) in self.patterns.iter().enumerate() {
                for (start, end) in pattern.find(data) {
                    scanner.track_pattern_match(id as u32, start, end, None);
                }
            }
        }
        for (rule_id, condition) in self.conditions.iter().enumerate() {
            if condition(scanner.scan_context()) {
                scanner.track_rule_match(rule_id as u32);
            }
        }
        EvaluatorExit::Returned(0)
    }

    fn scan_line(&self, scanner: &mut StreamingScanner, line: &[u8]) -> Result<(), ScanError> {
        scanner.scan_line(line, 0);
        let exit = self.run(scanner, line);
        scanner.finish_scan(exit)
    }

    fn scan_chunk(&self, scanner: &mut StreamingScanner, chunk: &[u8]) -> Result<(), ScanError> {
        scanner.scan_chunk(chunk, 0);
        let exit = self.run(scanner, chunk);
        scanner.finish_scan(exit)
    }
}

/// Number of rules that the scanner's results report.
fn matching_count(scanner: &StreamingScanner) -> usize {
    let results = scanner.get_matches();
    let mut rules = results.matching_rules();
    let mut n = 0;
    while rules.next().is_some() {
        n += 1;
    }
    n
}

#[test]
fn test_streaming_scanner_basic() {
    let rules = rule_set(1, 2);
    let eval = Evaluator {
        patterns: vec![Pattern::Literal(b"pattern1"), Pattern::Literal(b"pattern2")],
        conditions: vec![|ctx| count(ctx, 0) > 0 && count(ctx, 1) > 0],
    };

    let mut scanner = StreamingScanner::new(&rules);

    // First line contains pattern1
    eval.scan_line(&mut scanner, b"first line with pattern1\n").unwrap();

    // Rule shouldn't match yet (only pattern1 found)
    assert_eq!(matching_count(&scanner), 0);

    // Second line contains pattern2
    eval.scan_line(&mut scanner, b"second line with pattern2\n").unwrap();

    // Now both patterns found, rule should match
    assert_eq!(matching_count(&scanner), 1);
}

#[test]
fn test_streaming_scanner_single_pattern_multiple_lines() {
    let rules = rule_set(1, 1);
    let eval = Evaluator {
        patterns: vec![Pattern::Literal(b"foo")],
        conditions: vec![|ctx| count(ctx, 0) == 3],
    };

    let mut scanner = StreamingScanner::new(&rules);

    // Scan three lines, each containing "foo"
    eval.scan_line(&mut scanner, b"foo in line 1\n").unwrap();
    eval.scan_line(&mut scanner, b"line 2 has foo\n").unwrap();
    eval.scan_line(&mut scanner, b"foo appears in line 3\n").unwrap();

    // Rule should match since we found "foo" 3 times
    assert_eq!(matching_count(&scanner), 1);
}

#[test]
fn test_streaming_scanner_global_offsets() {
    let rules = rule_set(1, 1);
    let eval = Evaluator {
        patterns: vec![Pattern::Literal(b"pattern")],
        conditions: vec![|ctx| count(ctx, 0) > 0],
    };

    let mut scanner = StreamingScanner::new(&rules);

    // First line is 10 bytes, pattern starts at position 10 in second line
    eval.scan_line(&mut scanner, b"0123456789").unwrap(); // 10 bytes
    eval.scan_line(&mut scanner, b"pattern here").unwrap();

    // Check that pattern matches were found and adjusted for global offsets
    let ctx = scanner.scan_context();
    assert!(ctx.pattern_matches(0).is_some(), "Expected pattern matches to be found");
    assert_eq!(first_offset(ctx, 0), Some(10));

    // Rule should match because pattern is found
    assert_eq!(matching_count(&scanner), 1);
}

#[test]
fn test_streaming_scanner_offset_accumulation() {
    let rules = rule_set(1, 1);
    let eval = Evaluator {
        patterns: vec![Pattern::Literal(b"test")],
        conditions: vec![|ctx| first_offset(ctx, 0).map_or(false, |at| at > 20)],
    };

    let mut scanner = StreamingScanner::new(&rules);

    // Scan multiple lines to accumulate offset
    eval.scan_line(&mut scanner, b"first line\n").unwrap(); // 11 bytes
    eval.scan_line(&mut scanner, b"second line\n").unwrap(); // 12 bytes, total 23
    eval.scan_line(&mut scanner, b"test appears here\n").unwrap(); // "test" at offset 23

    // Rule should match because first occurrence of "test" is at offset > 20
    assert_eq!(matching_count(&scanner), 1);
}

#[test]
fn test_streaming_scanner_reset() {
    let rules = rule_set(1, 1);
    let eval = Evaluator {
        patterns: vec![Pattern::Literal(b"pattern")],
        conditions: vec![|ctx| count(ctx, 0) > 0],
    };

    let mut scanner = StreamingScanner::new(&rules);

    // First scan
    eval.scan_line(&mut scanner, b"line with pattern\n").unwrap();
    assert_eq!(matching_count(&scanner), 1);

    // Reset scanner
    scanner.reset();

    // After reset, no matches should be present
    assert_eq!(matching_count(&scanner), 0);

    // Counters should be reset
    assert_eq!(scanner.bytes_processed(), 0);
    assert_eq!(scanner.lines_processed(), 0);
}

#[test]
fn test_streaming_scanner_empty_lines() {
    let rules = rule_set(1, 1);
    let eval = Evaluator {
        patterns: vec![Pattern::Literal(b"pattern")],
        conditions: vec![|ctx| count(ctx, 0) > 0],
    };

    let mut scanner = StreamingScanner::new(&rules);

    // Scan empty lines
    eval.scan_line(&mut scanner, b"").unwrap();
    eval.scan_line(&mut scanner, b"").unwrap();
    eval.scan_line(&mut scanner, b"pattern").unwrap();
    eval.scan_line(&mut scanner, b"").unwrap();

    // Rule should match
    assert_eq!(matching_count(&scanner), 1);
}

#[test]
fn test_streaming_scanner_counters() {
    let rules = rule_set(1, 0);
    let eval = Evaluator { patterns: vec![], conditions: vec![|_| true] };

    let mut scanner = StreamingScanner::new(&rules);

    assert_eq!(scanner.bytes_processed(), 0);
    assert_eq!(scanner.lines_processed(), 0);

    eval.scan_line(&mut scanner, b"12345").unwrap(); // 5 bytes
    assert_eq!(scanner.bytes_processed(), 5);
    assert_eq!(scanner.lines_processed(), 1);

    eval.scan_line(&mut scanner, b"1234567890").unwrap(); // 10 bytes
    assert_eq!(scanner.bytes_processed(), 15);
    assert_eq!(scanner.lines_processed(), 2);
}

#[test]
fn test_streaming_scanner_regex_patterns() {
    let rules = rule_set(1, 1);
    let eval = Evaluator { patterns: vec![Pattern::FoPlus], conditions: vec![|ctx| count(ctx, 0) == 2] };

    let mut scanner = StreamingScanner::new(&rules);

    eval.scan_line(&mut scanner, b"foo in first line\n").unwrap();
    eval.scan_line(&mut scanner, b"second line has fooooo\n").unwrap();

    // Rule should match since we found the pattern twice
    assert_eq!(matching_count(&scanner), 1);
}

#[test]
fn test_streaming_scanner_hex_patterns() {
    let rules = rule_set(1, 1);
    let eval = Evaluator {
        patterns: vec![Pattern::Literal(&[0x41, 0x42, 0x43])],
        conditions: vec![|ctx| count(ctx, 0) > 0],
    };

    let mut scanner = StreamingScanner::new(&rules);

    eval.scan_line(&mut scanner, b"some text\n").unwrap();
    eval.scan_line(&mut scanner, b"ABC appears here\n").unwrap();

    assert_eq!(matching_count(&scanner), 1);
}

#[test]
fn test_streaming_scanner_multiple_rules() {
    let rules = rule_set(3, 3);
    let eval = Evaluator {
        patterns: vec![
            Pattern::Literal(b"pattern1"),
            Pattern::Literal(b"pattern2"),
            Pattern::Literal(b"pattern3"),
        ],
        conditions: vec![
            |ctx| count(ctx, 0) > 0,
            |ctx| count(ctx, 1) > 0,
            |ctx| count(ctx, 2) > 0,
        ],
    };

    let mut scanner = StreamingScanner::new(&rules);

    eval.scan_line(&mut scanner, b"line with pattern1\n").unwrap();
    eval.scan_line(&mut scanner, b"pattern2 in this line\n").unwrap();
    eval.scan_line(&mut scanner, b"and pattern3 here\n").unwrap();

    // All three rules should match
    assert_eq!(matching_count(&scanner), 3);
}

#[test]
fn test_streaming_scanner_complex_conditions() {
    let rules = rule_set(1, 2);
    let eval = Evaluator {
        patterns: vec![Pattern::Literal(b"foo"), Pattern::Literal(b"bar")],
        conditions: vec![|ctx| {
            count(ctx, 0) > 2
                && count(ctx, 1) > 1
                && match (first_offset(ctx, 0), first_offset(ctx, 1)) {
                    (Some(a), Some(b)) => a < b,
                    _ => false,
                }
        }],
    };

    let mut scanner = StreamingScanner::new(&rules);

    eval.scan_line(&mut scanner, b"foo appears first\n").unwrap();
    eval.scan_line(&mut scanner, b"then bar and foo again\n").unwrap();
    eval.scan_line(&mut scanner, b"foo and bar once more\n").unwrap();

    // Should match: #a = 3, #b = 2, and first foo is before first bar
    assert_eq!(matching_count(&scanner), 1);
}

#[test]
fn test_streaming_scanner_timeout() {
    let rules = rule_set(1, 1);
    let mut scanner = StreamingScanner::new(&rules);
    scanner.set_timeout(Duration::from_millis(1));

    // The evaluator is stopped when the epoch counter passes the deadline.
    let request = scanner.scan_line(b"aaaaaaaaaaaaaaaaaaaaaaaaaaaaaaaaaaaaaaaaaa", 0);
    assert_eq!(request.timeout_secs, 1);
    let exit = if scanner.scan_context().deadline_passed(request.deadline + 1) {
        EvaluatorExit::Failed(ScanError::Timeout)
    } else {
        EvaluatorExit::Returned(0)
    };
    let result = scanner.finish_scan(exit);

    // Check if the result is a timeout error
    match result {
        Err(ScanError::Timeout) => {
            // Test passes - we got the expected timeout
        }
        Ok(_) => {
            println!("Scan completed without timeout (acceptable for simple patterns)");
        }
        Err(other) => {
            panic!("Expected timeout error, got: {:?}", other);
        }
    }
}

#[test]
fn test_streaming_scanner_chunk_multiline() {
    let rules = rule_set(1, 3);
    let eval = Evaluator {
        patterns: vec![
            Pattern::Literal(b"start"),
            Pattern::Literal(b"middle"),
            Pattern::Literal(b"end"),
        ],
        conditions: vec![|ctx| count(ctx, 0) > 0 && count(ctx, 1) > 0 && count(ctx, 2) > 0],
    };

    let mut scanner = StreamingScanner::new(&rules);

    // Test 1: Single chunk containing all patterns across lines
    let chunk = b"line1 with start pattern\nline2 has middle in it\nline3 contains end\n";
    eval.scan_chunk(&mut scanner, chunk).unwrap();

    assert_eq!(matching_count(&scanner), 1, "Rule should match when all patterns found in chunk");

    // Test 2: Reset and test with separate chunks
    scanner.reset();

    // First chunk has start and middle
    eval.scan_chunk(&mut scanner, b"start of data\nmiddle section\n").unwrap();
    assert_eq!(matching_count(&scanner), 0, "Rule shouldn't match yet");

    // Second chunk has end
    eval.scan_chunk(&mut scanner, b"final part with end\n").unwrap();
    assert_eq!(matching_count(&scanner), 1, "Rule should match after all patterns found");
}

#[test]
fn test_streaming_scanner_chunk_pattern_across_lines() {
    let rules = rule_set(1, 2);
    let eval = Evaluator {
        patterns: vec![Pattern::Literal(b"hello\nworld"), Pattern::Literal(b"single")],
        conditions: vec![|ctx| count(ctx, 0) > 0 && count(ctx, 1) > 0],
    };

    let mut scanner = StreamingScanner::new(&rules);

    // Using scan_chunk allows patterns to span lines within the chunk
    let chunk = b"This is hello\nworld and single pattern\n";
    eval.scan_chunk(&mut scanner, chunk).unwrap();

    assert_eq!(matching_count(&scanner), 1, "Rule should match with pattern spanning lines");

    // Compare with line-by-line scanning
    scanner.reset();
    eval.scan_line(&mut scanner, b"This is hello").unwrap();
    eval.scan_line(&mut scanner, b"world and single pattern").unwrap();

    // With line-by-line scanning, the pattern spanning lines won't match
    assert_eq!(
        matching_count(&scanner),
        0,
        "Rule shouldn't match with line-by-line when pattern spans lines"
    );
}

#[test]
fn test_streaming_scanner_chunk_line_counting() {
    let rules = rule_set(1, 0);
    let eval = Evaluator { patterns: vec![], conditions: vec![|_| true] };

    let mut scanner = StreamingScanner::new(&rules);

    // Test line counting with chunks
    eval.scan_chunk(&mut scanner, b"line1\nline2\nline3\n").unwrap();
    assert_eq!(scanner.lines_processed(), 3, "Should count 3 lines");

    eval.scan_chunk(&mut scanner, b"line4\nline5").unwrap(); // No trailing newline
    assert_eq!(scanner.lines_processed(), 5, "Should count 5 lines total");

    eval.scan_chunk(&mut scanner, b"\nline6\n\n").unwrap(); // Empty lines
    assert_eq!(scanner.lines_processed(), 8, "Should count empty lines too");

    // Test single line method still increments by 1
    eval.scan_line(&mut scanner, b"single line").unwrap();
    assert_eq!(scanner.lines_processed(), 9, "scan_line should increment by 1");
}

#[test]
fn test_streaming_scanner_chunk_offsets() {
    let rules = rule_set(1, 1);
    let eval = Evaluator {
        patterns: vec![Pattern::Literal(b"marker")],
        conditions: vec![|ctx| count(ctx, 0) > 0 && first_offset(ctx, 0) == Some(20)],
    };

    let mut scanner = StreamingScanner::new(&rules);

    // First chunk: 20 bytes, no marker
    eval.scan_chunk(&mut scanner, b"12345678901234567890").unwrap();

    // Second chunk: marker at position 0 (global position 20)
    eval.scan_chunk(&mut scanner, b"marker here").unwrap();

    assert_eq!(matching_count(&scanner), 1, "Rule should match with marker at global offset 20");
}

#[test]
fn line_cache_is_off_until_enabled() {
    let rules = rule_set(1, 0);
    let mut scanner = StreamingScanner::new(&rules);
    assert!(!scanner.cache_line("trace-1", b"first line"));
    assert!(scanner.cached_line("trace-1").is_none());

    scanner.enable_offset_cache();
    assert!(scanner.cache_line("trace-1", b"first line"));
    assert!(scanner.cache_line("trace-2", b"second line"));
    assert_eq!(scanner.cached_line("trace-1").unwrap(), b"first line");
    assert_eq!(scanner.cached_line("trace-2").unwrap(), b"second line");
    assert!(scanner.cached_line("trace-3").is_none());
    assert!(scanner.cache_line("trace-1", b"again"));
    assert_eq!(scanner.cached_line("trace-1").unwrap(), b"again");
}

#[test]
fn streaming_try_scan_starts_a_scan_when_the_counters_can_take_it() {
    let rules = rule_set(1, 0);
    let mut scanner = StreamingScanner::new(&rules);
    assert!(scanner.counters_can_take(usize::MAX, usize::MAX));
    let request = scanner.try_scan_chunk(b"a\nb", 9).unwrap();
    assert_eq!(request.deadline, 315_360_009);
    assert!(request.initialize_modules);
    assert!(scanner.modules_to_run().is_empty());
    scanner.initialize_modules(&Vec::new()).unwrap();
    scanner.finish_scan(EvaluatorExit::Returned(0)).unwrap();
    let request = scanner.try_scan_line(b"c", 0).unwrap();
    assert!(!request.initialize_modules);
    scanner.finish_scan(EvaluatorExit::Returned(0)).unwrap();
    assert_eq!(scanner.bytes_processed(), 4);
    assert_eq!(scanner.lines_processed(), 3);
    assert!(scanner.get_matches().module_outputs().is_empty());
    if usize::MAX as u128 >= u64::MAX as u128 {
        assert!(!scanner.counters_can_take(usize::MAX, 0));
    }
}

#[test]
fn failed_scan_leaves_the_counters() {
    let rules = rule_set(2, 0);
    let mut scanner = StreamingScanner::new(&rules);
    scanner.scan_chunk(b"one\n", 0);
    scanner.track_rule_match(1);
    match scanner.finish_scan(EvaluatorExit::Failed(ScanError::Timeout)) {
        Err(ScanError::Timeout) => {}
        _ => panic!("expected a timeout"),
    }
    assert_eq!(scanner.bytes_processed(), 0);
    assert_eq!(scanner.lines_processed(), 0);
    assert_eq!(matching_count(&scanner), 1);
    assert!(scanner.scan_context().rule_bit(1));
    assert!(!scanner.scan_context().rule_bit(0));
}
