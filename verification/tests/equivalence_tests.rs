use stream_scanner::context::ScanContext;
use stream_scanner::error::EvaluatorExit;
use stream_scanner::multi_stream::MultiStreamScanner;
use stream_scanner::rules::{RuleInfo, Rules};
use stream_scanner::scanner::Scanner;
use stream_scanner::streaming::StreamingScanner;
use uuid::Uuid;

const PATTERNS: [&[u8]; 3] = [b"alpha", b"beta", b"gamma"];

fn rule_set() -> Rules {
    let rule = |name: &str, namespace_id, is_private| RuleInfo {
        identifier: name.to_string(),
        namespace_id,
        is_private,
    };
    Rules::new(
        vec![
            rule("has_alpha", 0, false),
            rule("has_beta", 0, true),
            rule("two_gammas", 1, false),
            rule("alpha_before_beta", 1, false),
        ],
        PATTERNS.len(),
        Vec::new(),
    )
    .unwrap()
}

fn count(ctx: &ScanContext, pattern_id: u32) -> usize {
    ctx.pattern_matches(pattern_id).map_or(0, |list| list.len())
}

fn first(ctx: &ScanContext, pattern_id: u32) -> Option<u64> {
    ctx.pattern_matches(pattern_id).and_then(|list| list.iter().map(|m| m.start).min())
}

/// The occurrences of each pattern in `data`.
fn search(data: &[u8]) -> Vec<(u32, usize, usize)> {
    let mut found = Vec::new();
    for (id, pattern) in PATTERNS.iter().enumerate() {
        if pattern.len() > data.len() {
            continue;
        }
        for start in 0..=data.len() - pattern.len() {
            if &data[start..start + pattern.len()] == *pattern {
                found.push((id as u32, start, start + pattern.len()));
            }
        }
    }
    found
}

/// The rules whose condition holds for what the harness holds.
fn firing(ctx: &ScanContext) -> Vec<u32> {
    let mut rules = Vec::new();
    if count(ctx, 0) > 0 {
        rules.push(0);
    }
    if count(ctx, 1) > 0 {
        rules.push(1);
    }
    if count(ctx, 2) == 2 {
        rules.push(2);
    }
    if let (Some(a), Some(b)) = (first(ctx, 0), first(ctx, 1)) {
        if a < b {
            rules.push(3);
        }
    }
    rules
}

fn batch(rules: &Rules, data: &[u8]) -> Vec<u32> {
    let mut scanner = Scanner::new(rules);
    scanner.scan(data, 0);
    for (pattern, start, end) in search(data) {
        scanner.track_pattern_match(pattern, start, end, None);
    }
    for rule in firing(scanner.scan_context()) {
        scanner.track_rule_match(rule);
    }
    let results = scanner.finish_scan(EvaluatorExit::Returned(0)).unwrap();
    let mut matching = results.matching_rules();
    let mut ids = Vec::new();
    while let Some(rule) = matching.next() {
        ids.push(rule.id);
    }
    ids
}

fn streamed(rules: &Rules, chunks: &[&[u8]]) -> Vec<u32> {
    let mut scanner = StreamingScanner::new(rules);
    for chunk in chunks {
        scanner.scan_chunk(chunk, 0);
        for (pattern, start, end) in search(chunk) {
            scanner.track_pattern_match(pattern, start, end, None);
        }
        for rule in firing(scanner.scan_context()) {
            scanner.track_rule_match(rule);
        }
        scanner.finish_scan(EvaluatorExit::Returned(0)).unwrap();
    }
    let results = scanner.get_matches();
    let mut matching = results.matching_rules();
    let mut ids = Vec::new();
    while let Some(rule) = matching.next() {
        ids.push(rule.id);
    }
    ids
}

fn multiplexed(rules: &Rules, chunks: &[&[u8]], noise: &[&[u8]]) -> Vec<u32> {
    let mut scanner = MultiStreamScanner::new(rules);
    let stream = Uuid::new_v4();
    let other = Uuid::new_v4();
    for (i, chunk) in chunks.iter().enumerate() {
        for (id, data) in [(&other, noise[i % noise.len()]), (&stream, *chunk)] {
            scanner.scan_chunk(id, data, 0);
            for (pattern, start, end) in search(data) {
                scanner.track_pattern_match(pattern, start, end, None);
            }
            for rule in firing(scanner.scan_context()) {
                scanner.track_rule_match(rule);
            }
            scanner.finish_scan(EvaluatorExit::Returned(0)).unwrap();
        }
    }
    scanner.close_stream(&stream).unwrap().non_private_matching_rules
}

#[test]
fn chunks_report_what_the_whole_reports() {
    let rules = rule_set();
    let chunks: [&[u8]; 4] = [b"gamma one\n", b"then alpha\n", b"and gamma ", b"before beta\n"];
    let whole = chunks.concat();
    let noise: [&[u8]; 2] = [b"beta beta gamma gamma gamma", b"alpha"];

    assert_eq!(batch(&rules, &whole), vec![0, 2, 3]);
    // The same rules, in the order in which the chunks make them match.
    let mut in_chunks = streamed(&rules, &chunks);
    assert_eq!(in_chunks, vec![0, 2, 3]);
    assert_eq!(multiplexed(&rules, &chunks, &noise), in_chunks);
    in_chunks.sort();
    assert_eq!(in_chunks, batch(&rules, &whole));

    // One chunk is the whole.
    assert_eq!(streamed(&rules, &[&whole]), batch(&rules, &whole));
}

#[test]
fn a_pattern_across_a_chunk_boundary_is_seen_by_the_whole_scan_only() {
    let rules = rule_set();
    let chunks: [&[u8]; 2] = [b"al", b"pha"];
    assert_eq!(batch(&rules, &chunks.concat()), vec![0]);
    assert_eq!(streamed(&rules, &chunks), Vec::<u32>::new());
}
