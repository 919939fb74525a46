use stream_scanner::context::{ScanContext, StreamContext};
use stream_scanner::multi_stream::MultiStreamScanner;
use stream_scanner::rules::{RuleInfo, Rules};
use stream_scanner::scanner::Scanner;
use stream_scanner::streaming::StreamingScanner;

fn rule_set() -> Rules {
    let rule = |name: &str, namespace_id, is_private| RuleInfo {
        identifier: name.to_string(),
        namespace_id,
        is_private,
    };
    Rules::new(vec![rule("a", 0, false), rule("b", 1, true), rule("c", 0, false)], 20, Vec::new())
        .unwrap()
}

#[test]
fn a_new_scanner_has_nothing_set_up() {
    let rules = rule_set();

    let mut scanner = MultiStreamScanner::new(&rules);
    assert_eq!(scanner.scan_context().filesize(), 0);
    assert_eq!(scanner.scan_context().global_scan_offset(), 0);
    assert_eq!(scanner.scan_context().deadline(), 0);
    // One page holds the rule bitmap of one byte and the pattern bitmap of
    // three bytes behind the 2048 bytes of the evaluator.
    assert_eq!(scanner.scan_context().main_memory().len(), 65536);
    assert!(scanner.scan_context().main_memory().iter().all(|byte| *byte == 0));
    assert!(scanner.active_streams().is_empty());
    assert!(scanner.begin_pattern_search());

    let mut scanner = StreamingScanner::new(&rules);
    assert_eq!(scanner.scan_context().filesize(), 0);
    assert_eq!(scanner.scan_context().global_scan_offset(), 0);
    assert_eq!(scanner.scan_context().deadline(), 0);
    assert_eq!(scanner.bytes_processed(), 0);
    assert_eq!(scanner.lines_processed(), 0);
    assert!(scanner.begin_pattern_search());

    let mut scanner = Scanner::new(&rules);
    assert_eq!(scanner.scan_context().filesize(), 0);
    assert_eq!(scanner.scan_context().global_scan_offset(), 0);
    assert_eq!(scanner.scan_context().deadline(), 0);
    assert!(scanner.begin_pattern_search());
}

#[test]
fn a_saved_context_is_restored_as_it_was() {
    let rules = rule_set();
    let mut source = ScanContext::new(&rules, 10);
    source.begin_chunk(10, 2, 100, 7);
    source.track_pattern_match(3, 1, 4, None);
    source.track_pattern_match(19, 0, 10, Some(1));
    source.track_unconfirmed_match(5, 2, 3, 1);
    source.track_rule_match(2);
    source.commit_pending();
    source.track_rule_match(1);

    let mut stream = StreamContext::new(&rules, 10);
    stream.advance(40, 3);
    stream.save_from_scanner(&source);
    assert_eq!(stream.bytes_processed(), 40);
    assert_eq!(stream.lines_processed(), 3);
    assert_eq!(stream.global_scan_offset(), 100);
    assert_eq!(stream.non_private_matching_rules(), &vec![2]);
    assert_eq!(stream.bitmap_sizes(), (1, 3));

    let mut target = ScanContext::new(&rules, 10);
    target.begin_chunk(5, 1, 9, 3);
    target.track_rule_match(0);
    target.track_pattern_match(0, 0, 1, None);
    stream.restore_to_scanner(&mut target);

    assert_eq!(target.global_scan_offset(), 100);
    assert_eq!(target.filesize(), 0);
    assert_eq!(target.deadline(), 3);
    assert_eq!(target.non_private_matching_rules(), &vec![2]);
    assert!(target.private_matching_rules().is_empty());
    assert_eq!(target.main_memory(), source.main_memory());
    assert!(!target.rule_bit(0));
    assert!(target.rule_bit(1));
    assert!(target.rule_bit(2));
    assert!(target.pattern_matches(0).is_none());
    let list = target.pattern_matches(3).unwrap();
    assert_eq!((list[0].start, list[0].end), (101, 104));
    assert_eq!(target.pattern_matches(19).unwrap()[0].xor_key, Some(1));
    assert!(target.pattern_bit(19));
    assert!(!target.pattern_bit(0));
    // The pending rule and the unconfirmed match came along.
    target.commit_pending();
    assert_eq!(target.private_matching_rules(), &vec![1]);
    assert_eq!(target.take_unconfirmed_matches(5).len(), 1);

    // The stream itself is as it was saved.
    assert_eq!(stream.bytes_processed(), 40);
    assert_eq!(stream.lines_processed(), 3);
    assert_eq!(stream.global_scan_offset(), 100);
}

#[test]
fn the_global_offset_of_a_stream_is_its_count_of_bytes() {
    let rules = rule_set();
    let mut stream = StreamContext::new(&rules, 10);
    assert_eq!(stream.global_scan_offset(), 0);
    stream.advance(17, 1);
    assert_eq!(stream.global_scan_offset(), 17);
    stream.advance(3, 0);
    assert_eq!(stream.global_scan_offset(), 20);
    assert_eq!(stream.bytes_processed(), 20);

    let mut ctx = ScanContext::new(&rules, 10);
    ctx.set_global_scan_offset(55);
    assert_eq!(ctx.global_scan_offset(), 55);
    ctx.reset(4);
    assert_eq!(ctx.global_scan_offset(), 0);
}
