use stream_scanner::bitmap::{
    bytes_for_bits, clear_range, get_bit_from, set_bit_from, zeroed, WINDOW_BYTES,
};
use stream_scanner::layout::{
    copy_in, copy_out, matching_patterns_bitmap_base, memory_pages, MATCHING_RULES_BITMAP_BASE,
    PAGE_SIZE,
};
use stream_scanner::matches::{Match, MatchStore, UnconfirmedMatch};
use stream_scanner::rules::{RuleInfo, Rules, MAX_IDS};
use stream_scanner::timeout::{clamp_timeout, deadline_for, timeout_secs, DEFAULT_SCAN_TIMEOUT};
use std::time::Duration;

#[test]
fn bitmaps_take_one_byte_per_eight_bits() {
    assert_eq!(bytes_for_bits(0), 0);
    assert_eq!(bytes_for_bits(1), 1);
    assert_eq!(bytes_for_bits(8), 1);
    assert_eq!(bytes_for_bits(9), 2);
    assert_eq!(bytes_for_bits(MAX_IDS), 0x1000_0000);
}

#[test]
fn bits_are_counted_from_the_least_significant() {
    let mut bytes = zeroed(3);
    assert_eq!(bytes, vec![0, 0, 0]);
    set_bit_from(&mut bytes, 0, 0);
    set_bit_from(&mut bytes, 0, 9);
    set_bit_from(&mut bytes, 0, 23);
    set_bit_from(&mut bytes, 0, 9);
    assert_eq!(bytes, vec![0b0000_0001, 0b0000_0010, 0b1000_0000]);
    assert!(get_bit_from(&bytes, 0, 0));
    assert!(!get_bit_from(&bytes, 0, 1));
    assert!(get_bit_from(&bytes, 0, 9));
    assert!(get_bit_from(&bytes, 0, 23));
    set_bit_from(&mut bytes, 1, 3);
    assert_eq!(bytes[1], 0b0000_1010);
    assert!(get_bit_from(&bytes, 1, 3));
    assert!(!get_bit_from(&bytes, 1, 2));
    set_bit_from(&mut bytes, 1, 8);
    assert_eq!(bytes[2], 0b1000_0001);
    assert!(get_bit_from(&bytes, 1, 8));
    assert!(get_bit_from(&bytes, 2, 7));
}

#[test]
fn pattern_bitmap_follows_the_rule_bitmap() {
    assert_eq!(MATCHING_RULES_BITMAP_BASE, 2048);
    assert_eq!(matching_patterns_bitmap_base(0), 2048);
    assert_eq!(matching_patterns_bitmap_base(1), 2049);
    assert_eq!(matching_patterns_bitmap_base(8), 2049);
    assert_eq!(matching_patterns_bitmap_base(9), 2050);
    assert_eq!(matching_patterns_bitmap_base(1000), 2048 + 125);
}

#[test]
fn memory_is_sized_in_whole_pages() {
    assert_eq!(PAGE_SIZE, 65536);
    assert_eq!(memory_pages(0, 0), 1);
    assert_eq!(memory_pages(1, 2), 1);
    // 2048 + 31744 + 31744 bytes fill one page exactly.
    assert_eq!(memory_pages(31744 * 8, 31744 * 8), 1);
    assert_eq!(memory_pages(31744 * 8 + 1, 31744 * 8), 2);
    assert_eq!(memory_pages(1_000_000, 3_000_000), 8);
}

#[test]
fn copies_touch_only_the_range_named() {
    let mut mem = vec![1u8, 2, 3, 4, 5, 6];
    assert_eq!(copy_out(&mem, 2, 3), vec![3, 4, 5]);
    assert_eq!(copy_out(&mem, 6, 0), Vec::<u8>::new());
    copy_in(&mut mem, 1, &vec![9, 8]);
    assert_eq!(mem, vec![1, 9, 8, 4, 5, 6]);
    copy_in(&mut mem, 6, &vec![]);
    assert_eq!(mem, vec![1, 9, 8, 4, 5, 6]);
}

#[test]
fn rule_sets_have_a_size_limit() {
    let rules = vec![RuleInfo { identifier: "a".to_string(), namespace_id: 7, is_private: true }];
    assert!(Rules::new(rules, MAX_IDS + 1, Vec::new()).is_none());
    let rules = vec![RuleInfo { identifier: "a".to_string(), namespace_id: 7, is_private: true }];
    let set = Rules::new(rules, MAX_IDS, Vec::new()).unwrap();
    assert_eq!(set.num_rules(), 1);
    assert_eq!(set.num_patterns(), MAX_IDS);
    assert_eq!(set.get(0).namespace_id, 7);
    assert!(set.get(0).is_private);
    assert!(set.imports().is_empty());
}

#[test]
fn match_store_keeps_distinct_ranges_up_to_the_cap() {
    let mut store = MatchStore::new(2, 4);
    assert!(store.is_empty());
    let m = |start, end| Match { start, end, xor_key: None };
    assert!(store.add(1, m(0, 3)));
    assert!(!store.add(1, Match { start: 0, end: 3, xor_key: Some(1) }));
    assert!(!store.add(4, m(0, 3)));
    assert!(!store.limit_reached(1));
    assert!(store.add(1, m(5, 8)));
    assert!(store.limit_reached(1));
    assert!(!store.add(1, m(9, 12)));
    assert!(store.add(3, m(9, 12)));
    assert_eq!(store.count(1), 2);
    assert_eq!(store.count(3), 1);
    assert_eq!(store.count(0), 0);
    assert_eq!(store.matching_patterns(), 2);
    assert_eq!(store.max_matches_per_pattern(), 2);
    let list = store.get(1).unwrap();
    assert_eq!((list[0].start, list[1].start), (0, 5));
    assert!(store.get(0).is_none());

    let copy = store.clone();
    store.clear();
    assert!(store.is_empty());
    assert!(!store.limit_reached(1));
    assert_eq!(copy.count(1), 2);
    assert!(copy.limit_reached(1));
}

#[test]
fn match_store_keeps_unconfirmed_matches_until_taken() {
    let mut store = MatchStore::new(10, 1);
    store.add_unconfirmed(3, UnconfirmedMatch { start: 1, end: 2, chain_length: 1 });
    store.add_unconfirmed(3, UnconfirmedMatch { start: 4, end: 6, chain_length: 2 });
    store.add_unconfirmed(9, UnconfirmedMatch { start: 7, end: 8, chain_length: 1 });
    let taken = store.take_unconfirmed(3);
    assert_eq!(taken.len(), 2);
    assert_eq!((taken[0].start, taken[1].start), (1, 4));
    assert!(store.take_unconfirmed(3).is_empty());
    assert_eq!(store.take_unconfirmed(9).len(), 1);
    assert!(store.is_empty());
}

#[test]
fn timeouts_are_whole_seconds_rounded_up() {
    assert_eq!(DEFAULT_SCAN_TIMEOUT, 315_360_000);
    assert_eq!(timeout_secs(None), 315_360_000);
    assert_eq!(timeout_secs(Some(Duration::from_secs(2))), 2);
    assert_eq!(timeout_secs(Some(Duration::from_millis(2500))), 3);
    assert_eq!(timeout_secs(Some(Duration::from_nanos(1))), 1);
    assert_eq!(timeout_secs(Some(Duration::from_secs(315_359_999))), 315_359_999);
    assert_eq!(timeout_secs(Some(Duration::new(315_359_999, 1))), 315_360_000);
    assert_eq!(timeout_secs(Some(Duration::from_secs(400_000_000))), 315_360_000);
    assert_eq!(clamp_timeout(7, 0), 7);
    assert_eq!(clamp_timeout(7, 999_999_999), 8);
    assert_eq!(clamp_timeout(u64::MAX, 5), 315_360_000);
    assert_eq!(deadline_for(10, 5), 15);
    assert_eq!(deadline_for(u64::MAX, 5), u64::MAX);
    assert_eq!(deadline_for(u64::MAX - 5, 5), u64::MAX);
}

#[test]
fn clear_range_clears_the_range_and_nothing_else() {
    let mut bytes = vec![0xffu8; 10];
    clear_range(&mut bytes, 3, 7);
    assert_eq!(bytes, vec![0xff, 0xff, 0xff, 0, 0, 0, 0, 0xff, 0xff, 0xff]);
    clear_range(&mut bytes, 9, 9);
    assert_eq!(bytes[9], 0xff);

    // A range of more than one window.
    let len = 2 * WINDOW_BYTES + 100;
    let mut bytes = vec![0xa5u8; len];
    clear_range(&mut bytes, 1, len - 1);
    assert_eq!(bytes[0], 0xa5);
    assert_eq!(bytes[len - 1], 0xa5);
    assert!(bytes[1..len - 1].iter().all(|byte| *byte == 0));
}
