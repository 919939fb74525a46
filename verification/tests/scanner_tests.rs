use stream_scanner::context::ScanContext;
use stream_scanner::error::{EvaluatorExit, ScanError};
use stream_scanner::modules::{ModuleOutput, ModuleRun};
use stream_scanner::rules::{ModuleInfo, RuleInfo, Rules};
use stream_scanner::scanner::{ScanOptions, Scanner};
use std::time::Duration;

fn rule(name: &str, is_private: bool) -> RuleInfo {
    RuleInfo { identifier: name.to_string(), namespace_id: 0, is_private }
}

fn module(name: &str, message: &str, has_main: bool) -> ModuleInfo {
    ModuleInfo { name: name.to_string(), root_struct_name: message.to_string(), has_main }
}

fn count(ctx: &ScanContext, pattern_id: u32) -> usize {
    ctx.pattern_matches(pattern_id).map_or(0, |list| list.len())
}

/// Runs a literal search for each pattern and reports each rule whose
/// condition holds.
fn evaluate(
    scanner: &mut Scanner,
    data: &[u8],
    patterns: &[&[u8]],
    conditions: &[fn(&ScanContext) -> bool],
) -> EvaluatorExit {
    if scanner.begin_pattern_search() {
        for (id, pattern) in patterns.iter().enumerate() {
            if pattern.is_empty() || pattern.len() > data.len() {
                continue;
            }
            for start in 0..=data.len() - pattern.len() {
                if &data[start..start + pattern.len()] == *pattern {
                    scanner.track_pattern_match(id as u32, start, start + pattern.len(), None);
                }
            }
        }
    }
    for (rule_id, condition) in conditions.iter().enumerate() {
        if condition(scanner.scan_context()) {
            scanner.track_rule_match(rule_id as u32);
        }
    }
    EvaluatorExit::Returned(0)
}

#[test]
fn scan_reports_matching_and_non_matching_rules() {
    let rules =
        Rules::new(vec![rule("a", false), rule("b", false), rule("c", true), rule("d", false)], 2, vec![])
            .unwrap();
    let mut scanner = Scanner::new(&rules);
    let data = b"xx foo yy";
    scanner.scan(data, 0);
    let exit = evaluate(
        &mut scanner,
        data,
        &[b"foo", b"bar"],
        &[|ctx| count(ctx, 0) > 0, |ctx| count(ctx, 1) > 0, |ctx| count(ctx, 0) > 0, |_| false],
    );
    let results = scanner.finish_scan(exit).unwrap();

    let mut matching = results.matching_rules();
    assert_eq!(matching.len(), 1);
    let first = matching.next().unwrap();
    assert_eq!(first.id, 0);
    assert_eq!(first.info.identifier, "a");
    assert!(matching.next().is_none());

    // Rule 2 matched but is private; rules 1 and 3 did not match.
    let mut others = results.non_matching_rules();
    assert_eq!(others.len(), 2);
    assert_eq!(others.next().unwrap().id, 1);
    assert_eq!(others.len(), 1);
    let last = others.next().unwrap();
    assert_eq!(last.id, 3);
    assert_eq!(last.info.identifier, "d");
    assert!(others.next().is_none());
    assert_eq!(others.len(), 0);
}

#[test]
fn non_matching_rules_skip_private_rules_that_did_not_match() {
    let rules = Rules::new(
        (0..20).map(|i| rule("r", i % 3 == 0)).collect(),
        0,
        vec![],
    )
    .unwrap();
    let mut scanner = Scanner::new(&rules);
    scanner.scan(b"", 0);
    for rule_id in [1, 8, 9, 16, 19] {
        scanner.track_rule_match(rule_id);
    }
    let results = scanner.finish_scan(EvaluatorExit::Returned(0)).unwrap();
    let mut others = results.non_matching_rules();
    let mut ids = Vec::new();
    while let Some(rule) = others.next() {
        ids.push(rule.id);
    }
    assert_eq!(ids, vec![2, 4, 5, 7, 10, 11, 13, 14, 17]);
}

#[test]
fn non_matching_rules_of_a_rule_set_beyond_one_window() {
    // Nine million rules take more than one window of the rule bitmap. All
    // but four of them are private.
    let count: u32 = 9_000_000;
    let public = [5, 8_388_607, 8_388_608, 8_999_999];
    let rules =
        Rules::new((0..count).map(|id| rule("", !public.contains(&id))).collect(), 0, vec![])
            .unwrap();
    let mut scanner = Scanner::new(&rules);
    scanner.scan(b"", 0);
    scanner.track_rule_match(8_388_608);
    scanner.track_rule_match(8_388_609);
    let results = scanner.finish_scan(EvaluatorExit::Returned(0)).unwrap();
    let mut others = results.non_matching_rules();
    let mut ids = Vec::new();
    while let Some(rule) = others.next() {
        ids.push(rule.id);
    }
    assert_eq!(ids, vec![5, 8_388_607, 8_999_999]);
}

#[test]
fn a_scan_clears_bitmaps_beyond_one_window() {
    // Twenty million patterns take more than one window of memory.
    let patterns = 20_000_000;
    let rules = Rules::new(vec![rule("a", false)], patterns, vec![]).unwrap();
    let mut scanner = Scanner::new(&rules);
    scanner.scan(b"0123456789", 0);
    scanner.track_rule_match(0);
    for pattern_id in [0, 8_388_600, 8_388_608, 19_999_999] {
        assert!(scanner.track_pattern_match(pattern_id, 0, 1, None));
        assert!(scanner.scan_context().pattern_bit(pattern_id));
    }
    scanner.finish_scan(EvaluatorExit::Returned(0)).unwrap();

    scanner.scan(b"0123456789", 0);
    assert!(!scanner.scan_context().rule_bit(0));
    for pattern_id in [0, 8_388_600, 8_388_608, 19_999_999] {
        assert!(!scanner.scan_context().pattern_bit(pattern_id));
    }
    assert!(scanner.scan_context().main_memory().iter().all(|byte| *byte == 0));
}

#[test]
fn each_scan_starts_from_nothing() {
    let rules = Rules::new(vec![rule("a", false)], 1, vec![]).unwrap();
    let mut scanner = Scanner::new(&rules);
    let conditions: [fn(&ScanContext) -> bool; 1] = [|ctx| count(ctx, 0) == 2];

    scanner.scan(b"foo", 0);
    let exit = evaluate(&mut scanner, b"foo", &[b"foo"], &conditions);
    assert_eq!(scanner.finish_scan(exit).unwrap().matching_rules().len(), 0);

    // A streaming scanner would now have seen "foo" twice; this one has not.
    scanner.scan(b"foo", 0);
    let exit = evaluate(&mut scanner, b"foo", &[b"foo"], &conditions);
    assert_eq!(scanner.finish_scan(exit).unwrap().matching_rules().len(), 0);

    scanner.scan(b"foo foo", 0);
    let exit = evaluate(&mut scanner, b"foo foo", &[b"foo"], &conditions);
    assert_eq!(scanner.finish_scan(exit).unwrap().matching_rules().len(), 1);
}

#[test]
fn scan_fails_with_the_reason_the_evaluator_was_stopped_for() {
    let rules = Rules::new(vec![rule("a", false)], 0, vec![]).unwrap();
    let mut scanner = Scanner::new(&rules);
    scanner.set_timeout(Duration::from_secs(3)).max_matches_per_pattern(10);
    let request = scanner.scan(b"data", 7);
    assert_eq!(request.timeout_secs, 3);
    assert_eq!(request.deadline, 10);
    assert!(request.start_heartbeat);
    assert!(request.initialize_modules);
    assert!(!scanner.scan_context().deadline_passed(10));
    assert!(scanner.scan_context().deadline_passed(11));
    match scanner.finish_scan(EvaluatorExit::Failed(ScanError::Timeout)) {
        Err(ScanError::Timeout) => {}
        _ => panic!("expected a timeout"),
    }
}

#[test]
fn scan_fails_when_the_evaluator_returns_nonzero() {
    let rules = Rules::new(vec![rule("a", false)], 0, vec![]).unwrap();
    let mut scanner = Scanner::new(&rules);
    scanner.scan(b"data", 0);
    match scanner.finish_scan(EvaluatorExit::Returned(3)) {
        Err(ScanError::Internal(_)) => {}
        _ => panic!("expected an internal error"),
    }
}

#[test]
fn cap_on_matches_per_pattern_is_honoured() {
    let rules = Rules::new(vec![rule("a", false)], 1, vec![]).unwrap();
    let mut scanner = Scanner::new(&rules);
    scanner.max_matches_per_pattern(2);
    let data = b"foo foo foo foo";
    scanner.scan(data, 0);
    assert!(scanner.track_pattern_match(0, 0, 3, None));
    assert!(!scanner.scan_context().limit_reached(0));
    // The same range again is not a new match.
    assert!(!scanner.track_pattern_match(0, 0, 3, None));
    assert!(scanner.track_pattern_match(0, 4, 7, None));
    assert!(scanner.scan_context().limit_reached(0));
    assert!(!scanner.track_pattern_match(0, 8, 11, None));
    assert_eq!(count(scanner.scan_context(), 0), 2);
    assert!(scanner.scan_context().pattern_bit(0));
}

#[test]
fn reports_outside_the_data_or_the_rule_set_are_ignored() {
    let rules = Rules::new(vec![rule("a", false)], 1, vec![]).unwrap();
    let mut scanner = Scanner::new(&rules);
    scanner.scan(b"12345", 0);
    assert!(!scanner.track_pattern_match(0, 3, 6, None));
    assert!(!scanner.track_pattern_match(0, 4, 3, None));
    assert!(!scanner.track_pattern_match(1, 0, 1, None));
    assert!(!scanner.track_rule_match(1));
    assert!(!scanner.track_unconfirmed_match(0, 0, 6, 1));
    assert!(scanner.scan_context().pattern_matches(0).is_none());
    assert!(!scanner.scan_context().pattern_bit(0));
    assert!(!scanner.scan_context().rule_bit(0));
}

#[test]
fn unconfirmed_matches_wait_until_taken() {
    let rules = Rules::new(vec![rule("a", false)], 1, vec![]).unwrap();
    let mut scanner = Scanner::new(&rules);
    scanner.scan(b"0123456789", 0);
    assert!(scanner.track_unconfirmed_match(5, 1, 3, 1));
    assert!(scanner.track_unconfirmed_match(5, 4, 6, 2));
    assert!(scanner.take_unconfirmed_matches(6).is_empty());
    let taken = scanner.take_unconfirmed_matches(5);
    assert_eq!(taken.len(), 2);
    assert_eq!((taken[0].start, taken[0].end, taken[0].chain_length), (1, 3, 1));
    assert_eq!((taken[1].start, taken[1].end, taken[1].chain_length), (4, 6, 2));
    assert!(scanner.take_unconfirmed_matches(5).is_empty());
}

#[test]
fn pattern_search_is_asked_for_once_per_scan() {
    let rules = Rules::new(vec![rule("a", false)], 1, vec![]).unwrap();
    let mut scanner = Scanner::new(&rules);
    scanner.scan(b"x", 0);
    assert!(scanner.begin_pattern_search());
    assert!(!scanner.begin_pattern_search());
    scanner.finish_scan(EvaluatorExit::Returned(0)).unwrap();
    scanner.scan(b"y", 0);
    assert!(scanner.begin_pattern_search());
}

#[test]
fn module_outputs_are_supplied_or_computed() {
    let rules = Rules::new(
        vec![rule("a", false)],
        0,
        vec![module("pe", "pe.PE", true), module("vt", "vt.Main", false), module("elf", "elf.ELF", true)],
    )
    .unwrap();
    let mut scanner = Scanner::new(&rules);

    // Output for a module that the rules do not import is rejected.
    match scanner
        .set_module_output(ModuleOutput { message_name: "macho.Macho".to_string(), data: vec![1] })
    {
        Err(ScanError::UnknownModule { module }) => assert_eq!(module, "macho.Macho"),
        _ => panic!("expected an unknown module"),
    }
    match scanner.set_module_output_raw("macho", &[1], None) {
        Err(ScanError::UnknownModule { module }) => assert_eq!(module, "macho"),
        _ => panic!("expected an unknown module"),
    }
    match scanner.set_module_output_raw("vt", &[1], Some("truncated".to_string())) {
        Err(ScanError::ProtoError { module, err }) => {
            assert_eq!(module, "vt");
            assert_eq!(err, "truncated");
        }
        _ => panic!("expected a decoding error"),
    }

    // By module name and by message name.
    scanner.set_module_output_raw("vt", &[7, 7], None).unwrap();
    scanner.set_module_output_raw("pe.PE", &[9], None).unwrap();

    scanner.scan(b"data", 0);
    // Only "elf" has to compute its output.
    assert_eq!(scanner.modules_to_run(), vec!["elf".to_string()]);
    let runs = vec![ModuleRun {
        module: "elf".to_string(),
        output: Ok(ModuleOutput { message_name: "elf.ELF".to_string(), data: vec![3] }),
    }];
    scanner.initialize_modules(&runs).unwrap();
    let results = scanner.finish_scan(EvaluatorExit::Returned(0)).unwrap();

    assert_eq!(results.module_output("pe").unwrap().data, vec![9]);
    assert_eq!(results.module_output("vt").unwrap().data, vec![7, 7]);
    assert_eq!(results.module_output("elf").unwrap().data, vec![3]);
    assert!(results.module_output("macho").is_none());
    let names: Vec<&str> =
        results.module_outputs().iter().map(|o| o.message_name.as_str()).collect();
    assert_eq!(names, vec!["pe.PE", "vt.Main", "elf.ELF"]);

    // Supplied outputs are consumed by the scan they were supplied for.
    scanner.scan(b"data", 0);
    assert_eq!(scanner.modules_to_run(), vec!["pe".to_string(), "elf".to_string()]);
}

#[test]
fn failing_module_stops_the_initialization() {
    let rules = Rules::new(
        vec![rule("a", false)],
        0,
        vec![module("pe", "pe.PE", true), module("elf", "elf.ELF", true)],
    )
    .unwrap();
    let mut scanner = Scanner::new(&rules);
    scanner.scan(b"data", 0);
    let runs = vec![
        ModuleRun { module: "pe".to_string(), output: Err("bad header".to_string()) },
        ModuleRun {
            module: "elf".to_string(),
            output: Ok(ModuleOutput { message_name: "elf.ELF".to_string(), data: vec![3] }),
        },
    ];
    match scanner.initialize_modules(&runs) {
        Err(ScanError::ModuleError { module, err }) => {
            assert_eq!(module, "pe");
            assert_eq!(err, "bad header");
        }
        _ => panic!("expected a module error"),
    }
    let results = scanner.finish_scan(EvaluatorExit::Returned(0)).unwrap();
    assert!(results.module_outputs().is_empty());
}

#[test]
fn scan_options_keep_the_last_metadata_per_module() {
    let options = ScanOptions::new()
        .set_module_metadata("pe".to_string(), vec![1])
        .set_module_metadata("elf".to_string(), vec![2])
        .set_module_metadata("pe".to_string(), vec![3]);
    assert_eq!(options.module_metadata(&"pe".to_string()), Some(&vec![3]));
    assert_eq!(options.module_metadata(&"elf".to_string()), Some(&vec![2]));
    assert_eq!(options.module_metadata(&"vt".to_string()), None);

    let rules = Rules::new(vec![rule("a", false)], 0, vec![]).unwrap();
    let mut scanner = Scanner::new(&rules);
    let request = scanner.scan_with_options(b"abc", &options, 0);
    assert_eq!(request.timeout_secs, 315_360_000);
    assert!(!request.start_heartbeat);
    assert_eq!(scanner.scan_context().filesize(), 3);
}
