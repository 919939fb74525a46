//! The single-shot scanner: every scan starts from nothing and reports what
//! matches in the data of that scan alone.

use crate::context::{Harness, ScanContext};
use crate::error::{EvaluatorExit, ScanError};
use crate::layout::with_bitmaps;
use crate::lines::line_count;
use crate::matches::UnconfirmedMatch;
use crate::modules::{
    imports_type, outputs_of, resolve_module, ModuleOutput, ModuleOutputs, ModuleRun, ModuleTable,
    OutputView,
};
use crate::multi_stream::{ScanRequest, DEFAULT_MAX_MATCHES_PER_PATTERN};
use crate::rules::{ModuleInfo, PatternId, Rule, RuleId, RuleTable, Rules, SubPatternId};
use crate::state::{EvalState, HostCall, StreamState};
use crate::timeout::{deadline_for, spec_deadline, spec_timeout_secs, timeout_secs};
use std::time::Duration;
use vstd::prelude::*;

verus! {

/// The value that `entries` holds for `name`: that of the last entry with
/// this name.
pub open spec fn metadata_for(entries: Seq<(Seq<char>, Seq<u8>)>, name: Seq<char>) -> Option<
    Seq<u8>,
>
    decreases entries.len(),
{
    if entries.len() == 0 {
        None
    } else if entries.last().0 == name {
        Some(entries.last().1)
    } else {
        metadata_for(entries.drop_last(), name)
    }
}

/// Optional information for a scan: metadata for the modules.
pub struct ScanOptions {
    module_metadata: Vec<(String, Vec<u8>)>,
}

impl View for ScanOptions {
    type V = Seq<(Seq<char>, Seq<u8>)>;

    closed spec fn view(&self) -> Seq<(Seq<char>, Seq<u8>)> {
        Seq::new(
            self.module_metadata@.len(),
            |i: int| (self.module_metadata@[i].0@, self.module_metadata@[i].1@),
        )
    }
}

impl ScanOptions {
    /// Creates options without additional information.
    pub fn new() -> (options: ScanOptions)
        ensures
            options@ == Seq::<(Seq<char>, Seq<u8>)>::empty(),
    {
        let options = ScanOptions { module_metadata: Vec::new() };
        proof {
            assert(options@ =~= Seq::<(Seq<char>, Seq<u8>)>::empty());
        }
        options
    }

    /// Adds metadata for a module. Metadata set later for the same module
    /// takes the place of metadata set earlier.
    pub fn set_module_metadata(self, module_name: String, metadata: Vec<u8>) -> (options:
        ScanOptions)
        ensures
            options@ == self@.push((module_name@, metadata@)),
            metadata_for(options@, module_name@) == Some(metadata@),
    {
        let mut options = self;
        options.module_metadata.push((module_name, metadata));
        proof {
            assert(options@ =~= self@.push((module_name@, metadata@)));
        }
        options
    }

    /// The metadata set for the module `module_name`, if any.
    pub fn module_metadata(&self, module_name: &String) -> (metadata: Option<&Vec<u8>>)
        ensures
            match metadata {
                Some(bytes) => metadata_for(self@, module_name@) == Some(bytes@),
                None => metadata_for(self@, module_name@).is_none(),
            },
    {
        let mut i = self.module_metadata.len();
        proof {
            assert(self@.take(i as int) =~= self@);
        }
        while i > 0
            invariant
                i <= self.module_metadata@.len(),
                metadata_for(self@, module_name@) == metadata_for(
                    self@.take(i as int),
                    module_name@,
                ),
            decreases i,
        {
            proof {
                assert(self@.take(i as int).drop_last() =~= self@.take(i - 1));
                assert(self@.take(i as int).last() == self@[i - 1]);
            }
            i -= 1;
            if self.module_metadata[i].0 == *module_name {
                return Some(&self.module_metadata[i].1);
            }
        }
        None
    }
}

/// Mathematical content of a single-shot scanner.
pub struct Batch {
    /// The rule set.
    pub table: RuleTable,
    /// Cap on matches per pattern for the scans started from now on.
    pub cap: nat,
    /// The harness, holding the state of the last scan.
    pub harness: Harness,
    /// The configured timeout.
    pub timeout: Option<Duration>,
    /// The outputs of the imported modules.
    pub modules: ModuleTable,
}

impl Batch {
    /// Invariant of the scanner.
    pub open spec fn wf(self) -> bool {
        &&& self.cap > 0
        &&& self.harness.wf(self.table)
    }

    /// The scanner after it forgot the last scan: the harness holds the
    /// fresh state and no module output is recorded.
    pub open spec fn reset(self) -> Batch {
        let fresh = EvalState::fresh(self.table, self.cap);
        Batch {
            harness: Harness {
                eval: fresh,
                memory: with_bitmaps(
                    self.harness.memory,
                    self.table,
                    fresh.rule_bits,
                    fresh.pattern_bits,
                ),
                global_offset: 0,
                filesize: 0,
                lines: 0,
                ..self.harness
            },
            modules: ModuleTable { outputs: Seq::empty(), ..self.modules },
            ..self
        }
    }

    /// The scanner when the evaluator is about to scan `len` bytes: nothing
    /// of earlier scans is left, and the module outputs recorded for earlier
    /// scans are dropped.
    pub open spec fn scan_begun(self, len: usize, lines: u64, epoch: u64) -> Batch {
        let fresh = EvalState::fresh(self.table, self.cap);
        Batch {
            harness: Harness {
                eval: fresh,
                memory: with_bitmaps(
                    self.harness.memory,
                    self.table,
                    fresh.rule_bits,
                    fresh.pattern_bits,
                ),
                global_offset: 0,
                filesize: len,
                lines,
                deadline: spec_deadline(epoch, spec_timeout_secs(self.timeout)),
                pattern_search_done: false,
            },
            modules: ModuleTable { outputs: Seq::empty(), ..self.modules },
            ..self
        }
    }

    /// The scanner after the evaluator ended its run: what it reported is
    /// committed, whether it succeeded or not.
    pub open spec fn scan_finished(self) -> Batch {
        Batch {
            harness: Harness {
                eval: self.harness.eval.committed(self.table),
                filesize: 0,
                lines: 0,
                ..self.harness
            },
            ..self
        }
    }

    /// The scanner after a whole scan during which the evaluator made the
    /// reports `calls`.
    pub open spec fn scan(self, len: usize, lines: u64, epoch: u64, calls: Seq<HostCall>) -> Batch {
        let begun = self.scan_begun(len, lines, epoch);
        (Batch { harness: begun.harness.called_all(self.table, calls), ..begun }).scan_finished()
    }

    /// A single-shot scan ends in the state in which the first scan of a new
    /// stream ends, when both scan the same data and the evaluator makes the
    /// same reports: the rules reported are the same, in the same order.
    pub proof fn lemma_scan_is_first_scan_of_stream(
        self,
        len: usize,
        lines: u64,
        epoch: u64,
        calls: Seq<HostCall>,
        success: bool,
    )
        ensures
            self.scan(len, lines, epoch, calls).harness.eval == StreamState::fresh(
                self.table,
                self.cap,
            ).scan(self.table, len, lines, calls, success).eval,
    {
        let fresh = StreamState::fresh(self.table, self.cap);
        self.scan_begun(len, lines, epoch).harness.lemma_called_all(self.table, calls);
        assert(fresh.scan_begun(self.table).eval == fresh.eval) by {
            assert(crate::pending::flatten(fresh.eval.pending) =~= Seq::<RuleId>::empty());
        }
    }
}

/// Scans data with a compiled rule set. The same scanner can scan any number
/// of inputs one after the other; each scan forgets the one before.
///
/// A scan has two halves. [`Scanner::scan`] sets the scan up; the caller then
/// initializes the modules and runs the evaluator, which reports through the
/// `track_*` methods; [`Scanner::finish_scan`] commits what was reported and
/// gives the results.
pub struct Scanner<'r> {
    rules: &'r Rules,
    scan_context: ScanContext<'r>,
    timeout: Option<Duration>,
    max_matches_per_pattern: usize,
    module_outputs: ModuleOutputs,
}

impl<'r> View for Scanner<'r> {
    type V = Batch;

    closed spec fn view(&self) -> Batch {
        Batch {
            table: self.rules@,
            cap: self.max_matches_per_pattern as nat,
            harness: self.scan_context@,
            timeout: self.timeout,
            modules: self.module_outputs@,
        }
    }
}

/// The message type of the module that `name` denotes among `imports`.
fn find_module(imports: &Vec<ModuleInfo>, name: &String) -> (message_name: Option<String>)
    ensures
        match message_name {
            Some(found) => resolve_module(imports@, name@) == Some(found@) && imports_type(
                imports@,
                found@,
            ),
            None => resolve_module(imports@, name@).is_none(),
        },
{
    proof {
        crate::modules::lemma_message_of_module(imports@, name@);
    }
    match crate::modules::find_message_of_module(imports, name) {
        Some(message_name) => {
            return Some(message_name.clone());
        },
        None => {},
    }
    let n = imports.len();
    let mut j: usize = 0;
    while j < n
        invariant
            n == imports@.len(),
            j <= n,
            crate::modules::message_of_module(imports@, name@).is_none(),
            forall|k: int| 0 <= k < j ==> (#[trigger] imports@[k]).root_struct_name@ != name@,
        decreases n - j,
    {
        if imports[j].root_struct_name == *name {
            proof {
                assert(imports@[j as int].root_struct_name@ == name@);
                assert(imports_type(imports@, name@));
            }
            return Some(name.clone());
        }
        j += 1;
    }
    None
}

impl<'r> Scanner<'r> {
    /// The rule set the scanner was made for.
    pub closed spec fn rule_set(&self) -> &'r Rules {
        self.rules
    }

    /// Invariant of the scanner; every public operation keeps it.
    pub closed spec fn wf(&self) -> bool {
        &&& self.rules.wf()
        &&& self.scan_context.wf()
        &&& self.scan_context.rules() == self.rules
        &&& self@.wf()
    }

    /// What the invariant says of the content.
    pub proof fn lemma_wf(&self)
        requires
            self.wf(),
        ensures
            self@.wf(),
            self.rule_set().wf(),
            self@.table == self.rule_set()@,
    {
    }

    /// Creates a scanner for `rules`.
    pub fn new(rules: &'r Rules) -> (scanner: Scanner<'r>)
        requires
            rules.wf(),
        ensures
            scanner.wf(),
            scanner.rule_set() == rules,
            scanner@.harness.eval == EvalState::fresh(
                rules@,
                DEFAULT_MAX_MATCHES_PER_PATTERN as nat,
            ),
            scanner@.harness.memory == Seq::new(
                crate::layout::spec_memory_size(rules@),
                |i: int| 0u8,
            ),
            scanner@.harness.global_offset == 0,
            scanner@.harness.filesize == 0,
            scanner@.harness.lines == 0,
            scanner@.harness.deadline == 0,
            !scanner@.harness.pattern_search_done,
            scanner@.cap == DEFAULT_MAX_MATCHES_PER_PATTERN,
            scanner@.timeout.is_none(),
            scanner@.modules == (ModuleTable { supplied: Seq::empty(), outputs: Seq::empty() }),
    {
        let scanner = Scanner {
            rules,
            scan_context: ScanContext::new(rules, DEFAULT_MAX_MATCHES_PER_PATTERN),
            timeout: None,
            max_matches_per_pattern: DEFAULT_MAX_MATCHES_PER_PATTERN,
            module_outputs: ModuleOutputs::new(),
        };
        proof {
            scanner.scan_context.lemma_wf();
        }
        scanner
    }

    /// Sets a timeout for the scans started from now on.
    pub fn set_timeout(&mut self, timeout: Duration) -> (scanner: &mut Self)
        requires
            old(self).wf(),
        ensures
            scanner.wf(),
            scanner.rule_set() == old(self).rule_set(),
            scanner@ == (Batch { timeout: Some(timeout), ..old(self)@ }),
            *final(self) == *final(scanner),
    {
        self.timeout = Some(timeout);
        self
    }

    /// Sets the largest number of matches kept per pattern, for the scans
    /// started from now on. A pattern that reaches it produces no further
    /// matches.
    pub fn max_matches_per_pattern(&mut self, n: usize) -> (scanner: &mut Self)
        requires
            old(self).wf(),
            n > 0,
        ensures
            scanner.wf(),
            scanner.rule_set() == old(self).rule_set(),
            scanner@ == (Batch { cap: n as nat, ..old(self)@ }),
            *final(self) == *final(scanner),
    {
        self.max_matches_per_pattern = n;
        self
    }

    /// The harness, for the evaluator to read what is installed.
    pub fn scan_context(&self) -> (ctx: &ScanContext<'r>)
        requires
            self.wf(),
        ensures
            ctx.wf(),
            ctx.rules() == self.rule_set(),
            ctx@ == self@.harness,
    {
        &self.scan_context
    }

    /// Resets the scanner to its initial state, ready for another scan.
    fn reset(&mut self)
        requires
            old(self).wf(),
        ensures
            final(self).wf(),
            final(self).rule_set() == old(self).rule_set(),
            final(self)@ == old(self)@.reset(),
    {
        self.scan_context.reset(self.max_matches_per_pattern);
        self.module_outputs.clear_outputs();
        proof {
            self.scan_context.lemma_wf();
        }
    }

    /// Starts a scan of in-memory data. What earlier scans found is dropped.
    /// The modules have to be initialized and the evaluator to run next, then
    /// [`Scanner::finish_scan`].
    pub fn scan(&mut self, data: &[u8], epoch: u64) -> (request: ScanRequest)
        requires
            old(self).wf(),
        ensures
            final(self).wf(),
            final(self).rule_set() == old(self).rule_set(),
            final(self)@ == old(self)@.scan_begun(
                data@.len() as usize,
                line_count(data@) as u64,
                epoch,
            ),
            request.timeout_secs == spec_timeout_secs(old(self)@.timeout),
            request.deadline == spec_deadline(epoch, spec_timeout_secs(old(self)@.timeout)),
            request.start_heartbeat == old(self)@.timeout.is_some(),
            request.initialize_modules,
    {
        self.scan_impl(data, epoch)
    }

    /// Like [`Scanner::scan`]; `options` carries the metadata that the caller
    /// hands to the modules it initializes.
    pub fn scan_with_options(&mut self, data: &[u8], options: &ScanOptions, epoch: u64) -> (request:
        ScanRequest)
        requires
            old(self).wf(),
        ensures
            final(self).wf(),
            final(self).rule_set() == old(self).rule_set(),
            final(self)@ == old(self)@.scan_begun(
                data@.len() as usize,
                line_count(data@) as u64,
                epoch,
            ),
            request.timeout_secs == spec_timeout_secs(old(self)@.timeout),
            request.deadline == spec_deadline(epoch, spec_timeout_secs(old(self)@.timeout)),
            request.start_heartbeat == old(self)@.timeout.is_some(),
            request.initialize_modules,
    {
        self.scan_impl(data, epoch)
    }

    fn scan_impl(&mut self, data: &[u8], epoch: u64) -> (request: ScanRequest)
        requires
            old(self).wf(),
        ensures
            final(self).wf(),
            final(self).rule_set() == old(self).rule_set(),
            final(self)@ == old(self)@.scan_begun(
                data@.len() as usize,
                line_count(data@) as u64,
                epoch,
            ),
            request.timeout_secs == spec_timeout_secs(old(self)@.timeout),
            request.deadline == spec_deadline(epoch, spec_timeout_secs(old(self)@.timeout)),
            request.start_heartbeat == old(self)@.timeout.is_some(),
            request.initialize_modules,
    {
        // Clear information about matches found in a previous scan, if any.
        self.reset();
        let secs = timeout_secs(self.timeout);
        let deadline = deadline_for(epoch, secs);
        let lines = crate::lines::count_lines(data) as u64;
        proof {
            self.scan_context.lemma_wf();
            let fresh = EvalState::fresh(self@.table, self@.cap);
            EvalState::lemma_fresh(self@.table, self@.cap);
            assert(fresh.committed(self@.table).without_pending() == fresh) by {
                assert(crate::pending::flatten(fresh.pending) =~= Seq::<RuleId>::empty());
            }
        }
        self.scan_context.begin_chunk(data.len(), lines, 0, deadline);
        proof {
            self.scan_context.lemma_wf();
        }
        ScanRequest {
            timeout_secs: secs,
            deadline,
            start_heartbeat: self.timeout.is_some(),
            initialize_modules: true,
        }
    }

    /// Ends the scan in progress after the evaluator has run. What the
    /// evaluator reported is committed in any case. If the evaluator returned
    /// zero, the results of the scan are handed out. If it was stopped, the
    /// scan fails with the reason given, and if it returned another value,
    /// with an internal error.
    pub fn finish_scan<'a>(&'a mut self, exit: EvaluatorExit) -> (result: Result<
        ScanResults<'a, 'r>,
        ScanError,
    >)
        requires
            old(self).wf(),
        ensures
            final(self).wf(),
            final(self).rule_set() == old(self).rule_set(),
            final(self)@ == old(self)@.scan_finished(),
            match exit {
                EvaluatorExit::Returned(code) => if code == 0 {
                    result is Ok && result->Ok_0.wf() && *result->Ok_0.scanner() == *final(self)
                } else {
                    result is Err && result->Err_0 is Internal
                },
                EvaluatorExit::Failed(err) => result is Err && result->Err_0 == err,
            },
    {
        proof {
            self.scan_context.lemma_wf();
            self@.harness.eval.lemma_committed(self@.table);
        }
        let _ = self.scan_context.end_chunk();
        proof {
            self.scan_context.lemma_wf();
        }
        match exit {
            EvaluatorExit::Returned(code) => {
                if code == 0 {
                    Ok(ScanResults { scanner: self })
                } else {
                    Err(
                        ScanError::Internal(
                            "the evaluator returned a value other than zero".to_owned(),
                        ),
                    )
                }
            },
            EvaluatorExit::Failed(err) => Err(err),
        }
    }
}

/// Results of a scan.
pub struct ScanResults<'a, 'r> {
    scanner: &'a Scanner<'r>,
}

impl<'a, 'r> ScanResults<'a, 'r> {
    /// The scanner the results are read from.
    pub closed spec fn scanner(&self) -> &'a Scanner<'r> {
        self.scanner
    }

    /// The results are read from a well-formed scanner.
    pub closed spec fn wf(&self) -> bool {
        self.scanner.wf()
    }
}

impl<'r> Scanner<'r> {
    /// Host call of the evaluator: the rule `rule_id` matches. Returns
    /// whether `rule_id` names a rule.
    pub fn track_rule_match(&mut self, rule_id: RuleId) -> (known: bool)
        requires
            old(self).wf(),
        ensures
            final(self).wf(),
            final(self).rule_set() == old(self).rule_set(),
            known == (rule_id < old(self)@.table.rules()),
            final(self)@ == (Batch {
                harness: old(self)@.harness.called(
                    old(self)@.table,
                    HostCall::RuleMatch { rule_id },
                ),
                ..old(self)@
            }),
    {
        let known = self.scan_context.track_rule_match(rule_id);
        proof {
            self.scan_context.lemma_wf();
        }
        known
    }

    /// Host call of the pattern search: `pattern_id` occurs at `[start, end)`
    /// of the data being scanned. Returns whether the match store took the
    /// occurrence as a new match.
    pub fn track_pattern_match(
        &mut self,
        pattern_id: PatternId,
        start: usize,
        end: usize,
        xor_key: Option<u8>,
    ) -> (recorded: bool)
        requires
            old(self).wf(),
        ensures
            final(self).wf(),
            final(self).rule_set() == old(self).rule_set(),
            final(self)@ == (Batch {
                harness: old(self)@.harness.called(
                    old(self)@.table,
                    HostCall::PatternMatch { pattern_id, start, end, xor_key },
                ),
                ..old(self)@
            }),
            recorded == (pattern_id < old(self)@.table.patterns && old(self)@.harness.in_chunk(
                start,
                end,
            ) && old(self)@.harness.eval.store.accepts(
                pattern_id,
                old(self)@.harness.rebased(start, end, xor_key),
            )),
    {
        let recorded = self.scan_context.track_pattern_match(pattern_id, start, end, xor_key);
        proof {
            self.scan_context.lemma_wf();
        }
        recorded
    }

    /// Host call of the pattern search: a link of a chained pattern occurs at
    /// `[start, end)` of the data being scanned. Returns whether the range
    /// lies in the data; if not, nothing changes.
    pub fn track_unconfirmed_match(
        &mut self,
        sub_pattern_id: SubPatternId,
        start: usize,
        end: usize,
        chain_length: u32,
    ) -> (recorded: bool)
        requires
            old(self).wf(),
        ensures
            final(self).wf(),
            final(self).rule_set() == old(self).rule_set(),
            final(self)@ == (Batch {
                harness: old(self)@.harness.called(
                    old(self)@.table,
                    HostCall::UnconfirmedMatch { sub_pattern_id, start, end, chain_length },
                ),
                ..old(self)@
            }),
            recorded == old(self)@.harness.in_chunk(start, end),
    {
        let recorded = self.scan_context.track_unconfirmed_match(
            sub_pattern_id,
            start,
            end,
            chain_length,
        );
        proof {
            self.scan_context.lemma_wf();
        }
        recorded
    }

    /// Host call of the pattern search: consumes the pending occurrences of
    /// the chain link `sub_pattern_id` and hands them out in insertion order.
    pub fn take_unconfirmed_matches(&mut self, sub_pattern_id: SubPatternId) -> (taken: Vec<
        UnconfirmedMatch,
    >)
        requires
            old(self).wf(),
        ensures
            final(self).wf(),
            final(self).rule_set() == old(self).rule_set(),
            taken@ == old(self)@.harness.eval.store.pending(sub_pattern_id),
            final(self)@ == (Batch {
                harness: old(self)@.harness.called(
                    old(self)@.table,
                    HostCall::TakeUnconfirmed { sub_pattern_id },
                ),
                ..old(self)@
            }),
    {
        let taken = self.scan_context.take_unconfirmed_matches(sub_pattern_id);
        proof {
            self.scan_context.lemma_wf();
        }
        taken
    }

    /// Host call of the evaluator: asks whether the pattern search still has
    /// to run for the data being scanned, and marks it as run.
    pub fn begin_pattern_search(&mut self) -> (needed: bool)
        requires
            old(self).wf(),
        ensures
            final(self).wf(),
            final(self).rule_set() == old(self).rule_set(),
            needed == !old(self)@.harness.pattern_search_done,
            final(self)@ == (Batch {
                harness: old(self)@.harness.called(old(self)@.table, HostCall::BeginPatternSearch),
                ..old(self)@
            }),
    {
        let needed = self.scan_context.begin_pattern_search();
        proof {
            self.scan_context.lemma_wf();
        }
        needed
    }

    /// Sets the output of a module for the next scan. The initialization of
    /// the next scan consumes it in place of invoking the module. An output
    /// whose message type no imported module produces is rejected.
    pub fn set_module_output(&mut self, data: ModuleOutput) -> (result: Result<(), ScanError>)
        requires
            old(self).wf(),
        ensures
            final(self).wf(),
            final(self).rule_set() == old(self).rule_set(),
            imports_type(old(self).rule_set().modules(), data.message_name@) ==> result is Ok
                && final(self)@ == (Batch {
                modules: old(self)@.modules.supply(data@),
                ..old(self)@
            }),
            !imports_type(old(self).rule_set().modules(), data.message_name@) ==> final(self)@
                == old(self)@ && result == Err::<(), ScanError>(
                ScanError::UnknownModule { module: data.message_name },
            ),
    {
        self.module_outputs.set_module_output(self.rules.imports(), data)
    }

    /// Like [`Scanner::set_module_output`], for an output given as the name
    /// of a module and an encoded message. `name` is the name of an imported
    /// module or the name of the message type of one. `decode_error` is the
    /// verdict of the decoder on `data`: `None` if the bytes decode as a
    /// message of the module. A name that denotes no imported module is
    /// rejected first, bytes that do not decode second.
    pub fn set_module_output_raw(
        &mut self,
        name: &str,
        data: &[u8],
        decode_error: Option<String>,
    ) -> (result: Result<(), ScanError>)
        requires
            old(self).wf(),
        ensures
            final(self).wf(),
            final(self).rule_set() == old(self).rule_set(),
            match resolve_module(old(self).rule_set().modules(), name@) {
                None => final(self)@ == old(self)@ && result is Err && result->Err_0
                    is UnknownModule && result->Err_0->UnknownModule_module@ == name@,
                Some(message_name) => match decode_error {
                    Some(err) => final(self)@ == old(self)@ && result is Err && result->Err_0
                        is ProtoError && result->Err_0->ProtoError_module@ == name@
                        && result->Err_0->ProtoError_err == err,
                    None => result is Ok && final(self)@ == (Batch {
                        modules: old(self)@.modules.supply(
                            OutputView { message_name, data: data@ },
                        ),
                        ..old(self)@
                    }),
                },
            },
    {
        let owned = name.to_owned();
        // Try to find the module by name first, if not found, then try to
        // find a module whose message type has that name.
        let message_name = match find_module(self.rules.imports(), &owned) {
            Some(message_name) => message_name,
            None => {
                return Err(ScanError::UnknownModule { module: owned });
            },
        };
        match decode_error {
            Some(err) => {
                return Err(ScanError::ProtoError { module: owned, err });
            },
            None => {},
        }
        let output = ModuleOutput { message_name, data: vstd::slice::slice_to_vec(data) };
        self.module_outputs.set_module_output(self.rules.imports(), output)
    }

    /// The imported modules whose main function has to be invoked before
    /// [`Scanner::initialize_modules`], in import order.
    pub fn modules_to_run(&self) -> (names: Vec<String>)
        ensures
            crate::modules::names_of(names@) == crate::modules::modules_in_need(
                self.rule_set().modules(),
                self@.modules.supplied,
            ),
    {
        self.module_outputs.modules_to_run(self.rules.imports())
    }

    /// Initializes the imported modules for the scan in progress, given what
    /// the main functions of the modules in need gave. A module whose main
    /// function failed stops the initialization with that failure.
    pub fn initialize_modules(&mut self, runs: &Vec<ModuleRun>) -> (result: Result<(), ScanError>)
        requires
            old(self).wf(),
        ensures
            final(self).wf(),
            final(self).rule_set() == old(self).rule_set(),
            final(self)@ == (Batch {
                modules: old(self)@.modules.initialize_all(
                    old(self).rule_set().modules(),
                    crate::modules::runs_of(runs@),
                ).0,
                ..old(self)@
            }),
            match old(self)@.modules.initialize_all(
                old(self).rule_set().modules(),
                crate::modules::runs_of(runs@),
            ).1 {
                Some(err) => result == Err::<(), ScanError>(err),
                None => result is Ok,
            },
    {
        self.module_outputs.initialize_modules(self.rules.imports(), runs)
    }
}

/// Iterator-like cursor over the rules that matched during a scan.
pub struct MatchingRules<'a, 'r> {
    scanner: &'a Scanner<'r>,
    position: usize,
}

/// Iterator-like cursor over the rules that did not match during a scan.
pub struct NonMatchingRules<'a, 'r> {
    scanner: &'a Scanner<'r>,
    rule_ids: Vec<RuleId>,
    position: usize,
}

impl<'a, 'r> ScanResults<'a, 'r> {
    /// Returns a cursor over the matching rules, in the order in which they
    /// matched. Private rules are left out.
    pub fn matching_rules(&self) -> (rules: MatchingRules<'a, 'r>)
        requires
            self.wf(),
        ensures
            rules.wf(),
            rules.scanner() == self.scanner(),
            rules.remaining() == self.scanner()@.harness.eval.lists.non_private,
    {
        proof {
            let list = self.scanner@.harness.eval.lists.non_private;
            assert(list.skip(0) =~= list);
        }
        MatchingRules { scanner: self.scanner, position: 0 }
    }

    /// Returns a cursor over the rules that did not match, in the order of
    /// their identifiers. Private rules are left out.
    pub fn non_matching_rules(&self) -> (rules: NonMatchingRules<'a, 'r>)
        requires
            self.wf(),
        ensures
            rules.wf(),
            rules.scanner() == self.scanner(),
            rules.remaining() == non_matching(
                self.scanner()@.table,
                self.scanner()@.harness.eval.rule_bits,
                self.scanner()@.table.rules() as int,
            ),
    {
        proof {
            self.scanner.scan_context.lemma_wf();
            lemma_non_matching(
                self.scanner@.table,
                self.scanner@.harness.eval.rule_bits,
                self.scanner@.table.rules() as int,
            );
        }
        let bitmaps = self.scanner.scan_context.read_bitmaps_from_wasm();
        let rule_ids = unmatched_public_rules(self.scanner.rules, &bitmaps.0);
        proof {
            assert(rule_ids@.skip(0) =~= rule_ids@);
        }
        NonMatchingRules { scanner: self.scanner, rule_ids, position: 0 }
    }

    /// Returns the output that the module `module_name` produced for the
    /// scan, `None` if no such module is imported or it produced none.
    pub fn module_output(&self, module_name: &str) -> (output: Option<&'a ModuleOutput>)
        ensures
            match crate::modules::message_of_module(
                self.scanner().rule_set().modules(),
                module_name@,
            ) {
                Some(message_name) => match crate::modules::position_of_type(
                    self.scanner()@.modules.outputs,
                    message_name,
                ) {
                    Some(i) => output.is_some() && 0 <= i < self.scanner()@.modules.outputs.len()
                        && output.unwrap()@ == self.scanner()@.modules.outputs[i],
                    None => output.is_none(),
                },
                None => output.is_none(),
            },
    {
        let owned = module_name.to_owned();
        match crate::modules::find_message_of_module(self.scanner.rules.imports(), &owned) {
            Some(message_name) => self.scanner.module_outputs.module_output(message_name),
            None => None,
        }
    }

    /// Returns the outputs that the modules produced for the scan, in import
    /// order. Modules that produced none are left out.
    pub fn module_outputs(&self) -> (outputs: &'a Vec<ModuleOutput>)
        ensures
            outputs_of(outputs@) == self.scanner()@.modules.outputs,
    {
        self.scanner.module_outputs.module_outputs()
    }
}

impl<'a, 'r> MatchingRules<'a, 'r> {
    /// The scanner the rules are read from.
    pub closed spec fn scanner(&self) -> &'a Scanner<'r> {
        self.scanner
    }

    /// The rules still to come, in order.
    pub closed spec fn remaining(&self) -> Seq<RuleId> {
        self.scanner@.harness.eval.lists.non_private.skip(self.position as int)
    }

    /// The cursor lies within the list of a well-formed scanner.
    pub closed spec fn wf(&self) -> bool {
        &&& self.scanner.wf()
        &&& self.position <= self.scanner@.harness.eval.lists.non_private.len()
    }

    /// Number of rules still to come.
    pub fn len(&self) -> (n: usize)
        requires
            self.wf(),
        ensures
            n == self.remaining().len(),
    {
        self.scanner.scan_context.non_private_matching_rules().len() - self.position
    }

    /// Hands out the next rule, `None` after the last one.
    pub fn next(&mut self) -> (rule: Option<Rule<'r>>)
        requires
            old(self).wf(),
        ensures
            final(self).wf(),
            final(self).scanner() == old(self).scanner(),
            rule.is_some() == (old(self).remaining().len() > 0),
            rule.is_some() ==> {
                &&& rule.unwrap().id == old(self).remaining()[0]
                &&& *rule.unwrap().info == old(self).scanner().rule_set().infos()[rule.unwrap().id as int]
                &&& final(self).remaining() == old(self).remaining().drop_first()
            },
            rule.is_none() ==> final(self).remaining() == old(self).remaining(),
    {
        let list = self.scanner.scan_context.non_private_matching_rules();
        if self.position < list.len() {
            let id = list[self.position];
            proof {
                self.scanner.scan_context.lemma_wf();
                assert(self.scanner@.harness.eval.lists.non_private[self.position as int] == id);
            }
            self.position = self.position + 1;
            proof {
                assert(self.remaining() =~= old(self).remaining().drop_first());
            }
            Some(Rule { id, info: self.scanner.rules.get(id) })
        } else {
            None
        }
    }
}

/// The rules that `zeros` names as positions above `base`, without the
/// private ones, in the order of `zeros`.
pub open spec fn public_rules(table: RuleTable, base: int, zeros: Seq<usize>) -> Seq<RuleId>
    decreases zeros.len(),
{
    if zeros.len() == 0 {
        Seq::empty()
    } else {
        let head = public_rules(table, base, zeros.drop_last());
        let rule_id = base + zeros.last();
        if table.private[rule_id] {
            head
        } else {
            head.push(rule_id as RuleId)
        }
    }
}

/// The rules below `n` that are not private and whose bit in `rule_bits` is
/// clear, in the order of their identifiers.
pub open spec fn non_matching(table: RuleTable, rule_bits: Seq<u8>, n: int) -> Seq<RuleId>
    decreases n,
{
    if n <= 0 {
        Seq::empty()
    } else {
        let head = non_matching(table, rule_bits, n - 1);
        if crate::bitmap::bit_is_set(rule_bits, n - 1) || table.private[n - 1] {
            head
        } else {
            head.push((n - 1) as RuleId)
        }
    }
}

/// The rules that did not match are the rules that are not private and
/// whose bit is clear, each once, lowest identifier first.
pub proof fn lemma_non_matching(table: RuleTable, rule_bits: Seq<u8>, n: int)
    requires
        0 <= n <= table.rules(),
        table.wf(),
    ensures
        forall|i: int|
            0 <= i < non_matching(table, rule_bits, n).len() ==> {
                let r = #[trigger] non_matching(table, rule_bits, n)[i];
                r < n && !table.private[r as int] && !crate::bitmap::bit_is_set(rule_bits, r as int)
            },
        forall|r: RuleId|
            r < n && !table.private[r as int] && !crate::bitmap::bit_is_set(rule_bits, r as int)
                ==> non_matching(table, rule_bits, n).contains(r),
        forall|i: int, j: int|
            0 <= i < j < non_matching(table, rule_bits, n).len() ==> non_matching(
                table,
                rule_bits,
                n,
            )[i] < non_matching(table, rule_bits, n)[j],
    decreases n,
{
    if n > 0 {
        lemma_non_matching(table, rule_bits, n - 1);
        let head = non_matching(table, rule_bits, n - 1);
        let all = non_matching(table, rule_bits, n);
        assert forall|i: int| 0 <= i < all.len() implies {
            let r = #[trigger] all[i];
            r < n && !table.private[r as int] && !crate::bitmap::bit_is_set(rule_bits, r as int)
        } by {
            if i < head.len() {
                assert(all[i] == head[i]);
            }
        }
        assert forall|r: RuleId|
            r < n && !table.private[r as int] && !crate::bitmap::bit_is_set(
                rule_bits,
                r as int,
            ) implies all.contains(r) by {
            if r < n - 1 {
                assert(head.contains(r));
                let k = choose|k: int| 0 <= k < head.len() && head[k] == r;
                assert(all[k] == r);
            } else {
                assert(all[all.len() - 1] == r);
            }
        }
        assert forall|i: int, j: int| 0 <= i < j < all.len() implies all[i] < all[j] by {
            assert(all[i] == head[i]);
            if j < head.len() {
                assert(all[j] == head[j]);
            }
        }
    }
}

/// The rules found in a window of the rule bitmap continue the rules found
/// below the window.
proof fn lemma_window(table: RuleTable, rule_bits: Seq<u8>, start: int, end: int, bits: int)
    requires
        0 <= start <= end <= rule_bits.len(),
        0 <= bits <= 8 * (end - start),
        8 * start + bits <= usize::MAX,
    ensures
        non_matching(table, rule_bits, 8 * start + bits) == non_matching(
            table,
            rule_bits,
            8 * start,
        ) + public_rules(
            table,
            8 * start,
            crate::bitmap::zeros_below(rule_bits.subrange(start, end), bits),
        ),
    decreases bits,
{
    let window = rule_bits.subrange(start, end);
    let below = non_matching(table, rule_bits, 8 * start);
    if bits == 0 {
        assert(below + public_rules(table, 8 * start, crate::bitmap::zeros_below(window, 0))
            =~= below);
    } else {
        lemma_window(table, rule_bits, start, end, bits - 1);
        let at = bits - 1;
        assert((8 * start + at) / 8 == start + at / 8);
        assert((8 * start + at) % 8 == at % 8);
        assert(window[at / 8] == rule_bits[start + at / 8]);
        assert(crate::bitmap::bit_is_set(window, at) == crate::bitmap::bit_is_set(
            rule_bits,
            8 * start + at,
        ));
        let zeros_before = crate::bitmap::zeros_below(window, at);
        let found_before = public_rules(table, 8 * start, zeros_before);
        if !crate::bitmap::bit_is_set(window, at) {
            let zeros = zeros_before.push(at as usize);
            assert(zeros.drop_last() =~= zeros_before);
            assert(zeros.last() == at);
            if !table.private[8 * start + at] {
                assert((below + found_before).push((8 * start + at) as RuleId) =~= below
                    + found_before.push((8 * start + at) as RuleId));
            }
        }
    }
}

/// The rules that are not private and whose bit in `rule_bits` is clear, in
/// the order of their identifiers.
fn unmatched_public_rules(rules: &Rules, rule_bits: &Vec<u8>) -> (found: Vec<RuleId>)
    requires
        rules.wf(),
        rule_bits@.len() == crate::bitmap::spec_bytes_for_bits(rules@.rules()),
    ensures
        found@ == non_matching(rules@, rule_bits@, rules@.rules() as int),
{
    proof {
        rules.lemma_view();
    }
    let ghost table = rules@;
    let num_rules = rules.num_rules();
    let len = rule_bits.len();
    let mut found: Vec<RuleId> = Vec::new();
    let mut start: usize = 0;
    while start < len
        invariant
            rules.wf(),
            table == rules@,
            table.wf(),
            num_rules == table.rules(),
            len == rule_bits@.len(),
            len == crate::bitmap::spec_bytes_for_bits(table.rules()),
            start <= len,
            start < len ==> 8 * start <= num_rules,
            found@ == non_matching(
                table,
                rule_bits@,
                if start < len {
                    8 * start
                } else {
                    num_rules as int
                },
            ),
        decreases len - start,
    {
        let end = if len - start > crate::bitmap::WINDOW_BYTES {
            start + crate::bitmap::WINDOW_BYTES
        } else {
            len
        };
        let bits = if end < len {
            8 * (end - start)
        } else {
            num_rules - 8 * start
        };
        let window = vstd::slice::slice_subrange(rule_bits.as_slice(), start, end);
        let zeros = crate::bitmap::zero_bits(window, bits);
        proof {
            crate::bitmap::lemma_zeros_below(window@, bits as int);
            lemma_window(table, rule_bits@, start as int, end as int, bits as int);
        }
        let ghost below = found@;
        let count = zeros.len();
        let mut i: usize = 0;
        while i < count
            invariant
                rules.wf(),
                table == rules@,
                table.wf(),
                num_rules == table.rules(),
                8 * start + bits <= num_rules,
                count == zeros@.len(),
                i <= count,
                forall|k: int| 0 <= k < zeros@.len() ==> (#[trigger] zeros@[k]) < bits,
                found@ == below + public_rules(table, 8 * start, zeros@.take(i as int)),
            decreases count - i,
        {
            proof {
                assert(zeros@.take(i + 1).drop_last() =~= zeros@.take(i as int));
                assert(zeros@.take(i + 1).last() == zeros@[i as int]);
                assert(zeros@[i as int] < bits);
            }
            let rule_id = (8 * start + zeros[i]) as RuleId;
            // Private rules are not returned.
            if !rules.get(rule_id).is_private {
                found.push(rule_id);
                proof {
                    let so_far = public_rules(table, 8 * start, zeros@.take(i as int));
                    assert(public_rules(table, 8 * start, zeros@.take(i + 1)) == so_far.push(
                        rule_id,
                    ));
                    assert(found@ =~= below + so_far.push(rule_id));
                }
            }
            i += 1;
        }
        proof {
            assert(zeros@.take(count as int) =~= zeros@);
        }
        start = end;
    }
    proof {
        if len == 0 {
            assert(num_rules == 0);
        }
    }
    found
}

impl<'a, 'r> NonMatchingRules<'a, 'r> {
    /// The scanner the rules are read from.
    pub closed spec fn scanner(&self) -> &'a Scanner<'r> {
        self.scanner
    }

    /// The rules still to come, in order.
    pub closed spec fn remaining(&self) -> Seq<RuleId> {
        self.rule_ids@.skip(self.position as int)
    }

    /// Every rule still to come is a rule of the rule set.
    pub closed spec fn wf(&self) -> bool {
        &&& self.position <= self.rule_ids@.len()
        &&& forall|i: int|
            0 <= i < self.rule_ids@.len() ==> (#[trigger] self.rule_ids@[i])
                < self.scanner.rules@.rules()
    }

    /// Number of rules still to come.
    pub fn len(&self) -> (n: usize)
        requires
            self.wf(),
        ensures
            n == self.remaining().len(),
    {
        self.rule_ids.len() - self.position
    }

    /// Hands out the next rule that did not match, `None` after the last
    /// one.
    pub fn next(&mut self) -> (rule: Option<Rule<'r>>)
        requires
            old(self).wf(),
        ensures
            final(self).wf(),
            final(self).scanner() == old(self).scanner(),
            rule.is_some() == (old(self).remaining().len() > 0),
            rule.is_some() ==> {
                &&& rule.unwrap().id == old(self).remaining()[0]
                &&& *rule.unwrap().info == old(self).scanner().rule_set().infos()[rule.unwrap().id as int]
                &&& final(self).remaining() == old(self).remaining().drop_first()
            },
            rule.is_none() ==> final(self).remaining() == old(self).remaining(),
    {
        if self.position < self.rule_ids.len() {
            let id = self.rule_ids[self.position];
            self.position = self.position + 1;
            proof {
                assert(self.remaining() =~= old(self).remaining().drop_first());
            }
            Some(Rule { id, info: self.scanner.rules.get(id) })
        } else {
            None
        }
    }
}

} // verus!
