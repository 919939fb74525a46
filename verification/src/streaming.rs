//! The streaming scanner: one stream scanned chunk after chunk, with matches
//! and rule evaluations accumulating across the chunks.

use crate::context::{Harness, ScanContext};
use crate::error::{EvaluatorExit, ScanError};
use crate::layout::with_bitmaps;
use crate::lines::line_count;
use crate::matches::UnconfirmedMatch;
use crate::modules::{ModuleOutput, ModuleOutputs, ModuleRun, ModuleTable};
use crate::multi_stream::{ScanRequest, DEFAULT_MAX_MATCHES_PER_PATTERN};
use crate::offset_cache::{cached, stored, touched, CacheEntry, OffsetCache};
use crate::rules::{PatternId, Rule, RuleId, RuleTable, Rules, SubPatternId};
use crate::state::{EvalState, HostCall, StreamState};
use crate::timeout::{deadline_for, spec_deadline, spec_timeout_secs, timeout_secs};
use std::time::Duration;
use vstd::prelude::*;

verus! {

/// Mathematical content of a streaming scanner.
pub struct Streaming {
    /// The rule set.
    pub table: RuleTable,
    /// Cap on matches per pattern.
    pub cap: nat,
    /// The harness; the stream's state is installed in it at all times.
    pub harness: Harness,
    /// Bytes scanned so far.
    pub bytes_processed: u64,
    /// Lines scanned so far.
    pub lines_processed: u64,
    /// The configured timeout.
    pub timeout: Option<Duration>,
    /// The outputs of the imported modules.
    pub modules: ModuleTable,
    /// Whether the imported modules have been initialized.
    pub modules_initialized: bool,
    /// The lines cached by trace identifier, most recently used first; `None`
    /// while the cache is not enabled.
    pub cache: Option<Seq<CacheEntry>>,
}

impl Streaming {
    /// The state of the stream.
    pub open spec fn stream(self) -> StreamState {
        StreamState {
            eval: self.harness.eval,
            global_offset: self.bytes_processed,
            bytes_processed: self.bytes_processed,
            lines_processed: self.lines_processed,
        }
    }

    /// Invariant of the scanner.
    pub open spec fn wf(self) -> bool {
        &&& self.cap > 0
        &&& self.harness.wf(self.table)
        &&& self.bytes_processed + self.harness.filesize <= u64::MAX
        &&& self.lines_processed + self.harness.lines <= u64::MAX
    }

    /// The scanner when the evaluator is about to scan a chunk of `len`
    /// bytes counted as `lines` lines, with the epoch counter at `epoch`.
    pub open spec fn scan_begun(self, len: usize, lines: u64, epoch: u64) -> Streaming {
        Streaming {
            harness: Harness {
                eval: self.harness.eval.committed(self.table).without_pending(),
                memory: self.harness.memory,
                global_offset: self.bytes_processed,
                filesize: len,
                lines,
                deadline: spec_deadline(epoch, spec_timeout_secs(self.timeout)),
                pattern_search_done: false,
            },
            ..self
        }
    }

    /// The scanner after the evaluator ended its run. What it reported is
    /// committed; the counters advance by the chunk if it succeeded.
    pub open spec fn scan_finished(self, success: bool) -> Streaming {
        Streaming {
            harness: Harness {
                eval: self.harness.eval.committed(self.table),
                filesize: 0,
                lines: 0,
                ..self.harness
            },
            bytes_processed: if success {
                (self.bytes_processed + self.harness.filesize) as u64
            } else {
                self.bytes_processed
            },
            lines_processed: if success {
                (self.lines_processed + self.harness.lines) as u64
            } else {
                self.lines_processed
            },
            ..self
        }
    }

    /// The scanner after a reset: the stream is in the fresh state.
    pub open spec fn reset(self) -> Streaming {
        let fresh = EvalState::fresh(self.table, self.cap);
        Streaming {
            harness: Harness {
                eval: fresh,
                memory: with_bitmaps(
                    self.harness.memory,
                    self.table,
                    fresh.rule_bits,
                    fresh.pattern_bits,
                ),
                global_offset: 0,
                filesize: 0,
                lines: 0,
                ..self.harness
            },
            bytes_processed: 0,
            lines_processed: 0,
            ..self
        }
    }

    /// The scanner after a whole scan during which the evaluator made the
    /// reports `calls`.
    pub open spec fn scan(
        self,
        len: usize,
        lines: u64,
        epoch: u64,
        calls: Seq<HostCall>,
        success: bool,
    ) -> Streaming {
        let begun = self.scan_begun(len, lines, epoch);
        (Streaming {
            harness: begun.harness.called_all(self.table, calls),
            ..begun
        }).scan_finished(success)
    }

    /// A whole scan changes the stream as [`StreamState::scan`] says: the
    /// streaming scanner and a stream of a multi-stream scanner that are fed
    /// the same chunks and reports are in the same state.
    pub proof fn lemma_scan(
        self,
        len: usize,
        lines: u64,
        epoch: u64,
        calls: Seq<HostCall>,
        success: bool,
    )
        ensures
            self.scan(len, lines, epoch, calls, success).stream() == self.stream().scan(
                self.table,
                len,
                lines,
                calls,
                success,
            ),
    {
        self.scan_begun(len, lines, epoch).harness.lemma_called_all(self.table, calls);
    }
}

/// A scanner that processes one stream incrementally. Matches and matching
/// rules accumulate across the chunks; match offsets count from the start of
/// the stream.
///
/// A scan has two halves. [`StreamingScanner::scan_chunk`] or
/// [`StreamingScanner::scan_line`] sets the scan up; the caller then runs the
/// evaluator, which reports through the `track_*` methods;
/// [`StreamingScanner::finish_scan`] commits what was reported.
pub struct StreamingScanner<'r> {
    rules: &'r Rules,
    scan_context: ScanContext<'r>,
    total_bytes_processed: u64,
    line_count: u64,
    timeout: Option<Duration>,
    max_matches_per_pattern: usize,
    module_outputs: ModuleOutputs,
    modules_initialized: bool,
    offset_cache: Option<OffsetCache>,
}

impl<'r> View for StreamingScanner<'r> {
    type V = Streaming;

    closed spec fn view(&self) -> Streaming {
        Streaming {
            table: self.rules@,
            cap: self.max_matches_per_pattern as nat,
            harness: self.scan_context@,
            bytes_processed: self.total_bytes_processed,
            lines_processed: self.line_count,
            timeout: self.timeout,
            modules: self.module_outputs@,
            modules_initialized: self.modules_initialized,
            cache: match self.offset_cache {
                Some(cache) => Some(cache@),
                None => None,
            },
        }
    }
}

impl<'r> StreamingScanner<'r> {
    /// The rule set the scanner was made for.
    pub closed spec fn rule_set(&self) -> &'r Rules {
        self.rules
    }

    /// Invariant of the scanner; every public operation keeps it.
    pub closed spec fn wf(&self) -> bool {
        &&& self.rules.wf()
        &&& self.scan_context.wf()
        &&& self.scan_context.rules() == self.rules
        &&& self@.wf()
        &&& match self.offset_cache {
            Some(cache) => cache.capacity() == crate::offset_cache::DEFAULT_CACHE_ENTRIES,
            None => true,
        }
    }

    /// What the invariant says of the content.
    pub proof fn lemma_wf(&self)
        requires
            self.wf(),
        ensures
            self@.wf(),
            self.rule_set().wf(),
            self@.table == self.rule_set()@,
    {
    }

    /// Creates a streaming scanner for `rules`, with the stream in the fresh
    /// state.
    pub fn new(rules: &'r Rules) -> (scanner: StreamingScanner<'r>)
        requires
            rules.wf(),
        ensures
            scanner.wf(),
            scanner.rule_set() == rules,
            scanner@.stream() == StreamState::fresh(rules@, DEFAULT_MAX_MATCHES_PER_PATTERN as nat),
            scanner@.harness.memory == Seq::new(
                crate::layout::spec_memory_size(rules@),
                |i: int| 0u8,
            ),
            scanner@.harness.global_offset == 0,
            scanner@.harness.filesize == 0,
            scanner@.harness.lines == 0,
            scanner@.harness.deadline == 0,
            !scanner@.harness.pattern_search_done,
            scanner@.cap == DEFAULT_MAX_MATCHES_PER_PATTERN,
            scanner@.timeout.is_none(),
            scanner@.cache.is_none(),
            !scanner@.modules_initialized,
            scanner@.modules == (ModuleTable { supplied: Seq::empty(), outputs: Seq::empty() }),
    {
        let scanner = StreamingScanner {
            rules,
            scan_context: ScanContext::new(rules, DEFAULT_MAX_MATCHES_PER_PATTERN),
            total_bytes_processed: 0,
            line_count: 0,
            timeout: None,
            max_matches_per_pattern: DEFAULT_MAX_MATCHES_PER_PATTERN,
            module_outputs: ModuleOutputs::new(),
            modules_initialized: false,
            offset_cache: None,
        };
        proof {
            scanner.scan_context.lemma_wf();
        }
        scanner
    }

    /// Sets the timeout of the scans started from now on.
    pub fn set_timeout(&mut self, timeout: Duration) -> (scanner: &mut Self)
        requires
            old(self).wf(),
        ensures
            scanner.wf(),
            scanner.rule_set() == old(self).rule_set(),
            scanner@ == (Streaming { timeout: Some(timeout), ..old(self)@ }),
            *final(self) == *final(scanner),
    {
        self.timeout = Some(timeout);
        self
    }

    /// Enables the cache that keeps scanned lines by trace identifier. A
    /// cache enabled before is emptied.
    pub fn enable_offset_cache(&mut self) -> (scanner: &mut Self)
        requires
            old(self).wf(),
        ensures
            scanner.wf(),
            scanner.rule_set() == old(self).rule_set(),
            scanner@ == (Streaming { cache: Some(Seq::empty()), ..old(self)@ }),
            *final(self) == *final(scanner),
    {
        self.offset_cache = Some(OffsetCache::new());
        self
    }

    /// Caches the bytes of a line under a trace identifier. Returns whether
    /// the cache is enabled; if not, nothing happens.
    pub fn cache_line(&mut self, trace_id: &str, data: &[u8]) -> (enabled: bool)
        requires
            old(self).wf(),
        ensures
            final(self).wf(),
            final(self).rule_set() == old(self).rule_set(),
            enabled == old(self)@.cache.is_some(),
            !enabled ==> final(self)@ == old(self)@,
            enabled ==> cached(final(self)@.cache.unwrap(), trace_id@) == Some(data@),
            enabled ==> final(self)@ == (Streaming {
                cache: Some(
                    stored(
                        old(self)@.cache.unwrap(),
                        crate::offset_cache::DEFAULT_CACHE_ENTRIES as nat,
                        trace_id@,
                        data@,
                    ),
                ),
                ..old(self)@
            }),
    {
        match &mut self.offset_cache {
            Some(cache) => {
                cache.put(trace_id, data);
                true
            },
            None => false,
        }
    }

    /// The bytes cached under a trace identifier, if the cache is enabled
    /// and holds them. A line found becomes the most recently used.
    pub fn cached_line(&mut self, trace_id: &str) -> (data: Option<Vec<u8>>)
        requires
            old(self).wf(),
        ensures
            final(self).wf(),
            final(self).rule_set() == old(self).rule_set(),
            match old(self)@.cache {
                Some(entries) => {
                    &&& final(self)@ == (Streaming {
                        cache: Some(touched(entries, trace_id@)),
                        ..old(self)@
                    })
                    &&& match data {
                        Some(bytes) => cached(entries, trace_id@) == Some(bytes@),
                        None => cached(entries, trace_id@).is_none(),
                    }
                },
                None => final(self)@ == old(self)@ && data.is_none(),
            },
    {
        match &mut self.offset_cache {
            Some(cache) => cache.get(trace_id),
            None => None,
        }
    }

    /// The harness, for the evaluator to read what is installed.
    pub fn scan_context(&self) -> (ctx: &ScanContext<'r>)
        requires
            self.wf(),
        ensures
            ctx.wf(),
            ctx.rules() == self.rule_set(),
            ctx@ == self@.harness,
    {
        &self.scan_context
    }

    fn _scan_data(&mut self, data: &[u8], count_lines: bool, epoch: u64) -> (request: ScanRequest)
        requires
            old(self).wf(),
            old(self)@.bytes_processed + data@.len() <= u64::MAX,
            old(self)@.lines_processed + (if count_lines {
                line_count(data@)
            } else {
                1
            }) <= u64::MAX,
        ensures
            final(self).wf(),
            final(self).rule_set() == old(self).rule_set(),
            final(self)@ == old(self)@.scan_begun(
                data@.len() as usize,
                if count_lines {
                    line_count(data@) as u64
                } else {
                    1
                },
                epoch,
            ),
            request.timeout_secs == spec_timeout_secs(old(self)@.timeout),
            request.deadline == spec_deadline(epoch, spec_timeout_secs(old(self)@.timeout)),
            request.start_heartbeat == old(self)@.timeout.is_some(),
            request.initialize_modules == !old(self)@.modules_initialized,
    {
        let secs = timeout_secs(self.timeout);
        let deadline = deadline_for(epoch, secs);
        let lines: u64 = if count_lines {
            crate::lines::count_lines(data) as u64
        } else {
            1
        };
        self.scan_context.begin_chunk(data.len(), lines, self.total_bytes_processed, deadline);
        proof {
            self.scan_context.lemma_wf();
        }
        ScanRequest {
            timeout_secs: secs,
            deadline,
            start_heartbeat: self.timeout.is_some(),
            initialize_modules: !self.modules_initialized,
        }
    }

    /// Starts the scan of a chunk of data that may hold several lines. The
    /// chunk counts for one line per newline, plus one if it does not end in
    /// a newline and is not empty. The evaluator has to run next, then
    /// [`StreamingScanner::finish_scan`].
    pub fn scan_chunk(&mut self, chunk: &[u8], epoch: u64) -> (request: ScanRequest)
        requires
            old(self).wf(),
            old(self)@.bytes_processed + chunk@.len() <= u64::MAX,
            old(self)@.lines_processed + line_count(chunk@) <= u64::MAX,
        ensures
            final(self).wf(),
            final(self).rule_set() == old(self).rule_set(),
            final(self)@ == old(self)@.scan_begun(
                chunk@.len() as usize,
                line_count(chunk@) as u64,
                epoch,
            ),
            request.timeout_secs == spec_timeout_secs(old(self)@.timeout),
            request.deadline == spec_deadline(epoch, spec_timeout_secs(old(self)@.timeout)),
            request.start_heartbeat == old(self)@.timeout.is_some(),
            request.initialize_modules == !old(self)@.modules_initialized,
    {
        self._scan_data(chunk, true, epoch)
    }

    /// Starts the scan of a single line, which counts for exactly one line.
    /// The evaluator has to run next, then [`StreamingScanner::finish_scan`].
    pub fn scan_line(&mut self, line: &[u8], epoch: u64) -> (request: ScanRequest)
        requires
            old(self).wf(),
            old(self)@.bytes_processed + line@.len() <= u64::MAX,
            old(self)@.lines_processed + 1 <= u64::MAX,
        ensures
            final(self).wf(),
            final(self).rule_set() == old(self).rule_set(),
            final(self)@ == old(self)@.scan_begun(line@.len() as usize, 1, epoch),
            request.timeout_secs == spec_timeout_secs(old(self)@.timeout),
            request.deadline == spec_deadline(epoch, spec_timeout_secs(old(self)@.timeout)),
            request.start_heartbeat == old(self)@.timeout.is_some(),
            request.initialize_modules == !old(self)@.modules_initialized,
    {
        self._scan_data(line, false, epoch)
    }

    /// Whether the counters can take `len` more bytes and `lines` more
    /// lines.
    pub fn counters_can_take(&self, len: usize, lines: usize) -> (fits: bool)
        ensures
            fits == (self@.bytes_processed + len <= u64::MAX && self@.lines_processed + lines
                <= u64::MAX),
    {
        len as u64 <= u64::MAX - self.total_bytes_processed && lines as u64 <= u64::MAX
            - self.line_count
    }

    /// Starts the scan of a chunk like [`StreamingScanner::scan_chunk`] if
    /// the counters can take the chunk, and does nothing otherwise.
    pub fn try_scan_chunk(&mut self, chunk: &[u8], epoch: u64) -> (request: Option<ScanRequest>)
        requires
            old(self).wf(),
        ensures
            final(self).wf(),
            final(self).rule_set() == old(self).rule_set(),
            request.is_some() == (old(self)@.bytes_processed + chunk@.len() <= u64::MAX && old(
                self,
            )@.lines_processed + line_count(chunk@) <= u64::MAX),
            request.is_none() ==> final(self)@ == old(self)@,
            request.is_some() ==> {
                &&& final(self)@ == old(self)@.scan_begun(
                    chunk@.len() as usize,
                    line_count(chunk@) as u64,
                    epoch,
                )
                &&& request.unwrap().timeout_secs == spec_timeout_secs(old(self)@.timeout)
                &&& request.unwrap().deadline == spec_deadline(
                    epoch,
                    spec_timeout_secs(old(self)@.timeout),
                )
                &&& request.unwrap().start_heartbeat == old(self)@.timeout.is_some()
                &&& request.unwrap().initialize_modules == !old(self)@.modules_initialized
            },
    {
        let lines = crate::lines::count_lines(chunk);
        if self.counters_can_take(chunk.len(), lines) {
            Some(self.scan_chunk(chunk, epoch))
        } else {
            None
        }
    }

    /// Starts the scan of a line like [`StreamingScanner::scan_line`] if the
    /// counters can take the line, and does nothing otherwise.
    pub fn try_scan_line(&mut self, line: &[u8], epoch: u64) -> (request: Option<ScanRequest>)
        requires
            old(self).wf(),
        ensures
            final(self).wf(),
            final(self).rule_set() == old(self).rule_set(),
            request.is_some() == (old(self)@.bytes_processed + line@.len() <= u64::MAX && old(
                self,
            )@.lines_processed + 1 <= u64::MAX),
            request.is_none() ==> final(self)@ == old(self)@,
            request.is_some() ==> {
                &&& final(self)@ == old(self)@.scan_begun(line@.len() as usize, 1, epoch)
                &&& request.unwrap().timeout_secs == spec_timeout_secs(old(self)@.timeout)
                &&& request.unwrap().deadline == spec_deadline(
                    epoch,
                    spec_timeout_secs(old(self)@.timeout),
                )
                &&& request.unwrap().start_heartbeat == old(self)@.timeout.is_some()
                &&& request.unwrap().initialize_modules == !old(self)@.modules_initialized
            },
    {
        if self.counters_can_take(line.len(), 1) {
            Some(self.scan_line(line, epoch))
        } else {
            None
        }
    }

    /// Ends the scan in progress after the evaluator has run. The rules that
    /// the evaluator reported are committed. If the evaluator returned zero,
    /// the counters advance by the chunk and the scan succeeds. If it was
    /// stopped, the scan fails with the reason given, and if it returned
    /// another value, with an internal error; the counters then stay.
    pub fn finish_scan(&mut self, exit: EvaluatorExit) -> (result: Result<(), ScanError>)
        requires
            old(self).wf(),
        ensures
            final(self).wf(),
            final(self).rule_set() == old(self).rule_set(),
            final(self)@ == old(self)@.scan_finished(exit == EvaluatorExit::Returned(0)),
            final(self)@.harness.eval.settled(),
            forall|r: RuleId|
                r < old(self)@.table.rules() ==> (crate::bitmap::bit_is_set(
                    final(self)@.harness.eval.rule_bits,
                    r as int,
                ) <==> final(self)@.harness.eval.lists.contains(r)),
            match exit {
                EvaluatorExit::Returned(code) => if code == 0 {
                    result is Ok
                } else {
                    result is Err && result->Err_0 is Internal
                },
                EvaluatorExit::Failed(err) => result == Err::<(), ScanError>(err),
            },
    {
        proof {
            self.scan_context.lemma_wf();
            self@.harness.eval.lemma_committed(self@.table);
        }
        let done = self.scan_context.end_chunk();
        proof {
            self.scan_context.lemma_wf();
        }
        match exit {
            EvaluatorExit::Returned(code) => {
                if code == 0 {
                    self.total_bytes_processed = self.total_bytes_processed + done.0 as u64;
                    self.line_count = self.line_count + done.1;
                    Ok(())
                } else {
                    Err(
                        ScanError::Internal(
                            "the evaluator returned a value other than zero".to_owned(),
                        ),
                    )
                }
            },
            EvaluatorExit::Failed(err) => Err(err),
        }
    }

    /// Host call of the evaluator: the rule `rule_id` matches. Returns
    /// whether `rule_id` names a rule.
    pub fn track_rule_match(&mut self, rule_id: RuleId) -> (known: bool)
        requires
            old(self).wf(),
        ensures
            final(self).wf(),
            final(self).rule_set() == old(self).rule_set(),
            known == (rule_id < old(self)@.table.rules()),
            final(self)@ == (Streaming {
                harness: old(self)@.harness.called(
                    old(self)@.table,
                    HostCall::RuleMatch { rule_id },
                ),
                ..old(self)@
            }),
    {
        let known = self.scan_context.track_rule_match(rule_id);
        proof {
            self.scan_context.lemma_wf();
        }
        known
    }

    /// Host call of the pattern search: `pattern_id` occurs at `[start, end)`
    /// of the chunk being scanned. Returns whether the match store took the
    /// occurrence as a new match.
    pub fn track_pattern_match(
        &mut self,
        pattern_id: PatternId,
        start: usize,
        end: usize,
        xor_key: Option<u8>,
    ) -> (recorded: bool)
        requires
            old(self).wf(),
        ensures
            final(self).wf(),
            final(self).rule_set() == old(self).rule_set(),
            final(self)@ == (Streaming {
                harness: old(self)@.harness.called(
                    old(self)@.table,
                    HostCall::PatternMatch { pattern_id, start, end, xor_key },
                ),
                ..old(self)@
            }),
            recorded == (pattern_id < old(self)@.table.patterns && old(self)@.harness.in_chunk(
                start,
                end,
            ) && old(self)@.harness.eval.store.accepts(
                pattern_id,
                old(self)@.harness.rebased(start, end, xor_key),
            )),
    {
        let recorded = self.scan_context.track_pattern_match(pattern_id, start, end, xor_key);
        proof {
            self.scan_context.lemma_wf();
        }
        recorded
    }

    /// Host call of the pattern search: a link of a chained pattern occurs at
    /// `[start, end)` of the chunk being scanned. Returns whether the range
    /// lies in the chunk; if not, nothing changes.
    pub fn track_unconfirmed_match(
        &mut self,
        sub_pattern_id: SubPatternId,
        start: usize,
        end: usize,
        chain_length: u32,
    ) -> (recorded: bool)
        requires
            old(self).wf(),
        ensures
            final(self).wf(),
            final(self).rule_set() == old(self).rule_set(),
            final(self)@ == (Streaming {
                harness: old(self)@.harness.called(
                    old(self)@.table,
                    HostCall::UnconfirmedMatch { sub_pattern_id, start, end, chain_length },
                ),
                ..old(self)@
            }),
            recorded == old(self)@.harness.in_chunk(start, end),
    {
        let recorded = self.scan_context.track_unconfirmed_match(
            sub_pattern_id,
            start,
            end,
            chain_length,
        );
        proof {
            self.scan_context.lemma_wf();
        }
        recorded
    }

    /// Host call of the pattern search: consumes the pending occurrences of
    /// the chain link `sub_pattern_id` and hands them out in insertion order.
    pub fn take_unconfirmed_matches(&mut self, sub_pattern_id: SubPatternId) -> (taken: Vec<
        UnconfirmedMatch,
    >)
        requires
            old(self).wf(),
        ensures
            final(self).wf(),
            final(self).rule_set() == old(self).rule_set(),
            taken@ == old(self)@.harness.eval.store.pending(sub_pattern_id),
            final(self)@ == (Streaming {
                harness: old(self)@.harness.called(
                    old(self)@.table,
                    HostCall::TakeUnconfirmed { sub_pattern_id },
                ),
                ..old(self)@
            }),
    {
        let taken = self.scan_context.take_unconfirmed_matches(sub_pattern_id);
        proof {
            self.scan_context.lemma_wf();
        }
        taken
    }

    /// Host call of the evaluator: asks whether the pattern search still has
    /// to run for the chunk being scanned, and marks it as run.
    pub fn begin_pattern_search(&mut self) -> (needed: bool)
        requires
            old(self).wf(),
        ensures
            final(self).wf(),
            final(self).rule_set() == old(self).rule_set(),
            needed == !old(self)@.harness.pattern_search_done,
            final(self)@ == (Streaming {
                harness: old(self)@.harness.called(old(self)@.table, HostCall::BeginPatternSearch),
                ..old(self)@
            }),
    {
        let needed = self.scan_context.begin_pattern_search();
        proof {
            self.scan_context.lemma_wf();
        }
        needed
    }

    /// Resets the scanner to its initial state: all matches and matching
    /// rules are dropped, the bitmaps cleared and the counters set to zero.
    pub fn reset(&mut self)
        requires
            old(self).wf(),
        ensures
            final(self).wf(),
            final(self).rule_set() == old(self).rule_set(),
            final(self)@ == old(self)@.reset(),
    {
        self.scan_context.reset(self.max_matches_per_pattern);
        self.total_bytes_processed = 0;
        self.line_count = 0;
        proof {
            self.scan_context.lemma_wf();
        }
    }

    /// Returns the total number of bytes processed so far.
    pub fn bytes_processed(&self) -> (bytes: u64)
        ensures
            bytes == self@.bytes_processed,
    {
        self.total_bytes_processed
    }

    /// Returns the number of lines processed so far.
    pub fn lines_processed(&self) -> (lines: u64)
        ensures
            lines == self@.lines_processed,
    {
        self.line_count
    }

    /// The imported modules whose main function has to be invoked before
    /// [`StreamingScanner::initialize_modules`], in import order.
    pub fn modules_to_run(&self) -> (names: Vec<String>)
        ensures
            crate::modules::names_of(names@) == crate::modules::modules_in_need(
                self.rule_set().modules(),
                self@.modules.supplied,
            ),
    {
        self.module_outputs.modules_to_run(self.rules.imports())
    }

    /// Initializes the imported modules, given what the main functions of the
    /// modules in need gave. This happens once per scanner: after a
    /// successful initialization further calls change nothing. A module whose
    /// main function failed stops the initialization with that failure.
    pub fn initialize_modules(&mut self, runs: &Vec<ModuleRun>) -> (result: Result<(), ScanError>)
        requires
            old(self).wf(),
        ensures
            final(self).wf(),
            final(self).rule_set() == old(self).rule_set(),
            old(self)@.modules_initialized ==> result is Ok && final(self)@ == old(self)@,
            !old(self)@.modules_initialized ==> {
                let done = old(self)@.modules.initialize_all(
                    old(self).rule_set().modules(),
                    crate::modules::runs_of(runs@),
                );
                &&& final(self)@ == (Streaming {
                    modules: done.0,
                    modules_initialized: done.1.is_none(),
                    ..old(self)@
                })
                &&& match done.1 {
                    Some(err) => result == Err::<(), ScanError>(err),
                    None => result is Ok,
                }
            },
    {
        if self.modules_initialized {
            return Ok(());
        }
        let result = self.module_outputs.initialize_modules(self.rules.imports(), runs);
        if result.is_ok() {
            self.modules_initialized = true;
        }
        result
    }

    /// Returns the current scan results: the rules that match on what was
    /// scanned so far.
    pub fn get_matches<'s>(&'s self) -> (results: StreamingScanResults<'s, 'r>)
        requires
            self.wf(),
        ensures
            results.wf(),
            results.scanner() == self,
    {
        StreamingScanResults { scanner: self }
    }
}

/// Results of a streaming scan.
pub struct StreamingScanResults<'s, 'r> {
    scanner: &'s StreamingScanner<'r>,
}

/// Iterator-like cursor over the rules that matched in a streaming scan.
pub struct StreamingMatchingRules<'s, 'r> {
    scanner: &'s StreamingScanner<'r>,
    position: usize,
}

impl<'s, 'r> StreamingScanResults<'s, 'r> {
    /// The scanner the results are read from.
    pub closed spec fn scanner(&self) -> &'s StreamingScanner<'r> {
        self.scanner
    }

    /// The results are read from a well-formed scanner.
    pub closed spec fn wf(&self) -> bool {
        self.scanner.wf()
    }

    /// Returns a cursor over the rules that matched, in the order in which
    /// they first matched. Private rules are left out.
    pub fn matching_rules(&self) -> (rules: StreamingMatchingRules<'s, 'r>)
        requires
            self.wf(),
        ensures
            rules.wf(),
            rules.scanner() == self.scanner(),
            rules.remaining() == self.scanner()@.stream().matching_rules(),
    {
        StreamingMatchingRules::new(self.scanner)
    }
}

impl<'s, 'r> StreamingScanResults<'s, 'r> {
    /// Returns the outputs that the imported modules produced.
    pub fn module_outputs(&self) -> (outputs: &'s Vec<ModuleOutput>)
        ensures
            crate::modules::outputs_of(outputs@) == self.scanner()@.modules.outputs,
    {
        self.scanner.module_outputs.module_outputs()
    }
}

impl<'s, 'r> StreamingMatchingRules<'s, 'r> {
    /// The scanner the rules are read from.
    pub closed spec fn scanner(&self) -> &'s StreamingScanner<'r> {
        self.scanner
    }

    /// The rules still to come, in order.
    pub closed spec fn remaining(&self) -> Seq<RuleId> {
        self.scanner@.harness.eval.lists.non_private.skip(self.position as int)
    }

    /// The cursor lies within the list of a well-formed scanner.
    pub closed spec fn wf(&self) -> bool {
        &&& self.scanner.wf()
        &&& self.position <= self.scanner@.harness.eval.lists.non_private.len()
    }

    fn new(scanner: &'s StreamingScanner<'r>) -> (rules: Self)
        requires
            scanner.wf(),
        ensures
            rules.wf(),
            rules.scanner() == scanner,
            rules.remaining() == scanner@.stream().matching_rules(),
    {
        proof {
            let list = scanner@.harness.eval.lists.non_private;
            assert(list.skip(0) =~= list);
        }
        StreamingMatchingRules { scanner, position: 0 }
    }

    /// Hands out the next rule, `None` after the last one.
    pub fn next(&mut self) -> (rule: Option<Rule<'r>>)
        requires
            old(self).wf(),
        ensures
            final(self).wf(),
            final(self).scanner() == old(self).scanner(),
            rule.is_some() == (old(self).remaining().len() > 0),
            rule.is_some() ==> {
                &&& rule.unwrap().id == old(self).remaining()[0]
                &&& *rule.unwrap().info == old(self).scanner().rule_set().infos()[rule.unwrap().id as int]
                &&& final(self).remaining() == old(self).remaining().drop_first()
            },
            rule.is_none() ==> final(self).remaining() == old(self).remaining(),
    {
        let list = self.scanner.scan_context.non_private_matching_rules();
        if self.position < list.len() {
            let id = list[self.position];
            proof {
                self.scanner.scan_context.lemma_wf();
                assert(self.scanner@.harness.eval.lists.non_private[self.position as int] == id);
            }
            self.position = self.position + 1;
            proof {
                assert(self.remaining() =~= old(self).remaining().drop_first());
            }
            Some(Rule { id, info: self.scanner.rules.get(id) })
        } else {
            None
        }
    }
}

} // verus!
