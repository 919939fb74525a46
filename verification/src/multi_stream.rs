//! The multi-stream dispatcher: many independent streams scanned in any
//! interleaving through one evaluator harness.

use crate::context::{Harness, ScanContext, StreamContext};
use crate::error::{EvaluatorExit, ScanError};
use crate::layout::with_bitmaps;
use crate::lines::line_count;
use crate::matches::UnconfirmedMatch;
use crate::modules::{ModuleOutput, ModuleOutputs, ModuleRun, ModuleTable};
use crate::rules::{PatternId, Rule, RuleId, RuleTable, Rules, SubPatternId};
use crate::state::{EvalState, HostCall, StreamState};
use crate::stream_key::{id_of, key_of, uuid_bits};
use crate::timeout::{deadline_for, spec_deadline, spec_timeout_secs, timeout_secs};
use std::collections::HashMap;
use std::time::Duration;
use uuid::Uuid;
use vstd::std_specs::iter::IteratorSpec;
use vstd::prelude::*;

verus! {

broadcast use vstd::std_specs::hash::group_hash_axioms;

/// Cap on the matches kept per pattern unless another one is configured.
pub const DEFAULT_MAX_MATCHES_PER_PATTERN: usize = 1_000_000;

/// Mathematical content of a dispatcher.
pub struct Dispatcher {
    /// The rule set.
    pub table: RuleTable,
    /// Cap on matches per pattern for streams created from now on.
    pub cap: nat,
    /// The state of every live stream, by the 128 bits of its key.
    pub streams: Map<u128, StreamState>,
    /// The stream installed in the harness, if any.
    pub active: Option<u128>,
    /// The harness.
    pub harness: Harness,
    /// The configured timeout.
    pub timeout: Option<Duration>,
    /// The outputs of the imported modules.
    pub modules: ModuleTable,
    /// Whether the imported modules have been initialized.
    pub modules_initialized: bool,
}

impl Dispatcher {
    /// Invariant of the dispatcher. Every stream is well formed, and its
    /// global offset is its count of bytes; the installed stream is a live
    /// one, and its state and global offset are the ones in the harness.
    pub open spec fn wf(self) -> bool {
        &&& self.cap > 0
        &&& self.harness.wf(self.table)
        &&& forall|k: u128| #[trigger]
            self.streams.contains_key(k) ==> self.streams[k].wf(self.table)
                && self.streams[k].global_offset == self.streams[k].bytes_processed
        &&& match self.active {
            Some(k) => {
                &&& self.streams.contains_key(k)
                &&& self.streams[k].eval == self.harness.eval
                &&& self.streams[k].global_offset == self.harness.global_offset
                &&& self.streams[k].bytes_processed + self.harness.filesize <= u64::MAX
                &&& self.streams[k].lines_processed + self.harness.lines <= u64::MAX
            },
            None => true,
        }
    }

    /// Bytes scanned on stream `k`; zero for a stream that is not live.
    pub open spec fn bytes_of(self, k: u128) -> u64 {
        if self.streams.contains_key(k) {
            self.streams[k].bytes_processed
        } else {
            0
        }
    }

    /// Lines scanned on stream `k`; zero for a stream that is not live.
    pub open spec fn lines_of(self, k: u128) -> u64 {
        if self.streams.contains_key(k) {
            self.streams[k].lines_processed
        } else {
            0
        }
    }

    /// The dispatcher with `harness` in place of its harness. The installed
    /// stream takes the state of the new harness.
    pub open spec fn with_harness(self, harness: Harness) -> Dispatcher {
        Dispatcher {
            harness,
            streams: match self.active {
                Some(k) => self.streams.insert(
                    k,
                    StreamState { eval: harness.eval, ..self.streams[k] },
                ),
                None => self.streams,
            },
            ..self
        }
    }

    /// The dispatcher after one report of the evaluator: the harness takes
    /// the report, and with it the installed stream.
    pub open spec fn called(self, call: HostCall) -> Dispatcher {
        self.with_harness(self.harness.called(self.table, call))
    }

    /// The dispatcher after the pending rules of the harness were committed.
    pub open spec fn settled(self) -> Dispatcher {
        self.with_harness(
            Harness { eval: self.harness.eval.committed(self.table), ..self.harness },
        )
    }

    /// The dispatcher after stream `k` was installed in the harness. A stream
    /// that is not live comes into being with the fresh state. The harness
    /// takes the state and the global offset of the stream. The bitmaps of
    /// the stream are written into memory; nothing else of memory changes.
    pub open spec fn installed(self, k: u128) -> Dispatcher {
        if self.active == Some(k) {
            self
        } else {
            let stream = if self.streams.contains_key(k) {
                self.streams[k]
            } else {
                StreamState::fresh(self.table, self.cap)
            };
            Dispatcher {
                streams: self.streams.insert(k, stream),
                active: Some(k),
                harness: Harness {
                    eval: stream.eval,
                    memory: with_bitmaps(
                        self.harness.memory,
                        self.table,
                        stream.eval.rule_bits,
                        stream.eval.pattern_bits,
                    ),
                    global_offset: stream.global_offset,
                    filesize: 0,
                    lines: 0,
                    ..self.harness
                },
                ..self
            }
        }
    }

    /// The dispatcher when the evaluator is about to scan a chunk of `len`
    /// bytes, counted as `lines` lines, on stream `k`, with the epoch counter
    /// at `epoch`. The pending rules of the stream installed before are
    /// committed, stream `k` is installed, and the globals of the scan are
    /// set: the chunk starts at the stream offset given by the bytes scanned
    /// so far, and the deadline lies the timeout after `epoch`.
    pub open spec fn scan_begun(self, k: u128, len: usize, lines: u64, epoch: u64) -> Dispatcher {
        let d = self.settled().installed(k);
        d.with_harness(
            Harness {
                eval: d.harness.eval.committed(self.table).without_pending(),
                memory: d.harness.memory,
                global_offset: d.streams[k].bytes_processed,
                filesize: len,
                lines,
                deadline: spec_deadline(epoch, spec_timeout_secs(self.timeout)),
                pattern_search_done: false,
            },
        )
    }

    /// The dispatcher after the evaluator ended its run. The pending rules
    /// are committed in any case. After a successful run the counters of the
    /// installed stream advance by the chunk, and the global offset follows
    /// them; after a failed one they stay.
    pub open spec fn scan_finished(self, success: bool) -> Dispatcher {
        let harness = Harness {
            eval: self.harness.eval.committed(self.table),
            global_offset: match self.active {
                Some(k) => if success {
                    (self.streams[k].bytes_processed + self.harness.filesize) as u64
                } else {
                    self.harness.global_offset
                },
                None => self.harness.global_offset,
            },
            filesize: 0,
            lines: 0,
            ..self.harness
        };
        match self.active {
            Some(k) => Dispatcher {
                harness,
                streams: self.streams.insert(
                    k,
                    if success {
                        self.streams[k].scanned(
                            self.table,
                            self.harness.filesize as nat,
                            self.harness.lines as nat,
                        )
                    } else {
                        StreamState {
                            eval: harness.eval,
                            global_offset: harness.global_offset,
                            ..self.streams[k]
                        }
                    },
                ),
                ..self
            },
            None => Dispatcher { harness, ..self },
        }
    }

    /// The dispatcher after stream `k` was reset: a live stream goes back to
    /// the fresh state and keeps its key; the harness follows if the stream is
    /// installed. A stream that is not live changes nothing.
    pub open spec fn stream_reset(self, k: u128) -> Dispatcher {
        if self.streams.contains_key(k) {
            let fresh = StreamState::fresh(self.table, self.cap);
            Dispatcher {
                streams: self.streams.insert(k, fresh),
                harness: if self.active == Some(k) {
                    Harness {
                        eval: fresh.eval,
                        memory: with_bitmaps(
                            self.harness.memory,
                            self.table,
                            fresh.eval.rule_bits,
                            fresh.eval.pattern_bits,
                        ),
                        global_offset: 0,
                        filesize: 0,
                        lines: 0,
                        ..self.harness
                    }
                } else {
                    self.harness
                },
                ..self
            }
        } else {
            self
        }
    }

    /// The dispatcher after stream `k` was closed: the stream is no longer
    /// live, and no stream is installed if it was.
    pub open spec fn stream_closed(self, k: u128) -> Dispatcher {
        Dispatcher {
            streams: self.streams.remove(k),
            active: if self.active == Some(k) {
                None
            } else {
                self.active
            },
            ..self
        }
    }
}

/// What the caller has to do between the start of a scan and its end.
pub struct ScanRequest {
    /// Seconds the evaluator may run.
    pub timeout_secs: u64,
    /// Value of the epoch counter past which the evaluator is to be aborted.
    pub deadline: u64,
    /// Whether the epoch counter has to be running: a timeout is configured.
    pub start_heartbeat: bool,
    /// Whether the imported modules still have to be initialized before the
    /// evaluator runs.
    pub initialize_modules: bool,
}

/// A scanner for many independent streams. Each stream is named by a key and
/// keeps its own matches, matching rules and counters; all streams share the
/// rule set and one evaluator harness.
///
/// A scan has two halves. [`MultiStreamScanner::scan_chunk`] or
/// [`MultiStreamScanner::scan_line`] installs the stream and sets the scan up;
/// the caller then runs the evaluator, which reports through the `track_*`
/// methods; [`MultiStreamScanner::finish_scan`] commits what was reported.
pub struct MultiStreamScanner<'r> {
    rules: &'r Rules,
    scan_context: ScanContext<'r>,
    contexts: HashMap<u128, StreamContext>,
    active_stream: Option<u128>,
    timeout: Option<Duration>,
    max_matches_per_pattern: usize,
    module_outputs: ModuleOutputs,
    modules_initialized: bool,
}

impl<'r> View for MultiStreamScanner<'r> {
    type V = Dispatcher;

    closed spec fn view(&self) -> Dispatcher {
        Dispatcher {
            table: self.rules@,
            cap: self.max_matches_per_pattern as nat,
            streams: Map::new(
                |k: u128| self.contexts@.contains_key(k),
                |k: u128|
                    if self.active_stream == Some(k) {
                        StreamState { eval: self.scan_context@.eval, ..self.contexts@[k]@ }
                    } else {
                        self.contexts@[k]@
                    },
            ),
            active: self.active_stream,
            harness: self.scan_context@,
            timeout: self.timeout,
            modules: self.module_outputs@,
            modules_initialized: self.modules_initialized,
        }
    }
}

impl<'r> MultiStreamScanner<'r> {
    /// The rule set the scanner was made for.
    pub closed spec fn rule_set(&self) -> &'r Rules {
        self.rules
    }

    /// Invariant of everything but the relation between the installed stream
    /// and the harness.
    spec fn parts_wf(&self) -> bool {
        &&& self.rules.wf()
        &&& self.scan_context.wf()
        &&& self.scan_context.rules() == self.rules
        &&& self.max_matches_per_pattern > 0
        &&& forall|k: u128| #[trigger]
            self.contexts@.contains_key(k) ==> self.contexts@[k].wf(self.rules@)
    }

    /// Invariant of the scanner; every public operation keeps it.
    pub closed spec fn wf(&self) -> bool {
        &&& self.parts_wf()
        &&& self@.wf()
    }

    /// What the invariant says of the content.
    pub proof fn lemma_wf(&self)
        requires
            self.wf(),
        ensures
            self@.wf(),
            self.rule_set().wf(),
            self@.table == self.rule_set()@,
    {
    }

    /// Creates a scanner for `rules` without any stream.
    pub fn new(rules: &'r Rules) -> (scanner: MultiStreamScanner<'r>)
        requires
            rules.wf(),
        ensures
            scanner.wf(),
            scanner.rule_set() == rules,
            scanner@.streams == Map::<u128, StreamState>::empty(),
            scanner@.active.is_none(),
            scanner@.timeout.is_none(),
            !scanner@.modules_initialized,
            scanner@.modules == (ModuleTable { supplied: Seq::empty(), outputs: Seq::empty() }),
            scanner@.cap == DEFAULT_MAX_MATCHES_PER_PATTERN,
            scanner@.harness.eval == EvalState::fresh(
                rules@,
                DEFAULT_MAX_MATCHES_PER_PATTERN as nat,
            ),
            scanner@.harness.memory == Seq::new(
                crate::layout::spec_memory_size(rules@),
                |i: int| 0u8,
            ),
            scanner@.harness.global_offset == 0,
            scanner@.harness.filesize == 0,
            scanner@.harness.lines == 0,
            scanner@.harness.deadline == 0,
            !scanner@.harness.pattern_search_done,
    {
        let scanner = MultiStreamScanner {
            rules,
            scan_context: ScanContext::new(rules, DEFAULT_MAX_MATCHES_PER_PATTERN),
            contexts: HashMap::new(),
            active_stream: None,
            timeout: None,
            max_matches_per_pattern: DEFAULT_MAX_MATCHES_PER_PATTERN,
            module_outputs: ModuleOutputs::new(),
            modules_initialized: false,
        };
        proof {
            scanner.scan_context.lemma_wf();
            assert(scanner@.streams =~= Map::<u128, StreamState>::empty());
        }
        scanner
    }
}

impl<'r> MultiStreamScanner<'r> {
    /// Installs the stream `key` in the harness. The state of the stream
    /// installed so far is saved first; a stream that is not live is created.
    fn switch_to_stream(&mut self, key: u128)
        requires
            old(self).wf(),
        ensures
            final(self).wf(),
            final(self).rule_set() == old(self).rule_set(),
            final(self)@ == old(self)@.installed(key),
    {
        let same = match self.active_stream {
            Some(current) => current == key,
            None => false,
        };
        if same {
            return ;
        }
        proof {
            self.scan_context.lemma_wf();
        }
        let ghost before = self@;
        match self.active_stream {
            Some(current) => {
                match self.contexts.remove(&current) {
                    Some(mut ctx) => {
                        ctx.save_from_scanner(&self.scan_context);
                        proof {
                            ctx.lemma_wf(self.rules@);
                        }
                        self.contexts.insert(current, ctx);
                    },
                    None => {},
                }
            },
            None => {},
        }
        assert(self@.streams =~= before.streams);
        assert(self.parts_wf());
        assert(forall|k: u128| #[trigger]
            self.contexts@.contains_key(k) ==> self.contexts@[k]@ == before.streams[k]);
        if !self.contexts.contains_key(&key) {
            let ctx = StreamContext::new(self.rules, self.max_matches_per_pattern);
            self.contexts.insert(key, ctx);
        }
        let ghost stream = if before.streams.contains_key(key) {
            before.streams[key]
        } else {
            StreamState::fresh(before.table, before.cap)
        };
        assert(self.contexts@.contains_key(key));
        assert(self.contexts@[key]@ == stream);
        match self.contexts.get(&key) {
            Some(ctx) => {
                proof {
                    ctx.lemma_wf(self.rules@);
                }
                ctx.restore_to_scanner(&mut self.scan_context);
            },
            None => {},
        }
        self.active_stream = Some(key);
        proof {
            let after = before.installed(key);
            assert(self@.streams =~= after.streams);
            assert(self@.harness == after.harness);
            assert(self@ == after);
            self.scan_context.lemma_wf();
        }
    }

    /// Sets up the scan of `data` on the stream `stream_id`.
    fn _scan_data(&mut self, stream_id: &Uuid, data: &[u8], count_lines: bool, epoch: u64) -> (request:
        ScanRequest)
        requires
            old(self).wf(),
            old(self)@.bytes_of(uuid_bits(*stream_id)) + data@.len() <= u64::MAX,
            old(self)@.lines_of(uuid_bits(*stream_id)) + (if count_lines {
                line_count(data@)
            } else {
                1
            }) <= u64::MAX,
        ensures
            final(self).wf(),
            final(self).rule_set() == old(self).rule_set(),
            final(self)@ == old(self)@.scan_begun(
                uuid_bits(*stream_id),
                data@.len() as usize,
                if count_lines {
                    line_count(data@) as u64
                } else {
                    1
                },
                epoch,
            ),
            request.timeout_secs == spec_timeout_secs(old(self)@.timeout),
            request.deadline == spec_deadline(epoch, spec_timeout_secs(old(self)@.timeout)),
            request.start_heartbeat == old(self)@.timeout.is_some(),
            request.initialize_modules == !old(self)@.modules_initialized,
    {
        let key = key_of(stream_id);
        let ghost start = self@;
        proof {
            self.scan_context.lemma_wf();
            start.harness.eval.lemma_committed(start.table);
        }
        self.scan_context.commit_pending();
        proof {
            assert(self@.streams =~= start.settled().streams);
            assert(self@ == start.settled());
            self.scan_context.lemma_wf();
        }
        self.switch_to_stream(key);
        let ghost installed = self@;
        proof {
            self.scan_context.lemma_wf();
            installed.harness.eval.lemma_committed(installed.table);
        }
        let secs = timeout_secs(self.timeout);
        let deadline = deadline_for(epoch, secs);
        let lines: u64 = if count_lines {
            crate::lines::count_lines(data) as u64
        } else {
            1
        };
        let offset = match self.contexts.get(&key) {
            Some(ctx) => ctx.bytes_processed(),
            None => 0,
        };
        assert(offset == start.bytes_of(key));
        self.scan_context.begin_chunk(data.len(), lines, offset, deadline);
        proof {
            let after = start.scan_begun(key, data@.len() as usize, lines, epoch);
            assert(self@.harness == after.harness);
            assert(self@.streams =~= after.streams);
            assert(self@ == after);
            self.scan_context.lemma_wf();
        }
        ScanRequest {
            timeout_secs: secs,
            deadline,
            start_heartbeat: self.timeout.is_some(),
            initialize_modules: !self.modules_initialized,
        }
    }
}

/// Final results when closing a stream.
pub struct FinalStreamResults {
    /// Non-private rules that matched, in the order in which they first
    /// matched.
    pub non_private_matching_rules: Vec<RuleId>,
    /// Total bytes processed.
    pub bytes_processed: u64,
    /// Total lines processed.
    pub lines_processed: u64,
}

impl Dispatcher {
    /// Whether the counters of stream `k` can take a further chunk of `len`
    /// bytes that counts for `lines` lines.
    pub open spec fn can_scan(self, k: u128, len: nat, lines: nat) -> bool {
        &&& self.bytes_of(k) + len <= u64::MAX
        &&& self.lines_of(k) + lines <= u64::MAX
    }
}

impl<'r> MultiStreamScanner<'r> {
    /// Sets the timeout of the scans started from now on.
    pub fn set_timeout(&mut self, timeout: Duration) -> (scanner: &mut Self)
        requires
            old(self).wf(),
        ensures
            scanner.wf(),
            scanner.rule_set() == old(self).rule_set(),
            scanner@ == (Dispatcher { timeout: Some(timeout), ..old(self)@ }),
            *final(self) == *final(scanner),
    {
        self.timeout = Some(timeout);
        proof {
            assert(self@.streams =~= old(self)@.streams);
        }
        self
    }

    /// Sets the cap on matches per pattern for the streams created or reset
    /// from now on.
    pub fn max_matches_per_pattern(&mut self, n: usize) -> (scanner: &mut Self)
        requires
            old(self).wf(),
            n > 0,
        ensures
            scanner.wf(),
            scanner.rule_set() == old(self).rule_set(),
            scanner@ == (Dispatcher { cap: n as nat, ..old(self)@ }),
            *final(self) == *final(scanner),
    {
        self.max_matches_per_pattern = n;
        proof {
            assert(self@.streams =~= old(self)@.streams);
        }
        self
    }

    /// The harness, for the evaluator to read what is installed.
    pub fn scan_context(&self) -> (ctx: &ScanContext<'r>)
        requires
            self.wf(),
        ensures
            ctx.wf(),
            ctx.rules() == self.rule_set(),
            ctx@ == self@.harness,
    {
        &self.scan_context
    }

    /// Starts the scan of a chunk of data on the stream `stream_id`. The
    /// chunk counts for one line per newline, plus one if it does not end in
    /// a newline and is not empty. `epoch` is the current value of the epoch
    /// counter. The evaluator has to run next, then
    /// [`MultiStreamScanner::finish_scan`].
    pub fn scan_chunk(&mut self, stream_id: &Uuid, chunk: &[u8], epoch: u64) -> (request:
        ScanRequest)
        requires
            old(self).wf(),
            old(self)@.can_scan(uuid_bits(*stream_id), chunk@.len(), line_count(chunk@)),
        ensures
            final(self).wf(),
            final(self).rule_set() == old(self).rule_set(),
            final(self)@ == old(self)@.scan_begun(
                uuid_bits(*stream_id),
                chunk@.len() as usize,
                line_count(chunk@) as u64,
                epoch,
            ),
            request.timeout_secs == spec_timeout_secs(old(self)@.timeout),
            request.deadline == spec_deadline(epoch, spec_timeout_secs(old(self)@.timeout)),
            request.start_heartbeat == old(self)@.timeout.is_some(),
            request.initialize_modules == !old(self)@.modules_initialized,
    {
        self._scan_data(stream_id, chunk, true, epoch)
    }

    /// Starts the scan of a single line on the stream `stream_id`. The data
    /// counts for exactly one line. `epoch` is the current value of the epoch
    /// counter. The evaluator has to run next, then
    /// [`MultiStreamScanner::finish_scan`].
    pub fn scan_line(&mut self, stream_id: &Uuid, line: &[u8], epoch: u64) -> (request:
        ScanRequest)
        requires
            old(self).wf(),
            old(self)@.can_scan(uuid_bits(*stream_id), line@.len(), 1),
        ensures
            final(self).wf(),
            final(self).rule_set() == old(self).rule_set(),
            final(self)@ == old(self)@.scan_begun(
                uuid_bits(*stream_id),
                line@.len() as usize,
                1,
                epoch,
            ),
            request.timeout_secs == spec_timeout_secs(old(self)@.timeout),
            request.deadline == spec_deadline(epoch, spec_timeout_secs(old(self)@.timeout)),
            request.start_heartbeat == old(self)@.timeout.is_some(),
            request.initialize_modules == !old(self)@.modules_initialized,
    {
        self._scan_data(stream_id, line, false, epoch)
    }

    /// Starts the scan of a chunk like [`MultiStreamScanner::scan_chunk`] if
    /// the counters of the stream can take the chunk, and does nothing
    /// otherwise.
    pub fn try_scan_chunk(&mut self, stream_id: &Uuid, chunk: &[u8], epoch: u64) -> (request:
        Option<ScanRequest>)
        requires
            old(self).wf(),
        ensures
            final(self).wf(),
            final(self).rule_set() == old(self).rule_set(),
            request.is_some() == old(self)@.can_scan(
                uuid_bits(*stream_id),
                chunk@.len(),
                line_count(chunk@),
            ),
            request.is_none() ==> final(self)@ == old(self)@,
            request.is_some() ==> {
                &&& final(self)@ == old(self)@.scan_begun(
                    uuid_bits(*stream_id),
                    chunk@.len() as usize,
                    line_count(chunk@) as u64,
                    epoch,
                )
                &&& request.unwrap().timeout_secs == spec_timeout_secs(old(self)@.timeout)
                &&& request.unwrap().deadline == spec_deadline(
                    epoch,
                    spec_timeout_secs(old(self)@.timeout),
                )
                &&& request.unwrap().start_heartbeat == old(self)@.timeout.is_some()
                &&& request.unwrap().initialize_modules == !old(self)@.modules_initialized
            },
    {
        let lines = crate::lines::count_lines(chunk);
        if self.counters_can_take(stream_id, chunk.len(), lines) {
            Some(self.scan_chunk(stream_id, chunk, epoch))
        } else {
            None
        }
    }

    /// Starts the scan of a line like [`MultiStreamScanner::scan_line`] if
    /// the counters of the stream can take the line, and does nothing
    /// otherwise.
    pub fn try_scan_line(&mut self, stream_id: &Uuid, line: &[u8], epoch: u64) -> (request:
        Option<ScanRequest>)
        requires
            old(self).wf(),
        ensures
            final(self).wf(),
            final(self).rule_set() == old(self).rule_set(),
            request.is_some() == old(self)@.can_scan(uuid_bits(*stream_id), line@.len(), 1),
            request.is_none() ==> final(self)@ == old(self)@,
            request.is_some() ==> {
                &&& final(self)@ == old(self)@.scan_begun(
                    uuid_bits(*stream_id),
                    line@.len() as usize,
                    1,
                    epoch,
                )
                &&& request.unwrap().timeout_secs == spec_timeout_secs(old(self)@.timeout)
                &&& request.unwrap().deadline == spec_deadline(
                    epoch,
                    spec_timeout_secs(old(self)@.timeout),
                )
                &&& request.unwrap().start_heartbeat == old(self)@.timeout.is_some()
                &&& request.unwrap().initialize_modules == !old(self)@.modules_initialized
            },
    {
        if self.counters_can_take(stream_id, line.len(), 1) {
            Some(self.scan_line(stream_id, line, epoch))
        } else {
            None
        }
    }

    /// Whether the counters of a stream can take `len` more bytes and
    /// `lines` more lines.
    pub fn counters_can_take(&self, stream_id: &Uuid, len: usize, lines: usize) -> (fits: bool)
        ensures
            fits == self@.can_scan(uuid_bits(*stream_id), len as nat, lines as nat),
    {
        let bytes = match self.bytes_processed(stream_id) {
            Some(n) => n,
            None => 0,
        };
        let counted = match self.lines_processed(stream_id) {
            Some(n) => n,
            None => 0,
        };
        len as u64 <= u64::MAX - bytes && lines as u64 <= u64::MAX - counted
    }

    /// Ends the scan in progress after the evaluator has run. The rules that
    /// the evaluator reported are committed to the installed stream. If the
    /// evaluator returned zero, the stream's counters advance by the chunk and
    /// the scan succeeds. If it was stopped, the scan fails with the reason
    /// given, and if it returned another value, with an internal error; the
    /// counters then stay as they were.
    pub fn finish_scan(&mut self, exit: EvaluatorExit) -> (result: Result<(), ScanError>)
        requires
            old(self).wf(),
        ensures
            final(self).wf(),
            final(self).rule_set() == old(self).rule_set(),
            final(self)@ == old(self)@.scan_finished(exit == EvaluatorExit::Returned(0)),
            final(self)@.harness.eval.settled(),
            forall|r: RuleId|
                r < old(self)@.table.rules() ==> (crate::bitmap::bit_is_set(
                    final(self)@.harness.eval.rule_bits,
                    r as int,
                ) <==> final(self)@.harness.eval.lists.contains(r)),
            match exit {
                EvaluatorExit::Returned(code) => if code == 0 {
                    result is Ok
                } else {
                    result is Err && result->Err_0 is Internal
                },
                EvaluatorExit::Failed(err) => result == Err::<(), ScanError>(err),
            },
    {
        let ghost start = self@;
        let success = match &exit {
            EvaluatorExit::Returned(code) => *code == 0,
            EvaluatorExit::Failed(_) => false,
        };
        proof {
            self.scan_context.lemma_wf();
            start.harness.eval.lemma_committed(start.table);
        }
        let done = self.scan_context.end_chunk();
        match self.active_stream {
            Some(key) => {
                match self.contexts.remove(&key) {
                    Some(mut ctx) => {
                        ctx.save_from_scanner(&self.scan_context);
                        if success {
                            ctx.advance(done.0, done.1);
                            self.scan_context.set_global_scan_offset(ctx.bytes_processed());
                        }
                        proof {
                            ctx.lemma_wf(self.rules@);
                        }
                        self.contexts.insert(key, ctx);
                    },
                    None => {},
                }
            },
            None => {},
        }
        proof {
            let after = start.scan_finished(success);
            assert(self@.harness == after.harness);
            assert(self@.streams =~= after.streams);
            assert(self@ == after);
            self.scan_context.lemma_wf();
        }
        match exit {
            EvaluatorExit::Returned(code) => {
                if code == 0 {
                    Ok(())
                } else {
                    Err(ScanError::Internal("the evaluator returned a value other than zero".to_owned()))
                }
            },
            EvaluatorExit::Failed(err) => Err(err),
        }
    }

    /// Host call of the evaluator: the rule `rule_id` matches on the
    /// installed stream. Returns whether `rule_id` names a rule.
    pub fn track_rule_match(&mut self, rule_id: RuleId) -> (known: bool)
        requires
            old(self).wf(),
        ensures
            final(self).wf(),
            final(self).rule_set() == old(self).rule_set(),
            known == (rule_id < old(self)@.table.rules()),
            final(self)@ == old(self)@.called(HostCall::RuleMatch { rule_id }),
    {
        let known = self.scan_context.track_rule_match(rule_id);
        proof {
            self.scan_context.lemma_wf();
            let after = old(self)@.with_harness(self.scan_context@);
            assert(self@.streams =~= after.streams);
        }
        known
    }

    /// Host call of the pattern search: `pattern_id` occurs at `[start, end)`
    /// of the chunk being scanned. Returns whether the match store of the
    /// installed stream took the occurrence as a new match.
    pub fn track_pattern_match(
        &mut self,
        pattern_id: PatternId,
        start: usize,
        end: usize,
        xor_key: Option<u8>,
    ) -> (recorded: bool)
        requires
            old(self).wf(),
        ensures
            final(self).wf(),
            final(self).rule_set() == old(self).rule_set(),
            final(self)@ == old(self)@.called(
                HostCall::PatternMatch { pattern_id, start, end, xor_key },
            ),
            recorded == (pattern_id < old(self)@.table.patterns && old(self)@.harness.in_chunk(
                start,
                end,
            ) && old(self)@.harness.eval.store.accepts(
                pattern_id,
                old(self)@.harness.rebased(start, end, xor_key),
            )),
    {
        let recorded = self.scan_context.track_pattern_match(pattern_id, start, end, xor_key);
        proof {
            self.scan_context.lemma_wf();
            let after = old(self)@.with_harness(self.scan_context@);
            assert(self@.streams =~= after.streams);
        }
        recorded
    }

    /// Host call of the pattern search: a link of a chained pattern occurs at
    /// `[start, end)` of the chunk being scanned. Returns whether the range
    /// lies in the chunk; if not, nothing changes.
    pub fn track_unconfirmed_match(
        &mut self,
        sub_pattern_id: SubPatternId,
        start: usize,
        end: usize,
        chain_length: u32,
    ) -> (recorded: bool)
        requires
            old(self).wf(),
        ensures
            final(self).wf(),
            final(self).rule_set() == old(self).rule_set(),
            recorded == old(self)@.harness.in_chunk(start, end),
            final(self)@ == old(self)@.called(
                HostCall::UnconfirmedMatch { sub_pattern_id, start, end, chain_length },
            ),
    {
        let recorded = self.scan_context.track_unconfirmed_match(
            sub_pattern_id,
            start,
            end,
            chain_length,
        );
        proof {
            self.scan_context.lemma_wf();
            let after = old(self)@.with_harness(self.scan_context@);
            assert(self@.streams =~= after.streams);
        }
        recorded
    }

    /// Host call of the pattern search: consumes the pending occurrences of
    /// the chain link `sub_pattern_id` in the installed stream and hands them
    /// out in insertion order.
    pub fn take_unconfirmed_matches(&mut self, sub_pattern_id: SubPatternId) -> (taken: Vec<
        UnconfirmedMatch,
    >)
        requires
            old(self).wf(),
        ensures
            final(self).wf(),
            final(self).rule_set() == old(self).rule_set(),
            taken@ == old(self)@.harness.eval.store.pending(sub_pattern_id),
            final(self)@ == old(self)@.called(HostCall::TakeUnconfirmed { sub_pattern_id }),
    {
        let taken = self.scan_context.take_unconfirmed_matches(sub_pattern_id);
        proof {
            self.scan_context.lemma_wf();
            let after = old(self)@.with_harness(self.scan_context@);
            assert(self@.streams =~= after.streams);
        }
        taken
    }

    /// Host call of the evaluator: asks whether the pattern search still has
    /// to run for the chunk being scanned, and marks it as run.
    pub fn begin_pattern_search(&mut self) -> (needed: bool)
        requires
            old(self).wf(),
        ensures
            final(self).wf(),
            final(self).rule_set() == old(self).rule_set(),
            needed == !old(self)@.harness.pattern_search_done,
            final(self)@ == old(self)@.called(HostCall::BeginPatternSearch),
    {
        let needed = self.scan_context.begin_pattern_search();
        proof {
            self.scan_context.lemma_wf();
            let after = old(self)@.with_harness(self.scan_context@);
            assert(self@.streams =~= after.streams);
        }
        needed
    }

    /// Closes a stream and returns its final results: the rules reported for
    /// it and its counters. The stream is no longer live afterwards. Returns
    /// `None` for a stream that is not live.
    pub fn close_stream(&mut self, stream_id: &Uuid) -> (results: Option<FinalStreamResults>)
        requires
            old(self).wf(),
        ensures
            final(self).wf(),
            final(self).rule_set() == old(self).rule_set(),
            final(self)@ == old(self)@.stream_closed(uuid_bits(*stream_id)),
            results.is_some() == old(self)@.streams.contains_key(uuid_bits(*stream_id)),
            results.is_some() ==> {
                let stream = old(self)@.streams[uuid_bits(*stream_id)];
                &&& results.unwrap().non_private_matching_rules@ == stream.matching_rules()
                &&& results.unwrap().bytes_processed == stream.bytes_processed
                &&& results.unwrap().lines_processed == stream.lines_processed
            },
    {
        let key = key_of(stream_id);
        let ghost start = self@;
        let active = match self.active_stream {
            Some(current) => current == key,
            None => false,
        };
        let results = match self.contexts.remove(&key) {
            Some(mut ctx) => {
                if active {
                    ctx.save_from_scanner(&self.scan_context);
                }
                Some(
                    FinalStreamResults {
                        non_private_matching_rules: crate::context::copy_rules(
                            ctx.non_private_matching_rules(),
                        ),
                        bytes_processed: ctx.bytes_processed(),
                        lines_processed: ctx.lines_processed(),
                    },
                )
            },
            None => None,
        };
        if active {
            self.active_stream = None;
        }
        proof {
            let after = start.stream_closed(key);
            assert(self@.streams =~= after.streams);
        }
        results
    }

    /// Resets a stream to its initial state: no matches, no matching rules,
    /// counters at zero. The stream stays live. A stream that is not live is
    /// left alone.
    pub fn reset_stream(&mut self, stream_id: &Uuid) -> (result: Result<(), ScanError>)
        requires
            old(self).wf(),
        ensures
            final(self).wf(),
            final(self).rule_set() == old(self).rule_set(),
            final(self)@ == old(self)@.stream_reset(uuid_bits(*stream_id)),
            result is Ok,
    {
        let key = key_of(stream_id);
        let ghost start = self@;
        proof {
            self.scan_context.lemma_wf();
            EvalState::lemma_fresh(start.table, start.cap);
        }
        if self.contexts.contains_key(&key) {
            let ctx = StreamContext::new(self.rules, self.max_matches_per_pattern);
            proof {
                ctx.lemma_wf(self.rules@);
            }
            self.contexts.insert(key, ctx);
            let active = match self.active_stream {
                Some(current) => current == key,
                None => false,
            };
            if active {
                self.scan_context.reset(self.max_matches_per_pattern);
            }
        }
        proof {
            let after = start.stream_reset(key);
            self.scan_context.lemma_wf();
            assert(self@.harness == after.harness);
            assert(self@.streams =~= after.streams);
        }
        Ok(())
    }

    /// Returns the number of bytes processed for a stream, `None` for a
    /// stream that is not live.
    pub fn bytes_processed(&self, stream_id: &Uuid) -> (bytes: Option<u64>)
        ensures
            bytes == if self@.streams.contains_key(uuid_bits(*stream_id)) {
                Some(self@.streams[uuid_bits(*stream_id)].bytes_processed)
            } else {
                None
            },
    {
        let key = key_of(stream_id);
        match self.contexts.get(&key) {
            Some(ctx) => Some(ctx.bytes_processed()),
            None => None,
        }
    }

    /// Returns the number of lines processed for a stream, `None` for a
    /// stream that is not live.
    pub fn lines_processed(&self, stream_id: &Uuid) -> (lines: Option<u64>)
        ensures
            lines == if self@.streams.contains_key(uuid_bits(*stream_id)) {
                Some(self@.streams[uuid_bits(*stream_id)].lines_processed)
            } else {
                None
            },
    {
        let key = key_of(stream_id);
        match self.contexts.get(&key) {
            Some(ctx) => Some(ctx.lines_processed()),
            None => None,
        }
    }
}

/// Results of the scans of one stream.
pub struct MultiStreamScanResults<'s, 'r> {
    scanner: &'s MultiStreamScanner<'r>,
    stream_id: Uuid,
}

/// Iterator-like cursor over the rules that matched on a stream.
pub struct MultiStreamMatchingRules<'r> {
    rules: &'r Rules,
    rule_ids: Vec<RuleId>,
    position: usize,
}

impl<'s, 'r> MultiStreamScanResults<'s, 'r> {
    /// The key of the stream the results are of.
    pub closed spec fn key(&self) -> u128 {
        uuid_bits(self.stream_id)
    }

    /// The scanner the results are read from.
    pub closed spec fn scanner(&self) -> &'s MultiStreamScanner<'r> {
        self.scanner
    }

    /// The results belong to a live stream of a well-formed scanner.
    pub closed spec fn wf(&self) -> bool {
        &&& self.scanner.wf()
        &&& self.scanner@.streams.contains_key(uuid_bits(self.stream_id))
    }

    /// Returns a cursor over the rules that matched on the stream, in the
    /// order in which they first matched. Private rules are left out.
    pub fn matching_rules(&self) -> (rules: MultiStreamMatchingRules<'r>)
        requires
            self.wf(),
        ensures
            rules.wf(),
            rules.rule_set() == self.scanner().rule_set(),
            rules.remaining() == self.scanner()@.streams[self.key()].matching_rules(),
    {
        MultiStreamMatchingRules::new(self.scanner, self.stream_id)
    }
}

impl<'s, 'r> MultiStreamScanResults<'s, 'r> {
    /// Returns the outputs that the imported modules produced. They are
    /// held by the harness, and are handed out only for the stream that is
    /// installed in it.
    pub fn module_outputs(&self) -> (outputs: Option<&'s Vec<ModuleOutput>>)
        ensures
            outputs.is_some() == (self.scanner()@.active == Some(self.key())),
            outputs.is_some() ==> crate::modules::outputs_of(outputs.unwrap()@)
                == self.scanner()@.modules.outputs,
    {
        let key = key_of(&self.stream_id);
        let active = match self.scanner.active_stream {
            Some(current) => current == key,
            None => false,
        };
        if active {
            Some(self.scanner.module_outputs.module_outputs())
        } else {
            None
        }
    }
}

impl<'r> MultiStreamMatchingRules<'r> {
    /// The rule set that the rules belong to.
    pub closed spec fn rule_set(&self) -> &'r Rules {
        self.rules
    }

    /// The rules still to come, in order.
    pub closed spec fn remaining(&self) -> Seq<RuleId> {
        self.rule_ids@.skip(self.position as int)
    }

    /// Every rule still to come is a rule of the rule set.
    pub closed spec fn wf(&self) -> bool {
        &&& self.position <= self.rule_ids@.len()
        &&& forall|i: int|
            0 <= i < self.rule_ids@.len() ==> (#[trigger] self.rule_ids@[i]) < self.rules@.rules()
    }

    fn new<'s>(scanner: &'s MultiStreamScanner<'r>, stream_id: Uuid) -> (rules: Self)
        requires
            scanner.wf(),
            scanner@.streams.contains_key(uuid_bits(stream_id)),
        ensures
            rules.wf(),
            rules.rule_set() == scanner.rule_set(),
            rules.remaining() == scanner@.streams[uuid_bits(stream_id)].matching_rules(),
    {
        let key = key_of(&stream_id);
        let active = match scanner.active_stream {
            Some(current) => current == key,
            None => false,
        };
        // The installed stream is read from the harness, any other from its
        // saved context.
        let rule_ids = if active {
            crate::context::copy_rules(scanner.scan_context.non_private_matching_rules())
        } else {
            match scanner.contexts.get(&key) {
                Some(ctx) => crate::context::copy_rules(ctx.non_private_matching_rules()),
                None => Vec::new(),
            }
        };
        proof {
            assert(rule_ids@.skip(0) =~= rule_ids@);
            assert(scanner@.streams[key].wf(scanner.rules@));
        }
        MultiStreamMatchingRules { rules: scanner.rules, rule_ids, position: 0 }
    }

    /// Number of rules still to come.
    pub fn len(&self) -> (n: usize)
        requires
            self.wf(),
        ensures
            n == self.remaining().len(),
    {
        self.rule_ids.len() - self.position
    }

    /// Hands out the next rule, `None` after the last one.
    pub fn next(&mut self) -> (rule: Option<Rule<'r>>)
        requires
            old(self).wf(),
        ensures
            final(self).wf(),
            final(self).rule_set() == old(self).rule_set(),
            rule.is_some() == (old(self).remaining().len() > 0),
            rule.is_some() ==> {
                &&& rule.unwrap().id == old(self).remaining()[0]
                &&& *rule.unwrap().info == old(self).rule_set().infos()[rule.unwrap().id as int]
                &&& final(self).remaining() == old(self).remaining().drop_first()
            },
            rule.is_none() ==> final(self).remaining() == old(self).remaining(),
    {
        if self.position < self.rule_ids.len() {
            let id = self.rule_ids[self.position];
            self.position = self.position + 1;
            proof {
                assert(self.remaining() =~= old(self).remaining().drop_first());
            }
            Some(Rule { id, info: self.rules.get(id) })
        } else {
            None
        }
    }
}

impl<'r> MultiStreamScanner<'r> {
    /// The imported modules whose main function has to be invoked before
    /// [`MultiStreamScanner::initialize_modules`], in import order.
    pub fn modules_to_run(&self) -> (names: Vec<String>)
        ensures
            crate::modules::names_of(names@) == crate::modules::modules_in_need(
                self.rule_set().modules(),
                self@.modules.supplied,
            ),
    {
        self.module_outputs.modules_to_run(self.rules.imports())
    }

    /// Initializes the imported modules, given what the main functions of the
    /// modules in need gave. This happens once per scanner: after a
    /// successful initialization further calls change nothing. A module whose
    /// main function failed stops the initialization with that failure.
    pub fn initialize_modules(&mut self, runs: &Vec<ModuleRun>) -> (result: Result<(), ScanError>)
        requires
            old(self).wf(),
        ensures
            final(self).wf(),
            final(self).rule_set() == old(self).rule_set(),
            old(self)@.modules_initialized ==> result is Ok && final(self)@ == old(self)@,
            !old(self)@.modules_initialized ==> {
                let done = old(self)@.modules.initialize_all(
                    old(self).rule_set().modules(),
                    crate::modules::runs_of(runs@),
                );
                &&& final(self)@ == (Dispatcher {
                    modules: done.0,
                    modules_initialized: done.1.is_none(),
                    ..old(self)@
                })
                &&& match done.1 {
                    Some(err) => result == Err::<(), ScanError>(err),
                    None => result is Ok,
                }
            },
    {
        if self.modules_initialized {
            return Ok(());
        }
        let result = self.module_outputs.initialize_modules(self.rules.imports(), runs);
        if result.is_ok() {
            self.modules_initialized = true;
        }
        proof {
            assert(self@.streams =~= old(self)@.streams);
        }
        result
    }

    /// Returns the current scan results of a stream, `None` for a stream
    /// that is not live.
    pub fn get_matches<'s>(&'s self, stream_id: &Uuid) -> (results: Option<
        MultiStreamScanResults<'s, 'r>,
    >)
        requires
            self.wf(),
        ensures
            results.is_some() == self@.streams.contains_key(uuid_bits(*stream_id)),
            results.is_some() ==> {
                &&& results.unwrap().wf()
                &&& results.unwrap().scanner() == self
                &&& results.unwrap().key() == uuid_bits(*stream_id)
            },
    {
        let key = key_of(stream_id);
        if !self.contexts.contains_key(&key) {
            return None;
        }
        Some(MultiStreamScanResults { scanner: self, stream_id: *stream_id })
    }

    /// Returns the keys of the live streams, each once, in no particular
    /// order.
    pub fn active_streams(&self) -> (keys: Vec<Uuid>)
        ensures
            keys@.len() == self@.streams.dom().len(),
            forall|i: int|
                0 <= i < keys@.len() ==> self@.streams.contains_key(#[trigger] uuid_bits(keys@[i])),
            forall|k: u128|
                self@.streams.contains_key(k) ==> exists|i: int|
                    0 <= i < keys@.len() && #[trigger] uuid_bits(keys@[i]) == k,
            forall|i: int, j: int|
                0 <= i < j < keys@.len() ==> uuid_bits(keys@[i]) != uuid_bits(keys@[j]),
    {
        let mut keys: Vec<Uuid> = Vec::new();
        proof {
            assert(self@.streams.dom() =~= self.contexts@.dom());
        }
        for key in it: self.contexts.keys()
            invariant
                it.seq() == vstd::std_specs::hash::spec_keys_iter(&self.contexts).remaining(),
                keys@.len() == it.index(),
                forall|i: int| 0 <= i < keys@.len() ==> uuid_bits(#[trigger] keys@[i]) == *it.seq()[i],
        {
            keys.push(id_of(*key));
        }
        proof {
            let all = vstd::std_specs::hash::spec_keys_iter(&self.contexts).remaining();
            assert(all.unref().to_set() == self.contexts@.dom());
            assert forall|i: int| 0 <= i < keys@.len() implies self@.streams.contains_key(
                #[trigger] uuid_bits(keys@[i]),
            ) by {
                assert(all.unref()[i] == uuid_bits(keys@[i]));
                assert(all.unref().to_set().contains(all.unref()[i]));
            }
            assert forall|k: u128| self@.streams.contains_key(k) implies exists|i: int|
                0 <= i < keys@.len() && #[trigger] uuid_bits(keys@[i]) == k by {
                assert(all.unref().to_set().contains(k));
                let i = choose|i: int| 0 <= i < all.unref().len() && all.unref()[i] == k;
                assert(uuid_bits(keys@[i]) == k);
            }
            assert forall|i: int, j: int| 0 <= i < j < keys@.len() implies uuid_bits(keys@[i])
                != uuid_bits(keys@[j]) by {
                assert(all[i] != all[j]);
            }
        }
        keys
    }
}

/// Sizes of the state kept for one stream.
pub struct StreamStats {
    /// Bytes processed on the stream.
    pub bytes_processed: u64,
    /// Lines processed on the stream.
    pub lines_processed: u64,
    /// Number of reported rules that matched.
    pub non_private_rules: usize,
    /// Number of private rules that matched.
    pub private_rules: usize,
    /// Size of the rule bitmap in bytes.
    pub rule_bitmap_bytes: usize,
    /// Size of the pattern bitmap in bytes.
    pub pattern_bitmap_bytes: usize,
    /// Estimate of the memory that the lists of matching rules and the
    /// bitmaps take, in bytes.
    pub estimated_bytes: usize,
}

/// Bytes that one rule identifier takes in a list.
pub const RULE_ID_BYTES: usize = 4;

/// The sum of `a` and `b`, or the largest number where the sum does not fit.
pub open spec fn spec_saturating_sum(a: int, b: int) -> int {
    if a + b <= usize::MAX {
        a + b
    } else {
        usize::MAX as int
    }
}

/// The sum of `a` and `b`, or the largest number where the sum does not fit.
pub fn saturating_sum(a: usize, b: usize) -> (sum: usize)
    ensures
        sum == spec_saturating_sum(a as int, b as int),
{
    if a > usize::MAX - b {
        usize::MAX
    } else {
        a + b
    }
}

/// Estimate of the memory taken by lists of `non_private` and `private` rule
/// identifiers and by bitmaps of `rule_bits` and `pattern_bits` bytes: four
/// bytes per identifier and the bitmaps' bytes, at most the largest number.
pub open spec fn spec_estimated_bytes(
    non_private: nat,
    private: nat,
    rule_bits: nat,
    pattern_bits: nat,
) -> int {
    if RULE_ID_BYTES * non_private + RULE_ID_BYTES * private + rule_bits + pattern_bits
        <= usize::MAX {
        RULE_ID_BYTES * non_private + RULE_ID_BYTES * private + rule_bits + pattern_bits
    } else {
        usize::MAX as int
    }
}

/// Estimate of the memory taken by the lists and bitmaps of one stream.
pub fn estimated_bytes(non_private: usize, private: usize, rule_bits: usize, pattern_bits: usize) -> (bytes:
    usize)
    ensures
        bytes == spec_estimated_bytes(
            non_private as nat,
            private as nat,
            rule_bits as nat,
            pattern_bits as nat,
        ),
{
    let quarter = usize::MAX / RULE_ID_BYTES;
    if non_private > quarter || private > quarter {
        return usize::MAX;
    }
    let lists = saturating_sum(RULE_ID_BYTES * non_private, RULE_ID_BYTES * private);
    let bitmaps = saturating_sum(rule_bits, pattern_bits);
    saturating_sum(lists, bitmaps)
}

impl<'r> MultiStreamScanner<'r> {
    /// Returns the sizes of the state kept for a stream, `None` for a stream
    /// that is not live.
    pub fn stream_stats(&self, stream_id: &Uuid) -> (stats: Option<StreamStats>)
        requires
            self.wf(),
        ensures
            stats.is_some() == self@.streams.contains_key(uuid_bits(*stream_id)),
            stats.is_some() ==> {
                let stream = self@.streams[uuid_bits(*stream_id)];
                let stats = stats.unwrap();
                &&& stats.bytes_processed == stream.bytes_processed
                &&& stats.lines_processed == stream.lines_processed
                &&& stats.non_private_rules == stream.eval.lists.non_private.len()
                &&& stats.private_rules == stream.eval.lists.private.len()
                &&& stats.rule_bitmap_bytes == stream.eval.rule_bits.len()
                &&& stats.pattern_bitmap_bytes == stream.eval.pattern_bits.len()
                &&& stats.estimated_bytes == spec_estimated_bytes(
                    stream.eval.lists.non_private.len(),
                    stream.eval.lists.private.len(),
                    stream.eval.rule_bits.len(),
                    stream.eval.pattern_bits.len(),
                )
            },
    {
        let key = key_of(stream_id);
        let active = match self.active_stream {
            Some(current) => current == key,
            None => false,
        };
        match self.contexts.get(&key) {
            Some(ctx) => {
                proof {
                    self.scan_context.lemma_wf();
                    ctx.lemma_wf(self.rules@);
                    assert(self@.streams[key].wf(self.rules@));
                }
                let sizes = ctx.bitmap_sizes();
                let (non_private, private) = if active {
                    (
                        self.scan_context.non_private_matching_rules().len(),
                        self.scan_context.private_matching_rules().len(),
                    )
                } else {
                    (
                        ctx.non_private_matching_rules().len(),
                        ctx.private_matching_rules().len(),
                    )
                };
                Some(
                    StreamStats {
                        bytes_processed: ctx.bytes_processed(),
                        lines_processed: ctx.lines_processed(),
                        non_private_rules: non_private,
                        private_rules: private,
                        rule_bitmap_bytes: sizes.0,
                        pattern_bitmap_bytes: sizes.1,
                        estimated_bytes: estimated_bytes(non_private, private, sizes.0, sizes.1),
                    },
                )
            },
            None => None,
        }
    }
}

} // verus!
