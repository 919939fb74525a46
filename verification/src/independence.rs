//! Streams of one dispatcher do not influence each other: the state of a
//! stream is a function of what was done to that stream alone.

use crate::multi_stream::Dispatcher;
use crate::pending::{flatten, lemma_flatten_emptied, lemma_flatten_empty};
use crate::rules::{RuleId, RuleTable};
use crate::scanner::Batch;
use crate::state::{first_reports, reported, EvalState, HostCall, StreamState};
use vstd::prelude::*;

verus! {

/// Something done to one stream.
pub enum StreamOp {
    /// A whole scan of a chunk.
    Scan {
        /// Length of the chunk in bytes.
        len: usize,
        /// Lines the chunk counts for.
        lines: u64,
        /// Value of the epoch counter when the scan starts.
        epoch: u64,
        /// What the evaluator reports, in order.
        calls: Seq<HostCall>,
        /// Whether the evaluator ends with success.
        success: bool,
    },
    /// The stream is reset.
    Reset,
    /// The stream is closed.
    Close,
}

/// Something done to a dispatcher: an operation and the stream it names.
pub struct KeyedOp {
    /// Key of the stream.
    pub key: u128,
    /// What is done to it.
    pub op: StreamOp,
}

/// The state of a stream, `None` while it is not live, after `op`. A scan
/// brings a stream that is not live into being.
pub open spec fn stream_applied(
    stream: Option<StreamState>,
    table: RuleTable,
    cap: nat,
    op: StreamOp,
) -> Option<StreamState> {
    match op {
        StreamOp::Scan { len, lines, epoch, calls, success } => {
            let start = match stream {
                Some(s) => s,
                None => StreamState::fresh(table, cap),
            };
            Some(start.scan(table, len, lines, calls, success))
        },
        StreamOp::Reset => match stream {
            Some(_) => Some(StreamState::fresh(table, cap)),
            None => None,
        },
        StreamOp::Close => None,
    }
}

/// The state of a stream after the operations `ops`, in order.
pub open spec fn stream_run(
    stream: Option<StreamState>,
    table: RuleTable,
    cap: nat,
    ops: Seq<StreamOp>,
) -> Option<StreamState>
    decreases ops.len(),
{
    if ops.len() == 0 {
        stream
    } else {
        stream_applied(stream_run(stream, table, cap, ops.drop_last()), table, cap, ops.last())
    }
}

/// The operations of `ops` that name the stream `key`, in order.
pub open spec fn project(ops: Seq<KeyedOp>, key: u128) -> Seq<StreamOp>
    decreases ops.len(),
{
    if ops.len() == 0 {
        Seq::empty()
    } else if ops.last().key == key {
        project(ops.drop_last(), key).push(ops.last().op)
    } else {
        project(ops.drop_last(), key)
    }
}

/// Bytes that the operations `ops` supply to a stream: the chunks scanned
/// with success since the stream last came into being or was reset.
pub open spec fn supplied_bytes(ops: Seq<StreamOp>) -> nat
    decreases ops.len(),
{
    if ops.len() == 0 {
        0
    } else {
        match ops.last() {
            StreamOp::Scan { len, lines, epoch, calls, success } => supplied_bytes(ops.drop_last())
                + if success {
                len as nat
            } else {
                0nat
            },
            StreamOp::Reset => 0,
            StreamOp::Close => 0,
        }
    }
}

impl Dispatcher {
    /// The state of the stream `key`, `None` while it is not live.
    pub open spec fn stream(self, key: u128) -> Option<StreamState> {
        if self.streams.contains_key(key) {
            Some(self.streams[key])
        } else {
            None
        }
    }

    /// The installed stream is a live one and its state is the one in the
    /// harness.
    pub open spec fn coherent(self) -> bool {
        match self.active {
            Some(k) => self.streams.contains_key(k) && self.streams[k].eval == self.harness.eval,
            None => true,
        }
    }

    /// No scan is in progress: no rule is pending in the harness.
    pub open spec fn at_rest(self) -> bool {
        self.harness.eval.settled()
    }

    /// The dispatcher after the evaluator made the reports `calls`, in
    /// order.
    pub open spec fn called_all(self, calls: Seq<HostCall>) -> Dispatcher
        decreases calls.len(),
    {
        if calls.len() == 0 {
            self
        } else {
            self.called_all(calls.drop_last()).called(calls.last())
        }
    }

    /// Reports of the evaluator reach the harness and the installed stream,
    /// and nothing else.
    pub proof fn lemma_called_all(self, calls: Seq<HostCall>)
        requires
            self.coherent(),
        ensures
            self.called_all(calls) == self.with_harness(
                self.harness.called_all(self.table, calls),
            ),
        decreases calls.len(),
    {
        if calls.len() == 0 {
            assert(self.with_harness(self.harness).streams =~= self.streams);
        } else {
            self.lemma_called_all(calls.drop_last());
            let before = self.called_all(calls.drop_last());
            let after = self.with_harness(self.harness.called_all(self.table, calls));
            assert(before.called(calls.last()).streams =~= after.streams);
        }
    }

    /// The dispatcher after a whole scan on the stream `key`.
    pub open spec fn scan(
        self,
        key: u128,
        len: usize,
        lines: u64,
        epoch: u64,
        calls: Seq<HostCall>,
        success: bool,
    ) -> Dispatcher {
        self.scan_begun(key, len, lines, epoch).called_all(calls).scan_finished(success)
    }

    /// The dispatcher after `op`.
    pub open spec fn applied(self, op: KeyedOp) -> Dispatcher {
        match op.op {
            StreamOp::Scan { len, lines, epoch, calls, success } => self.scan(
                op.key,
                len,
                lines,
                epoch,
                calls,
                success,
            ),
            StreamOp::Reset => self.stream_reset(op.key),
            StreamOp::Close => self.stream_closed(op.key),
        }
    }

    /// The dispatcher after the operations `ops`, in order.
    pub open spec fn run(self, ops: Seq<KeyedOp>) -> Dispatcher
        decreases ops.len(),
    {
        if ops.len() == 0 {
            self
        } else {
            self.run(ops.drop_last()).applied(ops.last())
        }
    }

    /// A whole scan on one stream changes that stream as a scan changes a
    /// stream on its own, and changes no other stream.
    pub proof fn lemma_scan(
        self,
        key: u128,
        len: usize,
        lines: u64,
        epoch: u64,
        calls: Seq<HostCall>,
        success: bool,
    )
        requires
            self.coherent(),
            self.at_rest(),
        ensures
            self.scan(key, len, lines, epoch, calls, success).coherent(),
            self.scan(key, len, lines, epoch, calls, success).at_rest(),
            self.scan(key, len, lines, epoch, calls, success).table == self.table,
            self.scan(key, len, lines, epoch, calls, success).cap == self.cap,
            self.scan(key, len, lines, epoch, calls, success).stream(key) == stream_applied(
                self.stream(key),
                self.table,
                self.cap,
                StreamOp::Scan { len, lines, epoch, calls, success },
            ),
            forall|other: u128|
                other != key ==> self.scan(key, len, lines, epoch, calls, success).stream(other)
                    == self.stream(other),
    {
        let table = self.table;
        let settled = self.settled();
        lemma_flatten_empty(self.harness.eval.pending);
        assert(self.harness.eval.lists.commit_all(table, flatten(self.harness.eval.pending))
            == self.harness.eval.lists) by {
            assert(flatten(self.harness.eval.pending) =~= Seq::<RuleId>::empty());
        }
        assert(self.harness.eval.committed(table) == self.harness.eval);
        assert(settled.streams =~= self.streams);
        assert(settled == self);
        let installed = settled.installed(key);
        let start = match self.stream(key) {
            Some(s) => s,
            None => StreamState::fresh(table, self.cap),
        };
        assert(installed.streams[key] == start);
        assert(installed.harness.eval == start.eval);
        let begun = self.scan_begun(key, len, lines, epoch);
        assert(begun.harness.eval == start.scan_begun(table).eval);
        assert(begun.harness.global_offset == start.bytes_processed);
        assert(begun.harness.filesize == len);
        assert(begun.harness.lines == lines);
        assert(begun.active == Some(key));
        begun.harness.lemma_called_all(table, calls);
        begun.lemma_called_all(calls);
        let reported = begun.called_all(calls);
        let after = reported.scan_finished(success);
        lemma_flatten_emptied(crate::pending::emptied(reported.harness.eval.pending));
        assert(after.streams[key] == start.scan(table, len, lines, calls, success));
        assert forall|other: u128| other != key implies after.stream(other) == self.stream(
            other,
        ) by {
            assert(installed.streams.contains_key(other) == self.streams.contains_key(other));
            if self.streams.contains_key(other) {
                assert(installed.streams[other] == self.streams[other]);
                assert(begun.streams[other] == self.streams[other]);
                assert(reported.streams[other] == self.streams[other]);
            }
        }
    }

    /// An operation on one stream changes that stream as the operation
    /// changes a stream on its own, and changes no other stream.
    pub proof fn lemma_applied(self, op: KeyedOp)
        requires
            self.coherent(),
            self.at_rest(),
        ensures
            self.applied(op).coherent(),
            self.applied(op).at_rest(),
            self.applied(op).table == self.table,
            self.applied(op).cap == self.cap,
            self.applied(op).stream(op.key) == stream_applied(
                self.stream(op.key),
                self.table,
                self.cap,
                op.op,
            ),
            forall|other: u128| other != op.key ==> self.applied(op).stream(other) == self.stream(other),
    {
        match op.op {
            StreamOp::Scan { len, lines, epoch, calls, success } => {
                self.lemma_scan(op.key, len, lines, epoch, calls, success);
            },
            StreamOp::Reset => {},
            StreamOp::Close => {},
        }
    }

    /// Isolation of streams. Whatever is done to the streams of a dispatcher,
    /// in whatever interleaving, each stream ends in the state that the
    /// operations naming it produce on their own: the chunks, the reports of
    /// the evaluator and the lifecycle of other streams have no influence.
    pub proof fn lemma_streams_are_independent(self, ops: Seq<KeyedOp>, key: u128)
        requires
            self.coherent(),
            self.at_rest(),
        ensures
            self.run(ops).coherent(),
            self.run(ops).at_rest(),
            self.run(ops).table == self.table,
            self.run(ops).cap == self.cap,
            self.run(ops).stream(key) == stream_run(
                self.stream(key),
                self.table,
                self.cap,
                project(ops, key),
            ),
        decreases ops.len(),
    {
        if ops.len() > 0 {
            self.lemma_streams_are_independent(ops.drop_last(), key);
            self.run(ops.drop_last()).lemma_applied(ops.last());
            if ops.last().key == key {
                let own = project(ops.drop_last(), key);
                assert(project(ops, key).drop_last() =~= own);
                assert(project(ops, key).last() == ops.last().op);
            }
        }
    }
}

/// After a whole scan the rule bitmap of the scanned stream marks exactly the
/// rules listed for it, reported or private; and no rule listed before the
/// scan is dropped or moved.
pub proof fn lemma_scan_marks_listed_rules(
    d: Dispatcher,
    key: u128,
    len: usize,
    lines: u64,
    epoch: u64,
    calls: Seq<HostCall>,
    success: bool,
)
    requires
        d.wf(),
        d.at_rest(),
    ensures
        d.scan(key, len, lines, epoch, calls, success).streams.contains_key(key),
        forall|r: RuleId|
            r < d.table.rules() ==> (crate::bitmap::bit_is_set(
                d.scan(key, len, lines, epoch, calls, success).streams[key].eval.rule_bits,
                r as int,
            ) <==> d.scan(key, len, lines, epoch, calls, success).streams[key].eval.lists.contains(
                r,
            )),
        d.streams.contains_key(key) ==> d.streams[key].matching_rules().is_prefix_of(
            d.scan(key, len, lines, epoch, calls, success).streams[key].matching_rules(),
        ),
{
    d.lemma_scan(key, len, lines, epoch, calls, success);
    let start = match d.stream(key) {
        Some(s) => s,
        None => StreamState::fresh(d.table, d.cap),
    };
    EvalState::lemma_fresh(d.table, d.cap);
    start.lemma_scan(d.table, len, lines, calls, success);
}

/// A stream's count of bytes is the sum of the lengths of the chunks
/// scanned on it with success since it came into being or was last reset, as
/// long as that sum fits 64 bits.
pub proof fn lemma_bytes_processed_is_sum(table: RuleTable, cap: nat, ops: Seq<StreamOp>)
    requires
        forall|i: int| 0 <= i <= ops.len() ==> supplied_bytes(#[trigger] ops.take(i)) <= u64::MAX,
    ensures
        match stream_run(None, table, cap, ops) {
            Some(stream) => stream.bytes_processed == supplied_bytes(ops),
            None => true,
        },
    decreases ops.len(),
{
    if ops.len() > 0 {
        let head = ops.drop_last();
        assert forall|i: int| 0 <= i <= head.len() implies supplied_bytes(#[trigger] head.take(i))
            <= u64::MAX by {
            assert(head.take(i) =~= ops.take(i));
        }
        lemma_bytes_processed_is_sum(table, cap, head);
        assert(ops.take(ops.len() as int) =~= ops);
        assert(ops.take(head.len() as int) =~= head);
        assert(supplied_bytes(ops) <= u64::MAX);
        assert(supplied_bytes(head) <= u64::MAX);
    }
}

/// A stream that was reset reports no rule and has counted nothing, and is
/// still live.
pub proof fn lemma_reset_clears(d: Dispatcher, key: u128)
    requires
        d.streams.contains_key(key),
    ensures
        d.stream_reset(key).streams.contains_key(key),
        d.stream_reset(key).streams[key].matching_rules() == Seq::<RuleId>::empty(),
        d.stream_reset(key).streams[key].bytes_processed == 0,
        d.stream_reset(key).streams[key].lines_processed == 0,
        d.stream_reset(key).streams[key] == StreamState::fresh(d.table, d.cap),
{
}

/// A scan on a stream that was closed starts from the fresh state: nothing
/// of what the stream held before its close is left.
pub proof fn lemma_scan_after_close_is_fresh(
    d: Dispatcher,
    key: u128,
    len: usize,
    lines: u64,
    epoch: u64,
    calls: Seq<HostCall>,
    success: bool,
)
    requires
        d.coherent(),
        d.at_rest(),
    ensures
        !d.stream_closed(key).streams.contains_key(key),
        d.stream_closed(key).scan_begun(key, len, lines, epoch).stream(key) == Some(
            StreamState::fresh(d.table, d.cap),
        ),
        d.stream_closed(key).scan(key, len, lines, epoch, calls, success).stream(key) == Some(
            StreamState::fresh(d.table, d.cap).scan(d.table, len, lines, calls, success),
        ),
{
    let closed = d.stream_closed(key);
    closed.lemma_scan(key, len, lines, epoch, calls, success);
    let fresh = StreamState::fresh(d.table, d.cap);
    let begun = closed.scan_begun(key, len, lines, epoch);
    lemma_flatten_empty(closed.harness.eval.pending);
    assert(flatten(closed.harness.eval.pending) =~= Seq::<RuleId>::empty());
    assert(closed.settled().streams =~= closed.streams);
    assert(fresh.eval.committed(d.table).without_pending() == fresh.eval) by {
        assert(flatten(fresh.eval.pending) =~= Seq::<RuleId>::empty());
    }
    assert(begun.streams[key] == fresh);
}

/// Whether every operation of `ops` is a scan.
pub open spec fn all_scans(ops: Seq<StreamOp>) -> bool {
    forall|i: int| 0 <= i < ops.len() ==> #[trigger] ops[i] is Scan
}

/// The rules that the evaluator reports during the scans `ops`, scan after
/// scan.
pub open spec fn reported_ids(table: RuleTable, ops: Seq<StreamOp>) -> Seq<RuleId>
    decreases ops.len(),
{
    if ops.len() == 0 {
        Seq::empty()
    } else {
        reported_ids(table, ops.drop_last()) + match ops.last() {
            StreamOp::Scan { len, lines, epoch, calls, success } => flatten(
                reported(table, calls),
            ),
            _ => Seq::empty(),
        }
    }
}

/// The lists of a new stream after the scans `ops` are the rules that the
/// evaluator reported during the scans, committed in the order of the
/// reports.
pub proof fn lemma_stream_lists_are_committed_reports(
    table: RuleTable,
    cap: nat,
    ops: Seq<StreamOp>,
)
    requires
        table.wf(),
        cap > 0,
        all_scans(ops),
        ops.len() > 0,
    ensures
        stream_run(None, table, cap, ops) is Some,
        stream_run(None, table, cap, ops).unwrap().wf(table),
        stream_run(None, table, cap, ops).unwrap().eval.settled(),
        stream_run(None, table, cap, ops).unwrap().eval.lists == StreamState::fresh(
            table,
            cap,
        ).eval.lists.commit_all(table, reported_ids(table, ops)),
    decreases ops.len(),
{
    let fresh = StreamState::fresh(table, cap);
    EvalState::lemma_fresh(table, cap);
    let head = ops.drop_last();
    assert(all_scans(head)) by {
        assert forall|i: int| 0 <= i < head.len() implies #[trigger] head[i] is Scan by {
            assert(ops[i] is Scan);
        }
    }
    assert(ops[ops.len() - 1] is Scan);
    match ops.last() {
        StreamOp::Scan { len, lines, epoch, calls, success } => {
            let ids = flatten(reported(table, calls));
            if head.len() == 0 {
                assert(stream_run(None, table, cap, head).is_none());
                fresh.lemma_scan_commits_reports(table, len, lines, calls, success);
                fresh.lemma_scan(table, len, lines, calls, success);
                assert(reported_ids(table, head) =~= Seq::<RuleId>::empty());
                assert(reported_ids(table, ops) == reported_ids(table, head) + ids);
                assert(reported_ids(table, ops) =~= ids);
            } else {
                lemma_stream_lists_are_committed_reports(table, cap, head);
                let before = stream_run(None, table, cap, head).unwrap();
                before.lemma_scan_commits_reports(table, len, lines, calls, success);
                before.lemma_scan(table, len, lines, calls, success);
                fresh.eval.lists.lemma_commit_concat(table, reported_ids(table, head), ids);
                assert(reported_ids(table, ops) == reported_ids(table, head) + ids);
            }
        },
        _ => {},
    }
}

/// Scanning a stream chunk by chunk reports the rules that a single-shot
/// scan reports, in the same order, whenever the evaluator names the same
/// rules in the same order of first mention in both: the scanners add
/// nothing to what the evaluator reports, lose nothing of it, and do not
/// depend on how the reports are spread over the chunks.
pub proof fn lemma_chunked_scans_report_what_one_scan_reports(
    batch: Batch,
    ops: Seq<StreamOp>,
    len: usize,
    lines: u64,
    epoch: u64,
    calls: Seq<HostCall>,
)
    requires
        batch.wf(),
        all_scans(ops),
        ops.len() > 0,
        first_reports(reported_ids(batch.table, ops)) == first_reports(
            flatten(reported(batch.table, calls)),
        ),
    ensures
        stream_run(None, batch.table, batch.cap, ops) is Some,
        stream_run(None, batch.table, batch.cap, ops).unwrap().matching_rules() == batch.scan(
            len,
            lines,
            epoch,
            calls,
        ).harness.eval.lists.non_private,
{
    let table = batch.table;
    let fresh = StreamState::fresh(table, batch.cap);
    EvalState::lemma_fresh(table, batch.cap);
    lemma_stream_lists_are_committed_reports(table, batch.cap, ops);
    batch.lemma_scan_is_first_scan_of_stream(len, lines, epoch, calls, true);
    fresh.lemma_scan_commits_reports(table, len, lines, calls, true);
    fresh.eval.lists.lemma_commits_depend_on_first_reports(
        table,
        reported_ids(table, ops),
        flatten(reported(table, calls)),
    );
}

} // verus!
