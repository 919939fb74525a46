//! The state of one stream as the evaluator sees it, and the steps that
//! change it.

use crate::bitmap::{
    bit_is_set, lemma_with_bit_set, lemma_zero_bytes_all_clear, spec_bytes_for_bits, with_bit_set,
};
use crate::matches::{Match, MatchTable, UnconfirmedMatch};
use crate::pending::{emptied, flatten, lemma_flatten_emptied, lemma_flatten_pushed, pushed};
use crate::rules::{NamespaceId, PatternId, RuleId, RuleTable, SubPatternId};
use vstd::prelude::*;

verus! {

/// `list`, with `rule_id` at its end unless `list` holds it already.
pub open spec fn appended(list: Seq<RuleId>, rule_id: RuleId) -> Seq<RuleId> {
    if list.contains(rule_id) {
        list
    } else {
        list.push(rule_id)
    }
}

/// The lists of visible and of hidden matching rules.
pub struct RuleLists {
    /// Matching rules that are reported, in the order in which they first matched.
    pub non_private: Seq<RuleId>,
    /// Matching private rules, in the order in which they first matched.
    pub private: Seq<RuleId>,
}

impl RuleLists {
    /// Whether `rule_id` is in one of the lists.
    pub open spec fn contains(self, rule_id: RuleId) -> bool {
        self.non_private.contains(rule_id) || self.private.contains(rule_id)
    }

    /// The lists after `rule_id` was committed: it joins the list its privacy
    /// selects, unless that list holds it already. An identifier that names
    /// no rule is ignored.
    pub open spec fn commit_one(self, table: RuleTable, rule_id: RuleId) -> RuleLists {
        if rule_id >= table.rules() {
            self
        } else if table.private[rule_id as int] {
            RuleLists { private: appended(self.private, rule_id), ..self }
        } else {
            RuleLists { non_private: appended(self.non_private, rule_id), ..self }
        }
    }

    /// The lists after the identifiers `ids` were committed in order.
    pub open spec fn commit_all(self, table: RuleTable, ids: Seq<RuleId>) -> RuleLists
        decreases ids.len(),
    {
        if ids.len() == 0 {
            self
        } else {
            self.commit_all(table, ids.drop_last()).commit_one(table, ids.last())
        }
    }

    /// Each list is free of repetitions and holds only rules of its kind.
    pub open spec fn wf(self, table: RuleTable) -> bool {
        &&& self.non_private.no_duplicates()
        &&& self.private.no_duplicates()
        &&& forall|i: int|
            0 <= i < self.non_private.len() ==> (#[trigger] self.non_private[i]) < table.rules()
                && !table.private[self.non_private[i] as int]
        &&& forall|i: int|
            0 <= i < self.private.len() ==> (#[trigger] self.private[i]) < table.rules()
                && table.private[self.private[i] as int]
    }

    /// No rule is both reported and hidden.
    pub proof fn lemma_disjoint(self, table: RuleTable)
        requires
            self.wf(table),
        ensures
            forall|r: RuleId| !(self.non_private.contains(r) && self.private.contains(r)),
    {
        assert forall|r: RuleId| !(self.non_private.contains(r) && self.private.contains(r)) by {
            if self.non_private.contains(r) && self.private.contains(r) {
                let i = choose|i: int| 0 <= i < self.non_private.len() && self.non_private[i] == r;
                let j = choose|j: int| 0 <= j < self.private.len() && self.private[j] == r;
                assert(!table.private[self.non_private[i] as int]);
                assert(table.private[self.private[j] as int]);
            }
        }
    }

    /// Committing one identifier keeps the lists well formed, keeps every
    /// rule already listed at its place, and lists the new rule.
    pub proof fn lemma_commit_one(self, table: RuleTable, rule_id: RuleId)
        requires
            self.wf(table),
        ensures
            self.commit_one(table, rule_id).wf(table),
            self.non_private.is_prefix_of(self.commit_one(table, rule_id).non_private),
            self.private.is_prefix_of(self.commit_one(table, rule_id).private),
            forall|r: RuleId|
                self.commit_one(table, rule_id).contains(r) <==> self.contains(r) || (r == rule_id
                    && rule_id < table.rules()),
    {
        let after = self.commit_one(table, rule_id);
        if rule_id < table.rules() {
            if table.private[rule_id as int] {
                lemma_appended(self.private, rule_id);
            } else {
                lemma_appended(self.non_private, rule_id);
            }
        }
    }

    /// Committing identifiers keeps the lists well formed, keeps every rule
    /// already listed at its place, and lists exactly the rules named in
    /// addition.
    pub proof fn lemma_commit_all(self, table: RuleTable, ids: Seq<RuleId>)
        requires
            self.wf(table),
        ensures
            self.commit_all(table, ids).wf(table),
            self.non_private.is_prefix_of(self.commit_all(table, ids).non_private),
            self.private.is_prefix_of(self.commit_all(table, ids).private),
            forall|r: RuleId|
                self.commit_all(table, ids).contains(r) <==> self.contains(r) || (ids.contains(r)
                    && r < table.rules()),
        decreases ids.len(),
    {
        if ids.len() > 0 {
            let head = ids.drop_last();
            let mid = self.commit_all(table, head);
            let after = self.commit_all(table, ids);
            self.lemma_commit_all(table, head);
            mid.lemma_commit_one(table, ids.last());
            assert forall|r: RuleId|
                after.contains(r) <==> self.contains(r) || (ids.contains(r) && r
                    < table.rules()) by {
                if head.contains(r) {
                    let k = choose|k: int| 0 <= k < head.len() && head[k] == r;
                    assert(ids[k] == r);
                }
                if r == ids.last() {
                    assert(ids[ids.len() - 1] == r);
                }
                if ids.contains(r) {
                    let k = choose|k: int| 0 <= k < ids.len() && ids[k] == r;
                    if k < head.len() {
                        assert(head[k] == r);
                    }
                }
            }
        }
    }

    /// Committing two runs of identifiers one after the other is committing
    /// their concatenation.
    pub proof fn lemma_commit_concat(self, table: RuleTable, a: Seq<RuleId>, b: Seq<RuleId>)
        ensures
            self.commit_all(table, a + b) == self.commit_all(table, a).commit_all(table, b),
        decreases b.len(),
    {
        if b.len() == 0 {
            assert(a + b =~= a);
        } else {
            assert((a + b).drop_last() =~= a + b.drop_last());
            assert((a + b).last() == b.last());
            self.lemma_commit_concat(table, a, b.drop_last());
        }
    }
}

/// Appending a new element keeps a list free of repetitions.
pub proof fn lemma_appended(list: Seq<RuleId>, rule_id: RuleId)
    requires
        list.no_duplicates(),
    ensures
        appended(list, rule_id).no_duplicates(),
        list.is_prefix_of(appended(list, rule_id)),
        forall|r: RuleId| appended(list, rule_id).contains(r) <==> list.contains(r) || r == rule_id,
        forall|i: int|
            0 <= i < appended(list, rule_id).len() ==> (i < list.len() && appended(
                list,
                rule_id,
            )[i] == list[i]) || (#[trigger] appended(list, rule_id)[i]) == rule_id,
{
    let after = appended(list, rule_id);
    if !list.contains(rule_id) {
        assert(after[list.len() as int] == rule_id);
        assert forall|r: RuleId| after.contains(r) <==> list.contains(r) || r == rule_id by {
            if list.contains(r) {
                let k = choose|k: int| 0 <= k < list.len() && list[k] == r;
                assert(after[k] == r);
            }
        }
        assert forall|i: int, j: int| 0 <= i < after.len() && 0 <= j < after.len() && i
            != j implies after[i] != after[j] by {
            if i < list.len() && j < list.len() {
            } else if i < list.len() {
                assert(list.contains(list[i]));
            } else {
                assert(list.contains(list[j]));
            }
        }
    }
}

/// The rules named in `ids`, each once, in the order in which `ids` names
/// them first.
pub open spec fn first_reports(ids: Seq<RuleId>) -> Seq<RuleId>
    decreases ids.len(),
{
    if ids.len() == 0 {
        Seq::empty()
    } else {
        appended(first_reports(ids.drop_last()), ids.last())
    }
}

/// The first reports of a run of identifiers name the rules that the run
/// names.
pub proof fn lemma_first_reports(ids: Seq<RuleId>)
    ensures
        first_reports(ids).no_duplicates(),
        forall|r: RuleId| first_reports(ids).contains(r) <==> ids.contains(r),
    decreases ids.len(),
{
    if ids.len() > 0 {
        let head = ids.drop_last();
        lemma_first_reports(head);
        lemma_appended(first_reports(head), ids.last());
        assert forall|r: RuleId| first_reports(ids).contains(r) <==> ids.contains(r) by {
            if head.contains(r) {
                let k = choose|k: int| 0 <= k < head.len() && head[k] == r;
                assert(ids[k] == r);
            }
            if r == ids.last() {
                assert(ids[ids.len() - 1] == r);
            }
            if ids.contains(r) {
                let k = choose|k: int| 0 <= k < ids.len() && ids[k] == r;
                if k < head.len() {
                    assert(head[k] == r);
                }
            }
        }
    }
}

impl RuleLists {
    /// Committing identifiers is committing their first reports: a rule
    /// named again changes nothing.
    pub proof fn lemma_commit_first_reports(self, table: RuleTable, ids: Seq<RuleId>)
        requires
            self.wf(table),
        ensures
            self.commit_all(table, ids) == self.commit_all(table, first_reports(ids)),
        decreases ids.len(),
    {
        if ids.len() > 0 {
            let head = ids.drop_last();
            let last = ids.last();
            let firsts = first_reports(head);
            self.lemma_commit_first_reports(table, head);
            lemma_first_reports(head);
            self.lemma_commit_all(table, head);
            let mid = self.commit_all(table, head);
            if firsts.contains(last) {
                assert(head.contains(last));
                if last < table.rules() {
                    assert(mid.contains(last));
                    if table.private[last as int] {
                        if mid.non_private.contains(last) {
                            let i = choose|i: int|
                                0 <= i < mid.non_private.len() && mid.non_private[i] == last;
                            assert(!table.private[mid.non_private[i] as int]);
                        }
                        assert(mid.private.contains(last));
                    } else {
                        if mid.private.contains(last) {
                            let i = choose|i: int|
                                0 <= i < mid.private.len() && mid.private[i] == last;
                            assert(table.private[mid.private[i] as int]);
                        }
                        assert(mid.non_private.contains(last));
                    }
                }
                assert(mid.commit_one(table, last) == mid);
            } else {
                assert(firsts.push(last).drop_last() =~= firsts);
                assert(firsts.push(last).last() == last);
            }
        }
    }

    /// The lists that commits produce depend only on which rules are named
    /// and in which order they are named first, not on how often a rule is
    /// named or on where the run of identifiers is cut.
    pub proof fn lemma_commits_depend_on_first_reports(
        self,
        table: RuleTable,
        a: Seq<RuleId>,
        b: Seq<RuleId>,
    )
        requires
            self.wf(table),
            first_reports(a) == first_reports(b),
        ensures
            self.commit_all(table, a) == self.commit_all(table, b),
    {
        self.lemma_commit_first_reports(table, a);
        self.lemma_commit_first_reports(table, b);
    }
}

/// The state of a stream that the evaluator reads and changes.
pub struct EvalState {
    /// The committed matching rules.
    pub lists: RuleLists,
    /// Rules reported since the last commit, by namespace.
    pub pending: Seq<(NamespaceId, Seq<RuleId>)>,
    /// One bit per rule: the rule has matched.
    pub rule_bits: Seq<u8>,
    /// One bit per pattern: the pattern has a confirmed match.
    pub pattern_bits: Seq<u8>,
    /// The match store.
    pub store: MatchTable,
}

impl EvalState {
    /// The state of a stream nothing was scanned on.
    pub open spec fn fresh(table: RuleTable, cap: nat) -> EvalState {
        EvalState {
            lists: RuleLists { non_private: Seq::empty(), private: Seq::empty() },
            pending: Seq::empty(),
            rule_bits: Seq::new(spec_bytes_for_bits(table.rules()), |i: int| 0u8),
            pattern_bits: Seq::new(spec_bytes_for_bits(table.patterns), |i: int| 0u8),
            store: MatchTable::empty(cap, table.patterns),
        }
    }

    /// Whether `rule_id` has matched, committed or not.
    pub open spec fn has_fired(self, rule_id: RuleId) -> bool {
        self.lists.contains(rule_id) || flatten(self.pending).contains(rule_id)
    }

    /// Invariant of the state. The rule bitmap marks exactly the rules that
    /// have matched, the pattern bitmap exactly the patterns with a match.
    pub open spec fn wf(self, table: RuleTable) -> bool {
        &&& table.wf()
        &&& self.lists.wf(table)
        &&& self.store.wf()
        &&& self.store.patterns == table.patterns
        &&& self.rule_bits.len() == spec_bytes_for_bits(table.rules())
        &&& self.pattern_bits.len() == spec_bytes_for_bits(table.patterns)
        &&& forall|i: int|
            0 <= i < flatten(self.pending).len() ==> (#[trigger] flatten(self.pending)[i])
                < table.rules()
        &&& forall|r: RuleId|
            r < table.rules() ==> (#[trigger] bit_is_set(self.rule_bits, r as int)
                <==> self.has_fired(r))
        &&& forall|p: PatternId|
            p < table.patterns ==> (#[trigger] bit_is_set(self.pattern_bits, p as int)
                <==> self.store.matches.contains_key(p))
    }

    /// Every rule that fired is committed: nothing is pending.
    pub open spec fn settled(self) -> bool {
        flatten(self.pending).len() == 0
    }

    /// The state after the evaluator reported that `rule_id` matches: the
    /// rule's bit is set and the rule is pending under its namespace. An
    /// identifier that names no rule changes nothing.
    pub open spec fn rule_matched(self, table: RuleTable, rule_id: RuleId) -> EvalState {
        if rule_id < table.rules() {
            EvalState {
                pending: pushed(self.pending, table.namespace[rule_id as int], rule_id),
                rule_bits: with_bit_set(self.rule_bits, rule_id as int),
                ..self
            }
        } else {
            self
        }
    }

    /// The state after the search found the match `m` of `pattern_id`: the
    /// store is offered the match and the pattern's bit is set. An identifier
    /// that names no pattern changes nothing.
    pub open spec fn pattern_matched(self, pattern_id: PatternId, m: Match) -> EvalState {
        if pattern_id < self.store.patterns {
            EvalState {
                store: self.store.add(pattern_id, m),
                pattern_bits: with_bit_set(self.pattern_bits, pattern_id as int),
                ..self
            }
        } else {
            self
        }
    }

    /// The state after the pending rules were committed: each joins the list
    /// its privacy selects unless it is listed already; the pending lists are
    /// empty.
    pub open spec fn committed(self, table: RuleTable) -> EvalState {
        EvalState {
            lists: self.lists.commit_all(table, flatten(self.pending)),
            pending: emptied(self.pending),
            ..self
        }
    }

    /// The state with the scratch list of pending rules discarded.
    pub open spec fn without_pending(self) -> EvalState {
        EvalState { pending: Seq::empty(), ..self }
    }

    /// The fresh state is well formed and settled.
    pub proof fn lemma_fresh(table: RuleTable, cap: nat)
        requires
            table.wf(),
            cap > 0,
        ensures
            Self::fresh(table, cap).wf(table),
            Self::fresh(table, cap).settled(),
    {
        let s = Self::fresh(table, cap);
        lemma_zero_bytes_all_clear(s.rule_bits);
        lemma_zero_bytes_all_clear(s.pattern_bits);
        assert forall|r: RuleId| r < table.rules() implies (#[trigger] bit_is_set(
            s.rule_bits,
            r as int,
        ) <==> s.has_fired(r)) by {
            assert(!bit_is_set(s.rule_bits, r as int));
        }
        assert forall|p: PatternId| p < table.patterns implies (#[trigger] bit_is_set(
            s.pattern_bits,
            p as int,
        ) <==> s.store.matches.contains_key(p)) by {
            assert(!bit_is_set(s.pattern_bits, p as int));
        }
    }

    /// A reported rule keeps the invariant and the committed lists.
    pub proof fn lemma_rule_matched(self, table: RuleTable, rule_id: RuleId)
        requires
            self.wf(table),
        ensures
            self.rule_matched(table, rule_id).wf(table),
            self.rule_matched(table, rule_id).lists == self.lists,
            forall|r: RuleId|
                self.rule_matched(table, rule_id).has_fired(r) <==> self.has_fired(r) || (r
                    == rule_id && rule_id < table.rules()),
    {
        let after = self.rule_matched(table, rule_id);
        if rule_id < table.rules() {
            lemma_flatten_pushed(self.pending, table.namespace[rule_id as int], rule_id);
            lemma_with_bit_set(self.rule_bits, rule_id as int);
            assert forall|i: int| 0 <= i < flatten(after.pending).len() implies (#[trigger] flatten(
                after.pending,
            )[i]) < table.rules() by {
                let r = flatten(after.pending)[i];
                let grown = pushed(self.pending, table.namespace[rule_id as int], rule_id);
                assert(after.pending == grown);
                assert(flatten(grown)[i] == r);
                assert(flatten(grown).contains(r));
                assert(r == rule_id || flatten(self.pending).contains(r));
                if r != rule_id {
                    let k = choose|k: int|
                        0 <= k < flatten(self.pending).len() && flatten(self.pending)[k] == r;
                    assert(flatten(self.pending)[k] < table.rules());
                }
            }
            assert forall|r: RuleId| r < table.rules() implies (#[trigger] bit_is_set(
                after.rule_bits,
                r as int,
            ) <==> after.has_fired(r)) by {
                assert(bit_is_set(self.rule_bits, r as int) <==> self.has_fired(r));
            }
        }
    }

    /// A found match keeps the invariant, the committed lists and the
    /// pending rules.
    pub proof fn lemma_pattern_matched(self, table: RuleTable, pattern_id: PatternId, m: Match)
        requires
            self.wf(table),
        ensures
            self.pattern_matched(pattern_id, m).wf(table),
            self.pattern_matched(pattern_id, m).lists == self.lists,
            self.pattern_matched(pattern_id, m).pending == self.pending,
            self.pattern_matched(pattern_id, m).rule_bits == self.rule_bits,
    {
        let after = self.pattern_matched(pattern_id, m);
        if pattern_id < self.store.patterns {
            self.store.lemma_add(pattern_id, m);
            lemma_with_bit_set(self.pattern_bits, pattern_id as int);
            assert(after.store.matches.contains_key(pattern_id)) by {
                if !self.store.accepts(pattern_id, m) {
                    if self.store.limit_reached.contains(pattern_id) {
                    } else {
                        assert(self.store.list(pattern_id).len() > 0);
                    }
                }
            }
            assert forall|p: PatternId| p < table.patterns implies (#[trigger] bit_is_set(
                after.pattern_bits,
                p as int,
            ) <==> after.store.matches.contains_key(p)) by {
                assert(bit_is_set(self.pattern_bits, p as int) <==> self.store.matches.contains_key(
                    p,
                ));
            }
        }
    }

    /// Committing keeps the invariant and settles the state; afterwards the
    /// rule bitmap marks exactly the listed rules. No listed rule is dropped
    /// or moved.
    pub proof fn lemma_committed(self, table: RuleTable)
        requires
            self.wf(table),
        ensures
            self.committed(table).wf(table),
            self.committed(table).settled(),
            self.lists.non_private.is_prefix_of(self.committed(table).lists.non_private),
            self.lists.private.is_prefix_of(self.committed(table).lists.private),
            forall|r: RuleId|
                r < table.rules() ==> (bit_is_set(self.committed(table).rule_bits, r as int)
                    <==> self.committed(table).lists.contains(r)),
            self.settled() ==> self.committed(table).lists == self.lists,
    {
        let after = self.committed(table);
        let ids = flatten(self.pending);
        self.lists.lemma_commit_all(table, ids);
        lemma_flatten_emptied(emptied(self.pending));
        assert forall|r: RuleId| r < table.rules() implies (#[trigger] bit_is_set(
            after.rule_bits,
            r as int,
        ) <==> after.has_fired(r)) by {
            assert(bit_is_set(self.rule_bits, r as int) <==> self.has_fired(r));
        }
        if self.settled() {
            assert(ids =~= Seq::<RuleId>::empty());
        }
    }

    /// Discarding the pending rules of a settled state keeps the invariant.
    pub proof fn lemma_without_pending(self, table: RuleTable)
        requires
            self.wf(table),
            self.settled(),
        ensures
            self.without_pending().wf(table),
            self.without_pending().settled(),
    {
        let after = self.without_pending();
        assert forall|r: RuleId| r < table.rules() implies (#[trigger] bit_is_set(
            after.rule_bits,
            r as int,
        ) <==> after.has_fired(r)) by {
            assert(bit_is_set(self.rule_bits, r as int) <==> self.has_fired(r));
        }
    }
}

/// The whole state of one stream.
pub struct StreamState {
    /// What the evaluator reads and changes.
    pub eval: EvalState,
    /// Stream offset of the first byte of the chunk that the stream was last
    /// set up for, or of the next chunk once that chunk was scanned.
    pub global_offset: u64,
    /// Bytes scanned on the stream so far.
    pub bytes_processed: u64,
    /// Lines scanned on the stream so far.
    pub lines_processed: u64,
}

impl StreamState {
    /// The state of a stream nothing was scanned on.
    pub open spec fn fresh(table: RuleTable, cap: nat) -> StreamState {
        StreamState {
            eval: EvalState::fresh(table, cap),
            global_offset: 0,
            bytes_processed: 0,
            lines_processed: 0,
        }
    }

    /// Invariant of the state.
    pub open spec fn wf(self, table: RuleTable) -> bool {
        self.eval.wf(table)
    }

    /// The rules reported for the stream, in the order in which they first
    /// matched.
    pub open spec fn matching_rules(self) -> Seq<RuleId> {
        self.eval.lists.non_private
    }

    /// The state after a scan of `bytes` bytes counted as `lines` lines was
    /// completed: pending rules are committed, the counters advance, and the
    /// global offset is the new count of bytes.
    pub open spec fn scanned(self, table: RuleTable, bytes: nat, lines: nat) -> StreamState {
        StreamState {
            eval: self.eval.committed(table),
            global_offset: (self.bytes_processed + bytes) as u64,
            bytes_processed: (self.bytes_processed + bytes) as u64,
            lines_processed: (self.lines_processed + lines) as u64,
        }
    }
}

/// One report of the evaluator to its host while it scans a chunk.
pub enum HostCall {
    /// A rule matches.
    RuleMatch {
        /// The rule.
        rule_id: RuleId,
    },
    /// A pattern occurs in the chunk.
    PatternMatch {
        /// The pattern.
        pattern_id: PatternId,
        /// Offset of the occurrence in the chunk.
        start: usize,
        /// Offset in the chunk one past the occurrence.
        end: usize,
        /// Key of the XOR variant that matched, if any.
        xor_key: Option<u8>,
    },
    /// A link of a chained pattern occurs in the chunk.
    UnconfirmedMatch {
        /// The link.
        sub_pattern_id: SubPatternId,
        /// Offset of the occurrence in the chunk.
        start: usize,
        /// Offset in the chunk one past the occurrence.
        end: usize,
        /// Number of links matched so far.
        chain_length: u32,
    },
    /// The pending occurrences of a link are consumed.
    TakeUnconfirmed {
        /// The link.
        sub_pattern_id: SubPatternId,
    },
    /// The pattern search is asked for.
    BeginPatternSearch,
}

impl EvalState {
    /// The state after one report of the evaluator about a chunk of `len`
    /// bytes that starts at stream offset `offset`. Occurrences are moved
    /// into the stream's coordinate system; a report about a range outside
    /// the chunk, or about a rule or pattern that does not exist, changes
    /// nothing.
    pub open spec fn called(self, table: RuleTable, offset: u64, len: usize, call: HostCall) -> EvalState {
        match call {
            HostCall::RuleMatch { rule_id } => self.rule_matched(table, rule_id),
            HostCall::PatternMatch { pattern_id, start, end, xor_key } => if pattern_id
                < table.patterns && start <= end <= len {
                self.pattern_matched(
                    pattern_id,
                    Match { start: (offset + start) as u64, end: (offset + end) as u64, xor_key },
                )
            } else {
                self
            },
            HostCall::UnconfirmedMatch { sub_pattern_id, start, end, chain_length } => if start
                <= end <= len {
                EvalState {
                    store: self.store.add_unconfirmed(
                        sub_pattern_id,
                        UnconfirmedMatch {
                            start: (offset + start) as u64,
                            end: (offset + end) as u64,
                            chain_length,
                        },
                    ),
                    ..self
                }
            } else {
                self
            },
            HostCall::TakeUnconfirmed { sub_pattern_id } => EvalState {
                store: self.store.take_unconfirmed(sub_pattern_id),
                ..self
            },
            HostCall::BeginPatternSearch => self,
        }
    }

    /// The state after the reports `calls`, in order.
    pub open spec fn called_all(
        self,
        table: RuleTable,
        offset: u64,
        len: usize,
        calls: Seq<HostCall>,
    ) -> EvalState
        decreases calls.len(),
    {
        if calls.len() == 0 {
            self
        } else {
            self.called_all(table, offset, len, calls.drop_last()).called(
                table,
                offset,
                len,
                calls.last(),
            )
        }
    }

    /// A report keeps the invariant and the committed lists.
    pub proof fn lemma_called(self, table: RuleTable, offset: u64, len: usize, call: HostCall)
        requires
            self.wf(table),
        ensures
            self.called(table, offset, len, call).wf(table),
            self.called(table, offset, len, call).lists == self.lists,
    {
        match call {
            HostCall::RuleMatch { rule_id } => {
                self.lemma_rule_matched(table, rule_id);
            },
            HostCall::PatternMatch { pattern_id, start, end, xor_key } => {
                self.lemma_pattern_matched(
                    table,
                    pattern_id,
                    Match { start: (offset + start) as u64, end: (offset + end) as u64, xor_key },
                );
            },
            HostCall::UnconfirmedMatch { sub_pattern_id, start, end, chain_length } => {},
            HostCall::TakeUnconfirmed { sub_pattern_id } => {},
            HostCall::BeginPatternSearch => {},
        }
    }

    /// Reports keep the invariant and the committed lists.
    pub proof fn lemma_called_all(
        self,
        table: RuleTable,
        offset: u64,
        len: usize,
        calls: Seq<HostCall>,
    )
        requires
            self.wf(table),
        ensures
            self.called_all(table, offset, len, calls).wf(table),
            self.called_all(table, offset, len, calls).lists == self.lists,
        decreases calls.len(),
    {
        if calls.len() > 0 {
            self.lemma_called_all(table, offset, len, calls.drop_last());
            self.called_all(table, offset, len, calls.drop_last()).lemma_called(
                table,
                offset,
                len,
                calls.last(),
            );
        }
    }
}

impl StreamState {
    /// The state of the stream when the evaluator starts on a chunk: what
    /// was pending is committed and the scratch list of pending rules is
    /// empty.
    pub open spec fn scan_begun(self, table: RuleTable) -> StreamState {
        StreamState { eval: self.eval.committed(table).without_pending(), ..self }
    }

    /// The state of the stream after one whole scan: the evaluator starts on
    /// a chunk of `len` bytes counted as `lines` lines, makes the reports
    /// `calls`, and ends. What it reported is committed. The chunk starts at
    /// the stream offset given by the bytes scanned so far. The counters advance
    /// if the evaluator succeeded; the global offset is the count of bytes
    /// afterwards in either case.
    pub open spec fn scan(
        self,
        table: RuleTable,
        len: usize,
        lines: u64,
        calls: Seq<HostCall>,
        success: bool,
    ) -> StreamState {
        let reported = self.scan_begun(table).eval.called_all(
            table,
            self.bytes_processed,
            len,
            calls,
        );
        if success {
            (StreamState { eval: reported, ..self }).scanned(table, len as nat, lines as nat)
        } else {
            StreamState {
                eval: reported.committed(table),
                global_offset: self.bytes_processed,
                ..self
            }
        }
    }

    /// A whole scan keeps the invariant. Afterwards nothing is pending, the
    /// rule bitmap marks exactly the listed rules, and no rule listed before
    /// is dropped or moved. A successful scan advances the counters by the
    /// chunk, a failed one leaves them.
    pub proof fn lemma_scan(
        self,
        table: RuleTable,
        len: usize,
        lines: u64,
        calls: Seq<HostCall>,
        success: bool,
    )
        requires
            self.wf(table),
        ensures
            self.scan(table, len, lines, calls, success).wf(table),
            self.scan(table, len, lines, calls, success).eval.settled(),
            forall|r: RuleId|
                r < table.rules() ==> (bit_is_set(
                    self.scan(table, len, lines, calls, success).eval.rule_bits,
                    r as int,
                ) <==> self.scan(table, len, lines, calls, success).eval.lists.contains(r)),
            self.matching_rules().is_prefix_of(
                self.scan(table, len, lines, calls, success).matching_rules(),
            ),
            self.eval.lists.private.is_prefix_of(
                self.scan(table, len, lines, calls, success).eval.lists.private,
            ),
            success ==> self.scan(table, len, lines, calls, success).bytes_processed == ((
            self.bytes_processed + len) as u64),
            success ==> self.scan(table, len, lines, calls, success).lines_processed == ((
            self.lines_processed + lines) as u64),
            !success ==> self.scan(table, len, lines, calls, success).bytes_processed
                == self.bytes_processed,
            !success ==> self.scan(table, len, lines, calls, success).lines_processed
                == self.lines_processed,
    {
        let begun = self.scan_begun(table).eval;
        self.eval.lemma_committed(table);
        self.eval.committed(table).lemma_without_pending(table);
        begun.lemma_called_all(table, self.bytes_processed, len, calls);
        let reported = begun.called_all(table, self.bytes_processed, len, calls);
        reported.lemma_committed(table);
        let a = self.eval.lists.non_private;
        let b = begun.lists.non_private;
        let c = reported.committed(table).lists.non_private;
        assert(a.is_prefix_of(c)) by {
            assert(a.is_prefix_of(b));
            assert(b.is_prefix_of(c));
            assert(a =~= c.subrange(0, a.len() as int)) by {
                assert(a =~= b.subrange(0, a.len() as int));
                assert(b =~= c.subrange(0, b.len() as int));
            }
        }
        let pa = self.eval.lists.private;
        let pb = begun.lists.private;
        let pc = reported.committed(table).lists.private;
        assert(pa.is_prefix_of(pc)) by {
            assert(pa =~= pc.subrange(0, pa.len() as int)) by {
                assert(pa =~= pb.subrange(0, pa.len() as int));
                assert(pb =~= pc.subrange(0, pb.len() as int));
            }
        }
    }
}

/// The rules that the evaluator reports with `calls`, by namespace, in the
/// order in which the namespaces first report. Identifiers that name no rule
/// are left out.
pub open spec fn reported(table: RuleTable, calls: Seq<HostCall>) -> Seq<
    (NamespaceId, Seq<RuleId>),
>
    decreases calls.len(),
{
    if calls.len() == 0 {
        Seq::empty()
    } else {
        let head = reported(table, calls.drop_last());
        match calls.last() {
            HostCall::RuleMatch { rule_id } => if rule_id < table.rules() {
                pushed(head, table.namespace[rule_id as int], rule_id)
            } else {
                head
            },
            _ => head,
        }
    }
}

impl EvalState {
    /// Reports change the pending rules by the rules reported, and leave
    /// the committed lists.
    pub proof fn lemma_called_all_pending(
        self,
        table: RuleTable,
        offset: u64,
        len: usize,
        calls: Seq<HostCall>,
    )
        requires
            self.pending == Seq::<(NamespaceId, Seq<RuleId>)>::empty(),
        ensures
            self.called_all(table, offset, len, calls).pending == reported(table, calls),
            self.called_all(table, offset, len, calls).lists == self.lists,
        decreases calls.len(),
    {
        if calls.len() > 0 {
            self.lemma_called_all_pending(table, offset, len, calls.drop_last());
        }
    }
}

impl StreamState {
    /// After a whole scan of a stream on which nothing was pending, the
    /// lists of the stream are the lists before with the rules committed that
    /// the evaluator reported during the scan.
    pub proof fn lemma_scan_commits_reports(
        self,
        table: RuleTable,
        len: usize,
        lines: u64,
        calls: Seq<HostCall>,
        success: bool,
    )
        requires
            self.eval.settled(),
        ensures
            self.scan(table, len, lines, calls, success).eval.lists == self.eval.lists.commit_all(
                table,
                flatten(reported(table, calls)),
            ),
            self.scan(table, len, lines, calls, success).eval.settled(),
    {
        assert(flatten(self.eval.pending) =~= Seq::<RuleId>::empty());
        let begun = self.scan_begun(table).eval;
        assert(begun.lists == self.eval.lists);
        begun.lemma_called_all_pending(table, self.bytes_processed, len, calls);
        let after = begun.called_all(table, self.bytes_processed, len, calls);
        lemma_flatten_emptied(emptied(after.pending));
    }
}

} // verus!
