//! The evaluator harness: the one context the rule-condition evaluator works
//! on, with its linear memory and per-scan globals.

use crate::bitmap::{bit_is_set, with_bit_set};
use crate::layout::{
    matching_patterns_bitmap_base, memory_pages, pattern_region, rule_region, spec_bitmaps_end,
    spec_memory_size, spec_patterns_bitmap_base, MATCHING_RULES_BITMAP_BASE, PAGE_SIZE,
};
use crate::matches::{Match, MatchStore, UnconfirmedMatch};
use crate::pending::{
    emptied, flatten, pending_clear, pending_clone, pending_drain, pending_entries, pending_len,
    pending_new, pending_push, PendingMatches,
};
use crate::rules::{PatternId, RuleId, RuleTable, Rules, SubPatternId};
use crate::state::{EvalState, HostCall, RuleLists, StreamState};
use vstd::prelude::*;

verus! {

/// Mathematical content of the harness.
pub struct Harness {
    /// The state of the installed stream.
    pub eval: EvalState,
    /// The evaluator's linear memory.
    pub memory: Seq<u8>,
    /// Stream offset of the first byte of the chunk being scanned.
    pub global_offset: u64,
    /// Length of the chunk being scanned; the evaluator's `filesize`.
    pub filesize: usize,
    /// Lines that the chunk being scanned counts for.
    pub lines: u64,
    /// Value of the epoch counter past which the scan is to be aborted.
    pub deadline: u64,
    /// Whether the pattern search has run for the chunk being scanned.
    pub pattern_search_done: bool,
}

impl Harness {
    /// Invariant of the harness: the memory has its full size, the bitmaps
    /// of the installed state are the ones in memory, and every offset of the
    /// chunk fits the stream's coordinate system.
    pub open spec fn wf(self, table: RuleTable) -> bool {
        &&& self.eval.wf(table)
        &&& self.memory.len() == spec_memory_size(table)
        &&& self.eval.rule_bits == rule_region(self.memory, table)
        &&& self.eval.pattern_bits == pattern_region(self.memory, table)
        &&& self.global_offset + self.filesize <= u64::MAX
    }

    /// The harness after the evaluator reported a matching rule.
    pub open spec fn rule_matched(self, table: RuleTable, rule_id: RuleId) -> Harness {
        if rule_id < table.rules() {
            Harness {
                eval: self.eval.rule_matched(table, rule_id),
                memory: with_bit_set(self.memory, 8 * MATCHING_RULES_BITMAP_BASE + rule_id),
                ..self
            }
        } else {
            self
        }
    }

    /// Whether `[start, end)` is a range of the chunk being scanned.
    pub open spec fn in_chunk(self, start: usize, end: usize) -> bool {
        start <= end <= self.filesize
    }

    /// The match that the occurrence `[start, end)` of the chunk stands for
    /// in the stream: both offsets moved by the global offset.
    pub open spec fn rebased(self, start: usize, end: usize, xor_key: Option<u8>) -> Match {
        Match {
            start: (self.global_offset + start) as u64,
            end: (self.global_offset + end) as u64,
            xor_key,
        }
    }

    /// The harness after the search found `pattern_id` at `[start, end)` of
    /// the chunk. A range outside the chunk and an unknown pattern change
    /// nothing.
    pub open spec fn pattern_matched(
        self,
        table: RuleTable,
        pattern_id: PatternId,
        start: usize,
        end: usize,
        xor_key: Option<u8>,
    ) -> Harness {
        if pattern_id < table.patterns && self.in_chunk(start, end) {
            Harness {
                eval: self.eval.pattern_matched(pattern_id, self.rebased(start, end, xor_key)),
                memory: with_bit_set(
                    self.memory,
                    8 * spec_patterns_bitmap_base(table) + pattern_id,
                ),
                ..self
            }
        } else {
            self
        }
    }
}

impl Harness {
    /// The harness after one report of the evaluator.
    pub open spec fn called(self, table: RuleTable, call: HostCall) -> Harness {
        match call {
            HostCall::RuleMatch { rule_id } => self.rule_matched(table, rule_id),
            HostCall::PatternMatch { pattern_id, start, end, xor_key } => self.pattern_matched(
                table,
                pattern_id,
                start,
                end,
                xor_key,
            ),
            HostCall::BeginPatternSearch => Harness { pattern_search_done: true, ..self },
            _ => Harness {
                eval: self.eval.called(table, self.global_offset, self.filesize, call),
                ..self
            },
        }
    }

    /// The harness after the reports `calls`, in order.
    pub open spec fn called_all(self, table: RuleTable, calls: Seq<HostCall>) -> Harness
        decreases calls.len(),
    {
        if calls.len() == 0 {
            self
        } else {
            self.called_all(table, calls.drop_last()).called(table, calls.last())
        }
    }

    /// A report changes the installed state as the stream's state changes,
    /// and leaves the chunk as it is.
    pub proof fn lemma_called(self, table: RuleTable, call: HostCall)
        ensures
            self.called(table, call).eval == self.eval.called(
                table,
                self.global_offset,
                self.filesize,
                call,
            ),
            self.called(table, call).global_offset == self.global_offset,
            self.called(table, call).filesize == self.filesize,
            self.called(table, call).lines == self.lines,
            self.called(table, call).deadline == self.deadline,
    {
    }

    /// Reports change the installed state as the stream's state changes, and
    /// leave the chunk as it is.
    pub proof fn lemma_called_all(self, table: RuleTable, calls: Seq<HostCall>)
        ensures
            self.called_all(table, calls).eval == self.eval.called_all(
                table,
                self.global_offset,
                self.filesize,
                calls,
            ),
            self.called_all(table, calls).global_offset == self.global_offset,
            self.called_all(table, calls).filesize == self.filesize,
            self.called_all(table, calls).lines == self.lines,
            self.called_all(table, calls).deadline == self.deadline,
        decreases calls.len(),
    {
        if calls.len() > 0 {
            self.lemma_called_all(table, calls.drop_last());
            self.called_all(table, calls.drop_last()).lemma_called(table, calls.last());
        }
    }
}

/// Setting a bit of a region of memory, addressed from the start of memory.
pub proof fn lemma_region_bit_set(mem: Seq<u8>, start: int, end: int, i: int)
    requires
        0 <= start <= end <= mem.len(),
        0 <= i < 8 * (end - start),
    ensures
        with_bit_set(mem, 8 * start + i).len() == mem.len(),
        with_bit_set(mem, 8 * start + i).subrange(start, end) == with_bit_set(
            mem.subrange(start, end),
            i,
        ),
        forall|a: int, b: int|
            0 <= a <= b <= mem.len() && (b <= start || end <= a) ==> with_bit_set(
                mem,
                8 * start + i,
            ).subrange(a, b) == mem.subrange(a, b),
{
    let after = with_bit_set(mem, 8 * start + i);
    assert((8 * start + i) / 8 == start + i / 8);
    assert((8 * start + i) % 8 == i % 8);
    assert(after.subrange(start, end) =~= with_bit_set(mem.subrange(start, end), i));
    assert forall|a: int, b: int|
        0 <= a <= b <= mem.len() && (b <= start || end <= a) implies after.subrange(a, b)
        == mem.subrange(a, b) by {
        assert(after.subrange(a, b) =~= mem.subrange(a, b));
    }
}

/// Whether `list` holds `rule_id`.
pub fn contains_rule(list: &Vec<RuleId>, rule_id: RuleId) -> (found: bool)
    ensures
        found == list@.contains(rule_id),
{
    let n = list.len();
    let mut i: usize = 0;
    while i < n
        invariant
            n == list@.len(),
            i <= n,
            forall|k: int| 0 <= k < i ==> list@[k] != rule_id,
        decreases n - i,
    {
        if list[i] == rule_id {
            return true;
        }
        i += 1;
    }
    false
}

/// A copy of a list of rule identifiers.
pub fn copy_rules(list: &Vec<RuleId>) -> (copy: Vec<RuleId>)
    ensures
        copy@ == list@,
{
    let n = list.len();
    let mut copy: Vec<RuleId> = Vec::with_capacity(n);
    let mut i: usize = 0;
    while i < n
        invariant
            n == list@.len(),
            i <= n,
            copy@ == list@.take(i as int),
        decreases n - i,
    {
        copy.push(list[i]);
        i += 1;
    }
    proof {
        assert(list@.take(n as int) == list@);
    }
    copy
}

/// The context that the evaluator works on. Exactly one stream is installed
/// in it at any time.
pub struct ScanContext<'r> {
    compiled_rules: &'r Rules,
    main_memory: Vec<u8>,
    non_private_matching_rules: Vec<RuleId>,
    private_matching_rules: Vec<RuleId>,
    matching_rules: PendingMatches,
    pattern_matches: MatchStore,
    global_scan_offset: u64,
    scanned_data_len: usize,
    scanned_lines: u64,
    deadline: u64,
    pattern_search_done: bool,
}

impl<'r> View for ScanContext<'r> {
    type V = Harness;

    closed spec fn view(&self) -> Harness {
        Harness {
            eval: EvalState {
                lists: RuleLists {
                    non_private: self.non_private_matching_rules@,
                    private: self.private_matching_rules@,
                },
                pending: pending_entries(self.matching_rules),
                rule_bits: rule_region(self.main_memory@, self.compiled_rules@),
                pattern_bits: pattern_region(self.main_memory@, self.compiled_rules@),
                store: self.pattern_matches@,
            },
            memory: self.main_memory@,
            global_offset: self.global_scan_offset,
            filesize: self.scanned_data_len,
            lines: self.scanned_lines,
            deadline: self.deadline,
            pattern_search_done: self.pattern_search_done,
        }
    }
}

impl<'r> ScanContext<'r> {
    /// The rule set the context was made for.
    pub closed spec fn rules(&self) -> &'r Rules {
        self.compiled_rules
    }

    /// Invariant of the context; every public operation keeps it.
    pub closed spec fn wf(&self) -> bool {
        &&& self.compiled_rules.wf()
        &&& self.pattern_matches.wf()
        &&& self@.wf(self.compiled_rules@)
    }

    /// What the invariant says of the content.
    pub proof fn lemma_wf(&self)
        requires
            self.wf(),
        ensures
            self.rules().wf(),
            self@.wf(self.rules()@),
    {
    }

    /// The rule set the context was made for.
    pub fn compiled_rules(&self) -> (rules: &'r Rules)
        ensures
            rules == self.rules(),
    {
        self.compiled_rules
    }

    /// The evaluator's linear memory.
    pub fn main_memory(&self) -> (memory: &Vec<u8>)
        ensures
            memory@ == self@.memory,
    {
        &self.main_memory
    }

    /// Stream offset of the first byte of the chunk being scanned.
    pub fn global_scan_offset(&self) -> (offset: u64)
        ensures
            offset == self@.global_offset,
    {
        self.global_scan_offset
    }

    /// Length of the chunk being scanned.
    pub fn filesize(&self) -> (len: usize)
        ensures
            len == self@.filesize,
    {
        self.scanned_data_len
    }

    /// Epoch past which the scan is to be aborted.
    pub fn deadline(&self) -> (deadline: u64)
        ensures
            deadline == self@.deadline,
    {
        self.deadline
    }

    /// Whether the epoch counter has advanced past the deadline of the scan.
    pub fn deadline_passed(&self, epoch: u64) -> (passed: bool)
        ensures
            passed == (epoch > self@.deadline),
    {
        epoch > self.deadline
    }
}

impl<'r> ScanContext<'r> {
    /// A context for `rules` with nothing installed: no rule has matched, no
    /// pattern has a match, and the memory is zero.
    pub fn new(rules: &'r Rules, max_matches_per_pattern: usize) -> (ctx: ScanContext<'r>)
        requires
            rules.wf(),
            max_matches_per_pattern > 0,
        ensures
            ctx.wf(),
            ctx.rules() == rules,
            ctx@.eval == EvalState::fresh(rules@, max_matches_per_pattern as nat),
            ctx@.memory == Seq::new(spec_memory_size(rules@), |i: int| 0u8),
            ctx@.global_offset == 0,
            ctx@.filesize == 0,
            ctx@.lines == 0,
            ctx@.deadline == 0,
            !ctx@.pattern_search_done,
    {
        proof {
            rules.lemma_view();
        }
        let pages = memory_pages(rules.num_rules(), rules.num_patterns());
        let ctx = ScanContext {
            compiled_rules: rules,
            main_memory: crate::bitmap::zeroed(pages * PAGE_SIZE),
            non_private_matching_rules: Vec::new(),
            private_matching_rules: Vec::new(),
            matching_rules: pending_new(),
            pattern_matches: MatchStore::new(max_matches_per_pattern, rules.num_patterns()),
            global_scan_offset: 0,
            scanned_data_len: 0,
            scanned_lines: 0,
            deadline: 0,
            pattern_search_done: false,
        };
        proof {
            let fresh = EvalState::fresh(rules@, max_matches_per_pattern as nat);
            EvalState::lemma_fresh(rules@, max_matches_per_pattern as nat);
            assert(ctx@.eval.rule_bits =~= fresh.rule_bits);
            assert(ctx@.eval.pattern_bits =~= fresh.pattern_bits);
            assert(ctx@.eval.lists.non_private =~= fresh.lists.non_private);
            assert(ctx@.eval.lists.private =~= fresh.lists.private);
            assert(ctx@.memory =~= Seq::new(spec_memory_size(rules@), |i: int| 0u8));
        }
        ctx
    }

    /// Host call of the evaluator: the rule `rule_id` matches. Sets the
    /// rule's bit in memory and lists the rule as pending under its namespace.
    /// Returns whether `rule_id` names a rule; if not, nothing changes.
    pub fn track_rule_match(&mut self, rule_id: RuleId) -> (known: bool)
        requires
            old(self).wf(),
        ensures
            final(self).wf(),
            final(self).rules() == old(self).rules(),
            known == (rule_id < old(self).rules()@.rules()),
            final(self)@ == old(self)@.called(old(self).rules()@, HostCall::RuleMatch { rule_id }),
    {
        let num_rules = self.compiled_rules.num_rules();
        if rule_id as usize >= num_rules {
            return false;
        }
        let namespace_id = self.compiled_rules.get(rule_id).namespace_id;
        let ghost table = self.compiled_rules@;
        proof {
            self.compiled_rules.lemma_view();
            old(self)@.eval.lemma_rule_matched(table, rule_id);
            lemma_region_bit_set(
                self.main_memory@,
                MATCHING_RULES_BITMAP_BASE as int,
                spec_patterns_bitmap_base(table) as int,
                rule_id as int,
            );
        }
        pending_push(&mut self.matching_rules, namespace_id, rule_id);
        crate::bitmap::set_bit_from(
            &mut self.main_memory,
            MATCHING_RULES_BITMAP_BASE,
            rule_id as usize,
        );
        true
    }

    /// Host call of the pattern search: `pattern_id` occurs at `[start, end)`
    /// of the chunk being scanned. The occurrence is moved into the stream's
    /// coordinate system and offered to the match store, and the pattern's bit
    /// is set in memory. Returns whether the store took the match as a new one.
    pub fn track_pattern_match(
        &mut self,
        pattern_id: PatternId,
        start: usize,
        end: usize,
        xor_key: Option<u8>,
    ) -> (recorded: bool)
        requires
            old(self).wf(),
        ensures
            final(self).wf(),
            final(self).rules() == old(self).rules(),
            final(self)@ == old(self)@.called(
                old(self).rules()@,
                HostCall::PatternMatch { pattern_id, start, end, xor_key },
            ),
            recorded == (pattern_id < old(self).rules()@.patterns && old(self)@.in_chunk(start, end)
                && old(self)@.eval.store.accepts(
                pattern_id,
                old(self)@.rebased(start, end, xor_key),
            )),
    {
        let num_patterns = self.compiled_rules.num_patterns();
        if pattern_id as usize >= num_patterns || start > end || end > self.scanned_data_len {
            return false;
        }
        let ghost table = self.compiled_rules@;
        let m = Match {
            start: self.global_scan_offset + start as u64,
            end: self.global_scan_offset + end as u64,
            xor_key,
        };
        let base = matching_patterns_bitmap_base(self.compiled_rules.num_rules());
        proof {
            self.compiled_rules.lemma_view();
            old(self)@.eval.lemma_pattern_matched(table, pattern_id, m);
            lemma_region_bit_set(
                self.main_memory@,
                spec_patterns_bitmap_base(table) as int,
                spec_bitmaps_end(table) as int,
                pattern_id as int,
            );
        }
        let recorded = self.pattern_matches.add(pattern_id, m);
        crate::bitmap::set_bit_from(&mut self.main_memory, base, pattern_id as usize);
        recorded
    }

    /// Host call of the pattern search: the chain link `sub_pattern_id`
    /// occurs at `[start, end)` of the chunk being scanned, and later links
    /// are still missing. Returns whether the range lies in the chunk; if
    /// not, nothing changes.
    pub fn track_unconfirmed_match(
        &mut self,
        sub_pattern_id: SubPatternId,
        start: usize,
        end: usize,
        chain_length: u32,
    ) -> (recorded: bool)
        requires
            old(self).wf(),
        ensures
            final(self).wf(),
            final(self).rules() == old(self).rules(),
            recorded == old(self)@.in_chunk(start, end),
            final(self)@ == old(self)@.called(
                old(self).rules()@,
                HostCall::UnconfirmedMatch { sub_pattern_id, start, end, chain_length },
            ),
    {
        if start > end || end > self.scanned_data_len {
            return false;
        }
        let um = UnconfirmedMatch {
            start: self.global_scan_offset + start as u64,
            end: self.global_scan_offset + end as u64,
            chain_length,
        };
        proof {
            self.pattern_matches.lemma_wf();
        }
        self.pattern_matches.add_unconfirmed(sub_pattern_id, um);
        proof {
            self.pattern_matches.lemma_wf();
            let call = HostCall::UnconfirmedMatch { sub_pattern_id, start, end, chain_length };
            let table = self.compiled_rules@;
            old(self)@.eval.lemma_called(
                table,
                old(self)@.global_offset,
                old(self)@.filesize,
                call,
            );
            assert(self@.eval == old(self)@.called(table, call).eval);
        }
        true
    }

    /// Host call of the pattern search: a later link confirmed the chain that
    /// `sub_pattern_id` belongs to. Consumes the pending occurrences of the
    /// link and hands them out in insertion order.
    pub fn take_unconfirmed_matches(&mut self, sub_pattern_id: SubPatternId) -> (taken: Vec<
        UnconfirmedMatch,
    >)
        requires
            old(self).wf(),
        ensures
            final(self).wf(),
            final(self).rules() == old(self).rules(),
            taken@ == old(self)@.eval.store.pending(sub_pattern_id),
            final(self)@ == old(self)@.called(
                old(self).rules()@,
                HostCall::TakeUnconfirmed { sub_pattern_id },
            ),
    {
        proof {
            self.pattern_matches.lemma_wf();
        }
        let taken = self.pattern_matches.take_unconfirmed(sub_pattern_id);
        proof {
            self.pattern_matches.lemma_wf();
            let call = HostCall::TakeUnconfirmed { sub_pattern_id };
            let table = self.compiled_rules@;
            old(self)@.eval.lemma_called(
                table,
                old(self)@.global_offset,
                old(self)@.filesize,
                call,
            );
            assert(self@.eval == old(self)@.called(table, call).eval);
        }
        taken
    }

    /// Host call of the evaluator: asks whether the pattern search still has
    /// to run for the chunk being scanned, and marks it as run. The answer is
    /// yes once per chunk.
    pub fn begin_pattern_search(&mut self) -> (needed: bool)
        requires
            old(self).wf(),
        ensures
            final(self).wf(),
            final(self).rules() == old(self).rules(),
            needed == !old(self)@.pattern_search_done,
            final(self)@ == old(self)@.called(old(self).rules()@, HostCall::BeginPatternSearch),
    {
        let needed = !self.pattern_search_done;
        self.pattern_search_done = true;
        needed
    }

    /// The confirmed matches of `pattern_id` in the installed stream, in
    /// insertion order.
    pub fn pattern_matches(&self, pattern_id: PatternId) -> (list: Option<&Vec<Match>>)
        ensures
            list.is_some() == self@.eval.store.matches.contains_key(pattern_id),
            list.is_some() ==> list.unwrap()@ == self@.eval.store.matches[pattern_id],
    {
        self.pattern_matches.get(pattern_id)
    }

    /// Whether `pattern_id` accepts no further matches in the installed
    /// stream.
    pub fn limit_reached(&self, pattern_id: PatternId) -> (reached: bool)
        requires
            self.wf(),
        ensures
            reached == self@.eval.store.limit_reached.contains(pattern_id),
    {
        self.pattern_matches.limit_reached(pattern_id)
    }

    /// The reported matching rules of the installed stream, in the order in
    /// which they first matched.
    pub fn non_private_matching_rules(&self) -> (list: &Vec<RuleId>)
        ensures
            list@ == self@.eval.lists.non_private,
    {
        &self.non_private_matching_rules
    }

    /// The matching private rules of the installed stream.
    pub fn private_matching_rules(&self) -> (list: &Vec<RuleId>)
        ensures
            list@ == self@.eval.lists.private,
    {
        &self.private_matching_rules
    }

    /// Whether the rule `rule_id` is marked as matching in memory.
    pub fn rule_bit(&self, rule_id: RuleId) -> (set: bool)
        requires
            self.wf(),
            rule_id < self.rules()@.rules(),
        ensures
            set == bit_is_set(self@.eval.rule_bits, rule_id as int),
            set == self@.eval.has_fired(rule_id),
    {
        proof {
            self.compiled_rules.lemma_view();
            let r = rule_id as int;
            assert((8 * MATCHING_RULES_BITMAP_BASE + r) / 8 == MATCHING_RULES_BITMAP_BASE + r / 8);
            assert((8 * MATCHING_RULES_BITMAP_BASE + r) % 8 == r % 8);
        }
        crate::bitmap::get_bit_from(
            &self.main_memory,
            MATCHING_RULES_BITMAP_BASE,
            rule_id as usize,
        )
    }

    /// Whether the pattern `pattern_id` is marked as matching in memory.
    pub fn pattern_bit(&self, pattern_id: PatternId) -> (set: bool)
        requires
            self.wf(),
            pattern_id < self.rules()@.patterns,
        ensures
            set == bit_is_set(self@.eval.pattern_bits, pattern_id as int),
            set == self@.eval.store.matches.contains_key(pattern_id),
    {
        let base = matching_patterns_bitmap_base(self.compiled_rules.num_rules());
        proof {
            self.compiled_rules.lemma_view();
            let p = pattern_id as int;
            assert((8 * base + p) / 8 == base + p / 8);
            assert((8 * base + p) % 8 == p % 8);
        }
        crate::bitmap::get_bit_from(&self.main_memory, base, pattern_id as usize)
    }
}

/// Commits `rule_id` to the list that its privacy selects, unless the list
/// holds it already. An identifier that names no rule is ignored.
fn commit_rule(
    rules: &Rules,
    non_private: &mut Vec<RuleId>,
    private: &mut Vec<RuleId>,
    rule_id: RuleId,
)
    ensures
        (RuleLists { non_private: final(non_private)@, private: final(private)@ }) == (RuleLists {
            non_private: old(non_private)@,
            private: old(private)@,
        }).commit_one(rules@, rule_id),
{
    proof {
        rules.lemma_view();
    }
    if (rule_id as usize) < rules.num_rules() {
        if rules.get(rule_id).is_private {
            if !contains_rule(private, rule_id) {
                private.push(rule_id);
            }
        } else {
            if !contains_rule(non_private, rule_id) {
                non_private.push(rule_id);
            }
        }
    }
}

/// Moves every pending rule identifier of `pending` into the lists, entry
/// after entry and each entry's list in order.
fn drain_pending(
    rules: &Rules,
    pending: &mut PendingMatches,
    non_private: &mut Vec<RuleId>,
    private: &mut Vec<RuleId>,
)
    ensures
        pending_entries(*final(pending)) == emptied(pending_entries(*old(pending))),
        (RuleLists { non_private: final(non_private)@, private: final(private)@ }) == (RuleLists {
            non_private: old(non_private)@,
            private: old(private)@,
        }).commit_all(rules@, flatten(pending_entries(*old(pending)))),
{
    let ghost entries = pending_entries(*pending);
    let ghost start = RuleLists { non_private: non_private@, private: private@ };
    let ghost table = rules@;
    let n = pending_len(pending);
    let mut i: usize = 0;
    while i < n
        invariant
            n == entries.len(),
            i <= n,
            table == rules@,
            pending_entries(*pending) == Seq::new(
                entries.len(),
                |k: int|
                    if k < i {
                        (entries[k].0, Seq::<RuleId>::empty())
                    } else {
                        entries[k]
                    },
            ),
            (RuleLists { non_private: non_private@, private: private@ }) == start.commit_all(
                table,
                flatten(entries.take(i as int)),
            ),
        decreases n - i,
    {
        let ghost done = flatten(entries.take(i as int));
        let ids = pending_drain(pending, i);
        assert(ids@ == entries[i as int].1);
        let m = ids.len();
        let mut j: usize = 0;
        proof {
            assert(done + ids@.take(0) =~= done);
        }
        while j < m
            invariant
                m == ids@.len(),
                j <= m,
                table == rules@,
                (RuleLists { non_private: non_private@, private: private@ }) == start.commit_all(
                    table,
                    done + ids@.take(j as int),
                ),
            decreases m - j,
        {
            proof {
                let next = done + ids@.take(j + 1);
                assert(next.drop_last() =~= done + ids@.take(j as int));
                assert(next.last() == ids@[j as int]);
            }
            commit_rule(rules, non_private, private, ids[j]);
            j += 1;
        }
        proof {
            assert(ids@.take(m as int) == ids@);
            assert(entries.take(i + 1).drop_last() =~= entries.take(i as int));
            assert(entries.take(i + 1).last() == entries[i as int]);
            assert(pending_entries(*pending) =~= Seq::new(
                entries.len(),
                |k: int|
                    if k < i + 1 {
                        (entries[k].0, Seq::<RuleId>::empty())
                    } else {
                        entries[k]
                    },
            ));
        }
        i += 1;
    }
    proof {
        assert(entries.take(n as int) == entries);
        assert(pending_entries(*pending) =~= emptied(entries));
    }
}

impl<'r> ScanContext<'r> {
    /// Commits the pending rules of the installed stream: each rule reported
    /// since the last commit joins the list its privacy selects, unless it is
    /// listed already. Rules are taken namespace by namespace, in the order
    /// in which the namespaces first reported.
    pub fn commit_pending(&mut self)
        requires
            old(self).wf(),
        ensures
            final(self).wf(),
            final(self).rules() == old(self).rules(),
            final(self)@ == (Harness {
                eval: old(self)@.eval.committed(old(self).rules()@),
                ..old(self)@
            }),
    {
        proof {
            old(self)@.eval.lemma_committed(self.compiled_rules@);
        }
        drain_pending(
            self.compiled_rules,
            &mut self.matching_rules,
            &mut self.non_private_matching_rules,
            &mut self.private_matching_rules,
        );
    }

    /// Makes the context ready for the evaluator to scan a chunk of
    /// `data_len` bytes that starts at stream offset `global_offset` and
    /// counts for `lines` lines. Rules still pending from an abandoned
    /// evaluation are committed, so that the scratch list of pending rules
    /// starts out empty; the pattern search is marked as not yet run.
    pub fn begin_chunk(&mut self, data_len: usize, lines: u64, global_offset: u64, deadline: u64)
        requires
            old(self).wf(),
            global_offset + data_len <= u64::MAX,
        ensures
            final(self).wf(),
            final(self).rules() == old(self).rules(),
            final(self)@ == (Harness {
                eval: old(self)@.eval.committed(old(self).rules()@).without_pending(),
                global_offset,
                filesize: data_len,
                lines,
                deadline,
                pattern_search_done: false,
                memory: old(self)@.memory,
            }),
    {
        self.commit_pending();
        proof {
            old(self)@.eval.lemma_committed(self.compiled_rules@);
            self@.eval.lemma_without_pending(self.compiled_rules@);
        }
        pending_clear(&mut self.matching_rules);
        self.global_scan_offset = global_offset;
        self.scanned_data_len = data_len;
        self.scanned_lines = lines;
        self.deadline = deadline;
        self.pattern_search_done = false;
    }

    /// Ends the scan of a chunk: commits the pending rules and forgets the
    /// chunk. Returns the length of the chunk and the lines it counts for.
    pub fn end_chunk(&mut self) -> (done: (usize, u64))
        requires
            old(self).wf(),
        ensures
            final(self).wf(),
            final(self).rules() == old(self).rules(),
            done.0 == old(self)@.filesize,
            done.1 == old(self)@.lines,
            final(self)@ == (Harness {
                eval: old(self)@.eval.committed(old(self).rules()@),
                filesize: 0,
                lines: 0,
                ..old(self)@
            }),
    {
        self.commit_pending();
        let done = (self.scanned_data_len, self.scanned_lines);
        self.scanned_data_len = 0;
        self.scanned_lines = 0;
        done
    }

    /// Moves the global offset. The chunk that the context is set up for has
    /// to fit behind it.
    pub fn set_global_scan_offset(&mut self, offset: u64)
        requires
            old(self).wf(),
            offset + old(self)@.filesize <= u64::MAX,
        ensures
            final(self).wf(),
            final(self).rules() == old(self).rules(),
            final(self)@ == (Harness { global_offset: offset, ..old(self)@ }),
    {
        self.global_scan_offset = offset;
    }

    /// Puts the context back into the state of a stream nothing was scanned
    /// on: no matches, no matching rules, both bitmaps zero. The cap on
    /// matches per pattern becomes `max_matches_per_pattern`. Memory outside
    /// the bitmaps is kept.
    pub fn reset(&mut self, max_matches_per_pattern: usize)
        requires
            old(self).wf(),
            max_matches_per_pattern > 0,
        ensures
            final(self).wf(),
            final(self).rules() == old(self).rules(),
            final(self)@.eval == EvalState::fresh(
                old(self).rules()@,
                max_matches_per_pattern as nat,
            ),
            final(self)@.memory == crate::layout::with_bitmaps(
                old(self)@.memory,
                old(self).rules()@,
                EvalState::fresh(old(self).rules()@, max_matches_per_pattern as nat).rule_bits,
                EvalState::fresh(old(self).rules()@, max_matches_per_pattern as nat).pattern_bits,
            ),
            final(self)@.global_offset == 0,
            final(self)@.filesize == 0,
            final(self)@.lines == 0,
            final(self)@.deadline == old(self)@.deadline,
            final(self)@.pattern_search_done == old(self)@.pattern_search_done,
    {
        let ghost table = self.compiled_rules@;
        let ghost fresh = EvalState::fresh(table, max_matches_per_pattern as nat);
        proof {
            self.compiled_rules.lemma_view();
            EvalState::lemma_fresh(table, max_matches_per_pattern as nat);
        }
        let num_rules = self.compiled_rules.num_rules();
        let num_patterns = self.compiled_rules.num_patterns();
        self.pattern_matches = MatchStore::new(max_matches_per_pattern, num_patterns);
        self.non_private_matching_rules = Vec::new();
        self.private_matching_rules = Vec::new();
        pending_clear(&mut self.matching_rules);
        self.global_scan_offset = 0;
        self.scanned_data_len = 0;
        self.scanned_lines = 0;
        // Set to zero all bits of both bitmaps.
        let bitmaps_end = matching_patterns_bitmap_base(num_rules) + crate::bitmap::bytes_for_bits(
            num_patterns,
        );
        crate::bitmap::clear_range(&mut self.main_memory, MATCHING_RULES_BITMAP_BASE, bitmaps_end);
        proof {
            assert(self.main_memory@ =~= crate::layout::with_bitmaps(
                old(self)@.memory,
                table,
                fresh.rule_bits,
                fresh.pattern_bits,
            ));
            crate::layout::lemma_with_bitmaps(
                old(self)@.memory,
                table,
                fresh.rule_bits,
                fresh.pattern_bits,
            );
            assert(self@.eval.lists.non_private =~= fresh.lists.non_private);
            assert(self@.eval.lists.private =~= fresh.lists.private);
        }
    }

    /// Copies the rule bitmap and the pattern bitmap out of memory.
    pub fn read_bitmaps_from_wasm(&self) -> (bitmaps: (Vec<u8>, Vec<u8>))
        requires
            self.wf(),
        ensures
            bitmaps.0@ == self@.eval.rule_bits,
            bitmaps.1@ == self@.eval.pattern_bits,
    {
        proof {
            self.compiled_rules.lemma_view();
        }
        let num_rules = self.compiled_rules.num_rules();
        let num_patterns = self.compiled_rules.num_patterns();
        let rule_bitmap_size = crate::bitmap::bytes_for_bits(num_rules);
        let pattern_bitmap_start = matching_patterns_bitmap_base(num_rules);
        let pattern_bitmap_size = crate::bitmap::bytes_for_bits(num_patterns);
        (
            crate::layout::copy_out(
                &self.main_memory,
                MATCHING_RULES_BITMAP_BASE,
                rule_bitmap_size,
            ),
            crate::layout::copy_out(&self.main_memory, pattern_bitmap_start, pattern_bitmap_size),
        )
    }

    /// Copies a rule bitmap and a pattern bitmap into memory. Only the
    /// bitmaps' bytes change. The caller answers for the rest of the installed
    /// state matching the bitmaps.
    fn write_bitmaps_to_wasm(&mut self, rule_bitmap: &Vec<u8>, pattern_bitmap: &Vec<u8>)
        requires
            old(self).compiled_rules.wf(),
            old(self).main_memory@.len() == spec_memory_size(old(self).compiled_rules@),
            rule_bitmap@.len() == crate::bitmap::spec_bytes_for_bits(
                old(self).compiled_rules@.rules(),
            ),
            pattern_bitmap@.len() == crate::bitmap::spec_bytes_for_bits(
                old(self).compiled_rules@.patterns,
            ),
        ensures
            final(self).main_memory@ == crate::layout::with_bitmaps(
                old(self).main_memory@,
                old(self).compiled_rules@,
                rule_bitmap@,
                pattern_bitmap@,
            ),
            final(self).compiled_rules == old(self).compiled_rules,
            final(self).non_private_matching_rules == old(self).non_private_matching_rules,
            final(self).private_matching_rules == old(self).private_matching_rules,
            final(self).matching_rules == old(self).matching_rules,
            final(self).pattern_matches == old(self).pattern_matches,
            final(self).global_scan_offset == old(self).global_scan_offset,
            final(self).scanned_data_len == old(self).scanned_data_len,
            final(self).scanned_lines == old(self).scanned_lines,
            final(self).deadline == old(self).deadline,
            final(self).pattern_search_done == old(self).pattern_search_done,
    {
        proof {
            self.compiled_rules.lemma_view();
        }
        let num_rules = self.compiled_rules.num_rules();
        let pattern_bitmap_start = matching_patterns_bitmap_base(num_rules);
        crate::layout::copy_in(&mut self.main_memory, MATCHING_RULES_BITMAP_BASE, rule_bitmap);
        crate::layout::copy_in(&mut self.main_memory, pattern_bitmap_start, pattern_bitmap);
        proof {
            assert(self.main_memory@ =~= crate::layout::with_bitmaps(
                old(self).main_memory@,
                old(self).compiled_rules@,
                rule_bitmap@,
                pattern_bitmap@,
            ));
        }
    }
}

/// The state of one stream while it is not installed in the harness: a
/// snapshot of everything the evaluator reads and changes, with the stream's
/// counters.
pub struct StreamContext {
    pattern_matches: MatchStore,
    non_private_matching_rules: Vec<RuleId>,
    private_matching_rules: Vec<RuleId>,
    matching_rules: PendingMatches,
    total_bytes_processed: u64,
    line_count: u64,
    global_scan_offset: u64,
    rule_bitmap: Vec<u8>,
    pattern_bitmap: Vec<u8>,
}

impl View for StreamContext {
    type V = StreamState;

    closed spec fn view(&self) -> StreamState {
        StreamState {
            eval: EvalState {
                lists: RuleLists {
                    non_private: self.non_private_matching_rules@,
                    private: self.private_matching_rules@,
                },
                pending: pending_entries(self.matching_rules),
                rule_bits: self.rule_bitmap@,
                pattern_bits: self.pattern_bitmap@,
                store: self.pattern_matches@,
            },
            global_offset: self.global_scan_offset,
            bytes_processed: self.total_bytes_processed,
            lines_processed: self.line_count,
        }
    }
}

impl StreamContext {
    /// Invariant of a snapshot taken for the rule set `table`.
    pub closed spec fn wf(&self, table: RuleTable) -> bool {
        &&& self.pattern_matches.wf()
        &&& self@.wf(table)
    }

    /// What the invariant says of the content.
    pub proof fn lemma_wf(&self, table: RuleTable)
        requires
            self.wf(table),
        ensures
            self@.wf(table),
    {
    }

    /// The context of a stream nothing was scanned on.
    pub fn new(rules: &Rules, max_matches_per_pattern: usize) -> (ctx: StreamContext)
        requires
            rules.wf(),
            max_matches_per_pattern > 0,
        ensures
            ctx.wf(rules@),
            ctx@ == StreamState::fresh(rules@, max_matches_per_pattern as nat),
    {
        proof {
            rules.lemma_view();
            EvalState::lemma_fresh(rules@, max_matches_per_pattern as nat);
        }
        let num_rules = rules.num_rules();
        let num_patterns = rules.num_patterns();
        let ctx = StreamContext {
            pattern_matches: MatchStore::new(max_matches_per_pattern, num_patterns),
            non_private_matching_rules: Vec::new(),
            private_matching_rules: Vec::new(),
            matching_rules: pending_new(),
            total_bytes_processed: 0,
            line_count: 0,
            global_scan_offset: 0,
            rule_bitmap: crate::bitmap::zeroed(crate::bitmap::bytes_for_bits(num_rules)),
            pattern_bitmap: crate::bitmap::zeroed(crate::bitmap::bytes_for_bits(num_patterns)),
        };
        proof {
            let fresh = StreamState::fresh(rules@, max_matches_per_pattern as nat);
            assert(ctx@.eval.rule_bits =~= fresh.eval.rule_bits);
            assert(ctx@.eval.pattern_bits =~= fresh.eval.pattern_bits);
            assert(ctx@.eval.lists.non_private =~= fresh.eval.lists.non_private);
            assert(ctx@.eval.lists.private =~= fresh.eval.lists.private);
        }
        ctx
    }

    /// Takes a snapshot of what is installed in `scanner`, with the global
    /// offset of the scanner. The counters of the stream stay as they are.
    pub fn save_from_scanner(&mut self, scanner: &ScanContext)
        requires
            scanner.wf(),
        ensures
            final(self).wf(scanner.rules()@),
            final(self)@ == (StreamState {
                eval: scanner@.eval,
                global_offset: scanner@.global_offset,
                ..old(self)@
            }),
    {
        self.global_scan_offset = scanner.global_scan_offset;
        self.pattern_matches = scanner.pattern_matches.clone();
        self.non_private_matching_rules = copy_rules(&scanner.non_private_matching_rules);
        self.private_matching_rules = copy_rules(&scanner.private_matching_rules);
        self.matching_rules = pending_clone(&scanner.matching_rules);
        let bitmaps = scanner.read_bitmaps_from_wasm();
        self.rule_bitmap = bitmaps.0;
        self.pattern_bitmap = bitmaps.1;
    }

    /// Installs this snapshot in `scanner`: the evaluator's state and the
    /// global offset become the stream's, and the stream's bitmaps are written
    /// into memory. The chunk that `scanner` was set up for is forgotten.
    /// Memory outside the bitmaps, the deadline and the mark of the pattern
    /// search stay as they are.
    pub fn restore_to_scanner(&self, scanner: &mut ScanContext)
        requires
            old(scanner).wf(),
            self.wf(old(scanner).rules()@),
        ensures
            final(scanner).wf(),
            final(scanner).rules() == old(scanner).rules(),
            final(scanner)@ == (Harness {
                eval: self@.eval,
                memory: crate::layout::with_bitmaps(
                    old(scanner)@.memory,
                    old(scanner).rules()@,
                    self@.eval.rule_bits,
                    self@.eval.pattern_bits,
                ),
                global_offset: self@.global_offset,
                filesize: 0,
                lines: 0,
                ..old(scanner)@
            }),
    {
        proof {
            scanner.compiled_rules.lemma_view();
            crate::layout::lemma_with_bitmaps(
                scanner.main_memory@,
                scanner.compiled_rules@,
                self.rule_bitmap@,
                self.pattern_bitmap@,
            );
        }
        scanner.global_scan_offset = self.global_scan_offset;
        scanner.scanned_data_len = 0;
        scanner.scanned_lines = 0;
        scanner.pattern_matches = self.pattern_matches.clone();
        scanner.non_private_matching_rules = copy_rules(&self.non_private_matching_rules);
        scanner.private_matching_rules = copy_rules(&self.private_matching_rules);
        scanner.matching_rules = pending_clone(&self.matching_rules);
        scanner.write_bitmaps_to_wasm(&self.rule_bitmap, &self.pattern_bitmap);
    }

    /// Advances the counters of the stream by a scanned chunk. The global
    /// offset becomes the new count of bytes.
    pub fn advance(&mut self, bytes: usize, lines: u64)
        requires
            old(self)@.bytes_processed + bytes <= u64::MAX,
            old(self)@.lines_processed + lines <= u64::MAX,
        ensures
            final(self)@ == (StreamState {
                global_offset: (old(self)@.bytes_processed + bytes) as u64,
                bytes_processed: (old(self)@.bytes_processed + bytes) as u64,
                lines_processed: (old(self)@.lines_processed + lines) as u64,
                ..old(self)@
            }),
            forall|table: RuleTable| old(self).wf(table) ==> final(self).wf(table),
    {
        self.total_bytes_processed = self.total_bytes_processed + bytes as u64;
        self.global_scan_offset = self.total_bytes_processed;
        self.line_count = self.line_count + lines;
    }

    /// The global offset saved with the stream.
    pub fn global_scan_offset(&self) -> (offset: u64)
        ensures
            offset == self@.global_offset,
    {
        self.global_scan_offset
    }

    /// Bytes scanned on the stream.
    pub fn bytes_processed(&self) -> (n: u64)
        ensures
            n == self@.bytes_processed,
    {
        self.total_bytes_processed
    }

    /// Lines scanned on the stream.
    pub fn lines_processed(&self) -> (n: u64)
        ensures
            n == self@.lines_processed,
    {
        self.line_count
    }

    /// The reported matching rules of the stream, in the order in which they
    /// first matched.
    pub fn non_private_matching_rules(&self) -> (list: &Vec<RuleId>)
        ensures
            list@ == self@.eval.lists.non_private,
    {
        &self.non_private_matching_rules
    }

    /// The matching private rules of the stream.
    pub fn private_matching_rules(&self) -> (list: &Vec<RuleId>)
        ensures
            list@ == self@.eval.lists.private,
    {
        &self.private_matching_rules
    }

    /// Size of the stream's rule bitmap and of its pattern bitmap, in bytes.
    pub fn bitmap_sizes(&self) -> (sizes: (usize, usize))
        ensures
            sizes.0 == self@.eval.rule_bits.len(),
            sizes.1 == self@.eval.pattern_bits.len(),
    {
        (self.rule_bitmap.len(), self.pattern_bitmap.len())
    }
}

} // verus!
