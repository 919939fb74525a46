//! The match store: confirmed matches per pattern, pending links of chained
//! patterns, and the patterns that have reached their cap.

use crate::rules::{PatternId, SubPatternId, MAX_IDS};
use std::collections::{HashMap, HashSet};
use vstd::prelude::*;
use vstd::std_specs::iter::IteratorSpec;

verus! {

broadcast use vstd::std_specs::hash::group_hash_axioms;

/// One confirmed occurrence of a pattern. `start` and `end` delimit the
/// half-open byte range of the occurrence, counted from the start of the
/// stream.
#[derive(Clone, Copy, Debug)]
pub struct Match {
    /// Offset of the first matched byte.
    pub start: u64,
    /// Offset one past the last matched byte.
    pub end: u64,
    /// Key of the XOR variant that matched, if the pattern has such variants.
    pub xor_key: Option<u8>,
}

/// An occurrence of one link of a chained pattern whose later links have not
/// been seen yet.
#[derive(Clone, Copy, Debug)]
pub struct UnconfirmedMatch {
    /// Offset of the first matched byte.
    pub start: u64,
    /// Offset one past the last matched byte.
    pub end: u64,
    /// Number of links that the chain has matched so far.
    pub chain_length: u32,
}

/// Whether `list` holds a match with the range `[start, end)`.
pub open spec fn has_range(list: Seq<Match>, start: u64, end: u64) -> bool {
    exists|i: int| 0 <= i < list.len() && #[trigger] list[i].start == start && list[i].end == end
}

/// No two matches of `list` cover the same range.
pub open spec fn distinct_ranges(list: Seq<Match>) -> bool {
    forall|i: int, j: int|
        0 <= i < j < list.len() ==> !(#[trigger] list[i].start == #[trigger] list[j].start
            && list[i].end == list[j].end)
}

/// Mathematical content of a match store.
pub struct MatchTable {
    /// Confirmed matches of each pattern that has any, in insertion order.
    pub matches: Map<PatternId, Seq<Match>>,
    /// Pending occurrences of each chain link that has any, in insertion order.
    pub unconfirmed: Map<SubPatternId, Seq<UnconfirmedMatch>>,
    /// Patterns that accept no further matches.
    pub limit_reached: Set<PatternId>,
    /// Largest number of matches kept per pattern.
    pub cap: nat,
    /// Number of patterns of the rule set.
    pub patterns: nat,
}

impl MatchTable {
    /// The store without any match.
    pub open spec fn empty(cap: nat, patterns: nat) -> MatchTable {
        MatchTable {
            matches: Map::empty(),
            unconfirmed: Map::empty(),
            limit_reached: Set::empty(),
            cap,
            patterns,
        }
    }

    /// The matches of `pattern_id`, empty when it has none.
    pub open spec fn list(self, pattern_id: PatternId) -> Seq<Match> {
        if self.matches.contains_key(pattern_id) {
            self.matches[pattern_id]
        } else {
            Seq::empty()
        }
    }

    /// The pending occurrences of `sub_pattern_id`, empty when it has none.
    pub open spec fn pending(self, sub_pattern_id: SubPatternId) -> Seq<UnconfirmedMatch> {
        if self.unconfirmed.contains_key(sub_pattern_id) {
            self.unconfirmed[sub_pattern_id]
        } else {
            Seq::empty()
        }
    }

    /// Whether the store takes `m` as a new match of `pattern_id`: the pattern
    /// exists, has not reached its cap, and has no match with the same range.
    pub open spec fn accepts(self, pattern_id: PatternId, m: Match) -> bool {
        &&& pattern_id < self.patterns
        &&& !self.limit_reached.contains(pattern_id)
        &&& !has_range(self.list(pattern_id), m.start, m.end)
    }

    /// The store after `m` was offered as a match of `pattern_id`. An accepted
    /// match goes to the end of the pattern's list; a pattern whose list
    /// thereby reaches the cap enters `limit_reached`.
    pub open spec fn add(self, pattern_id: PatternId, m: Match) -> MatchTable {
        if self.accepts(pattern_id, m) {
            let list = self.list(pattern_id).push(m);
            MatchTable {
                matches: self.matches.insert(pattern_id, list),
                limit_reached: if list.len() >= self.cap {
                    self.limit_reached.insert(pattern_id)
                } else {
                    self.limit_reached
                },
                ..self
            }
        } else {
            self
        }
    }

    /// The store after `um` was recorded as a pending occurrence of
    /// `sub_pattern_id`.
    pub open spec fn add_unconfirmed(
        self,
        sub_pattern_id: SubPatternId,
        um: UnconfirmedMatch,
    ) -> MatchTable {
        MatchTable {
            unconfirmed: self.unconfirmed.insert(
                sub_pattern_id,
                self.pending(sub_pattern_id).push(um),
            ),
            ..self
        }
    }

    /// The store after the pending occurrences of `sub_pattern_id` were
    /// consumed.
    pub open spec fn take_unconfirmed(self, sub_pattern_id: SubPatternId) -> MatchTable {
        MatchTable { unconfirmed: self.unconfirmed.remove(sub_pattern_id), ..self }
    }

    /// Invariant of a match store.
    pub open spec fn wf(self) -> bool {
        &&& self.cap > 0
        &&& self.patterns <= MAX_IDS
        &&& forall|p: PatternId| #[trigger]
            self.matches.contains_key(p) ==> {
                &&& p < self.patterns
                &&& 0 < self.matches[p].len() <= self.cap
                &&& distinct_ranges(self.matches[p])
            }
        &&& forall|p: PatternId| #[trigger]
            self.limit_reached.contains(p) <==> self.matches.contains_key(p)
                && self.matches[p].len() == self.cap
        &&& forall|s: SubPatternId| #[trigger]
            self.unconfirmed.contains_key(s) ==> self.unconfirmed[s].len() > 0
    }

    /// Offering a match keeps the invariant, never removes or reorders a
    /// stored match, and never releases a pattern from its cap.
    pub proof fn lemma_add(self, pattern_id: PatternId, m: Match)
        requires
            self.wf(),
        ensures
            self.add(pattern_id, m).wf(),
            self.add(pattern_id, m).list(pattern_id) == if self.accepts(pattern_id, m) {
                self.list(pattern_id).push(m)
            } else {
                self.list(pattern_id)
            },
            forall|p: PatternId| p != pattern_id ==> self.add(pattern_id, m).list(p) == self.list(p),
            self.limit_reached.subset_of(self.add(pattern_id, m).limit_reached),
            self.add(pattern_id, m).unconfirmed == self.unconfirmed,
    {
        if self.accepts(pattern_id, m) {
            let list = self.list(pattern_id);
            let after = self.add(pattern_id, m);
            assert(distinct_ranges(list.push(m))) by {
                assert forall|i: int, j: int| 0 <= i < j < list.push(m).len() implies !(
                #[trigger] list.push(m)[i].start == #[trigger] list.push(m)[j].start && list.push(
                    m,
                )[i].end == list.push(m)[j].end) by {
                    if j == list.len() {
                        assert(list[i].start == list.push(m)[i].start);
                    } else {
                        assert(list[i].start == list.push(m)[i].start);
                        assert(list[j].start == list.push(m)[j].start);
                    }
                }
            }
            assert(list.len() < self.cap) by {
                if self.matches.contains_key(pattern_id) {
                    assert(!self.limit_reached.contains(pattern_id));
                }
            }
            assert forall|p: PatternId| #[trigger]
                after.limit_reached.contains(p) <==> after.matches.contains_key(p)
                    && after.matches[p].len() == after.cap by {
                if p != pattern_id {
                    assert(self.limit_reached.contains(p) <==> self.matches.contains_key(p)
                        && self.matches[p].len() == self.cap);
                }
            }
        }
    }
}

/// The match store of one stream.
pub struct MatchStore {
    matches: HashMap<PatternId, Vec<Match>>,
    unconfirmed: HashMap<SubPatternId, Vec<UnconfirmedMatch>>,
    limit_reached: HashSet<PatternId>,
    max_matches_per_pattern: usize,
    num_patterns: usize,
}

impl View for MatchStore {
    type V = MatchTable;

    closed spec fn view(&self) -> MatchTable {
        MatchTable {
            matches: Map::new(
                |p: PatternId| self.matches@.contains_key(p),
                |p: PatternId| self.matches@[p]@,
            ),
            unconfirmed: Map::new(
                |s: SubPatternId| self.unconfirmed@.contains_key(s),
                |s: SubPatternId| self.unconfirmed@[s]@,
            ),
            limit_reached: self.limit_reached@,
            cap: self.max_matches_per_pattern as nat,
            patterns: self.num_patterns as nat,
        }
    }
}

/// A set with the elements of `set`.
fn copy_set(set: &HashSet<PatternId>) -> (copy: HashSet<PatternId>)
    ensures
        copy@ == set@,
{
    let mut copy: HashSet<PatternId> = HashSet::new();
    for id in it: set.iter()
        invariant
            it.seq() == vstd::std_specs::hash::spec_hash_keys_iter(set).remaining(),
            forall|p: PatternId|
                copy@.contains(p) <==> exists|k: int| 0 <= k < it.index() && *it.seq()[k] == p,
    {
        let ghost before = copy@;
        let ghost at = it.index();
        copy.insert(*id);
        proof {
            assert forall|p: PatternId| copy@.contains(p) <==> exists|k: int|
                0 <= k < at + 1 && *it.seq()[k] == p by {
                if before.contains(p) {
                    let k = choose|k: int| 0 <= k < at && *it.seq()[k] == p;
                    assert(0 <= k < at + 1 && *it.seq()[k] == p);
                }
                if p == *id {
                    assert(*it.seq()[at] == p);
                }
            }
        }
    }
    proof {
        let all = vstd::std_specs::hash::spec_hash_keys_iter(set).remaining();
        assert(all.unref().to_set() == set@);
        assert forall|p: PatternId| copy@.contains(p) <==> set@.contains(p) by {
            if copy@.contains(p) {
                let k = choose|k: int| 0 <= k < all.len() && *all[k] == p;
                assert(all.unref()[k] == p);
                assert(all.unref().to_set().contains(all.unref()[k]));
            }
            if set@.contains(p) {
                assert(all.unref().to_set().contains(p));
                let k = choose|k: int| 0 <= k < all.unref().len() && all.unref()[k] == p;
                assert(*all[k] == p);
            }
        }
        assert(copy@ =~= set@);
    }
    copy
}

/// Whether `list` holds a match with the range `[start, end)`.
fn contains_range(list: &Vec<Match>, start: u64, end: u64) -> (found: bool)
    ensures
        found == has_range(list@, start, end),
{
    let n = list.len();
    let mut i: usize = 0;
    while i < n
        invariant
            n == list@.len(),
            i <= n,
            forall|k: int| 0 <= k < i ==> !(#[trigger] list@[k].start == start && list@[k].end == end),
        decreases n - i,
    {
        if list[i].start == start && list[i].end == end {
            return true;
        }
        i += 1;
    }
    false
}

impl MatchStore {
    /// Invariant of the store; every public operation keeps it.
    pub closed spec fn wf(&self) -> bool {
        self@.wf()
    }

    /// What follows from the invariant for the store's content.
    pub proof fn lemma_wf(&self)
        requires
            self.wf(),
        ensures
            self@.wf(),
    {
    }

    /// An empty store for `num_patterns` patterns that keeps at most
    /// `max_matches_per_pattern` matches of each.
    pub fn new(max_matches_per_pattern: usize, num_patterns: usize) -> (store: MatchStore)
        requires
            max_matches_per_pattern > 0,
            num_patterns <= MAX_IDS,
        ensures
            store.wf(),
            store@ == MatchTable::empty(max_matches_per_pattern as nat, num_patterns as nat),
    {
        let store = MatchStore {
            matches: HashMap::new(),
            unconfirmed: HashMap::new(),
            limit_reached: HashSet::new(),
            max_matches_per_pattern,
            num_patterns,
        };
        proof {
            let empty = MatchTable::empty(max_matches_per_pattern as nat, num_patterns as nat);
            assert(store@.matches =~= empty.matches);
            assert(store@.unconfirmed =~= empty.unconfirmed);
            assert(store@.limit_reached =~= empty.limit_reached);
        }
        store
    }

    /// Largest number of matches kept per pattern.
    pub fn max_matches_per_pattern(&self) -> (cap: usize)
        ensures
            cap == self@.cap,
    {
        self.max_matches_per_pattern
    }

    /// Whether `pattern_id` has reached its cap.
    pub fn limit_reached(&self, pattern_id: PatternId) -> (reached: bool)
        requires
            self.wf(),
        ensures
            reached == self@.limit_reached.contains(pattern_id),
    {
        self.limit_reached.contains(&pattern_id)
    }

    /// The matches of `pattern_id` in insertion order, if it has any.
    pub fn get(&self, pattern_id: PatternId) -> (list: Option<&Vec<Match>>)
        ensures
            list.is_some() == self@.matches.contains_key(pattern_id),
            list.is_some() ==> list.unwrap()@ == self@.matches[pattern_id],
    {
        self.matches.get(&pattern_id)
    }

    /// Number of matches of `pattern_id`.
    pub fn count(&self, pattern_id: PatternId) -> (n: usize)
        ensures
            n == self@.list(pattern_id).len(),
    {
        match self.matches.get(&pattern_id) {
            Some(list) => list.len(),
            None => 0,
        }
    }

    /// Whether no pattern has a match.
    pub fn is_empty(&self) -> (empty: bool)
        ensures
            empty == (self@.matches =~= Map::empty()),
    {
        let empty = self.matches.is_empty();
        proof {
            if empty {
                assert(self@.matches =~= Map::empty());
            } else {
                let p = choose|p: PatternId| self.matches@.contains_key(p);
                assert(self@.matches.contains_key(p));
            }
        }
        empty
    }

    /// Number of patterns that have at least one match.
    pub fn matching_patterns(&self) -> (n: usize)
        ensures
            n == self@.matches.dom().len(),
    {
        proof {
            assert(self@.matches.dom() =~= self.matches@.dom());
        }
        self.matches.len()
    }

    /// Offers `m` as a match of `pattern_id`. Returns whether the store took
    /// it; a match is dropped when the pattern is unknown, has reached its cap,
    /// or already has a match with the same range.
    pub fn add(&mut self, pattern_id: PatternId, m: Match) -> (added: bool)
        requires
            old(self).wf(),
        ensures
            final(self).wf(),
            final(self)@ == old(self)@.add(pattern_id, m),
            added == old(self)@.accepts(pattern_id, m),
    {
        if pattern_id as usize >= self.num_patterns {
            return false;
        }
        if self.limit_reached.contains(&pattern_id) {
            return false;
        }
        let duplicate = match self.matches.get(&pattern_id) {
            Some(list) => contains_range(list, m.start, m.end),
            None => false,
        };
        if duplicate {
            return false;
        }
        proof {
            old(self)@.lemma_add(pattern_id, m);
        }
        let mut list = match self.matches.remove(&pattern_id) {
            Some(list) => list,
            None => Vec::new(),
        };
        assert(list@ == old(self)@.list(pattern_id));
        list.push(m);
        let full = list.len() >= self.max_matches_per_pattern;
        self.matches.insert(pattern_id, list);
        if full {
            self.limit_reached.insert(pattern_id);
        }
        proof {
            let after = old(self)@.add(pattern_id, m);
            assert(self@.matches =~= after.matches);
            assert(self@.limit_reached =~= after.limit_reached);
            assert(self@.unconfirmed =~= after.unconfirmed);
        }
        true
    }

    /// Records `um` as a pending occurrence of the chain link `sub_pattern_id`.
    pub fn add_unconfirmed(&mut self, sub_pattern_id: SubPatternId, um: UnconfirmedMatch)
        requires
            old(self).wf(),
        ensures
            final(self).wf(),
            final(self)@ == old(self)@.add_unconfirmed(sub_pattern_id, um),
    {
        let mut list = match self.unconfirmed.remove(&sub_pattern_id) {
            Some(list) => list,
            None => Vec::new(),
        };
        assert(list@ == old(self)@.pending(sub_pattern_id));
        list.push(um);
        self.unconfirmed.insert(sub_pattern_id, list);
        proof {
            let after = old(self)@.add_unconfirmed(sub_pattern_id, um);
            assert(self@.matches =~= after.matches);
            assert(self@.limit_reached =~= after.limit_reached);
            assert(self@.unconfirmed =~= after.unconfirmed);
        }
    }

    /// Consumes the pending occurrences of the chain link `sub_pattern_id`
    /// and returns them in insertion order.
    pub fn take_unconfirmed(&mut self, sub_pattern_id: SubPatternId) -> (taken: Vec<
        UnconfirmedMatch,
    >)
        requires
            old(self).wf(),
        ensures
            final(self).wf(),
            final(self)@ == old(self)@.take_unconfirmed(sub_pattern_id),
            taken@ == old(self)@.pending(sub_pattern_id),
    {
        let taken = match self.unconfirmed.remove(&sub_pattern_id) {
            Some(list) => list,
            None => Vec::new(),
        };
        proof {
            let after = old(self)@.take_unconfirmed(sub_pattern_id);
            assert(self@.matches =~= after.matches);
            assert(self@.limit_reached =~= after.limit_reached);
            assert(self@.unconfirmed =~= after.unconfirmed);
        }
        taken
    }

    /// Drops every match, pending occurrence and cap mark.
    pub fn clear(&mut self)
        requires
            old(self).wf(),
        ensures
            final(self).wf(),
            final(self)@ == MatchTable::empty(old(self)@.cap, old(self)@.patterns),
    {
        self.matches.clear();
        self.unconfirmed.clear();
        self.limit_reached.clear();
        proof {
            let empty = MatchTable::empty(old(self)@.cap, old(self)@.patterns);
            assert(self@.matches =~= empty.matches);
            assert(self@.unconfirmed =~= empty.unconfirmed);
            assert(self@.limit_reached =~= empty.limit_reached);
        }
    }
}

impl Clone for MatchStore {
    /// A store with the same content.
    fn clone(&self) -> (copy: MatchStore)
        ensures
            copy@ == self@,
            copy.wf() == self.wf(),
    {
        let copy = MatchStore {
            matches: self.matches.clone(),
            unconfirmed: self.unconfirmed.clone(),
            limit_reached: copy_set(&self.limit_reached),
            max_matches_per_pattern: self.max_matches_per_pattern,
            num_patterns: self.num_patterns,
        };
        proof {
            assert(copy@.matches =~= self@.matches);
            assert(copy@.unconfirmed =~= self@.unconfirmed);
            assert(copy@.limit_reached =~= self@.limit_reached);
        }
        copy
    }
}

} // verus!
