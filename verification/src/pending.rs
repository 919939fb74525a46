//! Rule identifiers reported by the evaluator during one scan, grouped by
//! namespace in the order in which the namespaces first reported.

use crate::rules::{NamespaceId, RuleId};
use indexmap::IndexMap;
use vstd::prelude::*;

verus! {

/// `indexmap::IndexMap`: a map that iterates in the order in which its keys
/// were inserted. Verified code reads and changes it through the functions at
/// the end of this file only.
#[verifier::external_type_specification]
#[verifier::external_body]
#[verifier::reject_recursive_types(K)]
#[verifier::reject_recursive_types(V)]
#[verifier::reject_recursive_types(S)]
pub struct ExIndexMap<K, V, S>(IndexMap<K, V, S>);

/// The rule identifiers waiting to be committed: one list per namespace.
pub type PendingMatches = IndexMap<NamespaceId, Vec<RuleId>>;

/// The entries of the map in its iteration order, each a namespace with the
/// rule identifiers listed under it.
pub uninterp spec fn pending_entries(map: PendingMatches) -> Seq<(NamespaceId, Seq<RuleId>)>;

/// All rule identifiers of `entries`: entry after entry, each list in order.
pub open spec fn flatten(entries: Seq<(NamespaceId, Seq<RuleId>)>) -> Seq<RuleId>
    decreases entries.len(),
{
    if entries.len() == 0 {
        Seq::empty()
    } else {
        flatten(entries.drop_last()) + entries.last().1
    }
}

/// `entries` after `rule_id` was reported for `namespace_id`: appended to the
/// namespace's list, or listed alone under a new last entry when the
/// namespace had none.
pub open spec fn pushed(
    entries: Seq<(NamespaceId, Seq<RuleId>)>,
    namespace_id: NamespaceId,
    rule_id: RuleId,
) -> Seq<(NamespaceId, Seq<RuleId>)>
    decreases entries.len(),
{
    if entries.len() == 0 {
        seq![(namespace_id, seq![rule_id])]
    } else if entries.last().0 == namespace_id && !has_namespace(
        entries.drop_last(),
        namespace_id,
    ) {
        entries.drop_last().push((namespace_id, entries.last().1.push(rule_id)))
    } else if has_namespace(entries.drop_last(), namespace_id) {
        pushed(entries.drop_last(), namespace_id, rule_id).push(entries.last())
    } else {
        entries.push((namespace_id, seq![rule_id]))
    }
}

/// Whether some entry is keyed by `namespace_id`.
pub open spec fn has_namespace(
    entries: Seq<(NamespaceId, Seq<RuleId>)>,
    namespace_id: NamespaceId,
) -> bool {
    exists|i: int| 0 <= i < entries.len() && (#[trigger] entries[i]).0 == namespace_id
}

/// `entries` with every list emptied and every namespace kept.
pub open spec fn emptied(entries: Seq<(NamespaceId, Seq<RuleId>)>) -> Seq<
    (NamespaceId, Seq<RuleId>),
> {
    Seq::new(entries.len(), |i: int| (entries[i].0, Seq::<RuleId>::empty()))
}

/// Entries whose lists are all empty hold no rule identifier.
pub proof fn lemma_flatten_emptied(entries: Seq<(NamespaceId, Seq<RuleId>)>)
    requires
        forall|i: int| 0 <= i < entries.len() ==> (#[trigger] entries[i]).1.len() == 0,
    ensures
        flatten(entries) == Seq::<RuleId>::empty(),
    decreases entries.len(),
{
    if entries.len() > 0 {
        lemma_flatten_emptied(entries.drop_last());
        assert(entries.last().1 =~= Seq::<RuleId>::empty());
    }
}

/// Entries that hold no rule identifier have only empty lists.
pub proof fn lemma_flatten_empty(entries: Seq<(NamespaceId, Seq<RuleId>)>)
    requires
        flatten(entries).len() == 0,
    ensures
        emptied(entries) == entries,
    decreases entries.len(),
{
    if entries.len() > 0 {
        lemma_flatten_empty(entries.drop_last());
        assert(entries.last().1 =~= Seq::<RuleId>::empty());
        assert forall|i: int| 0 <= i < entries.len() implies emptied(entries)[i] == entries[i] by {
            if i < entries.len() - 1 {
                assert(emptied(entries.drop_last())[i] == entries.drop_last()[i]);
            }
        }
    }
    assert(emptied(entries) =~= entries);
}

/// The identifiers of a longer run of entries extend those of a shorter one.
pub proof fn lemma_flatten_push(entries: Seq<(NamespaceId, Seq<RuleId>)>, e: (NamespaceId, Seq<RuleId>))
    ensures
        flatten(entries.push(e)) == flatten(entries) + e.1,
{
    assert(entries.push(e).drop_last() == entries);
}

/// Reporting a rule adds exactly that rule to the pending identifiers.
pub proof fn lemma_flatten_pushed(
    entries: Seq<(NamespaceId, Seq<RuleId>)>,
    namespace_id: NamespaceId,
    rule_id: RuleId,
)
    ensures
        forall|r: RuleId|
            flatten(pushed(entries, namespace_id, rule_id)).contains(r) <==> (r == rule_id
                || flatten(entries).contains(r)),
    decreases entries.len(),
{
    let after = pushed(entries, namespace_id, rule_id);
    if entries.len() == 0 {
        assert(after.drop_last() =~= Seq::<(NamespaceId, Seq<RuleId>)>::empty());
        assert(flatten(after.drop_last()) =~= Seq::<RuleId>::empty());
        assert(after.last().1 == seq![rule_id]);
        assert(flatten(after) =~= seq![rule_id]);
        assert forall|r: RuleId| flatten(after).contains(r) <==> (r == rule_id || flatten(
            entries,
        ).contains(r)) by {
            if r == rule_id {
                assert(seq![rule_id][0] == r);
            }
        }
    } else if entries.last().0 == namespace_id && !has_namespace(
        entries.drop_last(),
        namespace_id,
    ) {
        let head = entries.drop_last();
        let list = entries.last().1;
        lemma_flatten_push(head, (namespace_id, list.push(rule_id)));
        assert(flatten(after) == flatten(head) + list.push(rule_id));
        assert(flatten(entries) == flatten(head) + list);
        assert(flatten(after) == flatten(entries).push(rule_id));
        assert forall|r: RuleId| flatten(after).contains(r) <==> (r == rule_id || flatten(
            entries,
        ).contains(r)) by {
            let n = flatten(entries).len() as int;
            if r == rule_id {
                assert(flatten(after)[n] == r);
            }
            if flatten(entries).contains(r) {
                let k = choose|k: int| 0 <= k < n && flatten(entries)[k] == r;
                assert(flatten(after)[k] == r);
            }
        }
    } else if has_namespace(entries.drop_last(), namespace_id) {
        let head = entries.drop_last();
        lemma_flatten_pushed(head, namespace_id, rule_id);
        lemma_flatten_push(pushed(head, namespace_id, rule_id), entries.last());
        let a = flatten(pushed(head, namespace_id, rule_id));
        let b = entries.last().1;
        assert(flatten(after) == a + b);
        assert(flatten(entries) == flatten(head) + b);
        assert forall|r: RuleId| flatten(after).contains(r) <==> (r == rule_id || flatten(
            entries,
        ).contains(r)) by {
            lemma_contains_concat(a, b, r);
            lemma_contains_concat(flatten(head), b, r);
        }
    } else {
        lemma_flatten_push(entries, (namespace_id, seq![rule_id]));
        assert(flatten(after) == flatten(entries) + seq![rule_id]);
        assert forall|r: RuleId| flatten(after).contains(r) <==> (r == rule_id || flatten(
            entries,
        ).contains(r)) by {
            lemma_contains_concat(flatten(entries), seq![rule_id], r);
            if r == rule_id {
                assert(seq![rule_id][0] == r);
            }
        }
    }
}

/// An element is in a concatenation exactly when it is in one of the parts.
pub proof fn lemma_contains_concat(a: Seq<RuleId>, b: Seq<RuleId>, r: RuleId)
    ensures
        (a + b).contains(r) <==> a.contains(r) || b.contains(r),
{
    if a.contains(r) {
        let k = choose|k: int| 0 <= k < a.len() && a[k] == r;
        assert((a + b)[k] == r);
    }
    if b.contains(r) {
        let k = choose|k: int| 0 <= k < b.len() && b[k] == r;
        assert((a + b)[a.len() + k] == r);
    }
    if (a + b).contains(r) {
        let k = choose|k: int| 0 <= k < (a + b).len() && (a + b)[k] == r;
        if k < a.len() {
            assert(a[k] == r);
        } else {
            assert(b[k - a.len()] == r);
        }
    }
}

/// `IndexMap::new`: a map without entries.
#[verifier::external_body]
pub(crate) fn pending_new() -> (map: PendingMatches)
    ensures
        pending_entries(map) == Seq::<(NamespaceId, Seq<RuleId>)>::empty(),
{
    IndexMap::new()
}

/// `IndexMap::len`: the number of entries.
#[verifier::external_body]
pub(crate) fn pending_len(map: &PendingMatches) -> (len: usize)
    ensures
        len == pending_entries(*map).len(),
{
    map.len()
}

/// `IndexMap::entry` followed by `Entry::or_default`, and a push onto the
/// list obtained: the rule goes to the end of the list kept under its
/// namespace; a namespace without entry gets a new last entry first. No other
/// entry changes or moves.
#[verifier::external_body]
pub(crate) fn pending_push(map: &mut PendingMatches, namespace_id: NamespaceId, rule_id: RuleId)
    ensures
        pending_entries(*final(map)) == pushed(pending_entries(*old(map)), namespace_id, rule_id),
{
    map.entry(namespace_id).or_default().push(rule_id);
}

/// `IndexMap::get_index_mut`, and a drain of the list obtained: hands out the
/// list of the entry at `index` and leaves an empty list under the same
/// namespace, at the same position.
#[verifier::external_body]
pub(crate) fn pending_drain(map: &mut PendingMatches, index: usize) -> (list: Vec<RuleId>)
    requires
        index < pending_entries(*old(map)).len(),
    ensures
        list@ == pending_entries(*old(map))[index as int].1,
        pending_entries(*final(map)) == pending_entries(*old(map)).update(
            index as int,
            (pending_entries(*old(map))[index as int].0, Seq::<RuleId>::empty()),
        ),
{
    match map.get_index_mut(index) {
        Some((_, list)) => list.drain(0..).collect(),
        None => Vec::new(),
    }
}

/// `IndexMap::clear`: removes every entry.
#[verifier::external_body]
pub(crate) fn pending_clear(map: &mut PendingMatches)
    ensures
        pending_entries(*final(map)) == Seq::<(NamespaceId, Seq<RuleId>)>::empty(),
{
    map.clear();
}

/// `IndexMap::clone`: a map with the same entries in the same order.
#[verifier::external_body]
pub(crate) fn pending_clone(map: &PendingMatches) -> (copy: PendingMatches)
    ensures
        pending_entries(copy) == pending_entries(*map),
{
    map.clone()
}

} // verus!
