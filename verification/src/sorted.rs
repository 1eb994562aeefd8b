//! Keys of ordered collections, in order.

use std::collections::{BTreeMap, BTreeSet};
use vstd::prelude::*;
use vstd::std_specs::cmp::OrdSpec;
use vstd::std_specs::iter::IteratorSpec;

verus! {

broadcast use vstd::std_specs::btree::group_btree_axioms;

/// The numbers grow from each to the next.
pub open spec fn ascending<K: Ord>(s: Seq<K>) -> bool {
    forall|i: int, j: int|
        #![trigger s[i], s[j]]
        0 <= i < j < s.len() ==> OrdSpec::cmp_spec(&s[i], &s[j]) is Less
}

/// The keys of a map, in ascending order.
pub fn sorted_keys<V>(map: &BTreeMap<u64, V>) -> (keys: Vec<u64>)
    ensures
        ascending(keys@),
        forall|k: u64| keys@.contains(k) <==> #[trigger] map@.contains_key(k),
{
    let mut keys: Vec<u64> = Vec::new();
    let it0 = map.keys();
    let ghost all = it0.remaining().unref();
    assert(all.to_set() == map@.dom());
    for k in it: it0
        invariant
            keys@ == all.take(it.index()),
            it.seq().unref() == all,
    {
        keys.push(*k);
    }
    assert(keys@ =~= all);
    assert forall|k: u64| keys@.contains(k) <==> #[trigger] map@.contains_key(k) by {
        assert(all.to_set().contains(k) <==> all.contains(k));
    }
    assert forall|i: int, j: int| 0 <= i < j < keys@.len() implies OrdSpec::cmp_spec(
        &(#[trigger] keys@[i]),
        &(#[trigger] keys@[j]),
    ) is Less by {
        broadcast use vstd::laws_cmp::lemma_ref_obeys_cmp_spec;
        assert(vstd::laws_cmp::obeys_cmp::<&u64>());
        let r = vstd::std_specs::btree::spec_keys_iter(map).remaining();
        assert(vstd::std_specs::btree::increasing_seq(r));
        assert(OrdSpec::cmp_spec(&r[i], &r[j]) is Less);
    }
    keys
}

/// The members of a set, in ascending order.
fn members_in_order<K: Copy + Ord>(set: &BTreeSet<K>) -> (members: Vec<K>)
    requires
        vstd::laws_cmp::obeys_cmp::<K>(),
        vstd::std_specs::btree::key_obeys_cmp_spec::<K>(),
    ensures
        ascending(members@),
        forall|k: K| members@.contains(k) <==> #[trigger] set@.contains(k),
{
    let mut members: Vec<K> = Vec::new();
    let it0 = set.iter();
    let ghost all = it0.remaining().unref();
    assert(all.to_set() == set@);
    for k in it: it0
        invariant
            members@ == all.take(it.index()),
            it.seq().unref() == all,
    {
        members.push(*k);
    }
    assert(members@ =~= all);
    assert forall|k: K| members@.contains(k) <==> #[trigger] set@.contains(k) by {
        assert(all.to_set().contains(k) <==> all.contains(k));
    }
    assert(ascending(members@)) by {
        broadcast use vstd::laws_cmp::lemma_ref_obeys_cmp_spec;
        assert(vstd::laws_cmp::obeys_cmp::<&K>());
        let r = vstd::std_specs::btree::spec_btree_keys_iter(set).remaining();
        assert(vstd::std_specs::btree::increasing_seq(r));
        assert forall|i: int, j: int| 0 <= i < j < members@.len() implies OrdSpec::cmp_spec(
            &(#[trigger] members@[i]),
            &(#[trigger] members@[j]),
        ) is Less by {
            assert(OrdSpec::cmp_spec(&r[i], &r[j]) is Less);
        }
    }
    members
}

/// The members of a set of rungs, in ascending order.
pub fn sorted_members(set: &BTreeSet<u8>) -> (members: Vec<u8>)
    ensures
        ascending(members@),
        forall|k: u8| members@.contains(k) <==> #[trigger] set@.contains(k),
{
    members_in_order(set)
}

/// The members of a set of segment numbers, in ascending order.
pub fn sorted_seqs(set: &BTreeSet<u64>) -> (members: Vec<u64>)
    ensures
        ascending(members@),
        forall|k: u64| members@.contains(k) <==> #[trigger] set@.contains(k),
{
    members_in_order(set)
}

} // verus!
