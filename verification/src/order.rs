//! The order of `usize` keys in a `BTreeMap`.
use vstd::prelude::*;
use vstd::std_specs::cmp::OrdSpec;
use vstd::std_specs::iter::IteratorSpec;

verus! {

/// A `BTreeMap` keyed by `usize` keeps its keys in order.
pub open spec fn usize_keys_in_order() -> bool {
    vstd::std_specs::btree::key_obeys_cmp_spec::<usize>()
}

/// `usize` keys compare as integers, so a `BTreeMap` keyed by them keeps its keys in order.
pub proof fn lemma_usize_keys_ordered()
    ensures
        vstd::laws_cmp::obeys_cmp::<usize>(),
        vstd::std_specs::btree::key_obeys_cmp_spec::<usize>(),
{
    broadcast use vstd::laws_cmp::group_laws_cmp;
    broadcast use vstd::std_specs::btree::group_btree_axioms;
}

} // verus!

verus! {

/// The keys of a `BTreeMap` keyed by `usize`, as its key iterator yields them: each key
/// of the map once, in strictly increasing order.
pub proof fn lemma_sorted_keys<V>(m: &std::collections::BTreeMap<usize, V>)
    ensures
        ({
            let keys = vstd::std_specs::btree::spec_keys_iter(m).remaining().unref();
            &&& forall|k: usize| #[trigger] keys.contains(k) <==> m@.contains_key(k)
            &&& forall|i: int, j: int| 0 <= i < j < keys.len() ==> keys[i] < keys[j]
        }),
{
    broadcast use vstd::laws_cmp::group_laws_cmp;
    broadcast use vstd::std_specs::btree::group_btree_axioms;
    lemma_usize_keys_ordered();
    let refs = vstd::std_specs::btree::spec_keys_iter(m).remaining();
    let keys = refs.unref();
    assert forall|k: usize| #[trigger] keys.contains(k) <==> m@.contains_key(k) by {
        assert(keys.to_set().contains(k) == keys.contains(k));
    }
    assert(vstd::laws_cmp::obeys_cmp::<&usize>());
    assert(vstd::std_specs::btree::increasing_seq(refs));
    assert forall|i: int, j: int| 0 <= i < j < keys.len() implies keys[i] < keys[j] by {
        assert(comes_before(refs[i], refs[j]));
    }
}

/// `a` comes before `b` in the order of `K`.
spec fn comes_before<K: Ord>(a: K, b: K) -> bool {
    a.cmp_spec(&b) is Less
}

} // verus!
