//! Walking the keys of a map.

use std::collections::HashMap;
use std::hash::Hash;
use vstd::prelude::*;

verus! {

broadcast use vstd::std_specs::hash::group_hash_axioms;

/// The keys of `map`, each once, in no particular order.
pub fn keys_of<K: Copy + Eq + Hash, V>(map: &HashMap<K, V>) -> (r: Vec<K>)
    requires
        vstd::std_specs::hash::obeys_key_model::<K>(),
    ensures
        r@.no_duplicates(),
        forall|k: K| r@.contains(k) <==> map@.contains_key(k),
{
    let mut keys: Vec<K> = Vec::new();
    for key in it: map.keys()
        invariant
            vstd::std_specs::hash::obeys_key_model::<K>(),
            it.seq().unref().to_set() == map@.dom(),
            it.seq().no_duplicates(),
            keys@.len() == it.index(),
            forall|i: int| 0 <= i < keys@.len() ==> #[trigger] keys@[i] == *it.seq()[i],
    {
        keys.push(*key);
    }
    proof {
        let seq = vstd::std_specs::iter::IteratorSpec::remaining(
            &vstd::std_specs::hash::spec_keys_iter(map),
        );
        assert(keys@ =~= seq.unref());
        assert forall|k: K| keys@.contains(k) <==> map@.contains_key(k) by {
            assert(seq.unref().to_set().contains(k) <==> seq.unref().contains(k));
        }
        assert forall|i: int, j: int|
            0 <= i < keys@.len() && 0 <= j < keys@.len() && i != j implies keys@[i] != keys@[j] by {
            assert(seq[i] != seq[j]);
        }
    }
    keys
}

} // verus!
