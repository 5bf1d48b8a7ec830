//! The keys of a hash map.
use std::collections::HashMap;
use vstd::prelude::*;
use vstd::std_specs::iter::IteratorSpec;

verus! {

broadcast use vstd::std_specs::hash::group_hash_axioms;

/// The keys of a map, each once, in any order.
pub fn keys_of<V>(m: &HashMap<i64, V>) -> (r: Vec<i64>)
    ensures
        r@.no_duplicates(),
        r@.to_set() == m@.dom(),
{
    let mut out: Vec<i64> = Vec::new();
    for k in it: m.keys()
        invariant
            out@ == it.seq().unref().take(it.index()),
    {
        out.push(*k);
        assert(out@ =~= it.seq().unref().take(it.index() + 1));
    }
    proof {
        assert(out@ =~= m.keys().remaining().unref());
        assert forall|i: int, j: int| 0 <= i < j < out@.len() implies out@[i] != out@[j] by {
            assert(m.keys().remaining()[i] != m.keys().remaining()[j]);
        }
    }
    out
}

} // verus!
