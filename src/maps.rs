use std::collections::hash_map::Entry;
use std::collections::{HashMap, HashSet};
use std::hash::Hash;
use vstd::prelude::*;
use vstd::std_specs::hash::obeys_key_model;

verus! {

/// A mutable borrow of the value stored at `k`, or `None` where `k` is
/// absent.
pub(crate) fn map_get_mut<'a, K: Copy + Eq + Hash, W>(m: &'a mut HashMap<K, W>, k: &K) -> (r: Option<&'a mut W>)
    ensures
        obeys_key_model::<K>() ==> match r {
            Some(w) => {
                &&& old(m)@.contains_key(*k)
                &&& *w == old(m)@[*k]
                &&& final(m)@ == old(m)@.insert(*k, *final(w))
            },
            None => {
                &&& !old(m)@.contains_key(*k)
                &&& final(m)@ == old(m)@
            },
        },
{
    broadcast use vstd::std_specs::hash::group_hash_axioms;
    match m.entry(*k) {
        Entry::Occupied(o) => Some(o.into_mut()),
        Entry::Vacant(_) => {
            proof {
                if obeys_key_model::<K>() {
                    assert(old(m)@.remove(*k) =~= old(m)@);
                }
            }
            None
        },
    }
}

/// The keys of `m`, each once.
pub(crate) fn keys_of<K: Copy + Eq + Hash, W>(m: &HashMap<K, W>) -> (r: Vec<K>)
    requires
        obeys_key_model::<K>(),
    ensures
        r@.to_set() == m@.dom(),
        r@.no_duplicates(),
        r@.len() == m@.len(),
{
    broadcast use vstd::std_specs::hash::group_hash_axioms;
    let mut r: Vec<K> = Vec::new();
    for k in it: m.keys()
        invariant
            r@ == it.seq().unref().take(it.index() as int),
            it.seq().unref().to_set() == m@.dom(),
            it.index() == it.seq().len() ==> r@ == it.seq().unref(),
    {
        r.push(*k);
        assert(r@ =~= it.seq().unref().take(it.index() as int + 1));
    }
    r
}


/// The elements of `s`, each once.
pub(crate) fn elements_of<K: Copy + Eq + Hash>(s: &HashSet<K>) -> (r: Vec<K>)
    requires
        obeys_key_model::<K>(),
    ensures
        r@.to_set() == s@,
        r@.no_duplicates(),
        r@.len() == s@.len(),
{
    broadcast use vstd::std_specs::hash::group_hash_axioms;
    let mut r: Vec<K> = Vec::new();
    for k in it: s.iter()
        invariant
            r@ == it.seq().unref().take(it.index() as int),
            it.seq().unref().to_set() == s@,
            it.seq().unref().no_duplicates(),
            it.seq().len() == s@.len(),
            it.index() == it.seq().len() ==> r@ == it.seq().unref(),
    {
        r.push(*k);
        assert(r@ =~= it.seq().unref().take(it.index() as int + 1));
    }
    r
}

} // verus!
