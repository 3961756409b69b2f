//! Helpers on hash maps with raw identifiers as keys.

use std::collections::HashMap;

use vstd::prelude::*;

use crate::filters;

verus! {

/// The keys of `m`, in no particular order.
pub fn keys_of<V>(m: &HashMap<u32, V>) -> (keys: Vec<u32>)
    ensures
        keys@.no_duplicates(),
        forall|k: u32| #[trigger] keys@.contains(k) <==> m@.contains_key(k),
{
    broadcast use vstd::std_specs::hash::group_hash_axioms;

    let mut keys: Vec<u32> = Vec::new();
    for k in it: m.keys()
        invariant
            it.seq().no_duplicates(),
            it.seq().unref().to_set() == m@.dom(),
            keys@ == it.seq().unref().take(it.index()),
            keys@.no_duplicates(),
            it.index() == it.seq().len() ==> keys@.to_set() == m@.dom(),
    {
        keys.push(*k);
        assert(keys@ =~= it.seq().unref().take(it.index() + 1));
        assert(it.seq().unref().take(it.seq().len() as int) =~= it.seq().unref());
    }
    assert(keys@.to_set() == m@.dom());
    assert forall|k: u32| #[trigger] keys@.contains(k) implies m@.contains_key(k) by {
        assert(keys@.to_set().contains(k));
    }
    assert forall|k: u32| m@.contains_key(k) implies #[trigger] keys@.contains(k) by {
        assert(keys@.to_set().contains(k));
    }
    keys
}

/// The keys of `m` that `keep` holds of, in no particular order; `p` says what
/// that is.
pub fn keys_where<V, F: Fn(u32) -> bool>(
    m: &HashMap<u32, V>,
    keep: F,
    Ghost(p): Ghost<spec_fn(u32) -> bool>,
) -> (kept: Vec<u32>)
    requires
        forall|k: u32| #[trigger] call_requires(keep, (k,)),
        forall|k: u32, b: bool| #[trigger] call_ensures(keep, (k,), b) ==> b == p(k),
    ensures
        kept@.no_duplicates(),
        forall|k: u32| #[trigger] kept@.contains(k) <==> m@.contains_key(k) && p(k),
{
    let keys = keys_of(m);
    let mut kept: Vec<u32> = Vec::new();
    let n: usize = keys.len();
    proof {
        reveal(Seq::filter);
        assert(kept@ =~= keys@.take(0).filter(p));
    }
    for i in 0..n
        invariant
            n == keys@.len(),
            forall|k: u32| #[trigger] call_requires(keep, (k,)),
            forall|k: u32, b: bool| #[trigger] call_ensures(keep, (k,), b) ==> b == p(k),
            kept@ == keys@.take(i as int).filter(p),
    {
        proof {
            reveal(Seq::filter);
            assert(keys@.take(i + 1).drop_last() =~= keys@.take(i as int));
        }
        if keep(keys[i]) {
            kept.push(keys[i]);
        }
    }
    proof {
        assert(keys@.take(n as int) =~= keys@);
        filters::lemma_filter_no_duplicates(keys@, p);
        assert forall|k: u32| #[trigger] kept@.contains(k) <==> m@.contains_key(k) && p(k) by {
            filters::lemma_filter_keeps(keys@, p, k);
        }
    }
    kept
}

} // verus!
