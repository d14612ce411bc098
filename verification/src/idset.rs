//! Sets of catalogue numbers, held in std's `BTreeSet`: the few operations a
//! selection needs, each stated over the set's view.
use std::collections::BTreeSet;
use vstd::prelude::*;
use vstd::std_specs::iter::IteratorSpec;

verus! {

broadcast use vstd::std_specs::btree::group_btree_axioms, vstd::laws_cmp::group_laws_cmp,
    vstd::seq_lib::seq_to_set_is_finite;

/// Pushing a number onto a list adds it to the list's set.
proof fn lemma_push_to_set(s: Seq<u64>, x: u64)
    ensures
        s.push(x).to_set() == s.to_set().insert(x),
{
    assert forall|y: u64| s.push(x).to_set().contains(y) <==> s.to_set().insert(x).contains(y) by {
        if s.push(x).contains(y) && y != x {
            let k = choose|k: int| 0 <= k < s.push(x).len() && s.push(x)[k] == y;
            assert(s[k] == y);
        }
        if s.contains(y) {
            let k = choose|k: int| 0 <= k < s.len() && s[k] == y;
            assert(s.push(x)[k] == y);
        }
        if y == x {
            assert(s.push(x)[s.len() as int] == x);
        }
    }
    assert(s.push(x).to_set() =~= s.to_set().insert(x));
}

/// No numbers.
pub fn empty_ids() -> (set: BTreeSet<u64>)
    ensures
        set@ == Set::<u64>::empty(),
{
    BTreeSet::new()
}

/// Adds a number; nothing changes when it is already there.
pub fn add_id(set: &mut BTreeSet<u64>, id: u64)
    ensures
        final(set)@ == old(set)@.insert(id),
{
    set.insert(id);
}

/// The numbers an embedder listed, each once.
pub fn ids_from(ids: &[u64]) -> (set: BTreeSet<u64>)
    ensures
        set@ == ids@.to_set(),
{
    let mut set: BTreeSet<u64> = BTreeSet::new();
    let mut i: usize = 0;
    while i < ids.len()
        invariant
            i <= ids@.len(),
            set@ == ids@.take(i as int).to_set(),
        decreases ids@.len() - i,
    {
        set.insert(ids[i]);
        assert(ids@.take(i + 1) == ids@.take(i as int).push(ids@[i as int]));
        proof {
            lemma_push_to_set(ids@.take(i as int), ids@[i as int]);
        }
        i = i + 1;
    }
    assert(ids@.take(ids@.len() as int) =~= ids@);
    set
}

/// Whether the set holds a number.
pub fn holds_id(set: &BTreeSet<u64>, id: u64) -> (found: bool)
    ensures
        found == set@.contains(id),
{
    set.contains(&id)
}

/// Whether two sets hold the same numbers.
pub fn same_ids(a: &BTreeSet<u64>, b: &BTreeSet<u64>) -> (same: bool)
    ensures
        same == (a@ == b@),
{
    if a.len() != b.len() {
        assert(a@.len() != b@.len());
        return false;
    }
    let ghost keys = a.iter().remaining();
    assert(keys.unref().to_set() == a@);
    for id in it: a.iter()
        invariant
            a@.len() == b@.len(),
            it.seq() == keys,
            keys.unref().to_set() == a@,
            keys.len() == a@.len(),
            forall|k: int| 0 <= k < it.index() ==> b@.contains(*keys[k]),
    {
        if !b.contains(id) {
            assert(a@.contains(*id)) by {
                assert(keys.unref()[it.index() as int] == *id);
            }
            return false;
        }
    }
    assert(a@ == b@) by {
        assert forall|x: u64| a@.contains(x) implies b@.contains(x) by {
            assert(keys.unref().contains(x));
            let k = choose|k: int| 0 <= k < keys.unref().len() && keys.unref()[k] == x;
            assert(*keys[k] == x);
        }
        let other = b.iter().remaining();
        assert(other.unref().to_set() == b@);
        vstd::set_lib::lemma_subset_equality(a@, b@);
    }
    true
}

} // verus!
