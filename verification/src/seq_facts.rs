//! Small general facts about sequences and their multisets, shared by the
//! queue and assignment proofs.

use vstd::prelude::*;

verus! {

/// Prepending an element inserts it into the multiset of the sequence.
pub proof fn lemma_to_multiset_cons<T>(s: Seq<T>, x: T)
    ensures
        (seq![x] + s).to_multiset() == s.to_multiset().insert(x),
{
    broadcast use vstd::seq_lib::group_to_multiset_ensures;

    let u = seq![x] + s;
    assert(u.remove(0) =~= s);
    assert(u.remove(0).to_multiset() == u.to_multiset().remove(u[0]));
    assert(u[0] == x);
    assert(u.contains(x));
    assert(u.to_multiset().count(x) > 0);
    assert(u.to_multiset() =~= s.to_multiset().insert(x)) by {
        assert(forall|v: T| u.to_multiset().remove(x).count(v) == s.to_multiset().count(v));
    }
}

/// Inserting an element at any position inserts it into the multiset of the
/// sequence.
pub proof fn lemma_to_multiset_insert<T>(s: Seq<T>, i: int, x: T)
    requires
        0 <= i <= s.len(),
    ensures
        s.insert(i, x).to_multiset() == s.to_multiset().insert(x),
{
    broadcast use vstd::seq_lib::group_to_multiset_ensures;

    let u = s.insert(i, x);
    assert(u.remove(i) =~= s);
    assert(u.remove(i).to_multiset() == u.to_multiset().remove(u[i]));
    assert(u[i] == x);
    assert(u.contains(x));
    assert(u.to_multiset().count(x) > 0);
    assert(u.to_multiset() =~= s.to_multiset().insert(x)) by {
        assert(forall|v: T| u.to_multiset().remove(x).count(v) == s.to_multiset().count(v));
    }
}

/// Sequences with the same multiset hold the same set of values.
pub proof fn lemma_same_multiset_same_set<T>(a: Seq<T>, b: Seq<T>)
    requires
        a.to_multiset() == b.to_multiset(),
    ensures
        a.to_set() == b.to_set(),
{
    broadcast use vstd::seq_lib::group_to_multiset_ensures;

    assert(a.to_set() =~= b.to_set()) by {
        assert(forall|v: T| a.contains(v) <==> a.to_multiset().count(v) > 0);
        assert(forall|v: T| b.contains(v) <==> b.to_multiset().count(v) > 0);
    }
}

} // verus!
