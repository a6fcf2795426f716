//! Facts about sequences that sorting by insertion rests on.
use vstd::prelude::*;

verus! {

/// Inserting an element anywhere adds it to the multiset.
pub proof fn inserting_adds_one<A>(s: Seq<A>, k: int, a: A)
    requires
        0 <= k <= s.len(),
    ensures
        s.insert(k, a).to_multiset() == s.to_multiset().insert(a),
{
    let t = s.insert(k, a);
    t.to_multiset_ensures();
    s.insert_ensures(k, a);
    assert(t.remove(k) =~= s);
    assert(t[k] == a);
    assert(t.contains(a));
    assert(t.to_multiset().count(a) > 0);
    assert(t.to_multiset() =~= t.to_multiset().remove(a).insert(a));
}

} // verus!
