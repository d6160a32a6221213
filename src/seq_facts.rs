//! Small facts about sequences used by the loops of this crate.
use vstd::prelude::*;

verus! {

/// Pushing an element that is not yet present keeps a sequence free of duplicates.
pub proof fn lemma_push_no_duplicates<A>(s: Seq<A>, x: A)
    requires
        s.no_duplicates(),
        !s.contains(x),
    ensures
        s.push(x).no_duplicates(),
{
    let t = s.push(x);
    assert forall|i: int, j: int| 0 <= i < t.len() && 0 <= j < t.len() && i != j implies t[i]
        != t[j] by {
        if i == s.len() {
            assert(s.contains(t[j]) || j == s.len());
        } else if j == s.len() {
            assert(s.contains(t[i]));
        }
    }
}

} // verus!
