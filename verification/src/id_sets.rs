//! Sequences of ids as sets.

use vstd::prelude::*;

verus! {

/// The set of the first `i + 1` ids is the set of the first `i` with the
/// next one added.
pub proof fn lemma_take_push_set(ids: Seq<i64>, i: int)
    requires
        0 <= i < ids.len(),
    ensures
        ids.take(i + 1).to_set() == ids.take(i).to_set().insert(ids[i]),
{
    let longer = ids.take(i + 1);
    let shorter = ids.take(i);
    let a = longer.to_set();
    let b = shorter.to_set().insert(ids[i]);
    assert forall|x: i64| a.contains(x) <==> b.contains(x) by {
        if a.contains(x) {
            let k = choose|k: int| 0 <= k < longer.len() && longer[k] == x;
            if k < i {
                assert(shorter[k] == x);
            }
        }
        if b.contains(x) {
            if x == ids[i] {
                assert(longer[i] == x);
            } else {
                let k = choose|k: int| 0 <= k < shorter.len() && shorter[k] == x;
                assert(longer[k] == x);
            }
        }
    }
    assert(a =~= b);
}

} // verus!
