//! The Resource Registry: growable slot tables whose indices are the
//! externally visible handles.  A create installs the new primitive in the
//! first empty slot, else appends; handles are stable until the owning slot
//! is cleared, and tables never shrink.

use vstd::prelude::*;

verus! {

/// Installs `item` in the first empty slot of `pool`, appending a slot when
/// none is empty, and returns the slot index.
pub fn alloc_slot<T>(pool: &mut Vec<Option<T>>, item: T) -> (id: usize)
    ensures
        id <= old(pool)@.len(),
        final(pool)@.len() == if id < old(pool)@.len() {
            old(pool)@.len()
        } else {
            old(pool)@.len() + 1
        },
        final(pool)@[id as int] is Some,
        final(pool)@[id as int]->Some_0 == item,
        forall|j: int|
            0 <= j < old(pool)@.len() && j != id ==> final(pool)@[j] == old(pool)@[j],
        id < old(pool)@.len() ==> old(pool)@[id as int] is None,
        forall|j: int| 0 <= j < id ==> old(pool)@[j] is Some,
{
    let n = pool.len();
    let mut i: usize = 0;
    while i < n
        invariant
            i <= n,
            n == pool@.len(),
            forall|j: int| 0 <= j < i ==> pool@[j] is Some,
        ensures
            i <= n,
            i < n ==> pool@[i as int] is None,
            forall|j: int| 0 <= j < i ==> pool@[j] is Some,
        decreases n - i,
    {
        if pool[i].is_none() {
            break;
        }
        i = i + 1;
    }
    if i < n {
        pool.set(i, Some(item));
        i
    } else {
        pool.push(Some(item));
        n
    }
}

} // verus!
