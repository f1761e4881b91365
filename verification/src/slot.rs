//! Slot tables: vectors of optional entries whose index is the handle handed to
//! user space. A new entry takes the lowest free slot, or a new one at the end.
use vstd::prelude::*;

verus! {

/// Index of the first free slot at or after `k`, or the length of the table if none is free.
pub open spec fn first_free_from<T>(s: Seq<Option<T>>, k: int) -> int
    decreases s.len() - k,
{
    if k >= s.len() {
        s.len() as int
    } else if s[k] is None {
        k
    } else {
        first_free_from(s, k + 1)
    }
}

/// Index of the lowest free slot, or the length of the table if every slot is taken.
pub open spec fn first_free<T>(s: Seq<Option<T>>) -> int {
    first_free_from(s, 0)
}

/// The table after `item` is stored in slot `first_free(s)`.
pub open spec fn with_item<T>(s: Seq<Option<T>>, item: T) -> Seq<Option<T>> {
    let id = first_free(s);
    if id < s.len() {
        s.update(id, Some(item))
    } else {
        s.push(Some(item))
    }
}

/// `first_free` is the lowest free slot: every slot below it is taken, and it is
/// either free or one past the end.
pub proof fn lemma_first_free<T>(s: Seq<Option<T>>, k: int)
    requires
        0 <= k <= s.len(),
    ensures
        k <= first_free_from(s, k) <= s.len(),
        first_free_from(s, k) < s.len() ==> s[first_free_from(s, k)] is None,
        forall|m: int| k <= m < first_free_from(s, k) ==> s[m] is Some,
    decreases s.len() - k,
{
    if k < s.len() && s[k] is Some {
        lemma_first_free(s, k + 1);
    }
}

/// Storing an item: it lands in the lowest free slot (appended when none is free),
/// and every other slot is left as it was.
pub proof fn lemma_with_item_exact<T>(s: Seq<Option<T>>, item: T)
    ensures
        ({
            let id = first_free(s);
            let t = with_item(s, item);
            &&& 0 <= id <= s.len()
            &&& forall|k: int| 0 <= k < id ==> #[trigger] s[k] is Some
            &&& id < s.len() ==> s[id] is None
            &&& t.len() == if id < s.len() {
                s.len()
            } else {
                s.len() + 1
            }
            &&& t[id] == Some(item)
            &&& forall|k: int| 0 <= k < s.len() && k != id ==> #[trigger] t[k] == s[k]
        }),
{
    lemma_first_free(s, 0);
}

/// A slot just freed, with every slot below it taken, is the next one handed out.
pub proof fn lemma_freed_slot_is_next<T>(s: Seq<Option<T>>, id: int)
    requires
        0 <= id < s.len(),
        forall|k: int| 0 <= k < id ==> s[k] is Some,
    ensures
        first_free(s.update(id, None)) == id,
{
    let t = s.update(id, None);
    lemma_first_free(t, 0);
    if first_free(t) < id {
        assert(t[first_free(t)] is Some);
    }
    if first_free(t) > id {
        assert(t[id] is Some);
    }
}

/// Stores `item` in the lowest free slot, appending a slot if none is free, and
/// returns the slot's index.
pub fn alloc_slot<T>(list: &mut Vec<Option<T>>, item: T) -> (id: usize)
    ensures
        id == first_free(old(list)@),
        final(list)@ == with_item(old(list)@, item),
        id < final(list)@.len(),
        final(list)@[id as int] == Some(item),
        forall|m: int| 0 <= m < id ==> old(list)@[m] is Some,
{
    proof {
        lemma_first_free(list@, 0);
    }
    let mut i: usize = 0;
    while i < list.len()
        invariant
            i <= list@.len(),
            list@ == old(list)@,
            first_free(list@) == first_free_from(list@, i as int),
            forall|m: int| 0 <= m < i ==> list@[m] is Some,
        decreases list@.len() - i,
    {
        if list[i].is_none() {
            list[i] = Some(item);
            return i;
        }
        i = i + 1;
    }
    list.push(Some(item));
    i
}

} // verus!
