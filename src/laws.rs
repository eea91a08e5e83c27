//! Properties of the arena that span several operations, stated over its
//! model.
use crate::arena::ArenaView;
use vstd::prelude::*;

verus! {

proof fn lemma_allocate_all_from_empty<T>(items: Seq<T>)
    ensures
        ArenaView::<T>::empty().allocate_all(items).free.len() == 0,
        ArenaView::<T>::empty().allocate_all(items).slots.len() == items.len(),
    decreases items.len(),
{
    if items.len() > 0 {
        lemma_allocate_all_from_empty(items.drop_last());
    }
}

/// On an empty arena with nothing freed, the allocations return the
/// positions 0, 1, 2, ... in turn.
pub proof fn lemma_sequential_growth<T>(items: Seq<T>)
    ensures
        ArenaView::<T>::empty().positions(items) == Seq::new(items.len(), |i: int| i as nat),
    decreases items.len(),
{
    if items.len() > 0 {
        let rest = items.drop_last();
        lemma_sequential_growth(rest);
        lemma_allocate_all_from_empty(rest);
        assert(ArenaView::<T>::empty().positions(items) =~= Seq::new(
            items.len(),
            |i: int| i as nat,
        ));
    }
}

proof fn lemma_dealloc_all_stacks<T>(a: ArenaView<T>, freed: Seq<usize>)
    ensures
        a.dealloc_all(freed).free.len() == freed.len() + a.free.len(),
        forall|j: int|
            0 <= j < freed.len() ==> #[trigger] a.dealloc_all(freed).free[j] == freed[freed.len()
                - 1 - j],
    decreases freed.len(),
{
    if freed.len() > 0 {
        let rest = freed.drop_last();
        lemma_dealloc_all_stacks(a, rest);
        let b = a.dealloc_all(rest);
        assert forall|j: int| 0 <= j < freed.len() implies #[trigger] a.dealloc_all(freed).free[j]
            == freed[freed.len() - 1 - j] by {
            if j > 0 {
                assert(a.dealloc_all(freed).free[j] == b.free[j - 1]);
            }
        }
    }
}

proof fn lemma_allocate_all_pops<T>(w: ArenaView<T>, items: Seq<T>)
    requires
        items.len() <= w.free.len(),
    ensures
        w.allocate_all(items).free == w.free.skip(items.len() as int),
        w.positions(items) == Seq::new(items.len(), |j: int| w.free[j] as nat),
    decreases items.len(),
{
    if items.len() > 0 {
        let rest = items.drop_last();
        lemma_allocate_all_pops(w, rest);
        assert(w.free.skip(rest.len() as int).drop_first() =~= w.free.skip(items.len() as int));
        assert(w.positions(items) =~= Seq::new(items.len(), |j: int| w.free[j] as nat));
    } else {
        assert(w.free.skip(0) =~= w.free);
        assert(w.positions(items) =~= Seq::new(0, |j: int| w.free[j] as nat));
    }
}

/// After freeing `freed` in order, as many allocations as there were frees
/// return the freed positions in reverse order.
pub proof fn lemma_lifo_reuse<T>(a: ArenaView<T>, freed: Seq<usize>, items: Seq<T>)
    requires
        items.len() == freed.len(),
    ensures
        a.dealloc_all(freed).positions(items) == Seq::new(
            freed.len(),
            |j: int| freed[freed.len() - 1 - j] as nat,
        ),
{
    let w = a.dealloc_all(freed);
    lemma_dealloc_all_stacks(a, freed);
    lemma_allocate_all_pops(w, items);
    assert(w.positions(items) =~= Seq::new(
        freed.len(),
        |j: int| freed[freed.len() - 1 - j] as nat,
    ));
}

/// Right after an allocation, looking up the returned position gives the
/// value just stored.
pub proof fn lemma_round_trip<T>(a: ArenaView<T>, v: T)
    requires
        a.wf(),
    ensures
        a.next_index() < a.allocate(v).slots.len(),
        a.allocate(v).slots[a.next_index() as int] == Some(v),
{
}

/// Freeing a live position leaves it free and every other slot as it was.
pub proof fn lemma_dealloc_empties<T>(a: ArenaView<T>, i: usize)
    requires
        a.is_live(i),
    ensures
        !a.dealloc(i).is_live(i),
        a.dealloc(i).slots.len() == a.slots.len(),
        forall|j: int| 0 <= j < a.slots.len() && j != i ==> a.dealloc(i).slots[j] == a.slots[j],
{
}

/// Once a live position is freed, further frees never make it live again,
/// so freeing it a second time before it is reallocated is ruled out by the
/// precondition of `dealloc`.
pub proof fn lemma_no_double_free<T>(a: ArenaView<T>, i: usize, others: Seq<usize>)
    requires
        a.is_live(i),
        forall|k: int| 0 <= k < others.len() ==> others[k] < a.slots.len(),
    ensures
        !a.dealloc(i).dealloc_all(others).is_live(i),
        a.dealloc(i).dealloc_all(others).slots.len() == a.slots.len(),
    decreases others.len(),
{
    if others.len() > 0 {
        lemma_no_double_free(a, i, others.drop_last());
    }
}

} // verus!
