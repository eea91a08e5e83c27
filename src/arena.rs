//! The arena and its abstract model.
use crate::idx::Idx;
use vstd::prelude::*;

verus! {

/// What an arena holds, as seen by its users: one entry per slot, `Some`
/// for a slot that holds a live value and `None` for a freed one, and the
/// stack of freed positions, most recently freed first.
#[verifier::ext_equal]
pub struct ArenaView<T> {
    pub slots: Seq<Option<T>>,
    pub free: Seq<usize>,
}

impl<T> ArenaView<T> {
    /// An arena with no slots.
    pub open spec fn empty() -> ArenaView<T> {
        ArenaView { slots: Seq::empty(), free: Seq::empty() }
    }

    /// Position `i` holds a live value.
    pub open spec fn is_live(self, i: usize) -> bool {
        i < self.slots.len() && self.slots[i as int] is Some
    }

    /// The value held at live position `i`.
    pub open spec fn value_at(self, i: usize) -> T {
        self.slots[i as int]->Some_0
    }

    /// The free stack lists each freed slot exactly once, and nothing else.
    pub open spec fn wf(self) -> bool {
        &&& self.free.no_duplicates()
        &&& forall|k: int|
            0 <= k < self.free.len() ==> {
                &&& #[trigger] self.free[k] < self.slots.len()
                &&& self.slots[self.free[k] as int] is None
            }
        &&& forall|j: usize|
            j < self.slots.len() && #[trigger] self.slots[j as int] is None ==> self.free.contains(j)
    }

    /// The position that the next allocation takes: the top of the free
    /// stack, or a new slot at the end when the stack is empty.
    pub open spec fn next_index(self) -> nat {
        if self.free.len() > 0 {
            self.free[0] as nat
        } else {
            self.slots.len()
        }
    }

    /// The arena after storing `item`.
    pub open spec fn allocate(self, item: T) -> ArenaView<T> {
        if self.free.len() > 0 {
            ArenaView {
                slots: self.slots.update(self.free[0] as int, Some(item)),
                free: self.free.drop_first(),
            }
        } else {
            ArenaView { slots: self.slots.push(Some(item)), free: self.free }
        }
    }

    /// The arena with the value at position `i` replaced by `v`.
    pub open spec fn with_value(self, i: usize, v: T) -> ArenaView<T> {
        ArenaView { slots: self.slots.update(i as int, Some(v)), free: self.free }
    }

    /// The arena after freeing position `i`: the slot is emptied and pushed
    /// on the free stack.
    pub open spec fn dealloc(self, i: usize) -> ArenaView<T> {
        ArenaView { slots: self.slots.update(i as int, None), free: seq![i].add(self.free) }
    }

    /// The arena after storing `items`, first to last.
    pub open spec fn allocate_all(self, items: Seq<T>) -> ArenaView<T>
        decreases items.len(),
    {
        if items.len() == 0 {
            self
        } else {
            self.allocate_all(items.drop_last()).allocate(items.last())
        }
    }

    /// The positions returned while storing `items`, first to last.
    pub open spec fn positions(self, items: Seq<T>) -> Seq<nat>
        decreases items.len(),
    {
        if items.len() == 0 {
            Seq::empty()
        } else {
            self.positions(items.drop_last()).push(
                self.allocate_all(items.drop_last()).next_index(),
            )
        }
    }

    /// The arena after freeing `idxs`, first to last.
    pub open spec fn dealloc_all(self, idxs: Seq<usize>) -> ArenaView<T>
        decreases idxs.len(),
    {
        if idxs.len() == 0 {
            self
        } else {
            self.dealloc_all(idxs.drop_last()).dealloc(idxs.last())
        }
    }
}

/// One storage position: a live value, or a link in the free stack.
enum Slot<T> {
    Free { next_free: Option<Idx<T>> },
    Full { item: T },
}

impl<T> Slot<T> {
    spec fn item(self) -> Option<T> {
        match self {
            Slot::Free { .. } => None,
            Slot::Full { item } => Some(item),
        }
    }

    /// For a free slot, the position of the next free slot, if any.
    spec fn link(self) -> Option<Option<usize>> {
        match self {
            Slot::Free { next_free } => Some(raw_of(next_free)),
            Slot::Full { .. } => None,
        }
    }
}

spec fn raw_of<T>(i: Option<Idx<T>>) -> Option<usize> {
    match i {
        Some(i) => Some(i@),
        None => None,
    }
}

/// The entry of `chain` after position `k`, if any.
spec fn after(chain: Seq<usize>, k: int) -> Option<usize> {
    if k + 1 < chain.len() {
        Some(chain[k + 1])
    } else {
        None
    }
}

/// An arena of values of type `T`, addressed by `Idx<T>`.
pub struct FreeList<T> {
    first_free: Option<Idx<T>>,
    slots: Vec<Slot<T>>,
    /// The free positions in the order the links visit them.
    chain: Ghost<Seq<usize>>,
}

impl<T> View for FreeList<T> {
    type V = ArenaView<T>;

    closed spec fn view(&self) -> ArenaView<T> {
        ArenaView { slots: self.slots@.map_values(|s: Slot<T>| s.item()), free: self.chain@ }
    }
}

impl<T> FreeList<T> {
    /// The links starting at `first_free` visit every free slot once and
    /// end at the last one.
    pub closed spec fn wf(&self) -> bool {
        let chain = self.chain@;
        let slots = self.slots@;
        &&& raw_of(self.first_free) == after(chain, -1)
        &&& chain.no_duplicates()
        &&& forall|k: int|
            0 <= k < chain.len() ==> {
                &&& #[trigger] chain[k] < slots.len()
                &&& slots[chain[k] as int].link() == Some(after(chain, k))
            }
        &&& forall|j: usize|
            j < slots.len() && (#[trigger] slots[j as int]).link() is Some ==> chain.contains(j)
    }

    /// A well-formed arena has a well-formed model.
    pub proof fn lemma_wf_view(&self)
        requires
            self.wf(),
        ensures
            self@.wf(),
    {
        let v = self@;
        assert forall|k: int| 0 <= k < v.free.len() implies {
            &&& #[trigger] v.free[k] < v.slots.len()
            &&& v.slots[v.free[k] as int] is None
        } by {
            assert(self.slots@[self.chain@[k] as int].link() is Some);
        }
        assert forall|j: usize| j < v.slots.len() && #[trigger] v.slots[j as int] is None implies v.free.contains(j) by {
            assert(self.slots@[j as int].link() is Some);
        }
    }
}

impl<T> Default for FreeList<T> {
    /// An empty arena: no slots and nothing to reuse.
    fn default() -> (r: Self)
        ensures
            r.wf(),
            r@ == ArenaView::<T>::empty(),
    {
        let r = FreeList { first_free: None, slots: Vec::new(), chain: Ghost(Seq::empty()) };
        assert(r@.slots =~= Seq::<Option<T>>::empty());
        r
    }
}

impl<T> FreeList<T> {
    /// Stores `item` and returns its position: the most recently freed slot
    /// if there is one, else a new slot at the end.
    pub fn allocate(&mut self, item: T) -> (r: Idx<T>)
        requires
            old(self).wf(),
        ensures
            final(self).wf(),
            r@ == old(self)@.next_index(),
            final(self)@ == old(self)@.allocate(item),
    {
        let ghost chain = self.chain@;
        let ghost slots = self.slots@;
        match self.first_free {
            Some(idx) => {
                let i = idx.to_raw();
                assert(slots[chain[0] as int].link() == Some(after(chain, 0)));
                let mut slot = Slot::Full { item };
                std::mem::swap(&mut self.slots[i], &mut slot);
                let next_free = match slot {
                    Slot::Free { next_free } => next_free,
                    // the head of the free chain is always a free slot
                    Slot::Full { .. } => vstd::pervasive::unreached(),
                };
                self.first_free = next_free;
                self.chain = Ghost(chain.drop_first());
                proof {
                    let c = self.chain@;
                    let s = self.slots@;
                    assert(s =~= slots.update(i as int, Slot::Full { item }));
                    assert forall|k: int| 0 <= k < c.len() implies {
                        &&& #[trigger] c[k] < s.len()
                        &&& s[c[k] as int].link() == Some(after(c, k))
                    } by {
                        assert(c[k] == chain[k + 1]);
                        assert(slots[chain[k + 1] as int].link() == Some(after(chain, k + 1)));
                    }
                    assert forall|j: usize| j < s.len() && (#[trigger] s[j as int]).link() is Some implies c.contains(j) by {
                        assert(j != i);
                        assert(slots[j as int].link() is Some);
                        let k = choose|k: int| 0 <= k < chain.len() && chain[k] == j;
                        assert(k != 0);
                        assert(c[k - 1] == j);
                    }
                    assert(self@.slots =~= old(self)@.allocate(item).slots);
                }
                idx
            },
            None => {
                let idx = Idx::from_raw(self.slots.len());
                self.slots.push(Slot::Full { item });
                proof {
                    let s = self.slots@;
                    assert forall|j: usize| j < s.len() && (#[trigger] s[j as int]).link() is Some implies chain.contains(j) by {
                        assert(j < slots.len());
                        assert(slots[j as int] == s[j as int]);
                    }
                    assert(self@.slots =~= old(self)@.allocate(item).slots);
                }
                idx
            },
        }
    }

    /// Frees the slot at `idx` and hands back the value it held. The slot
    /// becomes the first to be reused.
    pub fn dealloc(&mut self, idx: Idx<T>) -> (r: T)
        requires
            old(self).wf(),
            old(self)@.is_live(idx@),
        ensures
            final(self).wf(),
            r == old(self)@.value_at(idx@),
            final(self)@ == old(self)@.dealloc(idx@),
    {
        let ghost chain = self.chain@;
        let ghost slots = self.slots@;
        let i = idx.to_raw();
        let mut slot = Slot::Free { next_free: self.first_free };
        std::mem::swap(&mut self.slots[i], &mut slot);
        self.first_free = Some(idx);
        self.chain = Ghost(seq![i].add(chain));
        proof {
            let c = self.chain@;
            let s = self.slots@;
            assert(s =~= slots.update(i as int, Slot::Free { next_free: old(self).first_free }));
            assert(slots[i as int].link() is None);
            assert forall|k: int| 0 <= k < chain.len() implies #[trigger] chain[k] != i by {
                assert(slots[chain[k] as int].link() is Some);
            }
            assert forall|k: int| 0 <= k < c.len() implies {
                &&& #[trigger] c[k] < s.len()
                &&& s[c[k] as int].link() == Some(after(c, k))
            } by {
                if k > 0 {
                    assert(c[k] == chain[k - 1]);
                    assert(slots[chain[k - 1] as int].link() == Some(after(chain, k - 1)));
                }
            }
            assert forall|j: usize| j < s.len() && (#[trigger] s[j as int]).link() is Some implies c.contains(j) by {
                if j == i {
                    assert(c[0] == i);
                } else {
                    assert(slots[j as int].link() is Some);
                    let k = choose|k: int| 0 <= k < chain.len() && chain[k] == j;
                    assert(c[k + 1] == j);
                }
            }
            assert(self@.slots =~= old(self)@.dealloc(idx@).slots);
        }
        match slot {
            Slot::Full { item } => item,
            // the caller only frees live slots
            Slot::Free { .. } => vstd::pervasive::unreached(),
        }
    }

    /// The value held at `idx`.
    pub fn index(&self, idx: Idx<T>) -> (r: &T)
        requires
            self@.is_live(idx@),
        ensures
            *r == self@.value_at(idx@),
    {
        match &self.slots[idx.to_raw()] {
            Slot::Full { item } => item,
            Slot::Free { .. } => vstd::pervasive::unreached(),
        }
    }

    /// Mutable access to the value held at `idx`; whatever is written
    /// through the reference becomes the slot's value.
    pub fn index_mut(&mut self, idx: Idx<T>) -> (r: &mut T)
        requires
            old(self).wf(),
            old(self)@.is_live(idx@),
        ensures
            *r == old(self)@.value_at(idx@),
            final(self).wf(),
            final(self)@ =~= old(self)@.with_value(idx@, *final(r)),
    {
        match &mut self.slots[idx.to_raw()] {
            Slot::Full { item } => item,
            Slot::Free { .. } => vstd::pervasive::unreached(),
        }
    }
}

} // verus!
