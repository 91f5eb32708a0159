use vstd::prelude::*;

verus! {

/// A dense container addressed by slot numbers.
///
/// `index` maps a slot to its position in `data`; `ids` maps a position back
/// to its slot. Positions below `data.len()` hold live elements; the slots at
/// the positions past it are free and are handed out again, the one at
/// position `data.len()` first.
#[derive(Clone, Debug)]
pub struct FastContainer<T> {
    index: Vec<usize>,
    ids: Vec<usize>,
    data: Vec<T>,
}

impl<T> View for FastContainer<T> {
    type V = Seq<T>;

    /// The live elements, in their dense order.
    closed spec fn view(&self) -> Seq<T> {
        self.data@
    }
}

impl<T> FastContainer<T> {
    /// Position in the dense array of each slot.
    pub closed spec fn slot_to_data(&self) -> Seq<usize> {
        self.index@
    }

    /// Slot of each position; positions past the live ones hold free slots.
    pub closed spec fn data_to_slot(&self) -> Seq<usize> {
        self.ids@
    }

    /// Number of slots ever allocated.
    pub open spec fn slot_count(&self) -> nat {
        self.slot_to_data().len()
    }

    /// The two tables are inverse permutations of the slots, and every live
    /// element has a slot.
    pub open spec fn wf(&self) -> bool {
        let n = self.slot_count();
        &&& self.data_to_slot().len() == n
        &&& self@.len() <= n
        &&& forall|p: int|
            0 <= p < n ==> (#[trigger] self.data_to_slot()[p] as int) < n
                && self.slot_to_data()[self.data_to_slot()[p] as int] == p
        &&& forall|s: int|
            0 <= s < n ==> (#[trigger] self.slot_to_data()[s] as int) < n
                && self.data_to_slot()[self.slot_to_data()[s] as int] == s
    }

    /// Slots of the live elements, in dense order.
    pub open spec fn live_slots(&self) -> Seq<usize> {
        self.data_to_slot().take(self@.len() as int)
    }

    /// Free slots, in the order in which `add` reuses them.
    pub open spec fn free_slots(&self) -> Seq<usize> {
        self.data_to_slot().skip(self@.len() as int)
    }

    /// Slot `s` exists and holds an element.
    pub open spec fn is_live(&self, s: usize) -> bool {
        s < self.slot_count() && self.slot_to_data()[s as int] < self@.len()
    }

    /// The element held by slot `s`.
    pub open spec fn value_of(&self, s: usize) -> T {
        self@[self.slot_to_data()[s as int] as int]
    }

    /// The live elements by slot.
    pub open spec fn map(&self) -> Map<usize, T> {
        Map::new(|s: usize| self.is_live(s), |s: usize| self.value_of(s))
    }

    /// The slot that the next `add` returns.
    pub open spec fn next_slot(&self) -> usize {
        if self@.len() < self.slot_count() {
            self.data_to_slot()[self@.len() as int]
        } else {
            self.slot_count() as usize
        }
    }

    /// `after` and `r` are what `add(el)` makes of `before` and returns: the
    /// element lands in the next free slot (a new one when none is free) and
    /// every other slot keeps its element.
    pub open spec fn adds(before: Self, after: Self, el: T, r: usize) -> bool {
        &&& after.wf()
        &&& r == before.next_slot()
        &&& !before.map().contains_key(r)
        &&& after.map() == before.map().insert(r, el)
        &&& after@ == before@.push(el)
        &&& after.live_slots() == before.live_slots().push(r)
        &&& before.free_slots().len() > 0 ==> after.free_slots() == before.free_slots().drop_first()
            && after.slot_count() == before.slot_count()
        &&& before.free_slots().len() == 0 ==> after.free_slots().len() == 0 && after.slot_count()
            == before.slot_count() + 1
    }

    /// `after` and `r` are what `remove(idx)` makes of `before` and returns.
    /// A live slot gives up its element, the last element moves into the
    /// vacated position, and the slot becomes the first to be reused; any
    /// other slot leaves the container as it was.
    pub open spec fn removes(before: Self, after: Self, idx: usize, r: Option<T>) -> bool {
        &&& after.wf()
        &&& before.map().contains_key(idx) ==> {
            let p = before.slot_to_data()[idx as int] as int;
            &&& r == Some(before.map()[idx])
            &&& after.map() == before.map().remove(idx)
            &&& after@ == before@.update(p, before@.last()).drop_last()
            &&& after.live_slots() == before.live_slots().update(p, before.live_slots().last()).drop_last()
            &&& after.free_slots() == seq![idx] + before.free_slots()
            &&& after.slot_count() == before.slot_count()
        }
        &&& !before.map().contains_key(idx) ==> r == None::<T> && after == before
    }

    /// An empty container.
    pub fn new() -> (r: Self)
        ensures
            r.wf(),
            r@.len() == 0,
            r.slot_count() == 0,
            r.map() == Map::<usize, T>::empty(),
    {
        let r = FastContainer { index: Vec::new(), ids: Vec::new(), data: Vec::new() };
        assert(r.map() =~= Map::<usize, T>::empty());
        r
    }

    /// Number of live elements.
    pub fn len(&self) -> (r: usize)
        ensures
            r == self@.len(),
    {
        self.data.len()
    }

    /// The element in slot `idx`, if that slot is live.
    pub fn get(&self, idx: usize) -> (r: Option<&T>)
        requires
            self.wf(),
        ensures
            r == (if self.map().contains_key(idx) {
                Some(&self.map()[idx])
            } else {
                None
            }),
    {
        if idx >= self.index.len() {
            return None;
        }
        let data_index = self.index[idx];
        if data_index >= self.data.len() {
            return None;
        }
        Some(&self.data[data_index])
    }
    /// Stores `el` in the next free slot, or in a new one when none is free,
    /// and returns that slot.
    pub fn add(&mut self, el: T) -> (r: usize)
        requires
            old(self).wf(),
        ensures
            Self::adds(*old(self), *final(self), el, r),
    {
        let index_len = self.index.len();
        let data_len = self.data.len();
        if data_len == index_len {
            self.index.push(index_len);
            self.ids.push(index_len);
        }
        self.data.push(el);
        let r = self.ids[data_len];
        proof {
            let o = old(self);
            assert(self.index@[r as int] == data_len);
            assert forall|s: usize| #[trigger] self.is_live(s) == (o.is_live(s) || s == r) by {
                if s < self.slot_count() && s != r {
                    assert(self.data_to_slot()[self.slot_to_data()[s as int] as int] == s);
                }
            }
            assert(self.map() =~= o.map().insert(r, el));
            assert(self.live_slots() =~= o.live_slots().push(r));
            if data_len < index_len {
                assert(self.free_slots() =~= o.free_slots().drop_first());
            } else {
                assert(self.free_slots() =~= Seq::<usize>::empty());
            }
        }
        r
    }

    /// Takes the element out of slot `idx`, if that slot is live, moving the
    /// last element into its place and freeing the slot.
    pub fn remove(&mut self, idx: usize) -> (r: Option<T>)
        requires
            old(self).wf(),
        ensures
            Self::removes(*old(self), *final(self), idx, r),
    {
        if idx >= self.index.len() {
            return None;
        }
        let data_index = self.index[idx];
        if data_index >= self.data.len() {
            return None;
        }
        let last_index = self.data.len() - 1;
        let el = self.data.swap_remove(data_index);
        if data_index < last_index {
            let moved = self.ids[last_index];
            self.ids.set(data_index, moved);
            self.ids.set(last_index, idx);
            self.index.set(moved, data_index);
            self.index.set(idx, last_index);
        }
        proof {
            let o = old(self);
            let n = o.slot_count() as int;
            assert forall|p: int| 0 <= p < n implies (#[trigger] self.data_to_slot()[p] as int) < n
                && self.slot_to_data()[self.data_to_slot()[p] as int] == p by {
                assert(o.slot_to_data()[o.data_to_slot()[p] as int] == p);
            }
            assert forall|s: int| 0 <= s < n implies (#[trigger] self.slot_to_data()[s] as int) < n
                && self.data_to_slot()[self.slot_to_data()[s] as int] == s by {
                assert(o.data_to_slot()[o.slot_to_data()[s] as int] == s);
            }
            assert forall|s: usize| #[trigger] self.is_live(s) == (o.is_live(s) && s != idx) by {
                if s < n && s != idx {
                    assert(o.data_to_slot()[o.slot_to_data()[s as int] as int] == s);
                }
            }
            assert forall|s: usize| self.is_live(s) implies #[trigger] self.value_of(s) == o.value_of(
                s,
            ) by {
                assert(o.data_to_slot()[o.slot_to_data()[s as int] as int] == s);
            }
            assert(self.map() =~= o.map().remove(idx));
            assert(self.live_slots() =~= o.live_slots().update(
                data_index as int,
                o.live_slots().last(),
            ).drop_last());
            assert(self.free_slots() =~= seq![idx] + o.free_slots());
        }
        Some(el)
    }
    /// Checks the internal bookkeeping: the slot and position tables have
    /// one entry per slot, are inverse permutations of each other, and there
    /// are no more elements than slots.
    pub fn is_consistent(&self) -> (r: bool)
        ensures
            r == self.wf(),
    {
        let n = self.index.len();
        if self.ids.len() != n || self.data.len() > n {
            return false;
        }
        let mut p: usize = 0;
        while p < n
            invariant
                n == self.slot_count(),
                self.data_to_slot().len() == n,
                p <= n,
                forall|q: int|
                    0 <= q < p ==> (#[trigger] self.data_to_slot()[q] as int) < n
                        && self.slot_to_data()[self.data_to_slot()[q] as int] == q,
            decreases n - p,
        {
            let s = self.ids[p];
            if s >= n || self.index[s] != p {
                return false;
            }
            p += 1;
        }
        let mut s: usize = 0;
        while s < n
            invariant
                n == self.slot_count(),
                self.data_to_slot().len() == n,
                s <= n,
                forall|q: int|
                    0 <= q < s ==> (#[trigger] self.slot_to_data()[q] as int) < n
                        && self.data_to_slot()[self.slot_to_data()[q] as int] == q,
            decreases n - s,
        {
            let p = self.index[s];
            if p >= n || self.ids[p] != s {
                return false;
            }
            s += 1;
        }
        true
    }

    /// Number of slots ever allocated.
    pub(crate) fn num_slots(&self) -> (r: usize)
        ensures
            r == self.slot_count(),
    {
        self.index.len()
    }

    /// Every live position's slot maps back to that position, and every slot
    /// that maps to a live position is the slot recorded there.
    pub proof fn lemma_mapping_round_trip(&self)
        requires
            self.wf(),
        ensures
            forall|p: int|
                0 <= p < self@.len() ==> self.slot_to_data()[#[trigger] self.data_to_slot()[p] as int]
                    == p,
            forall|s: int|
                0 <= s < self.slot_count() && self.slot_to_data()[s] < self@.len()
                    ==> self.data_to_slot()[#[trigger] self.slot_to_data()[s] as int] == s,
    {
    }

    /// The next slot handed out is the first free slot when there is one.
    pub proof fn lemma_next_slot_is_first_free(&self)
        requires
            self.wf(),
        ensures
            self.free_slots().len() > 0 ==> self.next_slot() == self.free_slots()[0],
            self.free_slots().len() == 0 ==> self.next_slot() == self.slot_count() as usize,
    {
    }

    /// Freeing two live slots and then adding two elements hands back exactly
    /// those two slots, the one freed last first, each now holding the new
    /// element; every other slot keeps its element.
    pub proof fn lemma_freed_slots_reused(
        c0: Self,
        c1: Self,
        c2: Self,
        c3: Self,
        c4: Self,
        h2: usize,
        h4: usize,
        r2: Option<T>,
        r4: Option<T>,
        e5: T,
        e6: T,
        k5: usize,
        k6: usize,
    )
        requires
            c0.wf(),
            c0.map().contains_key(h2),
            c0.map().contains_key(h4),
            h2 != h4,
            Self::removes(c0, c1, h2, r2),
            Self::removes(c1, c2, h4, r4),
            Self::adds(c2, c3, e5, k5),
            Self::adds(c3, c4, e6, k6),
        ensures
            k5 == h4,
            k6 == h2,
            c4.map() == c0.map().insert(h4, e5).insert(h2, e6),
    {
        c2.lemma_next_slot_is_first_free();
        c3.lemma_next_slot_is_first_free();
        assert(c2.free_slots()[0] == h4);
        assert(c3.free_slots() =~= seq![h2] + c0.free_slots());
        assert(c4.map() =~= c0.map().insert(h4, e5).insert(h2, e6));
    }

    /// Slot of the live element at dense position `p`.
    pub(crate) fn slot_at(&self, p: usize) -> (r: usize)
        requires
            self.wf(),
            p < self@.len(),
        ensures
            r == self.live_slots()[p as int],
    {
        self.ids[p]
    }

    /// The live element at dense position `p`.
    pub(crate) fn value_at(&self, p: usize) -> (r: &T)
        requires
            p < self@.len(),
        ensures
            *r == self@[p as int],
    {
        &self.data[p]
    }
}

impl<T> Default for FastContainer<T> {
    fn default() -> (r: Self)
        ensures
            r.wf(),
            r@.len() == 0,
            r.slot_count() == 0,
    {
        Self::new()
    }
}

} // verus!
