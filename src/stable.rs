use vstd::prelude::*;

use crate::fast::FastContainer;
use vstd::std_specs::cmp::PartialEqSpec;

verus! {

/// A handle into a `StableIndexVec`: a slot and the generation of that slot
/// at the time the handle was issued.
#[derive(Clone, Copy, Debug, PartialEq, Eq, Structural, PartialOrd, Ord, Hash)]
pub struct SIVKey {
    pub id: usize,
    pub generation: usize,
}

impl SIVKey {
    /// The handle for slot `id` at generation `generation`.
    pub fn new(id: usize, generation: usize) -> (r: Self)
        ensures
            r.id == id,
            r.generation == generation,
    {
        SIVKey { id, generation }
    }
}

/// A dense container whose handles carry a generation, so that a handle to a
/// removed element never reaches an element added later in its slot.
///
/// The slot bookkeeping and swap-remove compaction are those of
/// `FastContainer`; `generations` holds the current generation of each slot,
/// bumped whenever the slot is reused.
#[derive(Clone, Debug)]
pub struct StableIndexVec<T> {
    slots: FastContainer<T>,
    generations: Vec<usize>,
}

impl<T> View for StableIndexVec<T> {
    type V = Seq<T>;

    /// The live elements, in their dense order.
    closed spec fn view(&self) -> Seq<T> {
        self.slots@
    }
}

impl<T> StableIndexVec<T> {
    /// The slot bookkeeping.
    pub closed spec fn slots(&self) -> FastContainer<T> {
        self.slots
    }

    /// Current generation of each slot.
    pub closed spec fn generation(&self) -> Seq<usize> {
        self.generations@
    }

    /// The slot bookkeeping is well formed and every slot has a generation.
    pub open spec fn wf(&self) -> bool {
        &&& self.slots().wf()
        &&& self.slots()@ == self@
        &&& self.generation().len() == self.slots().slot_count()
    }

    /// Number of slots ever allocated.
    pub open spec fn slot_count(&self) -> nat {
        self.slots().slot_count()
    }

    /// The handle that slot `s` would be named by now.
    pub open spec fn key_of(&self, s: usize) -> SIVKey {
        SIVKey { id: s, generation: self.generation()[s as int] }
    }

    /// `k` names a slot that holds an element, at that slot's current
    /// generation.
    pub open spec fn is_live(&self, k: SIVKey) -> bool {
        self.slots().is_live(k.id) && self.generation()[k.id as int] == k.generation
    }

    /// `k` names a slot and a generation that slot has reached: it was handed
    /// out by `add` at some point.
    pub open spec fn was_issued(&self, k: SIVKey) -> bool {
        k.id < self.slot_count() && k.generation <= self.generation()[k.id as int]
    }

    /// `k` was handed out, and its element has been removed since.
    pub open spec fn is_stale(&self, k: SIVKey) -> bool {
        self.was_issued(k) && !self.is_live(k)
    }

    /// The live elements by handle.
    pub open spec fn map(&self) -> Map<SIVKey, T> {
        Map::new(|k: SIVKey| self.is_live(k), |k: SIVKey| self.slots().value_of(k.id))
    }

    /// Handles of the live elements, in dense order.
    pub open spec fn live_keys(&self) -> Seq<SIVKey> {
        self.slots().live_slots().map_values(|s: usize| self.key_of(s))
    }

    /// The handle that the next `add` returns.
    pub open spec fn next_key(&self) -> SIVKey {
        let free = self.slots().free_slots();
        if free.len() > 0 {
            SIVKey { id: free[0], generation: (self.generation()[free[0] as int] + 1) as usize }
        } else {
            SIVKey { id: self.slot_count() as usize, generation: 0 }
        }
    }

    /// The generation counter of the slot that the next `add` reuses has not
    /// reached the largest `usize`.
    pub open spec fn can_add(&self) -> bool {
        let free = self.slots().free_slots();
        free.len() > 0 ==> self.generation()[free[0] as int] < usize::MAX
    }

    /// `after` and `r` are what `add(el)` makes of `before` and returns: the
    /// element gets a handle that was never issued before, and every handle
    /// that was issued keeps what it named, stale ones staying stale.
    pub open spec fn adds(before: Self, after: Self, el: T, r: SIVKey) -> bool {
        &&& after.wf()
        &&& r == before.next_key()
        &&& !before.was_issued(r)
        &&& after.map() == before.map().insert(r, el)
        &&& after@ == before@.push(el)
        &&& after.live_keys() == before.live_keys().push(r)
        &&& forall|k: SIVKey| before.was_issued(k) ==> #[trigger] after.was_issued(k)
        &&& forall|k: SIVKey| before.is_stale(k) ==> #[trigger] after.is_stale(k)
        &&& before.slots().free_slots().len() > 0 ==> {
            &&& after.slots().free_slots() == before.slots().free_slots().drop_first()
            &&& after.generation() == before.generation().update(r.id as int, r.generation)
        }
        &&& before.slots().free_slots().len() == 0 ==> {
            &&& after.slots().free_slots().len() == 0
            &&& after.generation() == before.generation().push(0)
        }
    }

    /// `after` and `r` are what `remove(key)` makes of `before` and returns.
    /// A live handle gives up its element, which the last element replaces in
    /// the dense order, and turns stale; any other handle leaves the container
    /// as it was.
    pub open spec fn removes(before: Self, after: Self, key: SIVKey, r: Option<T>) -> bool {
        &&& after.wf()
        &&& before.map().contains_key(key) ==> {
            let p = before.slots().slot_to_data()[key.id as int] as int;
            &&& r == Some(before.map()[key])
            &&& after.map() == before.map().remove(key)
            &&& after@ == before@.update(p, before@.last()).drop_last()
            &&& after.live_keys() == before.live_keys().update(p, before.live_keys().last()).drop_last()
            &&& after.slots().free_slots() == seq![key.id] + before.slots().free_slots()
            &&& after.generation() == before.generation()
            &&& after.is_stale(key)
        }
        &&& !before.map().contains_key(key) ==> r == None::<T> && after == before
        &&& forall|k: SIVKey| #[trigger] after.was_issued(k) == before.was_issued(k)
        &&& forall|k: SIVKey| before.is_stale(k) ==> #[trigger] after.is_stale(k)
    }

    /// Creates a new empty StableIndexVec
    pub fn new() -> (r: Self)
        ensures
            r.wf(),
            r@.len() == 0,
            r.slot_count() == 0,
            r.map() == Map::<SIVKey, T>::empty(),
            r.live_keys().len() == 0,
    {
        let r = StableIndexVec { slots: FastContainer::new(), generations: Vec::new() };
        assert(r.map() =~= Map::<SIVKey, T>::empty());
        r
    }

    /// Gets the length of the data vector
    pub fn len(&self) -> (r: usize)
        ensures
            r == self@.len(),
    {
        self.slots.len()
    }

    /// Gets an optional reference to an element by its key
    pub fn get(&self, key: SIVKey) -> (r: Option<&T>)
        requires
            self.wf(),
        ensures
            r == (if self.map().contains_key(key) {
                Some(&self.map()[key])
            } else {
                None
            }),
    {
        if key.id >= self.generations.len() || self.generations[key.id] != key.generation {
            return None;
        }
        self.slots.get(key.id)
    }

    /// Adds an element to the container and returns its key
    ///
    /// The element goes into the next free slot, whose generation is bumped,
    /// or into a new slot of generation zero when none is free.
    pub fn add(&mut self, el: T) -> (r: SIVKey)
        requires
            old(self).wf(),
            old(self).can_add(),
        ensures
            Self::adds(*old(self), *final(self), el, r),
    {
        let ghost o = *self;
        let id = self.slots.add(el);
        let generation: usize;
        if id < self.generations.len() {
            generation = self.generations[id] + 1;
            self.generations.set(id, generation);
        } else {
            generation = 0;
            self.generations.push(0);
        }
        let r = SIVKey { id, generation };
        proof {
            assert forall|k: SIVKey| #[trigger] self.is_live(k) == (o.is_live(k) || k == r) by {
                assert(self.slots().map().contains_key(k.id) == self.slots().is_live(k.id));
                assert(o.slots().map().contains_key(k.id) == o.slots().is_live(k.id));
            }
            assert forall|k: SIVKey| o.is_live(k) implies #[trigger] self.slots().value_of(k.id)
                == o.slots().value_of(k.id) by {
                assert(o.slots().map().contains_key(k.id));
                assert(k.id != id);
                assert(self.slots().map()[k.id] == o.slots().map()[k.id]);
            }
            assert(self.slots().map().contains_key(id));
            assert(self.slots().value_of(id) == self.slots().map()[id]);
            assert(self.map() =~= o.map().insert(r, el));
            assert(self.live_keys() =~= o.live_keys().push(r));
        }
        r
    }

    /// Removes an element from the container by its key
    ///
    /// The last element moves into the removed one's place; the freed slot is
    /// the next one that `add` reuses.
    pub fn remove(&mut self, key: SIVKey) -> (r: Option<T>)
        requires
            old(self).wf(),
        ensures
            Self::removes(*old(self), *final(self), key, r),
    {
        let ghost o = *self;
        if key.id >= self.generations.len() || self.generations[key.id] != key.generation {
            return None;
        }
        let r = self.slots.remove(key.id);
        proof {
            if o.map().contains_key(key) {
                let p = o.slots().slot_to_data()[key.id as int] as int;
                assert forall|k: SIVKey| #[trigger] self.is_live(k) == (o.is_live(k) && k != key) by {
                    assert(self.slots().map().contains_key(k.id) == self.slots().is_live(k.id));
                    assert(o.slots().map().contains_key(k.id) == o.slots().is_live(k.id));
                }
                assert forall|k: SIVKey| self.is_live(k) implies #[trigger] self.slots().value_of(
                    k.id,
                ) == o.slots().value_of(k.id) by {
                    assert(self.slots().map().contains_key(k.id));
                    assert(self.slots().map()[k.id] == o.slots().map()[k.id]);
                }
                assert(self.map() =~= o.map().remove(key));
                assert(self.live_keys() =~= o.live_keys().update(p, o.live_keys().last()).drop_last());
            }
        }
        r
    }
    /// The handle at a live dense position is live and names the element
    /// there.
    pub proof fn lemma_live_key_at(&self, p: int)
        requires
            self.wf(),
            0 <= p < self@.len(),
        ensures
            self.map().contains_key(self.live_keys()[p]),
            self.map()[self.live_keys()[p]] == self@[p],
    {
        let s = self.slots().live_slots()[p];
        assert(self.slots().data_to_slot()[p] == s);
        assert(self.slots().slot_to_data()[s as int] == p);
    }

    /// A handle returned by `add` reaches the element just added.
    pub proof fn lemma_added_key_reaches_element(before: Self, after: Self, el: T, r: SIVKey)
        requires
            before.wf(),
            Self::adds(before, after, el, r),
        ensures
            after.map().contains_key(r),
            after.map()[r] == el,
    {
    }

    /// A live handle keeps reaching its element across an `add`.
    pub proof fn lemma_live_key_kept_by_add(
        before: Self,
        after: Self,
        el: T,
        r: SIVKey,
        k: SIVKey,
    )
        requires
            before.wf(),
            before.map().contains_key(k),
            Self::adds(before, after, el, r),
        ensures
            r != k,
            after.map().contains_key(k),
            after.map()[k] == before.map()[k],
    {
    }

    /// Removing one handle leaves every other live handle reaching the same
    /// element, and the removed one reaching nothing.
    pub proof fn lemma_live_key_kept_by_other_remove(
        before: Self,
        after: Self,
        key: SIVKey,
        r: Option<T>,
        k: SIVKey,
    )
        requires
            before.wf(),
            before.map().contains_key(k),
            k != key,
            Self::removes(before, after, key, r),
        ensures
            after.map().contains_key(k),
            after.map()[k] == before.map()[k],
            !after.map().contains_key(key),
    {
    }

    /// A stale handle is never returned by a later `add`, and it reaches no
    /// element before or after it.
    pub proof fn lemma_stale_key_rejected_after_add(
        before: Self,
        after: Self,
        el: T,
        r: SIVKey,
        k: SIVKey,
    )
        requires
            before.wf(),
            before.is_stale(k),
            Self::adds(before, after, el, r),
        ensures
            r != k,
            !before.map().contains_key(k),
            after.is_stale(k),
            !after.map().contains_key(k),
    {
    }

    /// A stale handle stays stale, and reaches no element, across a `remove`.
    pub proof fn lemma_stale_key_rejected_after_remove(
        before: Self,
        after: Self,
        key: SIVKey,
        r: Option<T>,
        k: SIVKey,
    )
        requires
            before.wf(),
            before.is_stale(k),
            Self::removes(before, after, key, r),
        ensures
            after.is_stale(k),
            !after.map().contains_key(k),
    {
    }

    /// Removing with the same handle twice gives the element the first time,
    /// if it was live, and nothing the second time, which changes nothing.
    pub proof fn lemma_remove_twice(
        c0: Self,
        c1: Self,
        c2: Self,
        key: SIVKey,
        r1: Option<T>,
        r2: Option<T>,
    )
        requires
            c0.wf(),
            Self::removes(c0, c1, key, r1),
            Self::removes(c1, c2, key, r2),
        ensures
            r1 == (if c0.map().contains_key(key) {
                Some(c0.map()[key])
            } else {
                None
            }),
            r2 == None::<T>,
            c2 == c1,
    {
    }

    /// An empty container has no live handle and nothing to iterate over.
    pub proof fn lemma_empty_has_no_keys(&self)
        requires
            self.wf(),
            self@.len() == 0,
        ensures
            self.map() == Map::<SIVKey, T>::empty(),
            self.live_keys().len() == 0,
    {
        assert(self.map() =~= Map::<SIVKey, T>::empty());
    }

    /// Iteration yields one distinct live handle per element, each reaching
    /// the element beside it, and every live handle among them.
    pub proof fn lemma_iteration_complete(&self)
        requires
            self.wf(),
        ensures
            self.live_keys().len() == self@.len(),
            self.live_keys().no_duplicates(),
            forall|p: int|
                0 <= p < self@.len() ==> self.map().contains_key(#[trigger] self.live_keys()[p])
                    && self.map()[self.live_keys()[p]] == self@[p],
            forall|k: SIVKey| #[trigger] self.map().contains_key(k) ==> self.live_keys().contains(k),
            self.map().dom() == self.live_keys().to_set(),
            self.map().dom().len() == self@.len(),
    {
        let ks = self.live_keys();
        assert forall|p: int| 0 <= p < self@.len() implies self.map().contains_key(
            #[trigger] ks[p],
        ) && self.map()[ks[p]] == self@[p] by {
            self.lemma_live_key_at(p);
        }
        assert forall|i: int, j: int| 0 <= i < ks.len() && 0 <= j < ks.len() && i != j implies ks[i]
            != ks[j] by {
            let si = self.slots().data_to_slot()[i];
            let sj = self.slots().data_to_slot()[j];
            assert(self.slots().slot_to_data()[si as int] == i);
            assert(self.slots().slot_to_data()[sj as int] == j);
        }
        assert forall|k: SIVKey| #[trigger] self.map().contains_key(k) implies ks.contains(k) by {
            let p = self.slots().slot_to_data()[k.id as int] as int;
            assert(self.slots().data_to_slot()[p] == k.id);
            assert(ks[p] == k);
        }
        assert(self.map().dom() =~= ks.to_set());
        ks.unique_seq_to_set();
    }

    /// Returns an iterator over all key-value pairs in the container, in
    /// dense order.
    pub fn iter(&self) -> (r: Iter<'_, T>)
        requires
            self.wf(),
        ensures
            r.wf(),
            r.source() == *self,
            r.position() == 0,
    {
        Iter { container: self, position: 0 }
    }

    /// Returns an iterator over the valid keys in the container
    pub fn keys(&self) -> (r: Keys<'_, T>)
        requires
            self.wf(),
        ensures
            r.wf(),
            r.source() == *self,
            r.position() == 0,
    {
        Keys { iter: self.iter() }
    }

    /// Returns an iterator over the values in the container
    pub fn values(&self) -> (r: Values<'_, T>)
        requires
            self.wf(),
        ensures
            r.wf(),
            r.source() == *self,
            r.position() == 0,
    {
        Values { iter: self.iter() }
    }

    /// Checks the internal bookkeeping: slot and position tables are inverse
    /// permutations and every slot has a generation.
    pub fn is_consistent(&self) -> (r: bool)
        ensures
            r == self.wf(),
    {
        self.slots.is_consistent() && self.generations.len() == self.slots.num_slots()
    }
}

impl<T: PartialEq> StableIndexVec<T> {
    /// Checks if the given element exists in the container
    pub fn contains(&self, el: &T) -> (r: bool)
        requires
            self.wf(),
        ensures
            T::obeys_eq_spec() ==> (r <==> exists|p: int|
                0 <= p < self@.len() && #[trigger] self@[p].eq_spec(el)),
    {
        let n = self.slots.len();
        let mut p: usize = 0;
        while p < n
            invariant
                self.wf(),
                n == self@.len(),
                p <= n,
                T::obeys_eq_spec() ==> forall|q: int| 0 <= q < p ==> !#[trigger] self@[q].eq_spec(el),
            decreases n - p,
        {
            if self.slots.value_at(p).eq(el) {
                return true;
            }
            p += 1;
        }
        false
    }
}

impl<T> Default for StableIndexVec<T> {
    fn default() -> (r: Self)
        ensures
            r.wf(),
            r@.len() == 0,
            r.slot_count() == 0,
            r.map() == Map::<SIVKey, T>::empty(),
    {
        Self::new()
    }
}

/// Iterator over keys and references to elements in a StableIndexVec
pub struct Iter<'a, T> {
    container: &'a StableIndexVec<T>,
    position: usize,
}

impl<'a, T> Iter<'a, T> {
    /// The container being traversed.
    pub closed spec fn source(&self) -> StableIndexVec<T> {
        *self.container
    }

    /// Dense position of the next element to yield.
    pub closed spec fn position(&self) -> nat {
        self.position as nat
    }

    pub open spec fn wf(&self) -> bool {
        self.source().wf()
    }

    /// Yields the handle and element at the current position and moves past
    /// them, or `None` once every live element has been yielded.
    pub fn next(&mut self) -> (r: Option<(SIVKey, &'a T)>)
        requires
            old(self).wf(),
        ensures
            final(self).wf(),
            final(self).source() == old(self).source(),
            old(self).position() < old(self).source()@.len() ==> {
                let p = old(self).position() as int;
                &&& r == Some((old(self).source().live_keys()[p], &old(self).source()@[p]))
                &&& final(self).position() == old(self).position() + 1
            },
            old(self).position() >= old(self).source()@.len() ==> r == None::<(SIVKey, &'a T)>
                && final(self).position() == old(self).position(),
            r matches Some((k, v)) ==> old(self).source().map().contains_key(k)
                && old(self).source().map()[k] == *v,
    {
        if self.position >= self.container.len() {
            return None;
        }
        let p = self.position;
        self.position = p + 1;
        let id = self.container.slots.slot_at(p);
        let key = SIVKey { id, generation: self.container.generations[id] };
        proof {
            self.container.lemma_live_key_at(p as int);
        }
        Some((key, self.container.slots.value_at(p)))
    }
}

/// Iterator over the valid keys of a StableIndexVec
pub struct Keys<'a, T> {
    iter: Iter<'a, T>,
}

impl<'a, T> Keys<'a, T> {
    pub closed spec fn source(&self) -> StableIndexVec<T> {
        self.iter.source()
    }

    pub closed spec fn position(&self) -> nat {
        self.iter.position()
    }

    pub open spec fn wf(&self) -> bool {
        self.source().wf()
    }

    /// Yields the handle at the current position and moves past it.
    pub fn next(&mut self) -> (r: Option<SIVKey>)
        requires
            old(self).wf(),
        ensures
            final(self).wf(),
            final(self).source() == old(self).source(),
            old(self).position() < old(self).source()@.len() ==> {
                &&& r == Some(old(self).source().live_keys()[old(self).position() as int])
                &&& final(self).position() == old(self).position() + 1
            },
            old(self).position() >= old(self).source()@.len() ==> r == None::<SIVKey>
                && final(self).position() == old(self).position(),
            r matches Some(k) ==> old(self).source().map().contains_key(k),
    {
        match self.iter.next() {
            Some((k, _)) => Some(k),
            None => None,
        }
    }
}

/// Iterator over the values of a StableIndexVec
pub struct Values<'a, T> {
    iter: Iter<'a, T>,
}

impl<'a, T> Values<'a, T> {
    pub closed spec fn source(&self) -> StableIndexVec<T> {
        self.iter.source()
    }

    pub closed spec fn position(&self) -> nat {
        self.iter.position()
    }

    pub open spec fn wf(&self) -> bool {
        self.source().wf()
    }

    /// Yields the element at the current position and moves past it.
    pub fn next(&mut self) -> (r: Option<&'a T>)
        requires
            old(self).wf(),
        ensures
            final(self).wf(),
            final(self).source() == old(self).source(),
            old(self).position() < old(self).source()@.len() ==> {
                &&& r == Some(&old(self).source()@[old(self).position() as int])
                &&& final(self).position() == old(self).position() + 1
            },
            old(self).position() >= old(self).source()@.len() ==> r == None::<&'a T>
                && final(self).position() == old(self).position(),
    {
        match self.iter.next() {
            Some((_, v)) => Some(v),
            None => None,
        }
    }
}

} // verus!
