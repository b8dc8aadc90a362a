//! Generation-checked handle registry.
//!
//! A handle is two integers — a slot index and a generation counter. A
//! handle whose generation no longer matches its slot is stale: every
//! lookup through it answers `None`, it never panics.
use vstd::prelude::*;

verus! {

/// A slot index paired with the generation the slot had when the value was
/// stored. Cheap to copy, cheap to pass.
#[derive(Debug, Clone, Copy, PartialEq, Eq, Structural)]
pub struct Handle {
    pub slot: u32,
    pub gen: u32,
}

struct Slot<T> {
    value: Option<T>,
    gen: u32,
    /// Reserved for bulk invalidation of every slot of one region; always 0.
    region_id: u32,
}

/// Storage that hands out [`Handle`]s and detects stale ones.
pub struct HandleRegistry<T> {
    slots: Vec<Slot<T>>,
    free_list: Vec<u32>,
}

/// Abstract state of one slot: its value (if occupied) and its generation.
pub type SlotState<T> = (Option<T>, u32);

impl<T> HandleRegistry<T> {
    /// The slots, in index order, as (value, generation) pairs.
    pub closed spec fn slot_states(&self) -> Seq<SlotState<T>> {
        self.slots@.map_values(|s: Slot<T>| (s.value, s.gen))
    }

    /// The indices of freed slots, in the order they were freed.
    pub closed spec fn free_slots(&self) -> Seq<u32> {
        self.free_list@
    }

    /// The region tag of each slot.
    pub closed spec fn region_ids(&self) -> Seq<u32> {
        self.slots@.map_values(|s: Slot<T>| s.region_id)
    }

    /// Internal consistency: every freed index names an existing slot, and
    /// the slot count can be named by a `u32`.
    pub open spec fn wf(&self) -> bool {
        &&& self.slot_states().len() <= u32::MAX
        &&& self.region_ids().len() == self.slot_states().len()
        &&& forall|i: int|
            0 <= i < self.free_slots().len() ==> (#[trigger] self.free_slots()[i]) < self.slot_states().len()
    }

    /// What a lookup through `h` yields: the slot's value when the slot
    /// exists and its generation equals the handle's, `None` otherwise.
    pub open spec fn lookup(&self, h: Handle) -> Option<T> {
        if h.slot < self.slot_states().len() && self.slot_states()[h.slot as int].1 == h.gen {
            self.slot_states()[h.slot as int].0
        } else {
            None
        }
    }

    /// Number of occupied slots among the first `n`.
    pub open spec fn count_occupied(slots: Seq<SlotState<T>>, n: int) -> nat
        decreases n,
    {
        if n <= 0 {
            0
        } else {
            Self::count_occupied(slots, n - 1) + if slots[n - 1].0 is Some {
                1nat
            } else {
                0nat
            }
        }
    }

    /// Number of values currently stored.
    pub open spec fn live_count(&self) -> nat {
        Self::count_occupied(self.slot_states(), self.slot_states().len() as int)
    }

    /// The slot the next `insert` will fill: the most recently freed one,
    /// or a fresh slot past the end.
    pub open spec fn next_slot(&self) -> int {
        if self.free_slots().len() > 0 {
            self.free_slots().last() as int
        } else {
            self.slot_states().len() as int
        }
    }

    /// Every freed slot is vacant and listed once. This holds for every
    /// registry built by `new`, `insert`, `get_mut` and `remove`, whatever
    /// handles they were given.
    pub open spec fn free_list_exact(&self) -> bool {
        &&& forall|i: int|
            0 <= i < self.free_slots().len() ==> self.slot_states()[#[trigger] self.free_slots()[i] as int].0 is None
        &&& forall|i: int, j: int|
            0 <= i < j < self.free_slots().len() ==> #[trigger] self.free_slots()[i] != #[trigger] self.free_slots()[j]
    }


    /// The state change made by `insert(value)` returning `h`: the next slot
    /// (see [`Self::next_slot`]) now holds `value` under `h`'s generation —
    /// the slot's current one when reused, 0 when fresh — and nothing else
    /// changed.
    pub open spec fn inserted(old: Self, new: Self, value: T, h: Handle) -> bool {
        &&& h.slot == old.next_slot()
        &&& h.gen == (if old.free_slots().len() > 0 {
            old.slot_states()[h.slot as int].1
        } else {
            0
        })
        &&& old.free_slots().len() > 0 ==> {
            &&& new.free_slots() == old.free_slots().drop_last()
            &&& new.slot_states() == old.slot_states().update(h.slot as int, (Some(value), h.gen))
            &&& new.region_ids() == old.region_ids()
        }
        &&& old.free_slots().len() == 0 ==> {
            &&& new.free_slots() == old.free_slots()
            &&& new.slot_states() == old.slot_states().push((Some(value), 0u32))
            &&& new.region_ids() == old.region_ids().push(0u32)
        }
    }

    /// The state change made by `remove(h)` returning `r`: `r` is what `h`
    /// looked up; when `h` finds a value the slot is emptied, its generation
    /// bumped and its index pushed on the free list, otherwise (a stale
    /// handle, an unknown slot, or a slot already empty) nothing changes.
    pub open spec fn removed(old: Self, new: Self, h: Handle, r: Option<T>) -> bool {
        &&& r == old.lookup(h)
        &&& old.lookup(h) is Some ==> {
            &&& new.slot_states() == old.slot_states().update(
                h.slot as int,
                (None::<T>, (h.gen + 1) as u32),
            )
            &&& new.free_slots() == old.free_slots().push(h.slot)
            &&& new.region_ids() == old.region_ids()
        }
        &&& old.lookup(h) is None ==> new == old
    }


    proof fn lemma_count_update(s: Seq<SlotState<T>>, k: int, x: SlotState<T>, n: int)
        requires
            0 <= k < s.len(),
            0 <= n <= s.len(),
        ensures
            Self::count_occupied(s.update(k, x), n) + (if k < n && s[k].0 is Some { 1int } else { 0int })
                == Self::count_occupied(s, n) as int + (if k < n && x.0 is Some { 1int } else { 0int }),
        decreases n,
    {
        if n > 0 {
            Self::lemma_count_update(s, k, x, n - 1);
        }
    }

    proof fn lemma_count_push(s: Seq<SlotState<T>>, x: SlotState<T>, n: int)
        requires
            0 <= n <= s.len(),
        ensures
            Self::count_occupied(s.push(x), n) == Self::count_occupied(s, n),
        decreases n,
    {
        if n > 0 {
            Self::lemma_count_push(s, x, n - 1);
        }
    }

    /// A value stored by `insert` is what a lookup through the returned
    /// handle yields.
    pub proof fn law_insert_then_lookup(old: Self, new: Self, value: T, h: Handle)
        requires
            old.wf(),
            Self::inserted(old, new, value, h),
        ensures
            new.lookup(h) == Some(value),
    {
    }

    /// After `remove(h)` the handle `h` is stale: a lookup through it
    /// yields `None`, whatever `remove` returned.
    pub proof fn law_removed_handle_is_stale(old: Self, new: Self, h: Handle, r: Option<T>)
        requires
            old.wf(),
            old.lookup(h) is Some ==> h.gen < u32::MAX,
            Self::removed(old, new, h, r),
        ensures
            new.lookup(h) is None,
    {
    }

    /// Removing through the same handle twice is harmless: the second
    /// removal yields `None` and changes nothing.
    pub proof fn law_remove_twice(r0: Self, r1: Self, r2: Self, h: Handle, x: Option<T>, y: Option<T>)
        requires
            r0.wf(),
            r0.lookup(h) is Some ==> h.gen < u32::MAX,
            Self::removed(r0, r1, h, x),
            Self::removed(r1, r2, h, y),
        ensures
            y is None,
            r2 == r1,
    {
    }

    /// Removing one handle does not change what any handle to another slot
    /// looks up.
    pub proof fn law_remove_leaves_other_slots(old: Self, new: Self, h: Handle, r: Option<T>, other: Handle)
        requires
            old.wf(),
            Self::removed(old, new, h, r),
            other.slot != h.slot,
        ensures
            new.lookup(other) == old.lookup(other),
    {
    }

    /// When `insert` reuses a slot freed by `remove(h)`, the new handle
    /// names the same slot with a different generation: the old handle
    /// stays stale and the new one finds the new value.
    pub proof fn law_slot_reuse_changes_generation(
        r0: Self,
        r1: Self,
        r2: Self,
        h: Handle,
        old_value: T,
        value: T,
        h2: Handle,
    )
        requires
            r0.wf(),
            h.gen < u32::MAX,
            Self::removed(r0, r1, h, Some(old_value)),
            Self::inserted(r1, r2, value, h2),
        ensures
            h2.slot == h.slot,
            h2.gen != h.gen,
            r2.lookup(h) is None,
            r2.lookup(h2) == Some(value),
    {
    }

    /// On a registry whose free list is exact, `insert` hands out a handle
    /// different from every live handle and leaves each live handle's value
    /// in place; one more value is live afterwards.
    pub proof fn law_insert_fresh_handle(old: Self, new: Self, value: T, h: Handle)
        requires
            old.wf(),
            old.free_list_exact(),
            Self::inserted(old, new, value, h),
        ensures
            forall|other: Handle|
                (#[trigger] old.lookup(other)) is Some ==> other != h && new.lookup(other) == old.lookup(other),
            new.live_count() == old.live_count() + 1,
            new.free_list_exact(),
    {
        let s = old.slot_states();
        if old.free_slots().len() > 0 {
            let k = h.slot as int;
            assert(old.free_slots()[old.free_slots().len() - 1] == h.slot);
            assert(s[k].0 is None);
            Self::lemma_count_update(s, k, (Some(value), h.gen), s.len() as int);
            let f = new.free_slots();
            assert forall|i: int| 0 <= i < f.len() implies new.slot_states()[#[trigger] f[i] as int].0 is None by {
                assert(f[i] == old.free_slots()[i]);
                assert(old.free_slots()[i] != old.free_slots()[old.free_slots().len() - 1]);
            }
            assert forall|i: int, j: int| 0 <= i < j < f.len() implies #[trigger] f[i] != #[trigger] f[j] by {
                assert(f[i] == old.free_slots()[i]);
                assert(f[j] == old.free_slots()[j]);
            }
        } else {
            Self::lemma_count_push(s, (Some(value), 0u32), s.len() as int);
            assert(new.slot_states() == s.push((Some(value), 0u32)));
            assert forall|i: int| 0 <= i < new.free_slots().len() implies new.slot_states()[#[trigger] new.free_slots()[i] as int].0 is None by {
            }
        }
    }

    /// Removing through a live handle keeps the free list exact and leaves
    /// one value fewer live.
    pub proof fn law_remove_live_handle(old: Self, new: Self, h: Handle, v: T)
        requires
            old.wf(),
            old.free_list_exact(),
            h.gen < u32::MAX,
            Self::removed(old, new, h, Some(v)),
        ensures
            new.live_count() + 1 == old.live_count(),
            new.free_list_exact(),
    {
        let s = old.slot_states();
        let k = h.slot as int;
        Self::lemma_count_update(s, k, (None::<T>, (h.gen + 1) as u32), s.len() as int);
        let f = new.free_slots();
        assert forall|i: int| 0 <= i < f.len() implies new.slot_states()[#[trigger] f[i] as int].0 is None by {
            if i < old.free_slots().len() {
                assert(f[i] == old.free_slots()[i]);
            }
        }
        assert forall|i: int, j: int| 0 <= i < j < f.len() implies #[trigger] f[i] != #[trigger] f[j] by {
            assert(f[i] == old.free_slots()[i]);
            if j < old.free_slots().len() {
                assert(f[j] == old.free_slots()[j]);
            } else {
                assert(s[f[i] as int].0 is None);
            }
        }
    }

    /// An empty registry.
    pub fn new() -> (r: Self)
        ensures
            r.wf(),
            r.slot_states() == Seq::<SlotState<T>>::empty(),
            r.free_slots() == Seq::<u32>::empty(),
            r.live_count() == 0,
            r.free_list_exact(),
    {
        let r = HandleRegistry { slots: Vec::new(), free_list: Vec::new() };
        proof {
            assert(r.slot_states() =~= Seq::<SlotState<T>>::empty());
        }
        r
    }

    /// Store a value. Returns a handle to retrieve it later.
    ///
    /// The most recently freed slot is reused (its generation was already
    /// bumped when it was freed); otherwise a new slot with generation 0 is
    /// appended.
    pub fn insert(&mut self, value: T) -> (h: Handle)
        requires
            old(self).wf(),
            old(self).free_slots().len() > 0 || old(self).slot_states().len() < u32::MAX,
        ensures
            final(self).wf(),
            Self::inserted(*old(self), *final(self), value, h),
    {
        let popped = self.free_list.pop();
        match popped {
            Some(slot_idx) => {
                proof {
                    assert(old(self).free_slots()[old(self).free_slots().len() - 1] == slot_idx);
                }
                let gen = self.slots[slot_idx as usize].gen;
                let region_id = self.slots[slot_idx as usize].region_id;
                self.slots.set(slot_idx as usize, Slot { value: Some(value), gen, region_id });
                proof {
                    assert(self.slot_states() =~= old(self).slot_states().update(
                        slot_idx as int,
                        (Some(value), gen),
                    ));
                    assert(self.region_ids() =~= old(self).region_ids());
                    assert(forall|i: int|
                        0 <= i < self.free_slots().len() ==> self.free_slots()[i] == old(
                            self,
                        ).free_slots()[i]);
                }
                Handle { slot: slot_idx, gen }
            },
            None => {
                let slot_idx = self.slots.len() as u32;
                self.slots.push(Slot { value: Some(value), gen: 0, region_id: 0 });
                proof {
                    assert(self.slot_states() =~= old(self).slot_states().push((Some(value), 0u32)));
                    assert(self.region_ids() =~= old(self).region_ids().push(0u32));
                }
                Handle { slot: slot_idx, gen: 0 }
            },
        }
    }

    /// Whether `insert` has room: a freed slot to reuse, or a fresh slot
    /// index that a `u32` can name.
    pub fn has_room(&self) -> (b: bool)
        ensures
            b == (self.free_slots().len() > 0 || self.slot_states().len() < u32::MAX),
    {
        self.free_list.len() > 0 || self.slots.len() < 0xffff_ffffusize
    }

    /// Returns a reference to the stored value if the handle is still valid;
    /// `None` if it is stale.
    pub fn get(&self, handle: Handle) -> (r: Option<&T>)
        requires
            self.wf(),
        ensures
            r == match self.lookup(handle) {
                Some(v) => Some(&v),
                None => None::<&T>,
            },
    {
        if (handle.slot as usize) >= self.slots.len() {
            return None;
        }
        let slot = &self.slots[handle.slot as usize];
        if slot.gen != handle.gen {
            return None;
        }
        slot.value.as_ref()
    }

    /// Returns a mutable reference to the stored value if the handle is
    /// still valid; `None` if it is stale. Writing through the reference
    /// changes only that slot's value.
    pub fn get_mut(&mut self, handle: Handle) -> (r: Option<&mut T>)
        requires
            old(self).wf(),
        ensures
            r is Some <==> old(self).lookup(handle) is Some,
            r is None ==> *final(self) == *old(self),
            r matches Some(m) ==> {
                &&& Some(*m) == old(self).lookup(handle)
                &&& final(self).slot_states() == old(self).slot_states().update(
                    handle.slot as int,
                    (Some(*final(m)), handle.gen),
                )
                &&& final(self).free_slots() == old(self).free_slots()
                &&& final(self).region_ids() == old(self).region_ids()
                &&& final(self).wf()
            },
    {
        if (handle.slot as usize) >= self.slots.len() {
            return None;
        }
        if self.slots[handle.slot as usize].gen != handle.gen {
            return None;
        }
        if self.slots[handle.slot as usize].value.is_none() {
            return None;
        }
        let slot = &mut self.slots[handle.slot as usize];
        slot.value.as_mut()
    }

    /// Frees the slot and bumps its generation, so that every existing
    /// handle to it is stale. Returns the stored value; a handle that finds
    /// no value (stale, an unknown slot, or a slot already freed) leaves the
    /// registry unchanged and yields `None`.
    pub fn remove(&mut self, handle: Handle) -> (r: Option<T>)
        requires
            old(self).wf(),
            old(self).lookup(handle) is Some ==> handle.gen < u32::MAX,
        ensures
            final(self).wf(),
            Self::removed(*old(self), *final(self), handle, r),
    {
        if (handle.slot as usize) >= self.slots.len() {
            return None;
        }
        if self.slots[handle.slot as usize].gen != handle.gen {
            return None;
        }
        if self.slots[handle.slot as usize].value.is_none() {
            return None;
        }
        let region_id = self.slots[handle.slot as usize].region_id;
        let mut freed = Slot { value: None, gen: handle.gen + 1, region_id };
        self.slots.set_and_swap(handle.slot as usize, &mut freed);
        self.free_list.push(handle.slot);
        proof {
            assert(self.slot_states() =~= old(self).slot_states().update(
                handle.slot as int,
                (None::<T>, (handle.gen + 1) as u32),
            ));
            assert(self.region_ids() =~= old(self).region_ids());
            assert(forall|i: int|
                0 <= i < old(self).free_slots().len() ==> self.free_slots()[i] == old(
                    self,
                ).free_slots()[i]);
        }
        freed.value
    }

    /// Number of values currently stored.
    pub fn len(&self) -> (n: usize)
        requires
            self.wf(),
        ensures
            n == self.live_count(),
    {
        let mut count: usize = 0;
        let mut i: usize = 0;
        while i < self.slots.len()
            invariant
                i <= self.slots@.len(),
                self.wf(),
                count == Self::count_occupied(self.slot_states(), i as int),
                count <= i,
            decreases self.slots@.len() - i,
        {
            if self.slots[i].value.is_some() {
                count = count + 1;
            }
            i = i + 1;
        }
        count
    }

    /// True when no value is stored.
    pub fn is_empty(&self) -> (b: bool)
        requires
            self.wf(),
        ensures
            b == (self.live_count() == 0),
    {
        self.len() == 0
    }

    /// The region tag of a slot, or `None` when the slot does not exist.
    pub fn slot_region_id(&self, slot: u32) -> (r: Option<u32>)
        requires
            self.wf(),
        ensures
            r == (if slot < self.region_ids().len() {
                Some(self.region_ids()[slot as int])
            } else {
                None::<u32>
            }),
    {
        if (slot as usize) < self.slots.len() {
            Some(self.slots[slot as usize].region_id)
        } else {
            None
        }
    }
}

} // verus!
