//! A handle table: an arena of slots addressed by generation-checked integer
//! handles.
//!
//! A handle packs a slot index (low 32 bits) and the generation of the slot at
//! the time the handle was issued (the 21 bits above). Destroying an entry
//! retires its handle for good: a slot that is taken again gets a higher
//! generation, so a stale handle is told apart from the slot's new tenant by
//! one comparison. A slot whose generation cannot grow is never taken again.
//! Every handle that is issued is below 2^53, so that a double-precision
//! number holds it exactly.

use vstd::prelude::*;

verus! {

/// The number of slots that a table can hold: the number of slot indices that
/// a handle can address.
pub const SLOT_LIMIT: u64 = 0x1_0000_0000;

/// The greatest handle that is ever issued.
pub const MAX_HANDLE: u64 = 0x1F_FFFF_FFFF_FFFF;

/// The greatest generation of a slot.
const GENERATION_LIMIT: u32 = 0x1F_FFFF;

/// The slot index that a handle addresses.
spec fn handle_index(handle: u64) -> int {
    (handle % 0x1_0000_0000) as int
}

/// The generation that a handle was issued for.
spec fn handle_generation(handle: u64) -> int {
    (handle / 0x1_0000_0000) as int
}

struct Slot<T> {
    generation: u32,
    value: Option<T>,
}

/// Maps opaque integer handles to values. The table knows nothing of what a
/// value is.
pub struct HandleTable<T> {
    slots: Vec<Slot<T>>,
    free: Vec<usize>,
}

fn pack(index: usize, generation: u32) -> (handle: u64)
    requires
        index < 0x1_0000_0000,
        generation <= GENERATION_LIMIT,
    ensures
        handle_index(handle) == index,
        handle_generation(handle) == generation,
        handle <= MAX_HANDLE,
{
    generation as u64 * SLOT_LIMIT + index as u64
}

fn index_of(handle: u64) -> (index: usize)
    ensures
        index == handle_index(handle),
{
    (handle % SLOT_LIMIT) as usize
}

fn generation_of(handle: u64) -> (generation: u32)
    ensures
        generation == handle_generation(handle),
{
    (handle / SLOT_LIMIT) as u32
}

impl<T> View for HandleTable<T> {
    type V = Map<u64, T>;

    /// The live entries: each handle that was issued and not destroyed since,
    /// with its value.
    closed spec fn view(&self) -> Map<u64, T> {
        Map::new(
            |handle: u64| self.is_live(handle),
            |handle: u64| self.slots@[handle_index(handle)].value->0,
        )
    }
}

impl<T> HandleTable<T> {
    spec fn is_live(&self, handle: u64) -> bool {
        let i = handle_index(handle);
        &&& i < self.slots@.len()
        &&& self.slots@[i].generation == handle_generation(handle)
        &&& self.slots@[i].value is Some
    }

    spec fn is_retired(&self, handle: u64) -> bool {
        let i = handle_index(handle);
        &&& i < self.slots@.len()
        &&& (handle_generation(handle) < self.slots@[i].generation || (handle_generation(handle)
            == self.slots@[i].generation && self.slots@[i].value is None))
    }

    spec fn reusable(&self, i: int) -> bool {
        &&& 0 <= i < self.slots@.len()
        &&& self.slots@[i].value is None
        &&& self.slots@[i].generation < GENERATION_LIMIT
    }

    /// The table's invariant: every index on the free list names a vacant slot
    /// whose generation can still grow, none is listed twice, and every slot
    /// index fits in a handle.
    pub closed spec fn wf(&self) -> bool {
        &&& self.slots@.len() <= 0x1_0000_0000
        &&& forall|k: int| 0 <= k < self.free@.len() ==> self.reusable(#[trigger] self.free@[k] as int)
        &&& forall|j: int, k: int|
            0 <= j < k < self.free@.len() ==> self.free@[j] != self.free@[k]
    }

    /// The handles that were issued once and destroyed since. None of them is
    /// ever issued again.
    pub closed spec fn retired(&self) -> Set<u64> {
        Set::new(|handle: u64| self.is_retired(handle))
    }

    /// The number of slots that the table holds. It never shrinks, and grows
    /// by one where an entry is allocated while no slot is vacant.
    pub closed spec fn slots(&self) -> nat {
        self.slots@.len()
    }

    /// The number of slots that are vacant and can be taken again.
    pub closed spec fn vacancies(&self) -> nat {
        self.free@.len()
    }

    /// Whether one more entry can be allocated: a slot is vacant, or the table
    /// can hold one more slot.
    pub open spec fn has_room(&self) -> bool {
        self.vacancies() > 0 || self.slots() < SLOT_LIMIT
    }

    /// No handle is live and retired at once.
    pub proof fn lemma_live_not_retired(&self, handle: u64)
        requires
            self.wf(),
        ensures
            !(self@.contains_key(handle) && self.retired().contains(handle)),
    {
    }

    /// An empty table.
    pub fn new() -> (table: Self)
        ensures
            table.wf(),
            table.slots() == 0,
            table.vacancies() == 0,
            table@ == Map::<u64, T>::empty(),
            table.retired() == Set::<u64>::empty(),
    {
        HandleTable { slots: Vec::new(), free: Vec::new() }
    }

    /// Tells whether another entry can be allocated.
    pub fn room(&self) -> (room: bool)
        ensures
            room == self.has_room(),
    {
        self.free.len() > 0 || (self.slots.len() as u64) < SLOT_LIMIT
    }

    /// Stores `value` under a handle that was never issued before and returns
    /// the handle.
    pub fn allocate(&mut self, value: T) -> (handle: u64)
        requires
            old(self).wf(),
            old(self).has_room(),
        ensures
            final(self).wf(),
            handle <= MAX_HANDLE,
            !old(self)@.contains_key(handle),
            !old(self).retired().contains(handle),
            final(self)@ == old(self)@.insert(handle, value),
            final(self).retired() == old(self).retired(),
            if old(self).vacancies() > 0 {
                &&& final(self).slots() == old(self).slots()
                &&& final(self).vacancies() == old(self).vacancies() - 1
            } else {
                &&& final(self).slots() == old(self).slots() + 1
                &&& final(self).vacancies() == 0
            },
    {
        match self.free.pop() {
            Some(i) => {
                let generation: u32 = self.slots[i].generation + 1;
                self.slots[i].generation = generation;
                self.slots[i].value = Some(value);
                let handle = pack(i, generation);
                proof {
                    assert(self@ =~= old(self)@.insert(handle, value));
                    assert(self.retired() =~= old(self).retired());
                }
                handle
            },
            None => {
                let i: usize = self.slots.len();
                self.slots.push(Slot { generation: 0, value: Some(value) });
                let handle = pack(i, 0);
                proof {
                    assert(self@ =~= old(self)@.insert(handle, value));
                    assert(self.retired() =~= old(self).retired());
                }
                handle
            },
        }
    }

    /// Tells whether `handle` names a live entry.
    pub fn contains(&self, handle: u64) -> (found: bool)
        requires
            self.wf(),
        ensures
            found == self@.contains_key(handle),
    {
        let i = index_of(handle);
        i < self.slots.len() && self.slots[i].generation == generation_of(handle)
            && self.slots[i].value.is_some()
    }

    /// The value stored under `handle`, if the handle is live.
    pub fn lookup(&self, handle: u64) -> (found: Option<&T>)
        requires
            self.wf(),
        ensures
            found is Some <==> self@.contains_key(handle),
            found is Some ==> *found->0 == self@[handle],
    {
        let i = index_of(handle);
        if i < self.slots.len() && self.slots[i].generation == generation_of(handle) {
            self.slots[i].value.as_ref()
        } else {
            None
        }
    }

    /// Mutable access to the value stored under a live handle.
    pub(crate) fn lookup_mut(&mut self, handle: u64) -> (value: &mut T)
        requires
            old(self).wf(),
            old(self)@.contains_key(handle),
        ensures
            *value == old(self)@[handle],
            final(self).wf(),
            final(self).slots() == old(self).slots(),
            final(self).vacancies() == old(self).vacancies(),
            final(self)@ == old(self)@.insert(handle, *final(value)),
            final(self).retired() == old(self).retired(),
    {
        let i = index_of(handle);
        match &mut self.slots[i].value {
            Some(value) => value,
            None => vstd::pervasive::unreached(),
        }
    }

    /// Removes the entry under `handle` and returns its value; `None` when the
    /// handle is not live. A removed handle is retired.
    pub fn destroy(&mut self, handle: u64) -> (removed: Option<T>)
        requires
            old(self).wf(),
        ensures
            final(self).wf(),
            removed is Some <==> old(self)@.contains_key(handle),
            final(self).slots() == old(self).slots(),
            match removed {
                Some(value) => {
                    &&& value == old(self)@[handle]
                    &&& final(self)@ == old(self)@.remove(handle)
                    &&& final(self).retired() == old(self).retired().insert(handle)
                    &&& old(self).vacancies() <= final(self).vacancies() <= old(self).vacancies()
                        + 1
                },
                None => {
                    &&& final(self)@ == old(self)@
                    &&& final(self).retired() == old(self).retired()
                    &&& final(self).vacancies() == old(self).vacancies()
                },
            },
    {
        let i = index_of(handle);
        let generation = generation_of(handle);
        if i < self.slots.len() && self.slots[i].generation == generation
            && self.slots[i].value.is_some() {
            let removed = self.slots[i].value.take();
            if generation < GENERATION_LIMIT {
                self.free.push(i);
            }
            proof {
                assert(self@ =~= old(self)@.remove(handle));
                assert(self.retired() =~= old(self).retired().insert(handle));
            }
            removed
        } else {
            None
        }
    }
}

} // verus!
