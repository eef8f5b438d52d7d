//! A table of reusable, generation-tagged slots.
//!
//! Every slot carries a generation counter. A key names one occupancy of one
//! slot; releasing the occupancy advances the counter, so a key that has been
//! released never names a later occupant of the same index. The value of a
//! released slot stays in place until the index is handed out again.

use vstd::prelude::*;

verus! {

/// Names one occupancy of one slot: the slot's index and the generation the
/// slot had when the key was issued.
#[derive(Clone, Copy, Debug, PartialEq, Eq, Structural)]
pub struct SlotKey {
    pub index: usize,
    pub generation: u64,
}

/// What the table stores at one index.
pub struct SlotRecord<T> {
    /// The occupant, or what the last occupant left behind.
    pub value: T,
    /// How many occupancies of this index have ended.
    pub generation: u64,
    /// Whether the index is occupied.
    pub live: bool,
}

/// Reusable-slot container. Indices of released slots are handed out again,
/// most recently released first, before the table grows.
pub struct SlotTable<T> {
    slots: Vec<SlotRecord<T>>,
    free: Vec<usize>,
}

impl<T> SlotTable<T> {
    /// The records, by index.
    pub closed spec fn slots(&self) -> Seq<SlotRecord<T>> {
        self.slots@
    }

    /// The indices waiting for reuse; the last one is handed out next.
    pub closed spec fn free_list(&self) -> Seq<usize> {
        self.free@
    }

    /// The free list holds, once each, exactly the vacant indices whose
    /// generation can still advance; occupied slots can always be released.
    pub open spec fn wf(&self) -> bool {
        let slots = self.slots();
        let free = self.free_list();
        &&& forall|i: int|
            0 <= i < free.len() ==> {
                &&& (#[trigger] free[i]) < slots.len()
                &&& !slots[free[i] as int].live
                &&& slots[free[i] as int].generation < u64::MAX
            }
        &&& forall|i: int, j: int| 0 <= i < j < free.len() ==> free[i] != free[j]
        &&& forall|s: int|
            0 <= s < slots.len() && !(#[trigger] slots[s]).live && slots[s].generation < u64::MAX
                ==> exists|i: int| 0 <= i < free.len() && (#[trigger] free[i]) as int == s
        &&& forall|s: int|
            0 <= s < slots.len() && (#[trigger] slots[s]).live ==> slots[s].generation < u64::MAX
    }

    /// `key` names the present occupant of its slot.
    pub open spec fn live(&self, key: SlotKey) -> bool {
        &&& key.index < self.slots().len()
        &&& self.slots()[key.index as int].live
        &&& self.slots()[key.index as int].generation == key.generation
    }

    /// `key` names an occupancy that has ended.
    pub open spec fn stale(&self, key: SlotKey) -> bool {
        &&& key.index < self.slots().len()
        &&& key.generation < self.slots()[key.index as int].generation
    }

    /// The index that the next `insert` hands out.
    pub open spec fn next_index(&self) -> int {
        if self.free_list().len() > 0 {
            self.free_list().last() as int
        } else {
            self.slots().len() as int
        }
    }

    /// An empty table.
    pub fn new() -> (table: Self)
        ensures
            table.wf(),
            table.slots() =~= Seq::<SlotRecord<T>>::empty(),
            table.free_list() =~= Seq::<usize>::empty(),
    {
        SlotTable { slots: Vec::new(), free: Vec::new() }
    }

    /// The number of slots, occupied or not.
    pub fn len(&self) -> (n: usize)
        ensures
            n == self.slots().len(),
    {
        self.slots.len()
    }

    /// Whether `key` names the present occupant of its slot.
    pub fn is_live(&self, key: SlotKey) -> (b: bool)
        ensures
            b == self.live(key),
    {
        key.index < self.slots.len() && self.slots[key.index].live
            && self.slots[key.index].generation == key.generation
    }

    /// The record at `index`.
    pub fn record(&self, index: usize) -> (r: &SlotRecord<T>)
        requires
            index < self.slots().len(),
        ensures
            *r == self.slots()[index as int],
    {
        &self.slots[index]
    }

    /// The occupant that `key` names.
    pub fn get(&self, key: SlotKey) -> (value: &T)
        requires
            self.live(key),
        ensures
            *value == self.slots()[key.index as int].value,
    {
        &self.slots[key.index].value
    }

    /// The occupant that `key` names, for writing. Nothing but that value
    /// changes.
    pub fn get_mut(&mut self, key: SlotKey) -> (value: &mut T)
        requires
            old(self).live(key),
        ensures
            *value == old(self).slots()[key.index as int].value,
            final(self).slots() == old(self).slots().update(
                key.index as int,
                SlotRecord {
                    value: *final(value),
                    generation: old(self).slots()[key.index as int].generation,
                    live: old(self).slots()[key.index as int].live,
                },
            ),
            final(self).free_list() == old(self).free_list(),
    {
        &mut self.slots[key.index].value
    }

    /// A table stays well formed while only the values in its slots change.
    pub proof fn lemma_values_do_not_matter(&self, pre: Self)
        requires
            pre.wf(),
            self.free_list() == pre.free_list(),
            self.slots().len() == pre.slots().len(),
            forall|s: int|
                0 <= s < pre.slots().len() ==> {
                    &&& (#[trigger] self.slots()[s]).live == pre.slots()[s].live
                    &&& self.slots()[s].generation == pre.slots()[s].generation
                },
        ensures
            self.wf(),
    {
        let slots = self.slots();
        let free = self.free_list();
        assert forall|i: int| 0 <= i < free.len() implies {
            &&& (#[trigger] free[i]) < slots.len()
            &&& !slots[free[i] as int].live
            &&& slots[free[i] as int].generation < u64::MAX
        } by {
            assert(pre.free_list()[i] < pre.slots().len());
            assert(slots[free[i] as int].live == pre.slots()[free[i] as int].live);
        }
        assert forall|s: int|
            0 <= s < slots.len() && !(#[trigger] slots[s]).live && slots[s].generation
                < u64::MAX implies exists|i: int|
            0 <= i < free.len() && (#[trigger] free[i]) as int == s by {
            assert(!pre.slots()[s].live);
        }
        assert forall|s: int|
            0 <= s < slots.len() && (#[trigger] slots[s]).live implies slots[s].generation
            < u64::MAX by {
            assert(pre.slots()[s].live);
        }
    }

    /// The index that the next `insert` will hand out.
    pub fn peek_next_index(&self) -> (index: usize)
        ensures
            index == self.next_index(),
    {
        let n = self.free.len();
        if n > 0 {
            self.free[n - 1]
        } else {
            self.slots.len()
        }
    }

    /// Occupies a slot with `value` and returns its key: the most recently
    /// released reusable index if there is one, a new index otherwise. A
    /// reused slot keeps its generation; a new one starts at generation 0.
    pub fn insert(&mut self, value: T) -> (key: SlotKey)
        requires
            old(self).wf(),
        ensures
            final(self).wf(),
            key.index == old(self).next_index(),
            old(self).free_list().len() > 0 ==> {
                &&& key.generation == old(self).slots()[key.index as int].generation
                &&& final(self).slots() == old(self).slots().update(
                    key.index as int,
                    SlotRecord { value, generation: key.generation, live: true },
                )
                &&& final(self).free_list() == old(self).free_list().drop_last()
            },
            old(self).free_list().len() == 0 ==> {
                &&& key.generation == 0
                &&& final(self).slots() == old(self).slots().push(
                    SlotRecord { value, generation: 0, live: true },
                )
                &&& final(self).free_list() == old(self).free_list()
            },
            final(self).live(key),
            !old(self).live(key),
            !old(self).stale(key),
    {
        match self.free.pop() {
            Some(index) => {
                let ghost before = old(self).slots();
                let ghost waiting = old(self).free_list();
                assert(waiting[waiting.len() - 1] == index);
                let generation = self.slots[index].generation;
                let record = &mut self.slots[index];
                record.value = value;
                record.live = true;
                proof {
                    let slots = self.slots@;
                    let free = self.free@;
                    assert(slots =~= before.update(
                        index as int,
                        SlotRecord { value, generation, live: true },
                    ));
                    assert forall|i: int| 0 <= i < free.len() implies (#[trigger] free[i])
                        != index by {
                        assert(free[i] == waiting[i]);
                    }
                    assert forall|s: int|
                        0 <= s < slots.len() && !(#[trigger] slots[s]).live && slots[s].generation
                            < u64::MAX implies exists|i: int|
                        0 <= i < free.len() && (#[trigger] free[i]) as int == s by {
                        assert(before[s] == slots[s]);
                        let w = choose|w: int|
                            0 <= w < waiting.len() && (#[trigger] waiting[w]) as int == s;
                        assert(free[w] as int == s);
                    }
                }
                SlotKey { index, generation }
            },
            None => {
                let index = self.slots.len();
                self.slots.push(SlotRecord { value, generation: 0, live: true });
                proof {
                    let slots = self.slots@;
                    assert forall|s: int| 0 <= s < slots.len() && s != index implies (
                    #[trigger] slots[s]) == old(self).slots()[s] by {}
                }
                SlotKey { index, generation: 0 }
            },
        }
    }

    /// Ends the occupancy that `key` names. The value stays in place, the
    /// slot's generation advances by one, and the index becomes reusable
    /// unless its generation has run out.
    pub fn release(&mut self, key: SlotKey)
        requires
            old(self).wf(),
            old(self).live(key),
        ensures
            final(self).wf(),
            final(self).slots() == old(self).slots().update(
                key.index as int,
                SlotRecord {
                    value: old(self).slots()[key.index as int].value,
                    generation: (key.generation + 1) as u64,
                    live: false,
                },
            ),
            final(self).free_list() == if key.generation + 1 < u64::MAX {
                old(self).free_list().push(key.index)
            } else {
                old(self).free_list()
            },
            final(self).stale(key),
    {
        let ghost before = old(self).slots();
        let ghost waiting = old(self).free_list();
        let next = key.generation + 1;
        let record = &mut self.slots[key.index];
        record.generation = next;
        record.live = false;
        assert(self.slots@ =~= before.update(
            key.index as int,
            SlotRecord { value: before[key.index as int].value, generation: next, live: false },
        ));
        if next < u64::MAX {
            self.free.push(key.index);
        }
        proof {
            let slots = self.slots@;
            let free = self.free@;
            assert forall|i: int| 0 <= i < waiting.len() implies (#[trigger] waiting[i])
                != key.index by {
                assert(!before[waiting[i] as int].live);
            }
            assert forall|s: int|
                0 <= s < slots.len() && !(#[trigger] slots[s]).live && slots[s].generation
                    < u64::MAX implies exists|i: int|
                0 <= i < free.len() && (#[trigger] free[i]) as int == s by {
                if s == key.index {
                    assert(free[free.len() - 1] as int == s);
                } else {
                    assert(before[s] == slots[s]);
                    let w = choose|w: int|
                        0 <= w < waiting.len() && (#[trigger] waiting[w]) as int == s;
                    assert(free[w] as int == s);
                }
            }
        }
    }
}

} // verus!
