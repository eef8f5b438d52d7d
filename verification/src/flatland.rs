//! The registry: alphabets with their reference counts and geometry, groups
//! with their items, and the three dirty flags.
//!
//! What a released slot held stays where it is until the slot is occupied
//! again, so releasing an alphabet or deleting a group moves nothing in the
//! shared buffers.

use vstd::prelude::*;
use crate::buffers::{
    Color, DrawIndirectCmd, FlatlanderGroupDrawData, FlatlanderVertex, Transform,
};
use crate::model::{
    alphabet_wf, command_for, commands, draws_from, find_entry, group_count, group_instances,
    has_entry, holders_counted, index_lens, instances, item_lens, key_live,
    lemma_commands_len, lemma_group_count_agrees, lemma_group_count_change,
    lemma_group_count_covers, lemma_group_count_none, lemma_instances_agree,
    lemma_instances_len, lemma_live_count_agree, lemma_shared_indices_agree,
    lemma_shared_indices_len, lemma_shared_vertices_agree, lemma_shared_vertices_len, live_count,
    same_except, same_geometry, shared_indices, shared_vertices, vertex_lens, AlphabetData,
    AlphabetEntry, AlphabetSlot, GroupData, GroupSlot, MAX_GROUPS,
};
use crate::prefix::{
    lemma_prefix_sum_agrees, lemma_prefix_sum_covers, lemma_prefix_sum_monotone,
    lemma_prefix_sum_update, prefix_sum,
};
use crate::slot_table::{SlotRecord, SlotTable};
use crate::FlatlandItem;

verus! {

/// The alphabet `slot` is live and as it was, but that groups hold `by`
/// more of the references to it; no other alphabet has changed.
pub open spec fn holders_changed(pre: Flatland, post: Flatland, slot: AlphabetSlot, by: int) -> bool {
    &&& post.alphabet_live(slot)
    &&& post.refcount(slot) == pre.refcount(slot)
    &&& post.group_refs(slot) == pre.group_refs(slot) + by
    &&& same_geometry(
        pre.alphabets()[slot.key.index as int].value,
        post.alphabets()[slot.key.index as int].value,
    )
    &&& same_except(pre.alphabets(), post.alphabets(), slot.key.index as int)
    &&& post.alphabet_table().free_list() == pre.alphabet_table().free_list()
    &&& post.vertex_count() == pre.vertex_count()
    &&& post.index_count() == pre.index_count()
}

/// `post` is `pre` after an alphabet was created in `slot`: the slot is the
/// one that was next in line and keeps the generation it had, the alphabet
/// has one reference and no entries, and the geometry is dirty if it was or
/// if the slot still held some.
pub open spec fn alphabet_created(pre: Flatland, post: Flatland, slot: AlphabetSlot) -> bool {
    &&& slot.key.index == pre.alphabet_table().next_index()
    &&& slot.key.generation == if slot.key.index < pre.alphabets().len() {
        pre.alphabets()[slot.key.index as int].generation
    } else {
        0
    }
    &&& !pre.alphabet_live(slot)
    &&& !pre.alphabet_table().stale(slot.key)
    &&& post.alphabet_live(slot)
    &&& post.refcount(slot) == 1
    &&& post.group_refs(slot) == 0
    &&& post.entries(slot) =~= Seq::<AlphabetEntry>::empty()
    &&& post.vertices(slot) =~= Seq::<FlatlanderVertex>::empty()
    &&& post.indices(slot) =~= Seq::<u16>::empty()
    &&& same_except(pre.alphabets(), post.alphabets(), slot.key.index as int)
    &&& post.alphabet_table().free_list() == if pre.alphabet_table().free_list().len()
        > 0 {
        pre.alphabet_table().free_list().drop_last()
    } else {
        pre.alphabet_table().free_list()
    }
    &&& post.alphabets_invalidated() == (pre.alphabets_invalidated() || pre.holds_geometry(
        slot.key.index as int,
    ))
    &&& post.vertex_count() == pre.vertex_count() - pre.reclaimable_vertices()
    &&& post.index_count() == pre.index_count() - pre.reclaimable_indices()
    &&& post.groups_invalidated() == pre.groups_invalidated()
    &&& post.draw_invalidated() == pre.draw_invalidated()
    &&& post.group_table() == pre.group_table()
}

/// `post` is `pre` with one more reference to the alphabet `slot`.
pub open spec fn reference_added(pre: Flatland, post: Flatland, slot: AlphabetSlot) -> bool {
    &&& post.alphabet_live(slot)
    &&& post.refcount(slot) == pre.refcount(slot) + 1
    &&& post.group_refs(slot) == pre.group_refs(slot)
    &&& post.vertex_count() == pre.vertex_count()
    &&& post.index_count() == pre.index_count()
    &&& same_geometry(
        pre.alphabets()[slot.key.index as int].value,
        post.alphabets()[slot.key.index as int].value,
    )
    &&& same_except(pre.alphabets(), post.alphabets(), slot.key.index as int)
    &&& post.alphabet_table().free_list() == pre.alphabet_table().free_list()
    &&& post.alphabets_invalidated() == pre.alphabets_invalidated()
    &&& post.groups_invalidated() == pre.groups_invalidated()
    &&& post.draw_invalidated() == pre.draw_invalidated()
    &&& post.group_table() == pre.group_table()
}

/// `post` is `pre` with one reference less to the alphabet `slot`. With the
/// last reference the slot is released: its generation advances and, unless
/// it has run out, the slot is next in line for reuse. Entries and geometry
/// stay in place and no flag changes.
pub open spec fn reference_dropped(pre: Flatland, post: Flatland, slot: AlphabetSlot) -> bool {
    &&& post.refcount(slot) == pre.refcount(slot) - 1
    &&& post.alphabet_live(slot) == (pre.refcount(slot) > 1)
    &&& post.group_refs(slot) == pre.group_refs(slot)
    &&& post.vertex_count() == pre.vertex_count()
    &&& post.index_count() == pre.index_count()
    &&& !post.alphabet_live(slot) ==> {
        &&& post.alphabet_table().stale(slot.key)
        &&& !post.alphabets()[slot.key.index as int].live
        &&& post.alphabets()[slot.key.index as int].generation == slot.key.generation + 1
    }
    &&& same_geometry(
        pre.alphabets()[slot.key.index as int].value,
        post.alphabets()[slot.key.index as int].value,
    )
    &&& same_except(pre.alphabets(), post.alphabets(), slot.key.index as int)
    &&& post.alphabet_table().free_list() == if pre.refcount(slot) == 1
        && slot.key.generation + 1 < u64::MAX {
        pre.alphabet_table().free_list().push(slot.key.index)
    } else {
        pre.alphabet_table().free_list()
    }
    &&& post.alphabets_invalidated() == pre.alphabets_invalidated()
    &&& post.groups_invalidated() == pre.groups_invalidated()
    &&& post.draw_invalidated() == pre.draw_invalidated()
    &&& post.group_table() == pre.group_table()
}

/// `post` is `pre` after an entry with this id and geometry was asked for in
/// the alphabet `slot` and `index` returned. Where the alphabet had no entry
/// with the id, the entry stands behind the others, its geometry behind the
/// alphabet's, and the geometry is dirty; where it had one, `index` is that
/// entry's and nothing has changed.
pub open spec fn entry_added(
    pre: Flatland,
    post: Flatland,
    slot: AlphabetSlot,
    id: u32,
    vertices: Seq<FlatlanderVertex>,
    indices: Seq<u16>,
    index: usize,
) -> bool {
    &&& post.alphabet_live(slot)
    &&& post.refcount(slot) == pre.refcount(slot)
    &&& post.group_refs(slot) == pre.group_refs(slot)
    &&& has_entry(pre.entries(slot), id) ==> {
        &&& index < pre.entries(slot).len()
        &&& pre.entries(slot)[index as int].id == id
        &&& post.entries(slot) == pre.entries(slot)
        &&& post.vertices(slot) == pre.vertices(slot)
        &&& post.indices(slot) == pre.indices(slot)
        &&& post.alphabets_invalidated() == pre.alphabets_invalidated()
        &&& post.vertex_count() == pre.vertex_count()
        &&& post.index_count() == pre.index_count()
    }
    &&& !has_entry(pre.entries(slot), id) ==> {
        &&& index == pre.entries(slot).len()
        &&& post.entries(slot) == pre.entries(slot).push(
            AlphabetEntry {
                id,
                vertex_start: pre.vertices(slot).len() as usize,
                vertex_count: vertices.len() as usize,
                index_start: pre.indices(slot).len() as usize,
                index_count: indices.len() as usize,
            },
        )
        &&& post.vertices(slot) == pre.vertices(slot) + vertices
        &&& post.indices(slot) == pre.indices(slot) + indices
        &&& post.alphabets_invalidated()
        &&& post.vertex_count() == pre.vertex_count() + vertices.len()
        &&& post.index_count() == pre.index_count() + indices.len()
    }
    &&& same_except(pre.alphabets(), post.alphabets(), slot.key.index as int)
    &&& post.alphabet_table().free_list() == pre.alphabet_table().free_list()
    &&& post.groups_invalidated() == pre.groups_invalidated()
    &&& post.draw_invalidated() == pre.draw_invalidated()
    &&& post.group_table() == pre.group_table()
}

/// `post` is `pre` after a group with these fields was created in `slot`:
/// the slot is the one that was next in line and keeps the generation it
/// had, instance data and draw commands are dirty, and the group holds one
/// more of the references to its alphabet.
pub open spec fn group_created(
    pre: Flatland,
    post: Flatland,
    transform: Transform,
    color: Color,
    alphabet: AlphabetSlot,
    items: Seq<FlatlandItem>,
    slot: GroupSlot,
) -> bool {
    &&& slot.key.index == pre.group_table().next_index()
    &&& slot.key.generation == if slot.key.index < pre.groups().len() {
        pre.groups()[slot.key.index as int].generation
    } else {
        0
    }
    &&& !pre.group_live(slot)
    &&& !pre.group_table().stale(slot.key)
    &&& post.group_live(slot)
    &&& post.group(slot).transform == transform
    &&& post.group(slot).color == color
    &&& post.group(slot).alphabet == alphabet
    &&& post.group(slot).items@ == items
    &&& same_except(pre.groups(), post.groups(), slot.key.index as int)
    &&& post.group_table().free_list() == if pre.group_table().free_list().len()
        > 0 {
        pre.group_table().free_list().drop_last()
    } else {
        pre.group_table().free_list()
    }
    &&& post.groups_invalidated()
    &&& post.draw_invalidated()
    &&& post.alphabets_invalidated() == pre.alphabets_invalidated()
    &&& post.item_count() == pre.item_count() - pre.reclaimable_items() + items.len()
    &&& holders_changed(pre, post, alphabet, 1)
}

/// `post` is `pre` with other items in the group `slot`; instance data and
/// draw commands are dirty.
pub open spec fn items_updated(
    pre: Flatland,
    post: Flatland,
    slot: GroupSlot,
    items: Seq<FlatlandItem>,
) -> bool {
    &&& post.group_live(slot)
    &&& post.group(slot).items@ == items
    &&& post.item_count() == pre.item_count() - pre.group(slot).items@.len() + items.len()
    &&& post.group(slot).transform == pre.group(slot).transform
    &&& post.group(slot).color == pre.group(slot).color
    &&& post.group(slot).alphabet == pre.group(slot).alphabet
    &&& same_except(pre.groups(), post.groups(), slot.key.index as int)
    &&& post.group_table().free_list() == pre.group_table().free_list()
    &&& post.groups_invalidated()
    &&& post.draw_invalidated()
    &&& post.alphabets_invalidated() == pre.alphabets_invalidated()
    &&& post.alphabet_table() == pre.alphabet_table()
}

/// `post` is `pre` with another transform in the group `slot`; instance
/// data is dirty.
pub open spec fn transform_updated(
    pre: Flatland,
    post: Flatland,
    slot: GroupSlot,
    transform: Transform,
) -> bool {
    &&& post.group_live(slot)
    &&& post.group(slot).transform == transform
    &&& post.item_count() == pre.item_count()
    &&& post.group(slot).items@ == pre.group(slot).items@
    &&& post.group(slot).color == pre.group(slot).color
    &&& post.group(slot).alphabet == pre.group(slot).alphabet
    &&& same_except(pre.groups(), post.groups(), slot.key.index as int)
    &&& post.group_table().free_list() == pre.group_table().free_list()
    &&& post.groups_invalidated()
    &&& post.draw_invalidated() == pre.draw_invalidated()
    &&& post.alphabets_invalidated() == pre.alphabets_invalidated()
    &&& post.alphabet_table() == pre.alphabet_table()
}

/// `post` is `pre` with another color in the group `slot`; instance data is
/// dirty.
pub open spec fn color_updated(
    pre: Flatland,
    post: Flatland,
    slot: GroupSlot,
    color: Color,
) -> bool {
    &&& post.group_live(slot)
    &&& post.group(slot).color == color
    &&& post.item_count() == pre.item_count()
    &&& post.group(slot).items@ == pre.group(slot).items@
    &&& post.group(slot).transform == pre.group(slot).transform
    &&& post.group(slot).alphabet == pre.group(slot).alphabet
    &&& same_except(pre.groups(), post.groups(), slot.key.index as int)
    &&& post.group_table().free_list() == pre.group_table().free_list()
    &&& post.groups_invalidated()
    &&& post.draw_invalidated() == pre.draw_invalidated()
    &&& post.alphabets_invalidated() == pre.alphabets_invalidated()
    &&& post.alphabet_table() == pre.alphabet_table()
}

/// `post` is `pre` after the group `slot` was deleted: the slot's
/// generation advances and, unless it has run out, the slot is next in line
/// for reuse; what the slot held stays in place; the draw commands are dirty;
/// and the reference that the group held is no longer a group's.
pub open spec fn group_deleted(pre: Flatland, post: Flatland, slot: GroupSlot) -> bool {
    &&& !post.group_live(slot)
    &&& post.group_table().stale(slot.key)
    &&& !post.groups()[slot.key.index as int].live
    &&& post.groups()[slot.key.index as int].generation == slot.key.generation + 1
    &&& post.group(slot) == pre.group(slot)
    &&& post.item_count() == pre.item_count()
    &&& same_except(pre.groups(), post.groups(), slot.key.index as int)
    &&& post.group_table().free_list() == if slot.key.generation + 1 < u64::MAX {
        pre.group_table().free_list().push(slot.key.index)
    } else {
        pre.group_table().free_list()
    }
    &&& post.draw_invalidated()
    &&& post.groups_invalidated() == pre.groups_invalidated()
    &&& post.alphabets_invalidated() == pre.alphabets_invalidated()
    &&& holders_changed(pre, post, pre.group(slot).alphabet, -1)
}

/// The flags named were cleared and nothing else changed.
pub open spec fn flags_cleared(
    pre: Flatland,
    post: Flatland,
    alphabets: bool,
    groups: bool,
    draw: bool,
) -> bool {
    &&& post.alphabets_invalidated() == (pre.alphabets_invalidated() && !alphabets)
    &&& post.groups_invalidated() == (pre.groups_invalidated() && !groups)
    &&& post.draw_invalidated() == (pre.draw_invalidated() && !draw)
    &&& post.alphabet_table() == pre.alphabet_table()
    &&& post.group_table() == pre.group_table()
}

/// The shared geometry buffers are the same before and after a change that
/// touches nothing but slot `i` and leaves that slot's vertices and indices
/// as they were, or makes slot `i` as a new slot without geometry.
pub proof fn lemma_geometry_unchanged(pre: Flatland, post: Flatland, i: int)
    requires
        0 <= i <= pre.alphabets().len(),
        same_except(pre.alphabets(), post.alphabets(), i),
        post.alphabets()[i].value.vertices@ == if i < pre.alphabets().len() {
            pre.alphabets()[i].value.vertices@
        } else {
            Seq::<FlatlanderVertex>::empty()
        },
        post.alphabets()[i].value.indices@ == if i < pre.alphabets().len() {
            pre.alphabets()[i].value.indices@
        } else {
            Seq::<u16>::empty()
        },
    ensures
        post.all_vertices() == pre.all_vertices(),
        post.all_indices() == pre.all_indices(),
{
    let a = pre.alphabets();
    let b = post.alphabets();
    let n = a.len() as int;
    assert forall|j: int| 0 <= j < n implies a[j].value.vertices@ == b[j].value.vertices@
        && a[j].value.indices@ == b[j].value.indices@ by {
        if j != i {
            assert(b[j] == a[j]);
        }
    }
    lemma_shared_vertices_agree(a, b, n);
    lemma_shared_indices_agree(a, b, n);
    if i == n {
        assert(shared_vertices(b, n + 1) =~= shared_vertices(b, n));
        assert(shared_indices(b, n + 1) =~= shared_indices(b, n));
    }
}

/// The instance buffer is the same before and after a change that touches
/// nothing but group slot `i` and leaves that slot's items, transform and
/// color as they were.
pub proof fn lemma_instances_unchanged(pre: Flatland, post: Flatland, i: int)
    requires
        0 <= i < pre.groups().len(),
        same_except(pre.groups(), post.groups(), i),
        group_instances(post.groups()[i].value) == group_instances(pre.groups()[i].value),
    ensures
        post.all_instances() == pre.all_instances(),
{
    let a = pre.groups();
    let b = post.groups();
    assert forall|j: int| 0 <= j < a.len() implies group_instances(a[j].value)
        == group_instances(b[j].value) by {
        if j != i {
            assert(b[j] == a[j]);
        }
    }
    lemma_instances_agree(a, b, a.len() as int);
}

/// As many groups are live after a change that touches nothing but group
/// slot `i`, and neither occupies nor vacates it, as before.
pub proof fn lemma_live_groups_unchanged(pre: Flatland, post: Flatland, i: int)
    requires
        0 <= i < pre.groups().len(),
        same_except(pre.groups(), post.groups(), i),
        post.groups()[i].live == pre.groups()[i].live,
    ensures
        post.live_groups() == pre.live_groups(),
{
    let a = pre.groups();
    let b = post.groups();
    assert forall|j: int| 0 <= j < a.len() implies a[j].live == b[j].live by {
        if j != i {
            assert(b[j] == a[j]);
        }
    }
    lemma_live_count_agree(a, b, a.len() as int);
}

/// The registry of alphabets and groups.
pub struct Flatland {
    alphabets_invalidated: bool,
    groups_invalidated: bool,
    draw_invalidated: bool,
    alphabets: SlotTable<AlphabetData>,
    groups: SlotTable<GroupData>,
    vertex_total: usize,
    index_total: usize,
    item_total: usize,
}

impl Flatland {
    /// The table of alphabets.
    pub closed spec fn alphabet_table(&self) -> SlotTable<AlphabetData> {
        self.alphabets
    }

    /// The table of groups.
    pub closed spec fn group_table(&self) -> SlotTable<GroupData> {
        self.groups
    }

    /// Alphabet geometry has changed since it was last uploaded.
    pub closed spec fn alphabets_invalidated(&self) -> bool {
        self.alphabets_invalidated
    }

    /// Instance data has changed since it was last uploaded.
    pub closed spec fn groups_invalidated(&self) -> bool {
        self.groups_invalidated
    }

    /// The list of draw commands has changed since it was last uploaded.
    pub closed spec fn draw_invalidated(&self) -> bool {
        self.draw_invalidated
    }

    /// The alphabet slots, by index.
    pub open spec fn alphabets(&self) -> Seq<SlotRecord<AlphabetData>> {
        self.alphabet_table().slots()
    }

    /// The group slots, by index.
    pub open spec fn groups(&self) -> Seq<SlotRecord<GroupData>> {
        self.group_table().slots()
    }

    /// The number of vertices in all alphabet slots.
    pub open spec fn vertex_count(&self) -> nat {
        prefix_sum(vertex_lens(self.alphabets()), self.alphabets().len() as int)
    }

    /// The number of indices in all alphabet slots.
    pub open spec fn index_count(&self) -> nat {
        prefix_sum(index_lens(self.alphabets()), self.alphabets().len() as int)
    }

    /// The number of items in all group slots.
    pub open spec fn item_count(&self) -> nat {
        prefix_sum(item_lens(self.groups()), self.groups().len() as int)
    }

    /// The running totals equal the counts they stand for.
    pub closed spec fn totals_agree(&self) -> bool {
        &&& self.vertex_total == self.vertex_count()
        &&& self.index_total == self.index_count()
        &&& self.item_total == self.item_count()
    }

    /// Both tables are well formed, every alphabet slot is, every live group
    /// draws from a live alphabet that counts it, and all offsets into the
    /// shared buffers fit the 32-bit fields of a draw command.
    pub open spec fn wf(&self) -> bool {
        &&& self.alphabet_table().wf()
        &&& self.group_table().wf()
        &&& self.totals_agree()
        &&& self.vertex_count() <= u32::MAX
        &&& self.index_count() <= u32::MAX
        &&& self.item_count() <= u32::MAX
        &&& self.groups().len() <= MAX_GROUPS
        &&& forall|i: int|
            0 <= i < self.alphabets().len() ==> alphabet_wf(#[trigger] self.alphabets()[i])
        &&& holders_counted(self.alphabets(), self.groups())
    }

    /// `slot` names a live alphabet.
    pub open spec fn alphabet_live(&self, slot: AlphabetSlot) -> bool {
        self.alphabet_table().live(slot.key)
    }

    /// `slot` names a live group.
    pub open spec fn group_live(&self, slot: GroupSlot) -> bool {
        self.group_table().live(slot.key)
    }

    /// The reference count of the alphabet that `slot` names: zero unless it
    /// is live.
    pub open spec fn refcount(&self, slot: AlphabetSlot) -> nat {
        if self.alphabet_live(slot) {
            self.alphabets()[slot.key.index as int].value.refs as nat
        } else {
            0
        }
    }

    /// The number of references to the alphabet that `slot` names which
    /// live groups hold: zero unless it is live.
    pub open spec fn group_refs(&self, slot: AlphabetSlot) -> nat {
        if self.alphabet_live(slot) {
            self.alphabets()[slot.key.index as int].value.group_refs as nat
        } else {
            0
        }
    }

    /// The number of references to the alphabet that `slot` names which no
    /// group holds.
    pub open spec fn free_references(&self, slot: AlphabetSlot) -> int {
        self.refcount(slot) - self.group_refs(slot)
    }

    /// The entries of the alphabet in the slot of `slot`.
    pub open spec fn entries(&self, slot: AlphabetSlot) -> Seq<AlphabetEntry> {
        self.alphabets()[slot.key.index as int].value.entries@
    }

    /// The vertices of the alphabet in the slot of `slot`.
    pub open spec fn vertices(&self, slot: AlphabetSlot) -> Seq<FlatlanderVertex> {
        self.alphabets()[slot.key.index as int].value.vertices@
    }

    /// The indices of the alphabet in the slot of `slot`.
    pub open spec fn indices(&self, slot: AlphabetSlot) -> Seq<u16> {
        self.alphabets()[slot.key.index as int].value.indices@
    }

    /// The group in the slot of `slot`.
    pub open spec fn group(&self, slot: GroupSlot) -> GroupData {
        self.groups()[slot.key.index as int].value
    }

    /// The contents of the shared vertex buffer.
    pub open spec fn all_vertices(&self) -> Seq<FlatlanderVertex> {
        shared_vertices(self.alphabets(), self.alphabets().len() as int)
    }

    /// The contents of the shared index buffer.
    pub open spec fn all_indices(&self) -> Seq<u16> {
        shared_indices(self.alphabets(), self.alphabets().len() as int)
    }

    /// The contents of the instance buffer.
    pub open spec fn all_instances(&self) -> Seq<FlatlanderGroupDrawData> {
        instances(self.groups(), self.groups().len() as int)
    }

    /// The contents of the indirect-command buffer.
    pub open spec fn all_commands(&self) -> Seq<DrawIndirectCmd> {
        commands(self.alphabets(), self.groups(), self.groups().len() as int)
    }

    /// The number of live groups.
    pub open spec fn live_groups(&self) -> nat {
        live_count(self.groups(), self.groups().len() as int)
    }

    /// A registry without alphabets or groups, with nothing to upload.
    pub fn new() -> (flatland: Flatland)
        ensures
            flatland.wf(),
            flatland.alphabets().len() == 0,
            flatland.groups().len() == 0,
            !flatland.alphabets_invalidated(),
            !flatland.groups_invalidated(),
            !flatland.draw_invalidated(),
    {
        Flatland {
            alphabets_invalidated: false,
            groups_invalidated: false,
            draw_invalidated: false,
            alphabets: SlotTable::new(),
            groups: SlotTable::new(),
            vertex_total: 0,
            index_total: 0,
            item_total: 0,
        }
    }

    /// Whether `slot` names a live alphabet.
    pub fn is_alphabet_live(&self, slot: AlphabetSlot) -> (b: bool)
        ensures
            b == self.alphabet_live(slot),
    {
        self.alphabets.is_live(slot.key)
    }

    /// Whether `slot` names a live group.
    pub fn is_group_live(&self, slot: GroupSlot) -> (b: bool)
        ensures
            b == self.group_live(slot),
    {
        self.groups.is_live(slot.key)
    }

    /// The reference count of the alphabet that `slot` names: zero unless it
    /// is live.
    pub fn alphabet_refcount(&self, slot: AlphabetSlot) -> (n: usize)
        ensures
            n == self.refcount(slot),
    {
        if self.alphabets.is_live(slot.key) {
            self.alphabets.get(slot.key).refs
        } else {
            0
        }
    }

    /// Slot `i` exists and still holds vertices or indices.
    pub open spec fn holds_geometry(&self, i: int) -> bool {
        &&& 0 <= i < self.alphabets().len()
        &&& (self.alphabets()[i].value.vertices@.len() > 0 || self.alphabets()[i].value.indices@.len()
            > 0)
    }

    /// Occupies an alphabet slot: the most recently released one that can be
    /// reused, else a new one. The alphabet starts with one reference and no
    /// entries. What the slot still held is dropped, and only then does the
    /// geometry become dirty.
    pub fn create_alphabet(&mut self) -> (slot: AlphabetSlot)
        requires
            old(self).wf(),
        ensures
            final(self).wf(),
            alphabet_created(*old(self), *final(self), slot),
    {
        let index = self.alphabets.peek_next_index();
        let mut dropped_vertices: usize = 0;
        let mut dropped_indices: usize = 0;
        if index < self.alphabets.len() {
            let record = self.alphabets.record(index);
            dropped_vertices = record.value.vertices.len();
            dropped_indices = record.value.indices.len();
            proof {
                let n = self.alphabets().len() as int;
                lemma_prefix_sum_covers(vertex_lens(self.alphabets()), index as int, n);
                lemma_prefix_sum_covers(index_lens(self.alphabets()), index as int, n);
            }
        }
        let key = self.alphabets.insert(
            AlphabetData {
                refs: 1,
                group_refs: 0,
                entries: Vec::new(),
                vertices: Vec::new(),
                indices: Vec::new(),
            },
        );
        proof {
            let pre = old(self).alphabets();
            let post = self.alphabets.slots();
            let n = post.len() as int;
            lemma_prefix_sum_update(vertex_lens(pre), vertex_lens(post), index as int, n);
            lemma_prefix_sum_update(index_lens(pre), index_lens(post), index as int, n);
            if index as int >= pre.len() {
                lemma_prefix_sum_agrees(vertex_lens(pre), vertex_lens(post), n - 1);
                lemma_prefix_sum_agrees(index_lens(pre), index_lens(post), n - 1);
            }
            assert forall|i: int| 0 <= i < post.len() implies alphabet_wf(#[trigger] post[i]) by {
                if i != index {
                    assert(post[i] == pre[i]);
                }
            }
            let groups = self.groups.slots();
            assert forall|g: int|
                0 <= g < groups.len() && (#[trigger] groups[g]).live implies key_live(
                post,
                groups[g].value.alphabet.key,
            ) by {
                let key = groups[g].value.alphabet.key;
                assert(key_live(pre, key));
                assert(post[key.index as int] == pre[key.index as int]);
            }
            assert forall|slot: AlphabetSlot| #[trigger] key_live(post, slot.key) implies
                post[slot.key.index as int].value.group_refs == group_count(groups, slot) by {
                if slot.key.index != index {
                    assert(post[slot.key.index as int] == pre[slot.key.index as int]);
                    assert(key_live(pre, slot.key));
                } else {
                    assert forall|g: int| 0 <= g < groups.len() implies !draws_from(
                        groups[g],
                        slot,
                    ) by {
                        if groups[g].live {
                            assert(key_live(pre, groups[g].value.alphabet.key));
                        }
                    }
                    lemma_group_count_none(groups, slot);
                }
            }
        }
        self.vertex_total = self.vertex_total - dropped_vertices;
        self.index_total = self.index_total - dropped_indices;
        if dropped_vertices > 0 || dropped_indices > 0 {
            self.alphabets_invalidated = true;
        }
        AlphabetSlot { key }
    }

    /// Counts one more reference to a live alphabet.
    pub fn inc_alphabet(&mut self, slot: AlphabetSlot)
        requires
            old(self).wf(),
            old(self).alphabet_live(slot),
            old(self).refcount(slot) < usize::MAX,
        ensures
            final(self).wf(),
            reference_added(*old(self), *final(self), slot),
    {
        let data = self.alphabets.get_mut(slot.key);
        data.refs = data.refs + 1;
        proof {
            self.alphabets.lemma_values_do_not_matter(old(self).alphabets);
            self.lemma_geometry_kept(*old(self), slot.key.index as int);
            self.lemma_holders_kept(*old(self), slot.key.index as int);
        }
    }

    /// Drops one reference to a live alphabet that no group holds. With the
    /// last reference the slot is released: the key goes stale, while
    /// entries and geometry stay in place until the slot is occupied again,
    /// so no flag changes.
    pub fn dec_alphabet(&mut self, slot: AlphabetSlot)
        requires
            old(self).wf(),
            old(self).alphabet_live(slot),
            old(self).free_references(slot) > 0,
        ensures
            final(self).wf(),
            reference_dropped(*old(self), *final(self), slot),
    {
        assert(alphabet_wf(old(self).alphabets()[slot.key.index as int]));
        let data = self.alphabets.get_mut(slot.key);
        data.refs = data.refs - 1;
        let left = data.refs;
        proof {
            self.alphabets.lemma_values_do_not_matter(old(self).alphabets);
        }
        if left == 0 {
            self.alphabets.release(slot.key);
        }
        proof {
            self.lemma_geometry_kept(*old(self), slot.key.index as int);
            self.lemma_holders_kept(*old(self), slot.key.index as int);
        }
    }

    /// Groups and alphabets still agree on who draws from whom after a
    /// change to alphabet slot `i` alone that keeps the count of its groups
    /// and either keeps the alphabet live or releases one no group draws
    /// from.
    proof fn lemma_holders_kept(&self, pre: Flatland, i: int)
        requires
            pre.wf(),
            0 <= i < pre.alphabets().len(),
            pre.alphabets()[i].live,
            self.alphabets().len() == pre.alphabets().len(),
            forall|j: int|
                0 <= j < pre.alphabets().len() && j != i ==> (#[trigger] self.alphabets()[j])
                    == pre.alphabets()[j],
            self.alphabets()[i].value.group_refs == pre.alphabets()[i].value.group_refs,
            self.alphabets()[i].live ==> self.alphabets()[i].generation
                == pre.alphabets()[i].generation,
            !self.alphabets()[i].live ==> pre.alphabets()[i].value.group_refs == 0,
            self.group_table() == pre.group_table(),
        ensures
            holders_counted(self.alphabets(), self.groups()),
    {
        let before = pre.alphabets();
        let after = self.alphabets();
        let groups = self.groups();
        assert forall|g: int| 0 <= g < groups.len() && (#[trigger] groups[g]).live implies key_live(
            after,
            groups[g].value.alphabet.key,
        ) by {
            let key = groups[g].value.alphabet.key;
            assert(key_live(before, key));
            if key.index != i {
                assert(after[key.index as int] == before[key.index as int]);
            } else if !after[i].live {
                lemma_group_count_covers(groups, groups[g].value.alphabet, g);
            }
        }
        assert forall|slot: AlphabetSlot| #[trigger] key_live(after, slot.key) implies
            after[slot.key.index as int].value.group_refs == group_count(groups, slot) by {
            if slot.key.index != i {
                assert(after[slot.key.index as int] == before[slot.key.index as int]);
            }
            assert(key_live(before, slot.key));
        }
    }

    /// When only the bookkeeping of slot `i` has changed, the totals have not
    /// and the other slots are as well formed as before.
    proof fn lemma_geometry_kept(&self, pre: Flatland, i: int)
        requires
            pre.wf(),
            0 <= i < pre.alphabets().len(),
            self.alphabets().len() == pre.alphabets().len(),
            forall|j: int|
                0 <= j < pre.alphabets().len() && j != i ==> (#[trigger] self.alphabets()[j])
                    == pre.alphabets()[j],
            same_geometry(pre.alphabets()[i].value, self.alphabets()[i].value),
            self.alphabets()[i].live <==> self.alphabets()[i].value.refs > 0,
            self.alphabets()[i].value.group_refs <= self.alphabets()[i].value.refs,
            self.group_table() == pre.group_table(),
            self.vertex_total == pre.vertex_total,
            self.index_total == pre.index_total,
            self.item_total == pre.item_total,
        ensures
            self.vertex_count() == pre.vertex_count(),
            self.index_count() == pre.index_count(),
            self.totals_agree(),
            forall|j: int|
                0 <= j < self.alphabets().len() ==> alphabet_wf(#[trigger] self.alphabets()[j]),
    {
        let n = pre.alphabets().len() as int;
        lemma_prefix_sum_agrees(vertex_lens(pre.alphabets()), vertex_lens(self.alphabets()), n);
        lemma_prefix_sum_agrees(index_lens(pre.alphabets()), index_lens(self.alphabets()), n);
        assert forall|j: int| 0 <= j < self.alphabets().len() implies alphabet_wf(
            #[trigger] self.alphabets()[j],
        ) by {
            assert(alphabet_wf(pre.alphabets()[j]));
            if j != i {
                assert(self.alphabets()[j] == pre.alphabets()[j]);
            }
        }
    }

    /// An entry with this id exists already, or the shared buffers have room
    /// for the new geometry.
    pub open spec fn has_room_for_entry(
        &self,
        slot: AlphabetSlot,
        id: u32,
        vertices: nat,
        indices: nat,
    ) -> bool {
        ||| has_entry(self.entries(slot), id)
        ||| (self.vertex_count() + vertices <= u32::MAX && self.index_count() + indices
            <= u32::MAX)
    }

    /// Whether `add_alphabet_entry` may be called with these arguments.
    pub fn can_add_alphabet_entry(
        &self,
        slot: AlphabetSlot,
        id: u32,
        vertices: usize,
        indices: usize,
    ) -> (b: bool)
        requires
            self.wf(),
        ensures
            b == (self.alphabet_live(slot) && self.has_room_for_entry(
                slot,
                id,
                vertices as nat,
                indices as nat,
            )),
    {
        if !self.alphabets.is_live(slot.key) {
            return false;
        }
        match find_entry(&self.alphabets.get(slot.key).entries, id) {
            Some(_) => true,
            None => vertices <= u32::MAX as usize - self.vertex_total && indices <= u32::MAX as usize
                - self.index_total,
        }
    }

    /// Adds an entry to a live alphabet and returns its index. The geometry
    /// goes behind what the alphabet holds, the entry behind its entries, and
    /// the geometry becomes dirty. Where the alphabet has an entry with this
    /// id already, that entry's index is returned and nothing changes.
    pub fn add_alphabet_entry(
        &mut self,
        slot: AlphabetSlot,
        id: u32,
        vertices: Vec<FlatlanderVertex>,
        indices: Vec<u16>,
    ) -> (index: usize)
        requires
            old(self).wf(),
            old(self).alphabet_live(slot),
            old(self).has_room_for_entry(slot, id, vertices@.len(), indices@.len()),
        ensures
            final(self).wf(),
            entry_added(*old(self), *final(self), slot, id, vertices@, indices@, index),
    {
        let found = find_entry(&self.alphabets.get(slot.key).entries, id);
        match found {
            Some(k) => k,
            None => {
                let ghost i = slot.key.index as int;
                let ghost pre = old(self).alphabets();
                assert(alphabet_wf(pre[i]));
                proof {
                    lemma_prefix_sum_covers(vertex_lens(pre), i, pre.len() as int);
                    lemma_prefix_sum_covers(index_lens(pre), i, pre.len() as int);
                }
                let added_vertices = vertices.len();
                let added_indices = indices.len();
                let mut incoming_vertices = vertices;
                let mut incoming_indices = indices;
                let data = self.alphabets.get_mut(slot.key);
                let index = data.entries.len();
                let entry = AlphabetEntry {
                    id,
                    vertex_start: data.vertices.len(),
                    vertex_count: added_vertices,
                    index_start: data.indices.len(),
                    index_count: added_indices,
                };
                data.entries.push(entry);
                data.vertices.append(&mut incoming_vertices);
                data.indices.append(&mut incoming_indices);
                self.vertex_total = self.vertex_total + added_vertices;
                self.index_total = self.index_total + added_indices;
                self.alphabets_invalidated = true;
                proof {
                    let post = self.alphabets.slots();
                    let n = pre.len() as int;
                    self.alphabets.lemma_values_do_not_matter(old(self).alphabets);
                    lemma_prefix_sum_update(vertex_lens(pre), vertex_lens(post), i, n);
                    lemma_prefix_sum_update(index_lens(pre), index_lens(post), i, n);
                    let entries = post[i].value.entries@;
                    assert(entries == pre[i].value.entries@.push(entry));
                    assert forall|j: int, k: int| 0 <= j < k < entries.len() implies (
                    #[trigger] entries[j]).id != (#[trigger] entries[k]).id by {
                        if k == entries.len() - 1 {
                            assert(pre[i].value.entries@[j].id != id);
                        }
                    }
                    assert(alphabet_wf(post[i]));
                    assert forall|j: int| 0 <= j < post.len() implies alphabet_wf(
                        #[trigger] post[j],
                    ) by {
                        if j != i {
                            assert(post[j] == pre[j]);
                        }
                    }
                    self.lemma_holders_kept(*old(self), i);
                }
                index
            },
        }
    }

    /// The index of the entry with the given id in a live alphabet; `None`
    /// where the alphabet has no such entry or `slot` names no live alphabet.
    pub fn get_alphabet_entry_index(&self, slot: AlphabetSlot, id: u32) -> (found: Option<usize>)
        ensures
            match found {
                Some(k) => {
                    &&& self.alphabet_live(slot)
                    &&& k < self.entries(slot).len()
                    &&& self.entries(slot)[k as int].id == id
                },
                None => !self.alphabet_live(slot) || !has_entry(self.entries(slot), id),
            },
    {
        if self.alphabets.is_live(slot.key) {
            find_entry(&self.alphabets.get(slot.key).entries, id)
        } else {
            None
        }
    }

    /// The number of vertices that the next alphabet slot to be handed out
    /// still holds.
    pub open spec fn reclaimable_vertices(&self) -> nat {
        let i = self.alphabet_table().next_index();
        if i < self.alphabets().len() {
            self.alphabets()[i].value.vertices@.len()
        } else {
            0
        }
    }

    /// The number of indices that the next alphabet slot to be handed out
    /// still holds.
    pub open spec fn reclaimable_indices(&self) -> nat {
        let i = self.alphabet_table().next_index();
        if i < self.alphabets().len() {
            self.alphabets()[i].value.indices@.len()
        } else {
            0
        }
    }

    /// The number of items that the next group slot to be handed out still
    /// holds.
    pub open spec fn reclaimable_items(&self) -> nat {
        let i = self.group_table().next_index();
        if i < self.groups().len() {
            self.groups()[i].value.items@.len()
        } else {
            0
        }
    }

    /// A group with `items` items fits: there is a slot for it, and the
    /// instance buffer has room.
    pub open spec fn has_room_for_group(&self, items: nat) -> bool {
        &&& self.group_table().next_index() < self.groups().len() || self.groups().len()
            < MAX_GROUPS
        &&& self.item_count() - self.reclaimable_items() + items <= u32::MAX
    }

    /// Whether `create_flatland_group_with_items` may be called with this
    /// many items.
    pub fn can_create_group(&self, items: usize) -> (b: bool)
        requires
            self.wf(),
        ensures
            b == self.has_room_for_group(items as nat),
    {
        let index = self.groups.peek_next_index();
        let mut dropped: usize = 0;
        if index < self.groups.len() {
            dropped = self.groups.record(index).value.items.len();
            proof {
                let lens = item_lens(self.groups());
                lemma_prefix_sum_covers(lens, index as int, lens.len() as int);
            }
        } else if index >= MAX_GROUPS {
            return false;
        }
        items <= u32::MAX as usize - (self.item_total - dropped)
    }

    /// Occupies a group slot: the most recently deleted one that can be
    /// reused, else a new one. The group takes over one reference to its
    /// alphabet that no group holds yet, and keeps it until it is deleted.
    /// Instance data and draw commands become dirty.
    pub fn create_flatland_group_with_items(
        &mut self,
        transform: &Transform,
        color: Color,
        alphabet: AlphabetSlot,
        items: Vec<FlatlandItem>,
    ) -> (slot: GroupSlot)
        requires
            old(self).wf(),
            old(self).alphabet_live(alphabet),
            old(self).free_references(alphabet) > 0,
            old(self).has_room_for_group(items@.len()),
        ensures
            final(self).wf(),
            group_created(*old(self), *final(self), *transform, color, alphabet, items@, slot),
    {
        let index = self.groups.peek_next_index();
        let added = items.len();
        let mut dropped: usize = 0;
        if index < self.groups.len() {
            dropped = self.groups.record(index).value.items.len();
            proof {
                let lens = item_lens(self.groups());
                lemma_prefix_sum_covers(lens, index as int, lens.len() as int);
            }
        }
        let key = self.groups.insert(
            GroupData { transform: *transform, color, alphabet, items },
        );
        let data = self.alphabets.get_mut(alphabet.key);
        data.group_refs = data.group_refs + 1;
        proof {
            let pre = old(self).groups();
            let post = self.groups.slots();
            let n = post.len() as int;
            lemma_prefix_sum_update(item_lens(pre), item_lens(post), index as int, n);
            if index as int >= pre.len() {
                lemma_prefix_sum_agrees(item_lens(pre), item_lens(post), n - 1);
            }
            self.lemma_group_slot_filled(*old(self), index as int, alphabet);
        }
        self.item_total = self.item_total - dropped + added;
        self.groups_invalidated = true;
        self.draw_invalidated = true;
        GroupSlot { key }
    }

    /// The instance buffer has room when the items of the group in the slot
    /// of `slot` are replaced by `items` others.
    pub open spec fn has_room_for_items(&self, slot: GroupSlot, items: nat) -> bool {
        self.item_count() - self.group(slot).items@.len() + items <= u32::MAX
    }

    /// Whether `update_items` may be called for this group with this many
    /// items.
    pub fn can_update_items(&self, slot: GroupSlot, items: usize) -> (b: bool)
        requires
            self.wf(),
        ensures
            b == (self.group_live(slot) && self.has_room_for_items(slot, items as nat)),
    {
        if !self.groups.is_live(slot.key) {
            return false;
        }
        let held = self.groups.get(slot.key).items.len();
        proof {
            let lens = item_lens(self.groups());
            lemma_prefix_sum_covers(lens, slot.key.index as int, lens.len() as int);
        }
        items <= u32::MAX as usize - (self.item_total - held)
    }

    /// Replaces the items of a live group. Instance data and draw commands
    /// become dirty.
    pub fn update_items(&mut self, slot: GroupSlot, items: Vec<FlatlandItem>)
        requires
            old(self).wf(),
            old(self).group_live(slot),
            old(self).has_room_for_items(slot, items@.len()),
        ensures
            final(self).wf(),
            items_updated(*old(self), *final(self), slot, items@),
    {
        let added = items.len();
        proof {
            let lens = item_lens(self.groups());
            lemma_prefix_sum_covers(lens, slot.key.index as int, lens.len() as int);
        }
        let data = self.groups.get_mut(slot.key);
        let held = data.items.len();
        data.items = items;
        proof {
            let pre = old(self).groups();
            let post = self.groups.slots();
            self.groups.lemma_values_do_not_matter(old(self).groups);
            lemma_prefix_sum_update(
                item_lens(pre),
                item_lens(post),
                slot.key.index as int,
                pre.len() as int,
            );
            self.lemma_group_slot_changed(*old(self), slot.key.index as int);
        }
        self.item_total = self.item_total - held + added;
        self.groups_invalidated = true;
        self.draw_invalidated = true;
    }

    /// Replaces the transform of a live group. Instance data becomes dirty.
    pub fn update_transform(&mut self, slot: GroupSlot, transform: &Transform)
        requires
            old(self).wf(),
            old(self).group_live(slot),
        ensures
            final(self).wf(),
            transform_updated(*old(self), *final(self), slot, *transform),
    {
        let data = self.groups.get_mut(slot.key);
        data.transform = *transform;
        proof {
            let pre = old(self).groups();
            let post = self.groups.slots();
            self.groups.lemma_values_do_not_matter(old(self).groups);
            lemma_prefix_sum_agrees(item_lens(pre), item_lens(post), pre.len() as int);
            self.lemma_group_slot_changed(*old(self), slot.key.index as int);
        }
        self.groups_invalidated = true;
    }

    /// Replaces the color of a live group. Instance data becomes dirty.
    pub fn update_color(&mut self, slot: GroupSlot, color: Color)
        requires
            old(self).wf(),
            old(self).group_live(slot),
        ensures
            final(self).wf(),
            color_updated(*old(self), *final(self), slot, color),
    {
        let data = self.groups.get_mut(slot.key);
        data.color = color;
        proof {
            let pre = old(self).groups();
            let post = self.groups.slots();
            self.groups.lemma_values_do_not_matter(old(self).groups);
            lemma_prefix_sum_agrees(item_lens(pre), item_lens(post), pre.len() as int);
            self.lemma_group_slot_changed(*old(self), slot.key.index as int);
        }
        self.groups_invalidated = true;
    }

    /// Deletes a live group. Its key goes stale; what the slot held stays in
    /// place until the slot is occupied again, so only the draw commands
    /// become dirty. The reference that the group held stays counted and is
    /// the caller's to drop.
    pub fn delete_flatland_group(&mut self, slot: GroupSlot)
        requires
            old(self).wf(),
            old(self).group_live(slot),
        ensures
            final(self).wf(),
            group_deleted(*old(self), *final(self), slot),
    {
        let alphabet = self.groups.get(slot.key).alphabet;
        self.groups.release(slot.key);
        proof {
            let j = slot.key.index as int;
            assert(old(self).groups()[j].live);
            assert(key_live(old(self).alphabets(), alphabet.key));
            lemma_group_count_covers(old(self).groups(), alphabet, j);
        }
        let data = self.alphabets.get_mut(alphabet.key);
        data.group_refs = data.group_refs - 1;
        proof {
            let pre = old(self).groups();
            let post = self.groups.slots();
            lemma_prefix_sum_agrees(item_lens(pre), item_lens(post), pre.len() as int);
            self.lemma_group_slot_vacated(*old(self), slot.key.index as int, alphabet);
        }
        self.draw_invalidated = true;
    }

    /// The registry is well formed again after group slot `j` was filled
    /// with a group that draws from `alphabet` and the alphabet has counted
    /// it.
    proof fn lemma_group_slot_filled(&self, pre: Flatland, j: int, alphabet: AlphabetSlot)
        requires
            pre.wf(),
            pre.alphabet_live(alphabet),
            pre.free_references(alphabet) > 0,
            0 <= j <= pre.groups().len(),
            j < pre.groups().len() ==> !pre.groups()[j].live,
            same_except(pre.groups(), self.groups(), j),
            draws_from(self.groups()[j], alphabet),
            self.alphabet_table().free_list() == pre.alphabet_table().free_list(),
            self.alphabets() == pre.alphabets().update(
                alphabet.key.index as int,
                SlotRecord {
                    value: self.alphabets()[alphabet.key.index as int].value,
                    generation: alphabet.key.generation,
                    live: true,
                },
            ),
            self.alphabets()[alphabet.key.index as int].value.refs
                == pre.alphabets()[alphabet.key.index as int].value.refs,
            self.alphabets()[alphabet.key.index as int].value.group_refs
                == pre.alphabets()[alphabet.key.index as int].value.group_refs + 1,
            same_geometry(
                pre.alphabets()[alphabet.key.index as int].value,
                self.alphabets()[alphabet.key.index as int].value,
            ),
        ensures
            self.alphabet_table().wf(),
            self.vertex_count() == pre.vertex_count(),
            self.index_count() == pre.index_count(),
            forall|i: int|
                0 <= i < self.alphabets().len() ==> alphabet_wf(#[trigger] self.alphabets()[i]),
            holders_counted(self.alphabets(), self.groups()),
            holders_changed(pre, *self, alphabet, 1),
    {
        self.lemma_holder_moved(pre, j, alphabet);
    }

    /// The registry is well formed again after the live group in slot `j`,
    /// which drew from `alphabet`, was deleted and the alphabet has counted
    /// that.
    proof fn lemma_group_slot_vacated(&self, pre: Flatland, j: int, alphabet: AlphabetSlot)
        requires
            pre.wf(),
            0 <= j < pre.groups().len(),
            draws_from(pre.groups()[j], alphabet),
            !self.groups()[j].live,
            same_except(pre.groups(), self.groups(), j),
            self.alphabet_table().free_list() == pre.alphabet_table().free_list(),
            self.alphabets() == pre.alphabets().update(
                alphabet.key.index as int,
                SlotRecord {
                    value: self.alphabets()[alphabet.key.index as int].value,
                    generation: alphabet.key.generation,
                    live: true,
                },
            ),
            self.alphabets()[alphabet.key.index as int].value.refs
                == pre.alphabets()[alphabet.key.index as int].value.refs,
            self.alphabets()[alphabet.key.index as int].value.group_refs
                == pre.alphabets()[alphabet.key.index as int].value.group_refs - 1,
            same_geometry(
                pre.alphabets()[alphabet.key.index as int].value,
                self.alphabets()[alphabet.key.index as int].value,
            ),
        ensures
            self.alphabet_table().wf(),
            self.vertex_count() == pre.vertex_count(),
            self.index_count() == pre.index_count(),
            forall|i: int|
                0 <= i < self.alphabets().len() ==> alphabet_wf(#[trigger] self.alphabets()[i]),
            holders_counted(self.alphabets(), self.groups()),
            holders_changed(pre, *self, alphabet, -1),
    {
        assert(key_live(pre.alphabets(), alphabet.key));
        self.lemma_holder_moved(pre, j, alphabet);
    }

    /// What `lemma_group_slot_filled` and `lemma_group_slot_vacated` share:
    /// group slot `j` alone has changed, from drawing from `alphabet` to not
    /// or the other way, and the alphabet's count of its groups has followed.
    proof fn lemma_holder_moved(&self, pre: Flatland, j: int, alphabet: AlphabetSlot)
        requires
            pre.wf(),
            pre.alphabet_live(alphabet),
            0 <= j <= pre.groups().len(),
            same_except(pre.groups(), self.groups(), j),
            self.groups()[j].live ==> self.groups()[j].value.alphabet == alphabet,
            j < pre.groups().len() && pre.groups()[j].live ==> pre.groups()[j].value.alphabet
                == alphabet,
            self.alphabet_table().free_list() == pre.alphabet_table().free_list(),
            self.alphabets() == pre.alphabets().update(
                alphabet.key.index as int,
                SlotRecord {
                    value: self.alphabets()[alphabet.key.index as int].value,
                    generation: alphabet.key.generation,
                    live: true,
                },
            ),
            self.alphabets()[alphabet.key.index as int].value.refs
                == pre.alphabets()[alphabet.key.index as int].value.refs,
            self.alphabets()[alphabet.key.index as int].value.group_refs + (if j
                < pre.groups().len() && pre.groups()[j].live {
                1int
            } else {
                0int
            }) == pre.alphabets()[alphabet.key.index as int].value.group_refs + (if self.groups()[j].live
            {
                1int
            } else {
                0int
            }),
            self.alphabets()[alphabet.key.index as int].value.group_refs
                <= self.alphabets()[alphabet.key.index as int].value.refs,
            same_geometry(
                pre.alphabets()[alphabet.key.index as int].value,
                self.alphabets()[alphabet.key.index as int].value,
            ),
        ensures
            self.alphabet_table().wf(),
            self.vertex_count() == pre.vertex_count(),
            self.index_count() == pre.index_count(),
            forall|i: int|
                0 <= i < self.alphabets().len() ==> alphabet_wf(#[trigger] self.alphabets()[i]),
            holders_counted(self.alphabets(), self.groups()),
            same_except(pre.alphabets(), self.alphabets(), alphabet.key.index as int),
    {
        let a = alphabet.key.index as int;
        let before = pre.alphabets();
        let after = self.alphabets();
        let groups = self.groups();
        self.alphabet_table().lemma_values_do_not_matter(pre.alphabet_table());
        lemma_prefix_sum_agrees(vertex_lens(before), vertex_lens(after), before.len() as int);
        lemma_prefix_sum_agrees(index_lens(before), index_lens(after), before.len() as int);
        assert forall|i: int| 0 <= i < after.len() implies alphabet_wf(#[trigger] after[i]) by {
            assert(alphabet_wf(before[i]));
        }
        assert forall|g: int| 0 <= g < groups.len() && (#[trigger] groups[g]).live implies key_live(
            after,
            groups[g].value.alphabet.key,
        ) by {
            if g != j {
                assert(groups[g] == pre.groups()[g]);
                assert(key_live(before, groups[g].value.alphabet.key));
            }
        }
        assert forall|slot: AlphabetSlot| #[trigger] key_live(after, slot.key) implies
            after[slot.key.index as int].value.group_refs == group_count(groups, slot) by {
            assert(key_live(before, slot.key));
            lemma_group_count_change(pre.groups(), groups, j, slot);
            if slot.key.index == a {
                assert(slot == alphabet);
            }
        }
    }

    /// The registry is well formed again after a change to the live group
    /// in slot `j` that left it live and drawing from the same alphabet.
    proof fn lemma_group_slot_changed(&self, pre: Flatland, j: int)
        requires
            pre.wf(),
            0 <= j < pre.groups().len(),
            same_except(pre.groups(), self.groups(), j),
            self.groups()[j].live == pre.groups()[j].live,
            self.groups()[j].value.alphabet == pre.groups()[j].value.alphabet,
            self.alphabet_table() == pre.alphabet_table(),
        ensures
            holders_counted(self.alphabets(), self.groups()),
    {
        let alphabets = self.alphabets();
        let groups = self.groups();
        assert forall|g: int| 0 <= g < groups.len() && (#[trigger] groups[g]).live implies key_live(
            alphabets,
            groups[g].value.alphabet.key,
        ) by {
            assert(pre.groups()[g].live);
            if g != j {
                assert(groups[g] == pre.groups()[g]);
            }
        }
        assert forall|slot: AlphabetSlot| #[trigger] key_live(alphabets, slot.key) implies
            alphabets[slot.key.index as int].value.group_refs == group_count(groups, slot) by {
            assert forall|g: int| 0 <= g < groups.len() implies draws_from(pre.groups()[g], slot)
                == draws_from(groups[g], slot) by {
                if g != j {
                    assert(groups[g] == pre.groups()[g]);
                }
            }
            lemma_group_count_agrees(pre.groups(), groups, slot);
        }
    }

    /// The number of references to the alphabet that `slot` names which
    /// live groups hold: zero unless it is live.
    pub fn alphabet_group_refs(&self, slot: AlphabetSlot) -> (n: usize)
        ensures
            n == self.group_refs(slot),
    {
        if self.alphabets.is_live(slot.key) {
            self.alphabets.get(slot.key).group_refs
        } else {
            0
        }
    }

    /// Whether the alphabet that `slot` names is live and has a reference
    /// that no group holds.
    pub fn has_free_reference(&self, slot: AlphabetSlot) -> (b: bool)
        requires
            self.wf(),
        ensures
            b == (self.alphabet_live(slot) && self.free_references(slot) > 0),
    {
        if self.alphabets.is_live(slot.key) {
            let data = self.alphabets.get(slot.key);
            data.group_refs < data.refs
        } else {
            false
        }
    }

    /// The alphabet that a live group draws from.
    pub fn group_alphabet(&self, slot: GroupSlot) -> (alphabet: AlphabetSlot)
        requires
            self.group_live(slot),
        ensures
            alphabet == self.group(slot).alphabet,
    {
        self.groups.get(slot.key).alphabet
    }

    /// The number of vertices in the shared vertex buffer.
    pub fn alphabet_vertices_len(&self) -> (n: usize)
        requires
            self.wf(),
        ensures
            n == self.all_vertices().len(),
            n <= u32::MAX,
    {
        proof {
            lemma_shared_vertices_len(self.alphabets(), self.alphabets().len() as int);
        }
        self.vertex_total
    }

    /// The number of indices in the shared index buffer.
    pub fn alphabet_indices_len(&self) -> (n: usize)
        requires
            self.wf(),
        ensures
            n == self.all_indices().len(),
            n <= u32::MAX,
    {
        proof {
            lemma_shared_indices_len(self.alphabets(), self.alphabets().len() as int);
        }
        self.index_total
    }

    /// The number of records in the instance buffer.
    pub fn groups_draw_data_len(&self) -> (n: usize)
        requires
            self.wf(),
        ensures
            n == self.all_instances().len(),
            n <= u32::MAX,
    {
        proof {
            lemma_instances_len(self.groups(), self.groups().len() as int);
        }
        self.item_total
    }

    /// The contents of the shared vertex buffer: the vertices of every
    /// alphabet slot, in slot order.
    pub fn alphabet_vertices(&self) -> (out: Vec<FlatlanderVertex>)
        ensures
            out@ == self.all_vertices(),
    {
        let mut out: Vec<FlatlanderVertex> = Vec::new();
        let n = self.alphabets.len();
        let mut i: usize = 0;
        while i < n
            invariant
                i <= n,
                n == self.alphabets().len(),
                out@ == shared_vertices(self.alphabets(), i as int),
            decreases n - i,
        {
            let source = &self.alphabets.record(i).value.vertices;
            let mut k: usize = 0;
            while k < source.len()
                invariant
                    k <= source@.len(),
                    out@ == shared_vertices(self.alphabets(), i as int) + source@.subrange(
                        0,
                        k as int,
                    ),
                decreases source@.len() - k,
            {
                out.push(source[k]);
                k = k + 1;
            }
            assert(source@.subrange(0, k as int) =~= source@);
            i = i + 1;
        }
        out
    }

    /// The contents of the shared index buffer: the indices of every
    /// alphabet slot, in slot order.
    pub fn alphabet_indices(&self) -> (out: Vec<u16>)
        ensures
            out@ == self.all_indices(),
    {
        let mut out: Vec<u16> = Vec::new();
        let n = self.alphabets.len();
        let mut i: usize = 0;
        while i < n
            invariant
                i <= n,
                n == self.alphabets().len(),
                out@ == shared_indices(self.alphabets(), i as int),
            decreases n - i,
        {
            let source = &self.alphabets.record(i).value.indices;
            let mut k: usize = 0;
            while k < source.len()
                invariant
                    k <= source@.len(),
                    out@ == shared_indices(self.alphabets(), i as int) + source@.subrange(
                        0,
                        k as int,
                    ),
                decreases source@.len() - k,
            {
                out.push(source[k]);
                k = k + 1;
            }
            assert(source@.subrange(0, k as int) =~= source@);
            i = i + 1;
        }
        out
    }

    /// The contents of the instance buffer: one record for each item of
    /// every group slot, in slot order and item order.
    pub fn groups_draw_data(&self) -> (out: Vec<FlatlanderGroupDrawData>)
        ensures
            out@ == self.all_instances(),
    {
        let mut out: Vec<FlatlanderGroupDrawData> = Vec::new();
        let n = self.groups.len();
        let mut i: usize = 0;
        while i < n
            invariant
                i <= n,
                n == self.groups().len(),
                out@ == instances(self.groups(), i as int),
            decreases n - i,
        {
            let group = &self.groups.record(i).value;
            let mut k: usize = 0;
            while k < group.items.len()
                invariant
                    k <= group.items@.len(),
                    out@ == instances(self.groups(), i as int) + group_instances(*group).subrange(
                        0,
                        k as int,
                    ),
                decreases group.items@.len() - k,
            {
                let item = group.items[k];
                out.push(
                    FlatlanderGroupDrawData {
                        x_offset: item.x_offset,
                        y_offset: item.y_offset,
                        transform: group.transform,
                        color: group.color,
                    },
                );
                assert(out@ =~= instances(self.groups(), i as int) + group_instances(
                    *group,
                ).subrange(0, k as int + 1));
                k = k + 1;
            }
            assert(group_instances(*group).subrange(0, k as int) =~= group_instances(*group));
            i = i + 1;
        }
        out
    }

    /// The number of live groups.
    pub fn groups_len(&self) -> (n: usize)
        ensures
            n == self.live_groups(),
    {
        let mut count: usize = 0;
        let n = self.groups.len();
        let mut i: usize = 0;
        while i < n
            invariant
                i <= n,
                n == self.groups().len(),
                count <= i,
                count == live_count(self.groups(), i as int),
            decreases n - i,
        {
            if self.groups.record(i).live {
                count = count + 1;
            }
            i = i + 1;
        }
        count
    }

    /// Where each alphabet slot starts in the shared vertex buffer and in
    /// the shared index buffer.
    fn alphabet_bases(&self) -> (bases: (Vec<usize>, Vec<usize>))
        requires
            self.wf(),
        ensures
            bases.0@.len() == self.alphabets().len(),
            bases.1@.len() == self.alphabets().len(),
            forall|i: int|
                0 <= i < self.alphabets().len() ==> (#[trigger] bases.0@[i]) == prefix_sum(
                    vertex_lens(self.alphabets()),
                    i,
                ),
            forall|i: int|
                0 <= i < self.alphabets().len() ==> (#[trigger] bases.1@[i]) == prefix_sum(
                    index_lens(self.alphabets()),
                    i,
                ),
    {
        let mut vertex_bases: Vec<usize> = Vec::new();
        let mut index_bases: Vec<usize> = Vec::new();
        let mut vertex_base: usize = 0;
        let mut index_base: usize = 0;
        let n = self.alphabets.len();
        let mut i: usize = 0;
        while i < n
            invariant
                self.wf(),
                i <= n,
                n == self.alphabets().len(),
                vertex_bases@.len() == i,
                index_bases@.len() == i,
                vertex_base == prefix_sum(vertex_lens(self.alphabets()), i as int),
                index_base == prefix_sum(index_lens(self.alphabets()), i as int),
                forall|j: int|
                    0 <= j < i ==> (#[trigger] vertex_bases@[j]) == prefix_sum(
                        vertex_lens(self.alphabets()),
                        j,
                    ),
                forall|j: int|
                    0 <= j < i ==> (#[trigger] index_bases@[j]) == prefix_sum(
                        index_lens(self.alphabets()),
                        j,
                    ),
            decreases n - i,
        {
            vertex_bases.push(vertex_base);
            index_bases.push(index_base);
            let data = &self.alphabets.record(i).value;
            proof {
                lemma_prefix_sum_monotone(vertex_lens(self.alphabets()), i as int + 1, n as int);
                lemma_prefix_sum_monotone(index_lens(self.alphabets()), i as int + 1, n as int);
            }
            vertex_base = vertex_base + data.vertices.len();
            index_base = index_base + data.indices.len();
            i = i + 1;
        }
        (vertex_bases, index_bases)
    }

    /// The contents of the indirect-command buffer: one command for each
    /// live group, in slot order.
    pub fn draw_commands(&self) -> (out: Vec<DrawIndirectCmd>)
        requires
            self.wf(),
        ensures
            out@ == self.all_commands(),
            out@.len() == self.live_groups(),
            out@.len() <= MAX_GROUPS,
    {
        let (vertex_bases, index_bases) = self.alphabet_bases();
        let mut out: Vec<DrawIndirectCmd> = Vec::new();
        let mut base_instance: usize = 0;
        let n = self.groups.len();
        let mut s: usize = 0;
        while s < n
            invariant
                self.wf(),
                s <= n,
                n == self.groups().len(),
                out@ == commands(self.alphabets(), self.groups(), s as int),
                out@.len() <= s,
                base_instance == prefix_sum(item_lens(self.groups()), s as int),
                vertex_bases@.len() == self.alphabets().len(),
                index_bases@.len() == self.alphabets().len(),
                forall|i: int|
                    0 <= i < self.alphabets().len() ==> (#[trigger] vertex_bases@[i])
                        == prefix_sum(vertex_lens(self.alphabets()), i),
                forall|i: int|
                    0 <= i < self.alphabets().len() ==> (#[trigger] index_bases@[i]) == prefix_sum(
                        index_lens(self.alphabets()),
                        i,
                    ),
            decreases n - s,
        {
            let record = self.groups.record(s);
            let group = &record.value;
            let items = group.items.len();
            proof {
                lemma_prefix_sum_monotone(item_lens(self.groups()), s as int + 1, n as int);
            }
            if record.live {
                let mut command = DrawIndirectCmd {
                    count: 0,
                    prim_count: items as u32,
                    first_index: 0,
                    base_vertex: 0,
                    base_instance: base_instance as u32,
                };
                if items > 0 && self.alphabets.is_live(group.alphabet.key) {
                    let a = group.alphabet.key.index;
                    let data = self.alphabets.get(group.alphabet.key);
                    let e = group.items[0].alphabet_entry_index;
                    if e < data.entries.len() {
                        let entry = data.entries[e];
                        proof {
                            let alphabets = self.alphabets();
                            let m = alphabets.len() as int;
                            assert(alphabet_wf(alphabets[a as int]));
                            lemma_prefix_sum_monotone(vertex_lens(alphabets), a as int + 1, m);
                            lemma_prefix_sum_monotone(index_lens(alphabets), a as int + 1, m);
                        }
                        command.count = entry.index_count as u32;
                        command.first_index = (index_bases[a] + entry.index_start) as u32;
                        command.base_vertex = (vertex_bases[a] + entry.vertex_start) as u32;
                    }
                }
                out.push(command);
            }
            base_instance = base_instance + items;
            s = s + 1;
        }
        proof {
            lemma_commands_len(self.alphabets(), self.groups(), n as int);
        }
        out
    }

    /// Whether alphabet geometry has changed since it was last uploaded.
    pub fn alphabets_dirty(&self) -> (b: bool)
        ensures
            b == self.alphabets_invalidated(),
    {
        self.alphabets_invalidated
    }

    /// Whether instance data has changed since it was last uploaded.
    pub fn groups_dirty(&self) -> (b: bool)
        ensures
            b == self.groups_invalidated(),
    {
        self.groups_invalidated
    }

    /// Whether the draw commands have changed since they were last uploaded.
    pub fn draw_dirty(&self) -> (b: bool)
        ensures
            b == self.draw_invalidated(),
    {
        self.draw_invalidated
    }

    /// Clears the flags named, once their buffers have been uploaded.
    pub fn clear_flags(&mut self, alphabets: bool, groups: bool, draw: bool)
        ensures
            old(self).wf() ==> final(self).wf(),
            flags_cleared(*old(self), *final(self), alphabets, groups, draw),
    {
        if alphabets {
            self.alphabets_invalidated = false;
        }
        if groups {
            self.groups_invalidated = false;
        }
        if draw {
            self.draw_invalidated = false;
        }
    }
}

} // verus!
