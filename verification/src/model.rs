//! What the registry holds of alphabets and groups, and what the four GPU
//! buffers hold of it.
//!
//! The shared vertex and index buffers hold the geometry of every alphabet
//! slot, slot after slot. The instance buffer holds one record for each item
//! of every group slot, slot after slot. The command buffer holds one
//! command for each live group, in slot order.

use vstd::prelude::*;
use crate::buffers::{
    Color, DrawIndirectCmd, FlatlanderGroupDrawData, FlatlanderVertex, Transform,
};
use crate::prefix::{
    lemma_prefix_sum_agrees, lemma_prefix_sum_covers, lemma_prefix_sum_update,
    lemma_prefix_sum_zero, prefix_sum,
};
use crate::slot_table::{SlotKey, SlotRecord};
use crate::FlatlandItem;

verus! {

/// The most group slots a registry holds: the count of indirect commands must
/// fit the signed 32-bit count of a multi-draw call.
pub const MAX_GROUPS: usize = 0x7fff_ffff;

/// Names one alphabet.
#[derive(Clone, Copy, Debug, PartialEq, Eq, Structural)]
pub struct AlphabetSlot {
    pub key: SlotKey,
}

/// Names one group.
#[derive(Clone, Copy, Debug, PartialEq, Eq, Structural)]
pub struct GroupSlot {
    pub key: SlotKey,
}

/// One named piece of geometry: a range of its alphabet's vertices and a
/// range of its alphabet's indices.
#[derive(Clone, Copy, Debug, PartialEq, Eq, Structural)]
pub struct AlphabetEntry {
    pub id: u32,
    pub vertex_start: usize,
    pub vertex_count: usize,
    pub index_start: usize,
    pub index_count: usize,
}

/// What the registry keeps of one alphabet.
pub struct AlphabetData {
    /// The number of handles that refer to the alphabet.
    pub refs: usize,
    /// How many of them are held by live groups.
    pub group_refs: usize,
    /// The entries, in the order they were added.
    pub entries: Vec<AlphabetEntry>,
    /// The alphabet's region of the shared vertex buffer.
    pub vertices: Vec<FlatlanderVertex>,
    /// The alphabet's region of the shared index buffer.
    pub indices: Vec<u16>,
}

/// What the registry keeps of one group.
pub struct GroupData {
    pub transform: Transform,
    pub color: Color,
    /// The alphabet whose entries the items name.
    pub alphabet: AlphabetSlot,
    pub items: Vec<FlatlandItem>,
}

/// The vertex count of each alphabet slot.
pub open spec fn vertex_lens(alphabets: Seq<SlotRecord<AlphabetData>>) -> Seq<nat> {
    Seq::new(alphabets.len(), |i: int| alphabets[i].value.vertices@.len())
}

/// The index count of each alphabet slot.
pub open spec fn index_lens(alphabets: Seq<SlotRecord<AlphabetData>>) -> Seq<nat> {
    Seq::new(alphabets.len(), |i: int| alphabets[i].value.indices@.len())
}

/// The item count of each group slot.
pub open spec fn item_lens(groups: Seq<SlotRecord<GroupData>>) -> Seq<nat> {
    Seq::new(groups.len(), |i: int| groups[i].value.items@.len())
}

/// The vertices of the first `n` alphabet slots, one slot after the other.
pub open spec fn shared_vertices(alphabets: Seq<SlotRecord<AlphabetData>>, n: int) -> Seq<
    FlatlanderVertex,
>
    decreases n,
{
    if n <= 0 {
        Seq::empty()
    } else {
        shared_vertices(alphabets, n - 1) + alphabets[n - 1].value.vertices@
    }
}

/// The indices of the first `n` alphabet slots, one slot after the other.
pub open spec fn shared_indices(alphabets: Seq<SlotRecord<AlphabetData>>, n: int) -> Seq<u16>
    decreases n,
{
    if n <= 0 {
        Seq::empty()
    } else {
        shared_indices(alphabets, n - 1) + alphabets[n - 1].value.indices@
    }
}

/// The instance record of item `k` of a group.
pub open spec fn instance_of(group: GroupData, k: int) -> FlatlanderGroupDrawData {
    FlatlanderGroupDrawData {
        x_offset: group.items@[k].x_offset,
        y_offset: group.items@[k].y_offset,
        transform: group.transform,
        color: group.color,
    }
}

/// The instance records of a group, one per item, in item order.
pub open spec fn group_instances(group: GroupData) -> Seq<FlatlanderGroupDrawData> {
    Seq::new(group.items@.len(), |k: int| instance_of(group, k))
}

/// The instance records of the first `n` group slots, one slot after the
/// other.
pub open spec fn instances(groups: Seq<SlotRecord<GroupData>>, n: int) -> Seq<
    FlatlanderGroupDrawData,
>
    decreases n,
{
    if n <= 0 {
        Seq::empty()
    } else {
        instances(groups, n - 1) + group_instances(groups[n - 1].value)
    }
}

/// Whether `key` names the occupant of its slot in `slots`.
pub open spec fn key_live<T>(slots: Seq<SlotRecord<T>>, key: SlotKey) -> bool {
    &&& key.index < slots.len()
    &&& slots[key.index as int].live
    &&& slots[key.index as int].generation == key.generation
}

/// Whether the first item of group slot `s` names an entry of the group's
/// alphabet, and that alphabet is live.
pub open spec fn draws_geometry(
    alphabets: Seq<SlotRecord<AlphabetData>>,
    groups: Seq<SlotRecord<GroupData>>,
    s: int,
) -> bool {
    let group = groups[s].value;
    &&& group.items@.len() > 0
    &&& key_live(alphabets, group.alphabet.key)
    &&& group.items@[0].alphabet_entry_index
        < alphabets[group.alphabet.key.index as int].value.entries@.len()
}

/// The indirect command of group slot `s`. Every item is one instance, and
/// the group's instances start where those of the lower slots end. The
/// geometry is that of the entry which the first item names, placed behind
/// the geometry of the lower alphabet slots; a group that names no entry of a
/// live alphabet draws no indices.
pub open spec fn command_for(
    alphabets: Seq<SlotRecord<AlphabetData>>,
    groups: Seq<SlotRecord<GroupData>>,
    s: int,
) -> DrawIndirectCmd {
    let group = groups[s].value;
    let prim_count = group.items@.len() as u32;
    let base_instance = prefix_sum(item_lens(groups), s) as u32;
    if draws_geometry(alphabets, groups, s) {
        let a = group.alphabet.key.index as int;
        let entry = alphabets[a].value.entries@[group.items@[0].alphabet_entry_index as int];
        DrawIndirectCmd {
            count: entry.index_count as u32,
            prim_count,
            first_index: (prefix_sum(index_lens(alphabets), a) + entry.index_start) as u32,
            base_vertex: (prefix_sum(vertex_lens(alphabets), a) + entry.vertex_start) as u32,
            base_instance,
        }
    } else {
        DrawIndirectCmd { count: 0, prim_count, first_index: 0, base_vertex: 0, base_instance }
    }
}

/// The indirect commands of the live groups among the first `n` slots, in
/// slot order.
pub open spec fn commands(
    alphabets: Seq<SlotRecord<AlphabetData>>,
    groups: Seq<SlotRecord<GroupData>>,
    n: int,
) -> Seq<DrawIndirectCmd>
    decreases n,
{
    if n <= 0 {
        Seq::empty()
    } else if groups[n - 1].live {
        commands(alphabets, groups, n - 1).push(command_for(alphabets, groups, n - 1))
    } else {
        commands(alphabets, groups, n - 1)
    }
}

/// The number of live slots among the first `n`.
pub open spec fn live_count<T>(slots: Seq<SlotRecord<T>>, n: int) -> nat
    decreases n,
{
    if n <= 0 {
        0
    } else {
        live_count(slots, n - 1) + if slots[n - 1].live {
            1nat
        } else {
            0nat
        }
    }
}

/// The index of the entry with the given id, if there is one.
pub open spec fn has_entry(entries: Seq<AlphabetEntry>, id: u32) -> bool {
    exists|k: int| 0 <= k < entries.len() && (#[trigger] entries[k]).id == id
}

/// The entries of one alphabet have distinct ids, lie within the alphabet's
/// geometry and follow one another without overlap; an alphabet is referred
/// to exactly while it is live, and groups hold no more references than
/// there are.
pub open spec fn alphabet_wf(record: SlotRecord<AlphabetData>) -> bool {
    let entries = record.value.entries@;
    &&& record.live <==> record.value.refs > 0
    &&& record.value.group_refs <= record.value.refs
    &&& forall|j: int, k: int|
        0 <= j < k < entries.len() ==> (#[trigger] entries[j]).id != (#[trigger] entries[k]).id
    &&& forall|j: int, k: int|
        0 <= j < k < entries.len() ==> {
            &&& (#[trigger] entries[j]).vertex_start + entries[j].vertex_count
                <= (#[trigger] entries[k]).vertex_start
            &&& entries[j].index_start + entries[j].index_count <= entries[k].index_start
        }
    &&& forall|k: int|
        0 <= k < entries.len() ==> {
            &&& (#[trigger] entries[k]).vertex_start + entries[k].vertex_count
                <= record.value.vertices@.len()
            &&& entries[k].index_start + entries[k].index_count <= record.value.indices@.len()
        }
}

/// The slot holds a live group that draws from the alphabet `slot`.
pub open spec fn draws_from(record: SlotRecord<GroupData>, slot: AlphabetSlot) -> bool {
    record.live && record.value.alphabet == slot
}

/// For each group slot, 1 if its group is live and draws from `slot`.
pub open spec fn drawing_from(groups: Seq<SlotRecord<GroupData>>, slot: AlphabetSlot) -> Seq<nat> {
    Seq::new(
        groups.len(),
        |i: int|
            if draws_from(groups[i], slot) {
                1nat
            } else {
                0nat
            },
    )
}

/// The number of live groups that draw from the alphabet `slot`.
pub open spec fn group_count(groups: Seq<SlotRecord<GroupData>>, slot: AlphabetSlot) -> nat {
    prefix_sum(drawing_from(groups, slot), groups.len() as int)
}

/// Every live group draws from a live alphabet, and every live alphabet
/// counts the live groups that draw from it.
pub open spec fn holders_counted(
    alphabets: Seq<SlotRecord<AlphabetData>>,
    groups: Seq<SlotRecord<GroupData>>,
) -> bool {
    &&& forall|g: int|
        0 <= g < groups.len() && (#[trigger] groups[g]).live ==> key_live(
            alphabets,
            groups[g].value.alphabet.key,
        )
    &&& forall|slot: AlphabetSlot| #[trigger]
        key_live(alphabets, slot.key) ==> alphabets[slot.key.index as int].value.group_refs
            == group_count(groups, slot)
}

/// `post` has the slots of `pre`, unchanged but for slot `i`, and slot `i`
/// itself where `pre` ends there.
pub open spec fn same_except<T>(pre: Seq<SlotRecord<T>>, post: Seq<SlotRecord<T>>, i: int) -> bool {
    &&& post.len() == if i < pre.len() {
        pre.len() as int
    } else {
        i + 1
    }
    &&& forall|j: int| 0 <= j < pre.len() && j != i ==> (#[trigger] post[j]) == pre[j]
}

/// `post` holds the entries and the geometry of `pre`.
pub open spec fn same_geometry(pre: AlphabetData, post: AlphabetData) -> bool {
    &&& post.entries@ == pre.entries@
    &&& post.vertices@ == pre.vertices@
    &&& post.indices@ == pre.indices@
}

/// Looks for the entry with the given id.
pub fn find_entry(entries: &Vec<AlphabetEntry>, id: u32) -> (found: Option<usize>)
    ensures
        match found {
            Some(k) => k < entries@.len() && entries@[k as int].id == id,
            None => !has_entry(entries@, id),
        },
{
    let mut k: usize = 0;
    while k < entries.len()
        invariant
            k <= entries@.len(),
            forall|j: int| 0 <= j < k ==> (#[trigger] entries@[j]).id != id,
        decreases entries@.len() - k,
    {
        if entries[k].id == id {
            return Some(k);
        }
        k = k + 1;
    }
    None
}

/// The shared vertex buffer is as long as the vertex counts add up to.
pub proof fn lemma_shared_vertices_len(alphabets: Seq<SlotRecord<AlphabetData>>, n: int)
    requires
        0 <= n <= alphabets.len(),
    ensures
        shared_vertices(alphabets, n).len() == prefix_sum(vertex_lens(alphabets), n),
    decreases n,
{
    if n > 0 {
        lemma_shared_vertices_len(alphabets, n - 1);
    }
}

/// The shared index buffer is as long as the index counts add up to.
pub proof fn lemma_shared_indices_len(alphabets: Seq<SlotRecord<AlphabetData>>, n: int)
    requires
        0 <= n <= alphabets.len(),
    ensures
        shared_indices(alphabets, n).len() == prefix_sum(index_lens(alphabets), n),
    decreases n,
{
    if n > 0 {
        lemma_shared_indices_len(alphabets, n - 1);
    }
}

/// The instance buffer is as long as the item counts add up to.
pub proof fn lemma_instances_len(groups: Seq<SlotRecord<GroupData>>, n: int)
    requires
        0 <= n <= groups.len(),
    ensures
        instances(groups, n).len() == prefix_sum(item_lens(groups), n),
    decreases n,
{
    if n > 0 {
        lemma_instances_len(groups, n - 1);
    }
}

/// The vertices of alphabet slot `i` stand in the shared vertex buffer
/// where the vertices of the lower slots end.
pub proof fn lemma_vertices_placed(alphabets: Seq<SlotRecord<AlphabetData>>, i: int, n: int)
    requires
        0 <= i < n <= alphabets.len(),
    ensures
        prefix_sum(vertex_lens(alphabets), i + 1) <= shared_vertices(alphabets, n).len(),
        shared_vertices(alphabets, n).subrange(
            prefix_sum(vertex_lens(alphabets), i) as int,
            prefix_sum(vertex_lens(alphabets), i + 1) as int,
        ) == alphabets[i].value.vertices@,
    decreases n,
{
    lemma_shared_vertices_len(alphabets, n - 1);
    let lower = shared_vertices(alphabets, n - 1);
    let last = alphabets[n - 1].value.vertices@;
    if i == n - 1 {
        assert((lower + last).subrange(lower.len() as int, (lower.len() + last.len()) as int) =~= last);
    } else {
        lemma_vertices_placed(alphabets, i, n - 1);
        let from = prefix_sum(vertex_lens(alphabets), i) as int;
        let to = prefix_sum(vertex_lens(alphabets), i + 1) as int;
        assert((lower + last).subrange(from, to) =~= lower.subrange(from, to));
    }
}

/// The indices of alphabet slot `i` stand in the shared index buffer where
/// the indices of the lower slots end.
pub proof fn lemma_indices_placed(alphabets: Seq<SlotRecord<AlphabetData>>, i: int, n: int)
    requires
        0 <= i < n <= alphabets.len(),
    ensures
        prefix_sum(index_lens(alphabets), i + 1) <= shared_indices(alphabets, n).len(),
        shared_indices(alphabets, n).subrange(
            prefix_sum(index_lens(alphabets), i) as int,
            prefix_sum(index_lens(alphabets), i + 1) as int,
        ) == alphabets[i].value.indices@,
    decreases n,
{
    lemma_shared_indices_len(alphabets, n - 1);
    let lower = shared_indices(alphabets, n - 1);
    let last = alphabets[n - 1].value.indices@;
    if i == n - 1 {
        assert((lower + last).subrange(lower.len() as int, (lower.len() + last.len()) as int) =~= last);
    } else {
        lemma_indices_placed(alphabets, i, n - 1);
        let from = prefix_sum(index_lens(alphabets), i) as int;
        let to = prefix_sum(index_lens(alphabets), i + 1) as int;
        assert((lower + last).subrange(from, to) =~= lower.subrange(from, to));
    }
}

/// The instance records of group slot `s` stand in the instance buffer
/// where the records of the lower slots end.
pub proof fn lemma_instances_placed(groups: Seq<SlotRecord<GroupData>>, s: int, n: int)
    requires
        0 <= s < n <= groups.len(),
    ensures
        prefix_sum(item_lens(groups), s + 1) <= instances(groups, n).len(),
        instances(groups, n).subrange(
            prefix_sum(item_lens(groups), s) as int,
            prefix_sum(item_lens(groups), s + 1) as int,
        ) == group_instances(groups[s].value),
    decreases n,
{
    lemma_instances_len(groups, n - 1);
    let lower = instances(groups, n - 1);
    let last = group_instances(groups[n - 1].value);
    if s == n - 1 {
        assert((lower + last).subrange(lower.len() as int, (lower.len() + last.len()) as int) =~= last);
    } else {
        lemma_instances_placed(groups, s, n - 1);
        let from = prefix_sum(item_lens(groups), s) as int;
        let to = prefix_sum(item_lens(groups), s + 1) as int;
        assert((lower + last).subrange(from, to) =~= lower.subrange(from, to));
    }
}

/// The command of a live group stands in the command list behind the
/// commands of the live groups in lower slots.
pub proof fn lemma_command_placed(
    alphabets: Seq<SlotRecord<AlphabetData>>,
    groups: Seq<SlotRecord<GroupData>>,
    s: int,
    n: int,
)
    requires
        0 <= s < n <= groups.len(),
        groups[s].live,
    ensures
        live_count(groups, s) < commands(alphabets, groups, n).len(),
        commands(alphabets, groups, n)[live_count(groups, s) as int] == command_for(
            alphabets,
            groups,
            s,
        ),
    decreases n,
{
    lemma_commands_len(alphabets, groups, n - 1);
    if s < n - 1 {
        lemma_command_placed(alphabets, groups, s, n - 1);
    }
}

/// There is one indirect command for each live group.
pub proof fn lemma_commands_len(
    alphabets: Seq<SlotRecord<AlphabetData>>,
    groups: Seq<SlotRecord<GroupData>>,
    n: int,
)
    ensures
        commands(alphabets, groups, n).len() == live_count(groups, n),
    decreases n,
{
    if n > 0 {
        lemma_commands_len(alphabets, groups, n - 1);
    }
}

/// The number of groups that draw from an alphabet depends only on which
/// groups are live and what they draw from.
pub proof fn lemma_group_count_agrees(
    a: Seq<SlotRecord<GroupData>>,
    b: Seq<SlotRecord<GroupData>>,
    slot: AlphabetSlot,
)
    requires
        a.len() == b.len(),
        forall|j: int| 0 <= j < a.len() ==> draws_from(a[j], slot) == draws_from(b[j], slot),
    ensures
        group_count(a, slot) == group_count(b, slot),
{
    lemma_prefix_sum_agrees(drawing_from(a, slot), drawing_from(b, slot), a.len() as int);
}

/// A change to group slot `j` alone changes the number of groups that draw
/// from an alphabet by what slot `j` adds to it.
pub proof fn lemma_group_count_change(
    pre: Seq<SlotRecord<GroupData>>,
    post: Seq<SlotRecord<GroupData>>,
    j: int,
    slot: AlphabetSlot,
)
    requires
        0 <= j <= pre.len(),
        same_except(pre, post, j),
    ensures
        group_count(post, slot) + (if j < pre.len() && draws_from(pre[j], slot) {
            1nat
        } else {
            0nat
        }) == group_count(pre, slot) + (if draws_from(post[j], slot) {
            1nat
        } else {
            0nat
        }),
{
    let a = drawing_from(pre, slot);
    let b = drawing_from(post, slot);
    if j < pre.len() {
        lemma_prefix_sum_update(a, b, j, pre.len() as int);
    } else {
        lemma_prefix_sum_agrees(a, b, pre.len() as int);
    }
}

/// A group that draws from an alphabet is counted.
pub proof fn lemma_group_count_covers(
    groups: Seq<SlotRecord<GroupData>>,
    slot: AlphabetSlot,
    j: int,
)
    requires
        0 <= j < groups.len(),
        draws_from(groups[j], slot),
    ensures
        group_count(groups, slot) >= 1,
{
    lemma_prefix_sum_covers(drawing_from(groups, slot), j, groups.len() as int);
}

/// Where no group draws from an alphabet, none is counted.
pub proof fn lemma_group_count_none(groups: Seq<SlotRecord<GroupData>>, slot: AlphabetSlot)
    requires
        forall|j: int| 0 <= j < groups.len() ==> !draws_from(groups[j], slot),
    ensures
        group_count(groups, slot) == 0,
{
    lemma_prefix_sum_zero(drawing_from(groups, slot), groups.len() as int);
}

/// The shared vertex buffer depends only on the vertices in the slots.
pub proof fn lemma_shared_vertices_agree(
    a: Seq<SlotRecord<AlphabetData>>,
    b: Seq<SlotRecord<AlphabetData>>,
    n: int,
)
    requires
        forall|j: int| 0 <= j < n ==> a[j].value.vertices@ == b[j].value.vertices@,
    ensures
        shared_vertices(a, n) == shared_vertices(b, n),
    decreases n,
{
    if n > 0 {
        lemma_shared_vertices_agree(a, b, n - 1);
    }
}

/// The shared index buffer depends only on the indices in the slots.
pub proof fn lemma_shared_indices_agree(
    a: Seq<SlotRecord<AlphabetData>>,
    b: Seq<SlotRecord<AlphabetData>>,
    n: int,
)
    requires
        forall|j: int| 0 <= j < n ==> a[j].value.indices@ == b[j].value.indices@,
    ensures
        shared_indices(a, n) == shared_indices(b, n),
    decreases n,
{
    if n > 0 {
        lemma_shared_indices_agree(a, b, n - 1);
    }
}

/// The instance buffer depends only on the instance records of the slots.
pub proof fn lemma_instances_agree(
    a: Seq<SlotRecord<GroupData>>,
    b: Seq<SlotRecord<GroupData>>,
    n: int,
)
    requires
        forall|j: int| 0 <= j < n ==> group_instances(a[j].value) == group_instances(b[j].value),
    ensures
        instances(a, n) == instances(b, n),
    decreases n,
{
    if n > 0 {
        lemma_instances_agree(a, b, n - 1);
    }
}

/// The number of live slots depends only on which slots are live.
pub proof fn lemma_live_count_agree<T>(a: Seq<SlotRecord<T>>, b: Seq<SlotRecord<T>>, n: int)
    requires
        forall|j: int| 0 <= j < n ==> a[j].live == b[j].live,
    ensures
        live_count(a, n) == live_count(b, n),
    decreases n,
{
    if n > 0 {
        lemma_live_count_agree(a, b, n - 1);
    }
}

} // verus!
