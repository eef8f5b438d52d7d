//! What holds of the registry and the renderer across calls.
//!
//! A `Step` names one change to the registry together with what was handed
//! in and what came back; `taken` says when a registry is the outcome of a
//! step. The laws about every state are stated for one step from a
//! well-formed registry, so they hold along every sequence of calls.

use vstd::prelude::*;
use crate::buffers::{Color, FlatlanderVertex, Transform};
use crate::flatland::{
    alphabet_created, color_updated, entry_added, flags_cleared, group_created, group_deleted,
    items_updated, reference_added, reference_dropped, transform_updated, Flatland,
};
use crate::model::{
    alphabet_wf, command_for, group_instances, has_entry, index_lens, key_live,
    lemma_command_placed, lemma_commands_len, lemma_group_count_covers, lemma_indices_placed,
    lemma_instances_len, lemma_instances_placed, lemma_shared_indices_len,
    lemma_shared_vertices_len, lemma_vertices_placed, live_count, vertex_lens, AlphabetSlot,
    GroupSlot,
};
use crate::prefix::prefix_sum;
use crate::{resolved, uploads_due, FlatlandItem, Flatlander, Uploads};

verus! {

/// One change to the registry.
pub enum Step {
    /// An alphabet was created and `slot` handed out for it.
    CreateAlphabet { slot: AlphabetSlot },
    /// A reference to the alphabet in `slot` was cloned.
    CloneAlphabet { slot: AlphabetSlot },
    /// A reference to the alphabet in `slot` was dropped.
    DropAlphabet { slot: AlphabetSlot },
    /// An entry was asked for with this id and geometry, and `index`
    /// returned.
    AddEntry {
        slot: AlphabetSlot,
        id: u32,
        vertices: Seq<FlatlanderVertex>,
        indices: Seq<u16>,
        index: usize,
    },
    /// A group was created and `group` handed out for it.
    CreateGroup {
        transform: Transform,
        color: Color,
        alphabet: AlphabetSlot,
        items: Seq<FlatlandItem>,
        group: GroupSlot,
    },
    /// The items of `group` were replaced.
    UpdateItems { group: GroupSlot, items: Seq<FlatlandItem> },
    /// The transform of `group` was replaced.
    UpdateTransform { group: GroupSlot, transform: Transform },
    /// The color of `group` was replaced.
    UpdateColor { group: GroupSlot, color: Color },
    /// `group` was deleted.
    DeleteGroup { group: GroupSlot },
    /// The flags named were cleared after an upload.
    ClearFlags { alphabets: bool, groups: bool, draw: bool },
}

/// `post` is `pre` after `step`, taken where the operation may be called.
pub open spec fn taken(pre: Flatland, post: Flatland, step: Step) -> bool {
    match step {
        Step::CreateAlphabet { slot } => alphabet_created(pre, post, slot),
        Step::CloneAlphabet { slot } => {
            &&& pre.alphabet_live(slot)
            &&& pre.refcount(slot) < usize::MAX
            &&& reference_added(pre, post, slot)
        },
        Step::DropAlphabet { slot } => {
            &&& pre.alphabet_live(slot)
            &&& pre.free_references(slot) > 0
            &&& reference_dropped(pre, post, slot)
        },
        Step::AddEntry { slot, id, vertices, indices, index } => {
            &&& pre.alphabet_live(slot)
            &&& pre.has_room_for_entry(slot, id, vertices.len(), indices.len())
            &&& entry_added(pre, post, slot, id, vertices, indices, index)
        },
        Step::CreateGroup { transform, color, alphabet, items, group } => {
            &&& pre.alphabet_live(alphabet)
            &&& pre.free_references(alphabet) > 0
            &&& pre.has_room_for_group(items.len())
            &&& group_created(pre, post, transform, color, alphabet, items, group)
        },
        Step::UpdateItems { group, items } => {
            &&& pre.group_live(group)
            &&& pre.has_room_for_items(group, items.len())
            &&& items_updated(pre, post, group, items)
        },
        Step::UpdateTransform { group, transform } => pre.group_live(group) && transform_updated(
            pre,
            post,
            group,
            transform,
        ),
        Step::UpdateColor { group, color } => pre.group_live(group) && color_updated(
            pre,
            post,
            group,
            color,
        ),
        Step::DeleteGroup { group } => pre.group_live(group) && group_deleted(pre, post, group),
        Step::ClearFlags { alphabets, groups, draw } => flags_cleared(
            pre,
            post,
            alphabets,
            groups,
            draw,
        ),
    }
}

/// The number of references in use for each alphabet after `step`, given the
/// numbers before it: creating an alphabet hands out its first reference,
/// cloning makes one more and dropping one less. A group keeps the reference
/// it was created with, so no other step makes or ends one.
pub open spec fn handles_after(held: spec_fn(AlphabetSlot) -> nat, step: Step) -> spec_fn(
    AlphabetSlot,
) -> nat {
    |slot: AlphabetSlot|
        match step {
            Step::CreateAlphabet { slot: made } => if slot == made {
                1nat
            } else {
                held(slot)
            },
            Step::CloneAlphabet { slot: of } => if slot == of {
                held(slot) + 1
            } else {
                held(slot)
            },
            Step::DropAlphabet { slot: of } => if slot == of {
                (held(slot) - 1) as nat
            } else {
                held(slot)
            },
            _ => held(slot),
        }
}

/// The registry counts for every alphabet as many references as are in use.
pub open spec fn counts_handles(flatland: Flatland, held: spec_fn(AlphabetSlot) -> nat) -> bool {
    forall|slot: AlphabetSlot| flatland.refcount(slot) == #[trigger] held(slot)
}

/// An empty registry counts no reference, and none is in use.
pub proof fn law_no_handles_at_start(flatland: Flatland)
    requires
        flatland.alphabets().len() == 0,
    ensures
        counts_handles(flatland, |slot: AlphabetSlot| 0nat),
{
}

/// The reference count of every alphabet equals the number of references in
/// use: where it does before a step, it does after it.
pub proof fn law_refcount_counts_handles(
    pre: Flatland,
    post: Flatland,
    step: Step,
    held: spec_fn(AlphabetSlot) -> nat,
)
    requires
        pre.wf(),
        counts_handles(pre, held),
        taken(pre, post, step),
    ensures
        counts_handles(post, handles_after(held, step)),
{
    let after = handles_after(held, step);
    assert forall|slot: AlphabetSlot| post.refcount(slot) == #[trigger] after(slot) by {
        assert(pre.refcount(slot) == held(slot));
        lemma_refcount_step(pre, post, step, slot);
    }
}

/// What one step does to the reference count of one alphabet.
proof fn lemma_refcount_step(pre: Flatland, post: Flatland, step: Step, slot: AlphabetSlot)
    requires
        pre.wf(),
        taken(pre, post, step),
    ensures
        post.refcount(slot) == handles_after(|s: AlphabetSlot| pre.refcount(s), step)(slot),
{
    let j = slot.key.index as int;
    match step {
        Step::CreateAlphabet { slot: made } => {
            let i = made.key.index as int;
            if j != i && j < pre.alphabets().len() {
                assert(post.alphabets()[j] == pre.alphabets()[j]);
            }
        },
        Step::CloneAlphabet { slot: of } => {
            if j != of.key.index && j < pre.alphabets().len() {
                assert(post.alphabets()[j] == pre.alphabets()[j]);
            }
        },
        Step::DropAlphabet { slot: of } => {
            if j != of.key.index && j < pre.alphabets().len() {
                assert(post.alphabets()[j] == pre.alphabets()[j]);
            }
        },
        Step::AddEntry { slot: of, id, vertices, indices, index } => {
            if j != of.key.index && j < pre.alphabets().len() {
                assert(post.alphabets()[j] == pre.alphabets()[j]);
            }
        },
        Step::CreateGroup { transform, color, alphabet: of, items, group: made } => {
            if j != of.key.index && j < pre.alphabets().len() {
                assert(post.alphabets()[j] == pre.alphabets()[j]);
            }
        },
        Step::DeleteGroup { group: gone } => {
            let of = pre.group(gone).alphabet;
            if j != of.key.index && j < pre.alphabets().len() {
                assert(post.alphabets()[j] == pre.alphabets()[j]);
            }
        },
        _ => {},
    }
}

/// As long as a group is live, the alphabet it draws from is live and
/// counts the reference that the group holds.
pub proof fn law_group_keeps_its_alphabet(flatland: Flatland, group: GroupSlot)
    requires
        flatland.wf(),
        flatland.group_live(group),
    ensures
        flatland.alphabet_live(flatland.group(group).alphabet),
        flatland.refcount(flatland.group(group).alphabet) >= flatland.group_refs(
            flatland.group(group).alphabet,
        ) >= 1,
{
    let alphabet = flatland.group(group).alphabet;
    assert(flatland.groups()[group.key.index as int].live);
    assert(key_live(flatland.alphabets(), alphabet.key));
    assert(alphabet_wf(flatland.alphabets()[alphabet.key.index as int]));
    lemma_group_count_covers(flatland.groups(), alphabet, group.key.index as int);
}

/// A key that has gone stale stays stale, and names no live alphabet, after
/// every step: no later occupant of the slot answers to it.
pub proof fn law_stale_alphabet_stays_stale(
    pre: Flatland,
    post: Flatland,
    step: Step,
    slot: AlphabetSlot,
)
    requires
        pre.wf(),
        taken(pre, post, step),
        pre.alphabet_table().stale(slot.key),
    ensures
        post.alphabet_table().stale(slot.key),
        !post.alphabet_live(slot),
{
    let j = slot.key.index as int;
    match step {
        Step::CreateAlphabet { slot: made } => {
            if j != made.key.index {
                assert(post.alphabets()[j] == pre.alphabets()[j]);
            }
        },
        Step::CloneAlphabet { slot: of } => {
            if j != of.key.index {
                assert(post.alphabets()[j] == pre.alphabets()[j]);
            }
        },
        Step::DropAlphabet { slot: of } => {
            if j != of.key.index {
                assert(post.alphabets()[j] == pre.alphabets()[j]);
            }
        },
        Step::AddEntry { slot: of, id, vertices, indices, index } => {
            if j != of.key.index {
                assert(post.alphabets()[j] == pre.alphabets()[j]);
            }
        },
        Step::CreateGroup { transform, color, alphabet: of, items, group: made } => {
            if j != of.key.index {
                assert(post.alphabets()[j] == pre.alphabets()[j]);
            }
        },
        Step::DeleteGroup { group: gone } => {
            let of = pre.group(gone).alphabet;
            if j != of.key.index {
                assert(post.alphabets()[j] == pre.alphabets()[j]);
            }
        },
        _ => {},
    }
}

/// A group key that has gone stale stays stale, and names no live group,
/// after every step.
pub proof fn law_stale_group_stays_stale(pre: Flatland, post: Flatland, step: Step, slot: GroupSlot)
    requires
        pre.wf(),
        taken(pre, post, step),
        pre.group_table().stale(slot.key),
    ensures
        post.group_table().stale(slot.key),
        !post.group_live(slot),
{
    let j = slot.key.index as int;
    match step {
        Step::CreateGroup { transform, color, alphabet, items, group: made } => {
            if j != made.key.index {
                assert(post.groups()[j] == pre.groups()[j]);
            }
        },
        Step::UpdateItems { group: of, items } => {
            if j != of.key.index {
                assert(post.groups()[j] == pre.groups()[j]);
            }
        },
        Step::UpdateTransform { group: of, transform } => {
            if j != of.key.index {
                assert(post.groups()[j] == pre.groups()[j]);
            }
        },
        Step::UpdateColor { group: of, color } => {
            if j != of.key.index {
                assert(post.groups()[j] == pre.groups()[j]);
            }
        },
        Step::DeleteGroup { group: of } => {
            if j != of.key.index {
                assert(post.groups()[j] == pre.groups()[j]);
            }
        },
        _ => {},
    }
}

/// When the last reference to an alphabet is dropped, its key names no live
/// alphabet any more. The next alphabet created takes over that very slot,
/// unless the slot's generation has run out; it has another key, and no id
/// finds an entry in it.
pub proof fn law_released_slot_is_reused(
    a: Flatland,
    b: Flatland,
    c: Flatland,
    slot: AlphabetSlot,
    fresh: AlphabetSlot,
)
    requires
        a.wf(),
        a.alphabet_live(slot),
        a.refcount(slot) == 1,
        reference_dropped(a, b, slot),
        b.wf(),
        alphabet_created(b, c, fresh),
    ensures
        !b.alphabet_live(slot),
        !c.alphabet_live(slot),
        fresh != slot,
        slot.key.generation + 1 < u64::MAX ==> fresh.key.index == slot.key.index,
        forall|id: u32| !has_entry(c.entries(fresh), id),
{
    law_stale_alphabet_stays_stale(b, c, Step::CreateAlphabet { slot: fresh }, slot);
    if slot.key.generation + 1 < u64::MAX {
        assert(b.alphabet_table().free_list().last() == slot.key.index);
    }
}

/// Entries keep their place: after every step that leaves the alphabet
/// live, each of its entries is where it was.
pub proof fn law_entries_stay(pre: Flatland, post: Flatland, step: Step, slot: AlphabetSlot, k: int)
    requires
        pre.wf(),
        taken(pre, post, step),
        pre.alphabet_live(slot),
        post.alphabet_live(slot),
        0 <= k < pre.entries(slot).len(),
    ensures
        k < post.entries(slot).len(),
        post.entries(slot)[k] == pre.entries(slot)[k],
{
    let j = slot.key.index as int;
    match step {
        Step::CreateAlphabet { slot: made } => {
            if j != made.key.index {
                assert(post.alphabets()[j] == pre.alphabets()[j]);
            }
        },
        Step::CloneAlphabet { slot: of } => {
            if j != of.key.index {
                assert(post.alphabets()[j] == pre.alphabets()[j]);
            }
        },
        Step::DropAlphabet { slot: of } => {
            if j != of.key.index {
                assert(post.alphabets()[j] == pre.alphabets()[j]);
            }
        },
        Step::AddEntry { slot: of, id, vertices, indices, index } => {
            if j != of.key.index {
                assert(post.alphabets()[j] == pre.alphabets()[j]);
            }
        },
        Step::CreateGroup { transform, color, alphabet: of, items, group: made } => {
            if j != of.key.index {
                assert(post.alphabets()[j] == pre.alphabets()[j]);
            }
        },
        Step::DeleteGroup { group: gone } => {
            let of = pre.group(gone).alphabet;
            if j != of.key.index {
                assert(post.alphabets()[j] == pre.alphabets()[j]);
            }
        },
        _ => {},
    }
}

/// Two entries added to one alphabet under different ids get different
/// indices, and afterwards each id is found at the index that was returned
/// for it and nowhere else.
pub proof fn law_entries_get_distinct_indices(
    a: Flatland,
    b: Flatland,
    c: Flatland,
    slot: AlphabetSlot,
    first_id: u32,
    first_vertices: Seq<FlatlanderVertex>,
    first_indices: Seq<u16>,
    first: usize,
    second_id: u32,
    second_vertices: Seq<FlatlanderVertex>,
    second_indices: Seq<u16>,
    second: usize,
)
    requires
        a.wf(),
        a.alphabet_live(slot),
        entry_added(a, b, slot, first_id, first_vertices, first_indices, first),
        b.wf(),
        entry_added(b, c, slot, second_id, second_vertices, second_indices, second),
        c.wf(),
        first_id != second_id,
    ensures
        first != second,
        first < c.entries(slot).len(),
        second < c.entries(slot).len(),
        forall|k: int|
            0 <= k < c.entries(slot).len() ==> ((#[trigger] c.entries(slot)[k]).id == first_id
                <==> k == first),
        forall|k: int|
            0 <= k < c.entries(slot).len() ==> ((#[trigger] c.entries(slot)[k]).id == second_id
                <==> k == second),
{
    let entries = c.entries(slot);
    assert(b.entries(slot)[first as int].id == first_id);
    assert(entries[first as int].id == first_id);
    assert(entries[second as int].id == second_id);
    assert(alphabet_wf(c.alphabets()[slot.key.index as int]));
    assert forall|k: int| 0 <= k < entries.len() implies ((#[trigger] entries[k]).id == first_id
        <==> k == first) by {
        if k < first {
            assert(entries[k].id != entries[first as int].id);
        } else if k > first {
            assert(entries[first as int].id != entries[k].id);
        }
    }
    assert forall|k: int| 0 <= k < entries.len() implies ((#[trigger] entries[k]).id == second_id
        <==> k == second) by {
        if k < second {
            assert(entries[k].id != entries[second as int].id);
        } else if k > second {
            assert(entries[second as int].id != entries[k].id);
        }
    }
}

/// The command of a live group whose first item names an entry of the
/// group's alphabet addresses that entry and the group's items: it stands in
/// the command list behind the commands of the live groups in lower slots,
/// its index range holds the entry's indices, the entry's vertices start at
/// its base vertex, and its instance range holds one record for each item
/// of the group.
pub proof fn law_command_addresses_entry_and_items(flatland: Flatland, group: GroupSlot)
    requires
        flatland.wf(),
        flatland.group_live(group),
        flatland.group(group).items@.len() > 0,
        flatland.group(group).items@[0].alphabet_entry_index < flatland.entries(
            flatland.group(group).alphabet,
        ).len(),
    ensures
        ({
            let s = group.key.index as int;
            let alphabet = flatland.group(group).alphabet;
            let entry = flatland.entries(alphabet)[flatland.group(
                group,
            ).items@[0].alphabet_entry_index as int];
            let place = live_count(flatland.groups(), s) as int;
            let command = flatland.all_commands()[place];
            &&& place < flatland.all_commands().len()
            &&& command == command_for(flatland.alphabets(), flatland.groups(), s)
            &&& command.count == entry.index_count
            &&& command.prim_count == flatland.group(group).items@.len()
            &&& command.first_index + command.count <= flatland.all_indices().len()
            &&& flatland.all_indices().subrange(
                command.first_index as int,
                command.first_index + command.count,
            ) == flatland.indices(alphabet).subrange(
                entry.index_start as int,
                entry.index_start + entry.index_count,
            )
            &&& command.base_vertex + entry.vertex_count <= flatland.all_vertices().len()
            &&& flatland.all_vertices().subrange(
                command.base_vertex as int,
                command.base_vertex + entry.vertex_count,
            ) == flatland.vertices(alphabet).subrange(
                entry.vertex_start as int,
                entry.vertex_start + entry.vertex_count,
            )
            &&& command.base_instance + command.prim_count <= flatland.all_instances().len()
            &&& flatland.all_instances().subrange(
                command.base_instance as int,
                command.base_instance + command.prim_count,
            ) == group_instances(flatland.group(group))
        }),
{
    let alphabets = flatland.alphabets();
    let groups = flatland.groups();
    let s = group.key.index as int;
    let alphabet = flatland.group(group).alphabet;
    let a = alphabet.key.index as int;
    let entry = flatland.entries(alphabet)[flatland.group(group).items@[0].alphabet_entry_index as int];
    law_group_keeps_its_alphabet(flatland, group);
    assert(alphabet_wf(alphabets[a]));
    lemma_command_placed(alphabets, groups, s, groups.len() as int);
    lemma_vertices_placed(alphabets, a, alphabets.len() as int);
    lemma_indices_placed(alphabets, a, alphabets.len() as int);
    lemma_instances_placed(groups, s, groups.len() as int);
    lemma_shared_vertices_len(alphabets, alphabets.len() as int);
    lemma_shared_indices_len(alphabets, alphabets.len() as int);
    lemma_instances_len(groups, groups.len() as int);
    let index_base = prefix_sum(index_lens(alphabets), a) as int;
    let vertex_base = prefix_sum(vertex_lens(alphabets), a) as int;
    let region_indices = flatland.all_indices().subrange(
        index_base,
        prefix_sum(index_lens(alphabets), a + 1) as int,
    );
    let region_vertices = flatland.all_vertices().subrange(
        vertex_base,
        prefix_sum(vertex_lens(alphabets), a + 1) as int,
    );
    assert(region_indices.subrange(
        entry.index_start as int,
        entry.index_start + entry.index_count,
    ) =~= flatland.all_indices().subrange(
        index_base + entry.index_start,
        index_base + entry.index_start + entry.index_count,
    ));
    assert(region_vertices.subrange(
        entry.vertex_start as int,
        entry.vertex_start + entry.vertex_count,
    ) =~= flatland.all_vertices().subrange(
        vertex_base + entry.vertex_start,
        vertex_base + entry.vertex_start + entry.vertex_count,
    ));
}

/// After a resolve that finds the buffers or makes them, no flag is set.
pub proof fn law_resolve_clears_every_flag(pre: Flatlander, post: Flatlander)
    requires
        resolved(pre, post),
        pre.has_buffers() || pre.flatland().alphabets_invalidated(),
    ensures
        !post.flatland().alphabets_invalidated(),
        !post.flatland().groups_invalidated(),
        !post.flatland().draw_invalidated(),
{
}

/// A resolve that finds no flag set uploads nothing and leaves every buffer
/// as it was.
pub proof fn law_idle_resolve_uploads_nothing(pre: Flatlander, post: Flatlander)
    requires
        resolved(pre, post),
        !pre.flatland().alphabets_invalidated(),
        !pre.flatland().groups_invalidated(),
        !pre.flatland().draw_invalidated(),
    ensures
        uploads_due(pre) == (Uploads {
            allocate: false,
            geometry: false,
            instances: false,
            commands: false,
        }),
        post.has_buffers() == pre.has_buffers(),
        post.staged_vertices() == pre.staged_vertices(),
        post.staged_indices() == pre.staged_indices(),
        post.staged_groups() == pre.staged_groups(),
        post.staged_commands() == pre.staged_commands(),
{
}

/// After a resolve, once the buffers exist, there is one staged command for
/// each live group, and the staged commands are those of the live groups in
/// slot order if they were staged in this resolve.
pub proof fn law_one_command_per_live_group(pre: Flatlander, post: Flatlander)
    requires
        pre.wf(),
        resolved(pre, post),
        post.has_buffers(),
    ensures
        post.staged_commands().len() == post.flatland().live_groups(),
        uploads_due(pre).commands ==> post.staged_commands() == post.flatland().all_commands(),
{
    lemma_commands_len(
        pre.flatland().alphabets(),
        pre.flatland().groups(),
        pre.flatland().groups().len() as int,
    );
}

/// Switching drawing twice, or the wireframe twice, gives back the renderer
/// one started with.
pub proof fn law_toggle_twice(flatlander: Flatlander)
    ensures
        flatlander.toggled().toggled() == flatlander,
        flatlander.wireframe_toggled().wireframe_toggled() == flatlander,
{
    Flatlander::lemma_toggles_undo(flatlander);
}

} // verus!
