//! Registry and staging layer for a batched, instanced 2D renderer.
//!
//! Callers register glyph geometry in alphabets, place entries of an alphabet
//! as the items of groups, and ask once per frame for the steps that bring
//! the GPU buffers up to date and draw every live group. This crate decides
//! and stages; carrying out a step against the graphics driver is left to the
//! caller.

use vstd::prelude::*;

pub mod buffers;
pub mod flatland;
pub mod laws;
pub mod model;
pub mod prefix;
pub mod render;
pub mod slot_table;

pub use crate::buffers::{
    Color, DrawIndirectCmd, FlatlanderGroupDrawData, FlatlanderVertex, Transform,
};
pub use crate::render::{plan_draw, plan_draw_calls, plan_uploads, RenderStep, Uploads};
use crate::buffers::Buffers;
use crate::render::{draw_steps, upload_steps};
use crate::flatland::{
    alphabet_created, color_updated, entry_added, group_created, group_deleted, items_updated,
    lemma_geometry_unchanged, lemma_instances_unchanged, lemma_live_groups_unchanged,
    reference_added, reference_dropped, transform_updated, Flatland,
};
use crate::model::{has_entry, AlphabetSlot, GroupSlot, MAX_GROUPS};

verus! {

/// One placement of an alphabet entry: the entry's index within its alphabet
/// and where the instance goes.
#[derive(Clone, Copy, Debug, PartialEq, Eq, Structural)]
pub struct FlatlandItem {
    pub alphabet_entry_index: usize,
    pub x_offset: i32,
    pub y_offset: i32,
}

/// The renderer's state: the registry, the staged buffers once they exist,
/// and the two switches.
pub struct Flatlander {
    program_view_projection_location: Option<i32>,
    multi_draw_indirect: bool,
    flatland: Flatland,
    buffers: Option<Buffers>,
    draw_enabled: bool,
    wireframe: bool,
}

/// A counted reference to one alphabet.
pub struct Alphabet {
    slot: AlphabetSlot,
}

/// The owner of one group, which holds a reference to the group's alphabet.
pub struct FlatlandGroup {
    alphabet: Alphabet,
    group_slot: GroupSlot,
}

/// What a resolve of `pre` stages: geometry when it is dirty, instance data
/// and commands when they are dirty and the buffers exist by then.
pub open spec fn uploads_due(pre: Flatlander) -> Uploads {
    let geometry = pre.flatland().alphabets_invalidated();
    let ready = pre.has_buffers() || geometry;
    Uploads {
        allocate: geometry && !pre.has_buffers(),
        geometry,
        instances: ready && pre.flatland().groups_invalidated(),
        commands: ready && pre.flatland().draw_invalidated(),
    }
}

/// `post` is `pre` after a resolve: each buffer that was due holds what the
/// registry gives for it and its flag is clear, every other buffer and flag
/// is as before, and neither the registry's tables nor the switches have
/// changed.
pub open spec fn resolved(pre: Flatlander, post: Flatlander) -> bool {
    let due = uploads_due(pre);
    &&& post.flatland().alphabet_table() == pre.flatland().alphabet_table()
    &&& post.flatland().group_table() == pre.flatland().group_table()
    &&& !post.flatland().alphabets_invalidated()
    &&& post.flatland().groups_invalidated() == (pre.flatland().groups_invalidated()
        && !due.instances)
    &&& post.flatland().draw_invalidated() == (pre.flatland().draw_invalidated() && !due.commands)
    &&& post.has_buffers() == (pre.has_buffers() || due.geometry)
    &&& post.staged_vertices() == if due.geometry {
        pre.flatland().all_vertices()
    } else {
        pre.staged_vertices()
    }
    &&& post.staged_indices() == if due.geometry {
        pre.flatland().all_indices()
    } else {
        pre.staged_indices()
    }
    &&& post.staged_groups() == if due.instances {
        pre.flatland().all_instances()
    } else {
        pre.staged_groups()
    }
    &&& post.staged_commands() == if due.commands {
        pre.flatland().all_commands()
    } else {
        pre.staged_commands()
    }
    &&& post.draw_enabled() == pre.draw_enabled()
    &&& post.wireframe() == pre.wireframe()
    &&& post.view_projection_location() == pre.view_projection_location()
    &&& post.multi_draw_indirect() == pre.multi_draw_indirect()
}

/// Everything but the registry is the same in `pre` and `post`.
pub open spec fn same_renderer(pre: Flatlander, post: Flatlander) -> bool {
    &&& post.has_buffers() == pre.has_buffers()
    &&& post.staged_vertices() == pre.staged_vertices()
    &&& post.staged_indices() == pre.staged_indices()
    &&& post.staged_groups() == pre.staged_groups()
    &&& post.staged_commands() == pre.staged_commands()
    &&& post.draw_enabled() == pre.draw_enabled()
    &&& post.wireframe() == pre.wireframe()
    &&& post.view_projection_location() == pre.view_projection_location()
    &&& post.multi_draw_indirect() == pre.multi_draw_indirect()
}

/// The steps of one frame, from the state before the resolve to the state
/// after it: the uploads that were due, then the draw if the buffers exist.
pub open spec fn frame_steps(pre: Flatlander, post: Flatlander) -> Seq<RenderStep> {
    upload_steps(uploads_due(pre)) + if post.has_buffers() {
        draw_steps(
            post.view_projection_location(),
            post.wireframe(),
            post.multi_draw_indirect(),
            post.staged_commands().len(),
        )
    } else {
        Seq::<RenderStep>::empty()
    }
}

impl Flatlander {
    /// The registry.
    pub closed spec fn flatland(&self) -> Flatland {
        self.flatland
    }

    /// The GPU buffers exist.
    pub closed spec fn has_buffers(&self) -> bool {
        self.buffers is Some
    }

    /// The staged vertex buffer; empty while the buffers do not exist.
    pub closed spec fn staged_vertices(&self) -> Seq<FlatlanderVertex> {
        match self.buffers {
            Some(buffers) => buffers.vertices(),
            None => Seq::empty(),
        }
    }

    /// The staged index buffer; empty while the buffers do not exist.
    pub closed spec fn staged_indices(&self) -> Seq<u16> {
        match self.buffers {
            Some(buffers) => buffers.indices(),
            None => Seq::empty(),
        }
    }

    /// The staged instance buffer; empty while the buffers do not exist.
    pub closed spec fn staged_groups(&self) -> Seq<FlatlanderGroupDrawData> {
        match self.buffers {
            Some(buffers) => buffers.groups(),
            None => Seq::empty(),
        }
    }

    /// The staged indirect-command buffer; empty while the buffers do not
    /// exist.
    pub closed spec fn staged_commands(&self) -> Seq<DrawIndirectCmd> {
        match self.buffers {
            Some(buffers) => buffers.indirect(),
            None => Seq::empty(),
        }
    }

    /// Drawing is switched on.
    pub closed spec fn draw_enabled(&self) -> bool {
        self.draw_enabled
    }

    /// Polygons are drawn as lines.
    pub closed spec fn wireframe(&self) -> bool {
        self.wireframe
    }

    /// Where the program takes the view-projection matrix, if it does.
    pub closed spec fn view_projection_location(&self) -> Option<i32> {
        self.program_view_projection_location
    }

    /// The driver has a multi-draw-indirect call.
    pub closed spec fn multi_draw_indirect(&self) -> bool {
        self.multi_draw_indirect
    }

    /// Every staged buffer whose flag is clear is up to date: the geometry
    /// buffers and the instance buffer hold what the registry gives for
    /// them, and there is one staged command for each live group.
    pub open spec fn in_sync(&self) -> bool {
        &&& !self.flatland().alphabets_invalidated() ==> {
            &&& self.staged_vertices() == self.flatland().all_vertices()
            &&& self.staged_indices() == self.flatland().all_indices()
        }
        &&& !self.flatland().groups_invalidated() ==> self.staged_groups()
            == self.flatland().all_instances()
        &&& !self.flatland().draw_invalidated() ==> self.staged_commands().len()
            == self.flatland().live_groups()
    }

    /// The registry is well formed, the staged buffers are in sync with it,
    /// and the staged commands can be counted in a signed 32-bit number.
    pub open spec fn wf(&self) -> bool {
        &&& self.flatland().wf()
        &&& self.in_sync()
        &&& self.staged_commands().len() <= MAX_GROUPS
    }

    /// This renderer with drawing switched the other way.
    pub closed spec fn toggled(self) -> Flatlander {
        Flatlander { draw_enabled: !self.draw_enabled, ..self }
    }

    /// This renderer with the wireframe switched the other way.
    pub closed spec fn wireframe_toggled(self) -> Flatlander {
        Flatlander { wireframe: !self.wireframe, ..self }
    }

    /// Each switch, thrown twice, is where it was.
    pub proof fn lemma_toggles_undo(flatlander: Flatlander)
        ensures
            flatlander.toggled().toggled() == flatlander,
            flatlander.wireframe_toggled().wireframe_toggled() == flatlander,
    {
    }

    /// A renderer with an empty registry and no buffers, drawing filled
    /// polygons. The uniform location and the driver's capability are fixed
    /// from here on.
    pub fn new(
        program_view_projection_location: Option<i32>,
        multi_draw_indirect: bool,
    ) -> (flatlander: Flatlander)
        ensures
            flatlander.wf(),
            flatlander.flatland().alphabets().len() == 0,
            flatlander.flatland().groups().len() == 0,
            !flatlander.flatland().alphabets_invalidated(),
            !flatlander.flatland().groups_invalidated(),
            !flatlander.flatland().draw_invalidated(),
            !flatlander.has_buffers(),
            flatlander.draw_enabled(),
            !flatlander.wireframe(),
            flatlander.view_projection_location() == program_view_projection_location,
            flatlander.multi_draw_indirect() == multi_draw_indirect,
    {
        Flatlander {
            program_view_projection_location,
            multi_draw_indirect,
            flatland: Flatland::new(),
            buffers: None,
            draw_enabled: true,
            wireframe: false,
        }
    }

    /// Switches drawing on or off. Nothing else changes.
    pub fn toggle(&mut self)
        ensures
            *final(self) == old(self).toggled(),
            final(self).draw_enabled() == !old(self).draw_enabled(),
            final(self).wireframe() == old(self).wireframe(),
            final(self).flatland() == old(self).flatland(),
            same_buffers(*old(self), *final(self)),
            old(self).wf() ==> final(self).wf(),
    {
        self.draw_enabled = !self.draw_enabled;
    }

    /// Switches between filled polygons and lines. Nothing else changes.
    pub fn toggle_wireframe(&mut self)
        ensures
            *final(self) == old(self).wireframe_toggled(),
            final(self).wireframe() == !old(self).wireframe(),
            final(self).draw_enabled() == old(self).draw_enabled(),
            final(self).flatland() == old(self).flatland(),
            same_buffers(*old(self), *final(self)),
            old(self).wf() ==> final(self).wf(),
    {
        self.wireframe = !self.wireframe;
    }

    /// Whether drawing is switched on.
    pub fn is_draw_enabled(&self) -> (b: bool)
        ensures
            b == self.draw_enabled(),
    {
        self.draw_enabled
    }

    /// Whether polygons are drawn as lines.
    pub fn is_wireframe(&self) -> (b: bool)
        ensures
            b == self.wireframe(),
    {
        self.wireframe
    }

    /// The registry, for reading.
    pub fn registry(&self) -> (flatland: &Flatland)
        ensures
            *flatland == self.flatland(),
    {
        &self.flatland
    }

    /// The staged buffers, once they exist.
    pub fn buffers(&self) -> (buffers: Option<&Buffers>)
        ensures
            buffers is Some == self.has_buffers(),
            buffers matches Some(staged) ==> {
                &&& staged.vertices() == self.staged_vertices()
                &&& staged.indices() == self.staged_indices()
                &&& staged.groups() == self.staged_groups()
                &&& staged.indirect() == self.staged_commands()
            },
    {
        self.buffers.as_ref()
    }
}

/// The buffers, the uniform location and the driver's capability are the
/// same in `pre` and `post`.
pub open spec fn same_buffers(pre: Flatlander, post: Flatlander) -> bool {
    &&& post.has_buffers() == pre.has_buffers()
    &&& post.staged_vertices() == pre.staged_vertices()
    &&& post.staged_indices() == pre.staged_indices()
    &&& post.staged_groups() == pre.staged_groups()
    &&& post.staged_commands() == pre.staged_commands()
    &&& post.view_projection_location() == pre.view_projection_location()
    &&& post.multi_draw_indirect() == pre.multi_draw_indirect()
}

impl Flatlander {
    /// Brings the staged buffers up to date, channel by channel: geometry
    /// first, allocating the buffers where they do not exist yet, then
    /// instance data, then draw commands. A channel whose flag is clear is
    /// left alone; instance data and commands wait, flags set, until the
    /// buffers exist.
    pub fn check_if_invalidated_and_reinitialize(&mut self) -> (uploads: Uploads)
        requires
            old(self).wf(),
        ensures
            final(self).wf(),
            uploads == uploads_due(*old(self)),
            resolved(*old(self), *final(self)),
    {
        let mut uploads = Uploads {
            allocate: false,
            geometry: false,
            instances: false,
            commands: false,
        };
        if self.flatland.alphabets_dirty() {
            let vertices = self.flatland.alphabet_vertices();
            let indices = self.flatland.alphabet_indices();
            let mut buffers = match self.buffers.take() {
                Some(buffers) => buffers,
                None => {
                    uploads.allocate = true;
                    Buffers::new()
                },
            };
            buffers.upload_vertices(vertices);
            buffers.upload_indices(indices);
            self.buffers = Some(buffers);
            self.flatland.clear_flags(true, false, false);
            uploads.geometry = true;
        }
        if self.flatland.groups_dirty() {
            match self.buffers.take() {
                Some(mut buffers) => {
                    buffers.upload_groups(self.flatland.groups_draw_data());
                    self.buffers = Some(buffers);
                    self.flatland.clear_flags(false, true, false);
                    uploads.instances = true;
                },
                None => {
                    return uploads;
                },
            }
        }
        if self.flatland.draw_dirty() {
            match self.buffers.take() {
                Some(mut buffers) => {
                    buffers.upload_draw_commands(self.flatland.draw_commands());
                    self.buffers = Some(buffers);
                    self.flatland.clear_flags(false, false, true);
                    uploads.commands = true;
                },
                None => {
                    return uploads;
                },
            }
        }
        uploads
    }

    /// The steps of one frame. With drawing switched off there are none and
    /// nothing changes. Otherwise the buffers are brought up to date, and if
    /// they exist the groups are drawn: with one call where the driver has
    /// multi-draw-indirect, else with one call per staged command.
    pub fn render(&mut self) -> (steps: Vec<RenderStep>)
        requires
            old(self).wf(),
        ensures
            final(self).wf(),
            !old(self).draw_enabled() ==> *final(self) == *old(self) && steps@
                == Seq::<RenderStep>::empty(),
            old(self).draw_enabled() ==> resolved(*old(self), *final(self)) && steps@
                == frame_steps(*old(self), *final(self)),
    {
        if !self.draw_enabled {
            return Vec::new();
        }
        let uploads = self.check_if_invalidated_and_reinitialize();
        let mut steps = plan_uploads(uploads);
        match &self.buffers {
            Some(buffers) => {
                let mut draw = plan_draw(
                    self.program_view_projection_location,
                    self.wireframe,
                    self.multi_draw_indirect,
                    buffers.indirect_len(),
                );
                steps.append(&mut draw);
            },
            None => {
                assert(steps@ =~= frame_steps(*old(self), *self));
            },
        }
        steps
    }

    /// Creates an alphabet and returns the first reference to it.
    pub fn create_alphabet(&mut self) -> (alphabet: Alphabet)
        requires
            old(self).wf(),
        ensures
            final(self).wf(),
            alphabet_created(old(self).flatland(), final(self).flatland(), alphabet.slot()),
            same_renderer(*old(self), *final(self)),
    {
        let slot = self.flatland.create_alphabet();
        proof {
            let i = slot.key.index as int;
            if !old(self).flatland.holds_geometry(i) {
                let pre = old(self).flatland.alphabets();
                let post = self.flatland.alphabets();
                if i < pre.len() {
                    assert(pre[i].value.vertices@ =~= post[i].value.vertices@);
                    assert(pre[i].value.indices@ =~= post[i].value.indices@);
                }
                lemma_geometry_unchanged(old(self).flatland, self.flatland, i);
            }
        }
        Alphabet { slot }
    }
}

impl Alphabet {
    /// The alphabet that this handle refers to.
    pub closed spec fn slot(&self) -> AlphabetSlot {
        self.slot
    }

    /// The alphabet that this handle refers to.
    pub fn get_slot(&self) -> (slot: AlphabetSlot)
        ensures
            slot == self.slot(),
    {
        self.slot
    }

    /// The index of the entry with the given id; `None` where the alphabet
    /// has no such entry or is no longer live.
    pub fn get_entry_index(&self, flatlander: &Flatlander, id: u32) -> (found: Option<usize>)
        ensures
            match found {
                Some(k) => {
                    &&& flatlander.flatland().alphabet_live(self.slot())
                    &&& k < flatlander.flatland().entries(self.slot()).len()
                    &&& flatlander.flatland().entries(self.slot())[k as int].id == id
                },
                None => !flatlander.flatland().alphabet_live(self.slot()) || !has_entry(
                    flatlander.flatland().entries(self.slot()),
                    id,
                ),
            },
    {
        flatlander.flatland.get_alphabet_entry_index(self.slot, id)
    }

    /// Adds an entry with its geometry and returns the entry's index; where
    /// the alphabet has an entry with this id already, returns that entry's
    /// index and changes nothing.
    pub fn add_entry(
        &self,
        flatlander: &mut Flatlander,
        id: u32,
        vertices: Vec<FlatlanderVertex>,
        indices: Vec<u16>,
    ) -> (index: usize)
        requires
            old(flatlander).wf(),
            old(flatlander).flatland().alphabet_live(self.slot()),
            old(flatlander).flatland().has_room_for_entry(
                self.slot(),
                id,
                vertices@.len(),
                indices@.len(),
            ),
        ensures
            final(flatlander).wf(),
            entry_added(
                old(flatlander).flatland(),
                final(flatlander).flatland(),
                self.slot(),
                id,
                vertices@,
                indices@,
                index,
            ),
            same_renderer(*old(flatlander), *final(flatlander)),
    {
        let index = flatlander.flatland.add_alphabet_entry(self.slot, id, vertices, indices);
        proof {
            if has_entry(old(flatlander).flatland.entries(self.slot), id) {
                lemma_geometry_unchanged(
                    old(flatlander).flatland,
                    flatlander.flatland,
                    self.slot.key.index as int,
                );
            }
        }
        index
    }

    /// Makes one more reference to the same alphabet.
    pub fn clone(&self, flatlander: &mut Flatlander) -> (alphabet: Alphabet)
        requires
            old(flatlander).wf(),
            old(flatlander).flatland().alphabet_live(self.slot()),
            old(flatlander).flatland().refcount(self.slot()) < usize::MAX,
        ensures
            final(flatlander).wf(),
            alphabet.slot() == self.slot(),
            reference_added(old(flatlander).flatland(), final(flatlander).flatland(), self.slot()),
            same_renderer(*old(flatlander), *final(flatlander)),
    {
        flatlander.flatland.inc_alphabet(self.slot);
        proof {
            lemma_geometry_unchanged(
                old(flatlander).flatland,
                flatlander.flatland,
                self.slot.key.index as int,
            );
        }
        Alphabet { slot: self.slot }
    }

    /// Gives this reference up. The alphabet is released with its last
    /// reference. The references that groups hold are theirs to give up, so
    /// there has to be one that no group holds.
    pub fn drop(self, flatlander: &mut Flatlander)
        requires
            old(flatlander).wf(),
            old(flatlander).flatland().alphabet_live(self.slot()),
            old(flatlander).flatland().free_references(self.slot()) > 0,
        ensures
            final(flatlander).wf(),
            reference_dropped(
                old(flatlander).flatland(),
                final(flatlander).flatland(),
                self.slot(),
            ),
            same_renderer(*old(flatlander), *final(flatlander)),
    {
        flatlander.flatland.dec_alphabet(self.slot);
        proof {
            lemma_geometry_unchanged(
                old(flatlander).flatland,
                flatlander.flatland,
                self.slot.key.index as int,
            );
        }
    }
}

/// `post` is `pre` after the group in `group` was deleted and the reference
/// to `alphabet` that it held was dropped.
pub open spec fn group_dropped(
    pre: Flatland,
    post: Flatland,
    group: GroupSlot,
    alphabet: AlphabetSlot,
) -> bool {
    exists|between: Flatland|
        between.wf() && #[trigger] group_deleted(pre, between, group) && reference_dropped(
            between,
            post,
            alphabet,
        )
}

impl FlatlandGroup {
    /// The group that this handle owns.
    pub closed spec fn slot(&self) -> GroupSlot {
        self.group_slot
    }

    /// The alphabet that the group holds a reference to.
    pub closed spec fn alphabet_slot(&self) -> AlphabetSlot {
        self.alphabet.slot
    }

    /// The group is live in `flatlander` and draws from the alphabet that
    /// this handle holds a reference to.
    pub open spec fn held_in(&self, flatlander: Flatlander) -> bool {
        &&& flatlander.flatland().group_live(self.slot())
        &&& flatlander.flatland().group(self.slot()).alphabet == self.alphabet_slot()
    }

    /// Whether the group is live in `flatlander` and draws from the alphabet
    /// that this handle holds a reference to.
    pub fn is_held_in(&self, flatlander: &Flatlander) -> (b: bool)
        ensures
            b == self.held_in(*flatlander),
    {
        flatlander.flatland.is_group_live(self.group_slot) && flatlander.flatland.group_alphabet(
            self.group_slot,
        ) == self.alphabet.slot
    }

    /// The group that this handle owns.
    pub fn get_slot(&self) -> (slot: GroupSlot)
        ensures
            slot == self.slot(),
    {
        self.group_slot
    }

    /// The alphabet that the group holds a reference to.
    pub fn get_alphabet_slot(&self) -> (slot: AlphabetSlot)
        ensures
            slot == self.alphabet_slot(),
    {
        self.alphabet.slot
    }

    /// Creates a group that draws from the alphabet of `alphabet` and takes
    /// that reference over: it is the group's from now on and is dropped
    /// with the group.
    pub fn new(
        flatlander: &mut Flatlander,
        transform: &Transform,
        color: Color,
        alphabet: Alphabet,
        items: Vec<FlatlandItem>,
    ) -> (group: FlatlandGroup)
        requires
            old(flatlander).wf(),
            old(flatlander).flatland().alphabet_live(alphabet.slot()),
            old(flatlander).flatland().free_references(alphabet.slot()) > 0,
            old(flatlander).flatland().has_room_for_group(items@.len()),
        ensures
            final(flatlander).wf(),
            group.alphabet_slot() == alphabet.slot(),
            group.held_in(*final(flatlander)),
            group_created(
                old(flatlander).flatland(),
                final(flatlander).flatland(),
                *transform,
                color,
                alphabet.slot(),
                items@,
                group.slot(),
            ),
            same_renderer(*old(flatlander), *final(flatlander)),
    {
        let group_slot = flatlander.flatland.create_flatland_group_with_items(
            transform,
            color,
            alphabet.slot,
            items,
        );
        proof {
            lemma_geometry_unchanged(
                old(flatlander).flatland,
                flatlander.flatland,
                alphabet.slot.key.index as int,
            );
        }
        FlatlandGroup { alphabet, group_slot }
    }

    /// Replaces the group's items.
    pub fn update_items(&self, flatlander: &mut Flatlander, items: Vec<FlatlandItem>)
        requires
            old(flatlander).wf(),
            old(flatlander).flatland().group_live(self.slot()),
            old(flatlander).flatland().has_room_for_items(self.slot(), items@.len()),
        ensures
            final(flatlander).wf(),
            items_updated(
                old(flatlander).flatland(),
                final(flatlander).flatland(),
                self.slot(),
                items@,
            ),
            same_renderer(*old(flatlander), *final(flatlander)),
    {
        flatlander.flatland.update_items(self.group_slot, items);
    }

    /// Replaces the group's transform.
    pub fn update_transform(&self, flatlander: &mut Flatlander, transform: &Transform)
        requires
            old(flatlander).wf(),
            old(flatlander).flatland().group_live(self.slot()),
        ensures
            final(flatlander).wf(),
            transform_updated(
                old(flatlander).flatland(),
                final(flatlander).flatland(),
                self.slot(),
                *transform,
            ),
            same_renderer(*old(flatlander), *final(flatlander)),
    {
        flatlander.flatland.update_transform(self.group_slot, transform);
        proof {
            lemma_live_groups_unchanged(
                old(flatlander).flatland,
                flatlander.flatland,
                self.group_slot.key.index as int,
            );
        }
    }

    /// Replaces the group's color.
    pub fn update_color(&self, flatlander: &mut Flatlander, color: Color)
        requires
            old(flatlander).wf(),
            old(flatlander).flatland().group_live(self.slot()),
        ensures
            final(flatlander).wf(),
            color_updated(
                old(flatlander).flatland(),
                final(flatlander).flatland(),
                self.slot(),
                color,
            ),
            same_renderer(*old(flatlander), *final(flatlander)),
    {
        flatlander.flatland.update_color(self.group_slot, color);
        proof {
            lemma_live_groups_unchanged(
                old(flatlander).flatland,
                flatlander.flatland,
                self.group_slot.key.index as int,
            );
        }
    }

    /// Deletes the group and drops the reference to its alphabet.
    pub fn drop(self, flatlander: &mut Flatlander)
        requires
            old(flatlander).wf(),
            self.held_in(*old(flatlander)),
        ensures
            final(flatlander).wf(),
            group_dropped(
                old(flatlander).flatland(),
                final(flatlander).flatland(),
                self.slot(),
                self.alphabet_slot(),
            ),
            same_renderer(*old(flatlander), *final(flatlander)),
    {
        flatlander.flatland.delete_flatland_group(self.group_slot);
        let ghost between = flatlander.flatland;
        flatlander.flatland.dec_alphabet(self.alphabet.slot);
        proof {
            assert(group_deleted(old(flatlander).flatland(), between, self.slot()));
            lemma_instances_unchanged(
                old(flatlander).flatland,
                between,
                self.group_slot.key.index as int,
            );
            lemma_geometry_unchanged(
                old(flatlander).flatland,
                between,
                self.alphabet.slot.key.index as int,
            );
            lemma_geometry_unchanged(
                between,
                flatlander.flatland,
                self.alphabet.slot.key.index as int,
            );
        }
    }
}

} // verus!
