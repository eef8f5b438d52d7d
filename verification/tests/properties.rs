use flatlander::buffers::Buffers;
use flatlander::flatland::Flatland;
use flatlander::model::{find_entry, AlphabetEntry, MAX_GROUPS};
use flatlander::slot_table::{SlotKey, SlotTable};
use flatlander::{
    plan_draw, plan_draw_calls, plan_uploads, Color, DrawIndirectCmd, FlatlandGroup, FlatlandItem,
    Flatlander, FlatlanderVertex, RenderStep, Transform, Uploads,
};

fn corner(n: u32) -> FlatlanderVertex {
    FlatlanderVertex { x: n, y: n + 1, normal_x: 0, normal_y: 0 }
}

fn shape(vertices: u32, indices: u16) -> (Vec<FlatlanderVertex>, Vec<u16>) {
    ((0..vertices).map(corner).collect(), (0..indices).collect())
}

fn plain() -> Transform {
    Transform { cells: [0; 16] }
}

fn red() -> Color {
    Color { r: 255, g: 0, b: 0, a: 255 }
}

fn at(entry: usize, x: i32, y: i32) -> FlatlandItem {
    FlatlandItem { alphabet_entry_index: entry, x_offset: x, y_offset: y }
}

#[test]
fn the_refcount_follows_the_handles_in_use() {
    let mut flatlander = Flatlander::new(None, true);
    let a = flatlander.create_alphabet();
    let slot = a.get_slot();
    let mut handles = vec![a];
    for expected in 2..=5usize {
        let next = handles[0].clone(&mut flatlander);
        handles.push(next);
        assert_eq!(flatlander.registry().alphabet_refcount(slot), expected);
    }
    let group = FlatlandGroup::new(&mut flatlander, &plain(), red(), handles.pop().unwrap(), vec![]);
    assert_eq!(flatlander.registry().alphabet_refcount(slot), 5);
    while let Some(handle) = handles.pop() {
        handle.drop(&mut flatlander);
        assert_eq!(flatlander.registry().alphabet_refcount(slot), handles.len() + 1);
    }
    assert!(flatlander.registry().is_alphabet_live(slot));
    group.drop(&mut flatlander);
    assert_eq!(flatlander.registry().alphabet_refcount(slot), 0);
    assert!(!flatlander.registry().is_alphabet_live(slot));
}

#[test]
fn a_released_slot_is_reused_under_a_new_key() {
    let mut flatlander = Flatlander::new(None, true);
    let first = flatlander.create_alphabet();
    let second = flatlander.create_alphabet();
    let (v, i) = shape(3, 3);
    first.add_entry(&mut flatlander, 42, v, i);
    let old = first.get_slot();
    assert_eq!(old.key.index, 0);
    assert_eq!(second.get_slot().key.index, 1);
    first.drop(&mut flatlander);
    let again = flatlander.create_alphabet();
    assert_eq!(again.get_slot().key.index, 0);
    assert_eq!(again.get_slot().key.generation, old.key.generation + 1);
    assert_ne!(again.get_slot(), old);
    assert!(!flatlander.registry().is_alphabet_live(old));
    assert_eq!(flatlander.registry().get_alphabet_entry_index(old, 42), None);
    assert_eq!(again.get_entry_index(&flatlander, 42), None);
    assert_eq!(flatlander.registry().alphabet_refcount(old), 0);
    assert_eq!(flatlander.registry().alphabet_refcount(again.get_slot()), 1);
    assert!(!flatlander.registry().can_add_alphabet_entry(old, 7, 0, 0));
}

#[test]
fn one_resolve_clears_every_flag_and_the_next_uploads_nothing() {
    let mut flatlander = Flatlander::new(None, true);
    let a = flatlander.create_alphabet();
    let (v, i) = shape(4, 6);
    a.add_entry(&mut flatlander, 1, v, i);
    let held = a.clone(&mut flatlander);
    let g = FlatlandGroup::new(&mut flatlander, &plain(), red(), held, vec![at(0, 1, 1)]);
    g.update_color(&mut flatlander, Color { r: 1, g: 2, b: 3, a: 4 });
    g.update_transform(&mut flatlander, &Transform { cells: [9; 16] });
    g.update_items(&mut flatlander, vec![at(0, 1, 1), at(0, 2, 2)]);
    let first = flatlander.check_if_invalidated_and_reinitialize();
    assert_eq!(first, Uploads { allocate: true, geometry: true, instances: true, commands: true });
    assert!(!flatlander.registry().alphabets_dirty());
    assert!(!flatlander.registry().groups_dirty());
    assert!(!flatlander.registry().draw_dirty());
    let second = flatlander.check_if_invalidated_and_reinitialize();
    assert_eq!(second, Uploads { allocate: false, geometry: false, instances: false, commands: false });
    let staged = flatlander.buffers().unwrap();
    assert_eq!(staged.staged_groups().len(), 2);
    assert_eq!(staged.staged_groups()[1].color, Color { r: 1, g: 2, b: 3, a: 4 });
    assert_eq!(staged.staged_groups()[1].transform.cells, [9; 16]);
    assert_eq!(staged.staged_groups()[1].x_offset, 2);
}

#[test]
fn each_mutation_marks_its_own_channels() {
    let mut flatlander = Flatlander::new(None, true);
    let a = flatlander.create_alphabet();
    let (v, i) = shape(3, 3);
    a.add_entry(&mut flatlander, 1, v, i);
    let held = a.clone(&mut flatlander);
    let g = FlatlandGroup::new(&mut flatlander, &plain(), red(), held, vec![at(0, 0, 0)]);
    flatlander.check_if_invalidated_and_reinitialize();

    g.update_color(&mut flatlander, red());
    let flags = |f: &Flatlander| (f.registry().alphabets_dirty(), f.registry().groups_dirty(), f.registry().draw_dirty());
    assert_eq!(flags(&flatlander), (false, true, false));
    flatlander.check_if_invalidated_and_reinitialize();

    g.update_transform(&mut flatlander, &plain());
    assert_eq!(flags(&flatlander), (false, true, false));
    flatlander.check_if_invalidated_and_reinitialize();

    g.update_items(&mut flatlander, vec![]);
    assert_eq!(flags(&flatlander), (false, true, true));
    flatlander.check_if_invalidated_and_reinitialize();

    let (v, i) = shape(3, 3);
    a.add_entry(&mut flatlander, 2, v, i);
    assert_eq!(flags(&flatlander), (true, false, false));
    flatlander.check_if_invalidated_and_reinitialize();

    g.drop(&mut flatlander);
    assert_eq!(flags(&flatlander), (false, false, true));
}

#[test]
fn groups_wait_for_the_buffers_with_their_flags_set() {
    let mut flatlander = Flatlander::new(None, true);
    let a = flatlander.create_alphabet();
    let _g = FlatlandGroup::new(&mut flatlander, &plain(), red(), a, vec![at(0, 0, 0)]);
    let uploads = flatlander.check_if_invalidated_and_reinitialize();
    assert_eq!(uploads, Uploads { allocate: false, geometry: false, instances: false, commands: false });
    assert!(flatlander.buffers().is_none());
    assert!(flatlander.registry().groups_dirty());
    assert!(flatlander.registry().draw_dirty());
    assert!(flatlander.render().is_empty());
    assert_eq!(flatlander.registry().groups_len(), 1);
}

#[test]
fn there_is_one_command_for_each_live_group() {
    let mut flatlander = Flatlander::new(None, true);
    let a = flatlander.create_alphabet();
    let (v, i) = shape(3, 3);
    a.add_entry(&mut flatlander, 1, v, i);
    let mut groups = Vec::new();
    for n in 0..4 {
        let held = a.clone(&mut flatlander);
        groups.push(FlatlandGroup::new(&mut flatlander, &plain(), red(), held, vec![at(0, n, n)]));
    }
    flatlander.check_if_invalidated_and_reinitialize();
    assert_eq!(flatlander.buffers().unwrap().staged_draw_commands().len(), 4);
    groups.remove(1).drop(&mut flatlander);
    groups.remove(1).drop(&mut flatlander);
    flatlander.check_if_invalidated_and_reinitialize();
    assert_eq!(flatlander.registry().groups_len(), 2);
    let commands = flatlander.buffers().unwrap().staged_draw_commands();
    assert_eq!(commands.len(), 2);
    assert_eq!(commands[0].base_instance, 0);
    assert_eq!(commands[1].base_instance, 3);
    assert_eq!(flatlander.buffers().unwrap().staged_groups().len(), 4);
}

#[test]
fn entries_keep_their_indices() {
    let mut flatlander = Flatlander::new(None, true);
    let a = flatlander.create_alphabet();
    let b = flatlander.create_alphabet();
    let (v, i) = shape(3, 3);
    let first = a.add_entry(&mut flatlander, 10, v, i);
    let (v, i) = shape(4, 6);
    let second = a.add_entry(&mut flatlander, 20, v, i);
    assert_ne!(first, second);
    let (v, i) = shape(5, 9);
    assert_eq!(b.add_entry(&mut flatlander, 10, v, i), 0);
    let c = a.clone(&mut flatlander);
    flatlander.render();
    c.drop(&mut flatlander);
    assert_eq!(a.get_entry_index(&flatlander, 10), Some(first));
    assert_eq!(a.get_entry_index(&flatlander, 20), Some(second));
    assert_eq!(b.get_entry_index(&flatlander, 20), None);
}

#[test]
fn an_id_that_is_taken_gives_its_entry_back() {
    let mut flatlander = Flatlander::new(None, true);
    let a = flatlander.create_alphabet();
    let (v, i) = shape(3, 3);
    assert_eq!(a.add_entry(&mut flatlander, 5, v, i), 0);
    flatlander.check_if_invalidated_and_reinitialize();
    let (v, i) = shape(8, 12);
    assert_eq!(a.add_entry(&mut flatlander, 5, v, i), 0);
    assert!(!flatlander.registry().alphabets_dirty());
    assert_eq!(flatlander.registry().alphabet_vertices_len(), 3);
    assert_eq!(flatlander.registry().alphabet_indices_len(), 3);
}

#[test]
fn toggling_twice_restores_the_switch() {
    let mut flatlander = Flatlander::new(None, true);
    assert!(flatlander.is_draw_enabled());
    assert!(!flatlander.is_wireframe());
    flatlander.toggle();
    assert!(!flatlander.is_draw_enabled());
    assert!(!flatlander.is_wireframe());
    flatlander.toggle();
    assert!(flatlander.is_draw_enabled());
    flatlander.toggle_wireframe();
    assert!(flatlander.is_wireframe());
    assert!(flatlander.is_draw_enabled());
    flatlander.toggle_wireframe();
    assert!(!flatlander.is_wireframe());
}

#[test]
fn commands_address_the_geometry_behind_the_lower_slots() {
    let mut flatland = Flatland::new();
    let a = flatland.create_alphabet();
    let b = flatland.create_alphabet();
    let (v, i) = shape(3, 3);
    flatland.add_alphabet_entry(a, 1, v, i);
    let (v, i) = shape(4, 6);
    flatland.add_alphabet_entry(a, 2, v, i);
    let (v, i) = shape(5, 9);
    flatland.add_alphabet_entry(b, 1, v, i);
    let (v, i) = shape(6, 12);
    flatland.add_alphabet_entry(b, 2, v, i);
    flatland.inc_alphabet(a);
    flatland.inc_alphabet(b);
    flatland.create_flatland_group_with_items(&plain(), red(), a, vec![at(1, 0, 0), at(1, 1, 0)]);
    flatland.create_flatland_group_with_items(&plain(), red(), b, vec![at(1, 0, 0), at(1, 1, 0), at(1, 2, 0)]);
    flatland.create_flatland_group_with_items(&plain(), red(), b, vec![]);
    flatland.create_flatland_group_with_items(&plain(), red(), a, vec![at(9, 0, 0)]);
    assert_eq!(flatland.alphabet_refcount(a), 2);
    assert_eq!(flatland.alphabet_group_refs(a), 2);
    assert!(!flatland.has_free_reference(a));
    assert_eq!(flatland.alphabet_vertices_len(), 18);
    assert_eq!(flatland.alphabet_indices_len(), 30);
    assert_eq!(flatland.groups_draw_data_len(), 6);
    assert_eq!(
        flatland.draw_commands(),
        vec![
            DrawIndirectCmd { count: 6, prim_count: 2, first_index: 3, base_vertex: 3, base_instance: 0 },
            DrawIndirectCmd { count: 12, prim_count: 3, first_index: 18, base_vertex: 12, base_instance: 2 },
            DrawIndirectCmd { count: 0, prim_count: 0, first_index: 0, base_vertex: 0, base_instance: 5 },
            DrawIndirectCmd { count: 0, prim_count: 1, first_index: 0, base_vertex: 0, base_instance: 5 },
        ]
    );
    let vertices = flatland.alphabet_vertices();
    assert_eq!(vertices.len(), 18);
    assert_eq!(vertices[3], corner(0));
    assert_eq!(vertices[12], corner(0));
    assert_eq!(vertices[17], corner(5));
    let indices = flatland.alphabet_indices();
    assert_eq!(indices[18..30], (0..12).collect::<Vec<u16>>()[..]);
    let instances = flatland.groups_draw_data();
    assert_eq!(instances.len(), 6);
    assert_eq!(instances[4].x_offset, 2);
    assert_eq!(instances[5].x_offset, 0);
}

#[test]
fn a_group_holds_its_reference_until_it_is_deleted() {
    let mut flatland = Flatland::new();
    let a = flatland.create_alphabet();
    assert!(flatland.has_free_reference(a));
    assert_eq!(flatland.alphabet_group_refs(a), 0);
    let (v, i) = shape(3, 3);
    flatland.add_alphabet_entry(a, 1, v, i);
    let g = flatland.create_flatland_group_with_items(&plain(), red(), a, vec![at(0, 0, 0)]);
    assert_eq!(flatland.alphabet_refcount(a), 1);
    assert_eq!(flatland.alphabet_group_refs(a), 1);
    assert!(!flatland.has_free_reference(a));
    assert_eq!(flatland.draw_commands()[0].count, 3);
    flatland.delete_flatland_group(g);
    assert_eq!(flatland.alphabet_refcount(a), 1);
    assert_eq!(flatland.alphabet_group_refs(a), 0);
    assert!(flatland.has_free_reference(a));
    assert!(flatland.draw_commands().is_empty());
    flatland.dec_alphabet(a);
    assert!(!flatland.is_alphabet_live(a));
    assert!(!flatland.has_free_reference(a));
    assert_eq!(flatland.alphabet_group_refs(a), 0);
}

#[test]
fn room_is_checked_against_the_32_bit_offsets() {
    let mut flatland = Flatland::new();
    let a = flatland.create_alphabet();
    assert!(flatland.can_add_alphabet_entry(a, 1, u32::MAX as usize, u32::MAX as usize));
    let (v, i) = shape(3, 3);
    flatland.add_alphabet_entry(a, 1, v, i);
    assert!(!flatland.can_add_alphabet_entry(a, 2, u32::MAX as usize, 0));
    assert!(flatland.can_add_alphabet_entry(a, 2, u32::MAX as usize - 3, u32::MAX as usize - 3));
    assert!(flatland.can_add_alphabet_entry(a, 1, u32::MAX as usize, 0));
    assert!(flatland.can_create_group(u32::MAX as usize));
    flatland.inc_alphabet(a);
    let g = flatland.create_flatland_group_with_items(&plain(), red(), a, vec![at(0, 0, 0), at(0, 1, 1)]);
    assert!(!flatland.can_create_group(u32::MAX as usize - 1));
    assert!(flatland.can_create_group(u32::MAX as usize - 2));
    assert!(flatland.can_update_items(g, u32::MAX as usize));
    let h = flatland.create_flatland_group_with_items(&plain(), red(), a, vec![at(0, 0, 0)]);
    assert!(!flatland.can_update_items(g, u32::MAX as usize));
    assert!(flatland.can_update_items(g, u32::MAX as usize - 1));
    flatland.delete_flatland_group(h);
    assert!(!flatland.can_update_items(h, 0));
    assert!(flatland.can_create_group(u32::MAX as usize - 2));
    assert!(!flatland.can_create_group(u32::MAX as usize - 1));
    assert_eq!(flatland.group_alphabet(g), a);
    assert_eq!(MAX_GROUPS, i32::MAX as usize);
}

#[test]
fn slot_table_hands_out_the_last_released_index_first() {
    let mut table: SlotTable<u8> = SlotTable::new();
    let a = table.insert(10);
    let b = table.insert(20);
    let c = table.insert(30);
    assert_eq!((a.index, b.index, c.index), (0, 1, 2));
    assert_eq!(a.generation, 0);
    assert_eq!(table.peek_next_index(), 3);
    table.release(a);
    table.release(c);
    assert_eq!(table.len(), 3);
    assert!(!table.is_live(a));
    assert!(table.is_live(b));
    let left = table.record(2);
    assert_eq!((left.value, left.generation, left.live), (30, 1, false));
    assert_eq!(table.peek_next_index(), 2);
    let d = table.insert(40);
    assert_eq!(d, SlotKey { index: 2, generation: 1 });
    assert_eq!(*table.get(d), 40);
    assert!(!table.is_live(c));
    let e = table.insert(50);
    assert_eq!(e, SlotKey { index: 0, generation: 1 });
    let f = table.insert(60);
    assert_eq!(f, SlotKey { index: 3, generation: 0 });
    *table.get_mut(f) = 61;
    assert_eq!(*table.get(f), 61);
    assert!(!table.is_live(SlotKey { index: 9, generation: 0 }));
}

#[test]
fn find_entry_returns_the_position_of_the_id() {
    let entry = |id: u32| AlphabetEntry { id, vertex_start: 0, vertex_count: 0, index_start: 0, index_count: 0 };
    let entries = vec![entry(7), entry(3), entry(9)];
    assert_eq!(find_entry(&entries, 7), Some(0));
    assert_eq!(find_entry(&entries, 9), Some(2));
    assert_eq!(find_entry(&entries, 4), None);
    assert_eq!(find_entry(&Vec::new(), 4), None);
}

#[test]
fn the_staging_copy_holds_the_last_upload_of_each_buffer() {
    let mut buffers = Buffers::new();
    assert_eq!(buffers.indirect_len(), 0);
    buffers.upload_vertices(vec![corner(1), corner(2)]);
    buffers.upload_indices(vec![0, 1]);
    buffers.upload_draw_commands(vec![
        DrawIndirectCmd { count: 2, prim_count: 1, first_index: 0, base_vertex: 0, base_instance: 0 },
    ]);
    assert_eq!(buffers.staged_vertices(), &vec![corner(1), corner(2)]);
    assert_eq!(buffers.staged_indices(), &vec![0u16, 1]);
    assert!(buffers.staged_groups().is_empty());
    assert_eq!(buffers.indirect_len(), 1);
    buffers.upload_vertices(vec![corner(3)]);
    assert_eq!(buffers.staged_vertices(), &vec![corner(3)]);
    assert_eq!(buffers.staged_indices(), &vec![0u16, 1]);
    assert_eq!(buffers.staged_draw_commands().len(), 1);
}

#[test]
fn upload_steps_come_in_channel_order() {
    assert!(plan_uploads(Uploads { allocate: false, geometry: false, instances: false, commands: false }).is_empty());
    assert_eq!(
        plan_uploads(Uploads { allocate: false, geometry: false, instances: true, commands: true }),
        vec![RenderStep::UploadGroups, RenderStep::UploadDrawCommands]
    );
    assert_eq!(
        plan_uploads(Uploads { allocate: false, geometry: true, instances: false, commands: false }),
        vec![RenderStep::UploadVertices, RenderStep::UploadIndices]
    );
}

#[test]
fn draw_calls_follow_the_capability() {
    assert_eq!(
        plan_draw_calls(true, 0),
        vec![RenderStep::MultiDrawElementsIndirect { count: 0, stride: 20 }]
    );
    assert_eq!(
        plan_draw_calls(true, 5),
        vec![RenderStep::MultiDrawElementsIndirect { count: 5, stride: 20 }]
    );
    assert!(plan_draw_calls(false, 0).is_empty());
    assert_eq!(
        plan_draw_calls(false, 2),
        vec![RenderStep::DrawElementsIndirect { offset: 0 }, RenderStep::DrawElementsIndirect { offset: 20 }]
    );
    let many = plan_draw_calls(false, 1000);
    assert_eq!(many.len(), 1000);
    assert_eq!(many[999], RenderStep::DrawElementsIndirect { offset: 19980 });
}

#[test]
fn a_draw_sets_the_uniform_only_where_the_program_has_it() {
    let with = plan_draw(Some(4), false, true, 1);
    assert_eq!(with[1], RenderStep::SetViewProjection { location: 4 });
    assert_eq!(with.len(), 10);
    let without = plan_draw(None, false, true, 1);
    assert_eq!(without.len(), 9);
    assert!(!without.iter().any(|step| matches!(step, RenderStep::SetViewProjection { .. })));
    let lines = plan_draw(None, true, true, 1);
    assert_eq!(lines[5], RenderStep::PolygonModeLine);
    assert_eq!(lines[7], RenderStep::PolygonModeFill);
    assert_eq!(lines.len(), 11);
}
