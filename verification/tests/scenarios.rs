use flatlander::model::AlphabetSlot;
use flatlander::{
    Color, DrawIndirectCmd, FlatlandGroup, FlatlandItem, Flatlander, FlatlanderVertex, RenderStep,
    Transform, Uploads,
};

fn vertex(x: f32, y: f32) -> FlatlanderVertex {
    FlatlanderVertex { x: x.to_bits(), y: y.to_bits(), normal_x: 0f32.to_bits(), normal_y: 1f32.to_bits() }
}

fn triangle() -> (Vec<FlatlanderVertex>, Vec<u16>) {
    (vec![vertex(0.0, 0.0), vertex(1.0, 0.0), vertex(0.0, 1.0)], vec![0, 1, 2])
}

fn quad() -> (Vec<FlatlanderVertex>, Vec<u16>) {
    (
        vec![vertex(0.0, 0.0), vertex(1.0, 0.0), vertex(1.0, 1.0), vertex(0.0, 1.0)],
        vec![0, 1, 2, 0, 2, 3],
    )
}

fn identity() -> Transform {
    let mut cells = [0u32; 16];
    cells[0] = 1f32.to_bits();
    cells[5] = 1f32.to_bits();
    cells[10] = 1f32.to_bits();
    cells[15] = 1f32.to_bits();
    Transform { cells }
}

fn white() -> Color {
    Color { r: 255, g: 255, b: 255, a: 255 }
}

fn item(entry: usize, x: i32, y: i32) -> FlatlandItem {
    FlatlandItem { alphabet_entry_index: entry, x_offset: x, y_offset: y }
}

fn refcount(flatlander: &Flatlander, slot: AlphabetSlot) -> usize {
    flatlander.registry().alphabet_refcount(slot)
}

#[test]
fn entries_are_numbered_in_the_order_they_are_added() {
    let mut flatlander = Flatlander::new(Some(0), true);
    let a = flatlander.create_alphabet();
    let (v1, i1) = triangle();
    let (v2, i2) = quad();
    assert_eq!(a.add_entry(&mut flatlander, 1, v1, i1), 0);
    assert_eq!(a.add_entry(&mut flatlander, 2, v2, i2), 1);
    assert_eq!(a.get_entry_index(&flatlander, 1), Some(0));
    assert_eq!(a.get_entry_index(&flatlander, 2), Some(1));
    assert_eq!(a.get_entry_index(&flatlander, 3), None);
    assert!(flatlander.registry().alphabets_dirty());
}

#[test]
fn cloning_and_dropping_handles_moves_the_refcount() {
    let mut flatlander = Flatlander::new(Some(0), true);
    let a = flatlander.create_alphabet();
    let slot = a.get_slot();
    assert_eq!(refcount(&flatlander, slot), 1);
    let b = a.clone(&mut flatlander);
    assert_eq!(b.get_slot(), slot);
    assert_eq!(refcount(&flatlander, slot), 2);
    a.drop(&mut flatlander);
    assert_eq!(refcount(&flatlander, slot), 1);
    assert!(flatlander.registry().is_alphabet_live(slot));
    b.drop(&mut flatlander);
    assert_eq!(refcount(&flatlander, slot), 0);
    assert!(!flatlander.registry().is_alphabet_live(slot));
    assert!(!flatlander.registry().alphabets_dirty());
}

#[test]
fn releasing_an_alphabet_with_geometry_leaves_the_geometry_flag_alone() {
    let mut flatlander = Flatlander::new(Some(0), true);
    let a = flatlander.create_alphabet();
    let (v, i) = triangle();
    a.add_entry(&mut flatlander, 1, v, i);
    flatlander.render();
    assert!(!flatlander.registry().alphabets_dirty());
    a.drop(&mut flatlander);
    assert!(!flatlander.registry().alphabets_dirty());
    assert_eq!(flatlander.registry().alphabet_vertices_len(), 3);
    let b = flatlander.create_alphabet();
    assert!(flatlander.registry().alphabets_dirty());
    assert_eq!(flatlander.registry().alphabet_vertices_len(), 0);
    assert_eq!(b.get_entry_index(&flatlander, 1), None);
}

#[test]
fn one_group_gives_one_indirect_command() {
    let mut flatlander = Flatlander::new(Some(0), true);
    let a = flatlander.create_alphabet();
    let (v, i) = triangle();
    a.add_entry(&mut flatlander, 1, v, i);
    let held = a.clone(&mut flatlander);
    let g = FlatlandGroup::new(&mut flatlander, &identity(), white(), held, vec![item(0, 10, 20)]);
    let uploads = flatlander.check_if_invalidated_and_reinitialize();
    assert_eq!(uploads, Uploads { allocate: true, geometry: true, instances: true, commands: true });
    let buffers = flatlander.buffers().unwrap();
    assert_eq!(
        buffers.staged_draw_commands(),
        &vec![DrawIndirectCmd { count: 3, prim_count: 1, first_index: 0, base_vertex: 0, base_instance: 0 }]
    );
    assert_eq!(buffers.staged_groups().len(), 1);
    assert_eq!(buffers.staged_groups()[0].x_offset, 10);
    assert_eq!(buffers.staged_groups()[0].y_offset, 20);
    assert_eq!(buffers.staged_groups()[0].color, white());
    assert_eq!(buffers.staged_groups()[0].transform.cells, identity().cells);
    assert_eq!(buffers.staged_vertices().len(), 3);
    assert_eq!(buffers.staged_indices(), &vec![0u16, 1, 2]);
    assert!(flatlander.registry().is_group_live(g.get_slot()));
    assert_eq!(g.get_alphabet_slot(), a.get_slot());
    assert!(g.is_held_in(&flatlander));
    assert_eq!(flatlander.registry().group_alphabet(g.get_slot()), a.get_slot());
    assert_eq!(flatlander.registry().alphabet_group_refs(a.get_slot()), 1);
    assert!(flatlander.registry().has_free_reference(a.get_slot()));
    a.drop(&mut flatlander);
    assert!(!flatlander.registry().has_free_reference(g.get_alphabet_slot()));
    assert!(flatlander.registry().is_alphabet_live(g.get_alphabet_slot()));
    let other = Flatlander::new(None, false);
    assert!(!g.is_held_in(&other));
}

#[test]
fn deleting_the_group_empties_the_command_list_and_drops_one_reference() {
    let mut flatlander = Flatlander::new(Some(0), true);
    let a = flatlander.create_alphabet();
    let slot = a.get_slot();
    let (v, i) = triangle();
    a.add_entry(&mut flatlander, 1, v, i);
    let held = a.clone(&mut flatlander);
    let g = FlatlandGroup::new(&mut flatlander, &identity(), white(), held, vec![item(0, 10, 20)]);
    flatlander.check_if_invalidated_and_reinitialize();
    assert_eq!(refcount(&flatlander, slot), 2);
    let group_slot = g.get_slot();
    g.drop(&mut flatlander);
    assert_eq!(refcount(&flatlander, slot), 1);
    assert!(!flatlander.registry().is_group_live(group_slot));
    assert!(flatlander.registry().draw_dirty());
    assert!(!flatlander.registry().groups_dirty());
    let uploads = flatlander.check_if_invalidated_and_reinitialize();
    assert_eq!(uploads, Uploads { allocate: false, geometry: false, instances: false, commands: true });
    assert!(flatlander.buffers().unwrap().staged_draw_commands().is_empty());
    assert_eq!(flatlander.registry().groups_len(), 0);
}

#[test]
fn render_before_anything_exists_does_nothing() {
    let mut flatlander = Flatlander::new(Some(3), true);
    let steps = flatlander.render();
    assert!(steps.is_empty());
    assert!(flatlander.buffers().is_none());
}

#[test]
fn render_with_drawing_disabled_touches_nothing() {
    let mut flatlander = Flatlander::new(Some(3), true);
    let a = flatlander.create_alphabet();
    let (v, i) = triangle();
    a.add_entry(&mut flatlander, 1, v, i);
    let _g = FlatlandGroup::new(&mut flatlander, &identity(), white(), a, vec![item(0, 0, 0)]);
    flatlander.toggle();
    assert!(!flatlander.is_draw_enabled());
    let steps = flatlander.render();
    assert!(steps.is_empty());
    assert!(flatlander.buffers().is_none());
    assert!(flatlander.registry().alphabets_dirty());
    assert!(flatlander.registry().groups_dirty());
    assert!(flatlander.registry().draw_dirty());
}

#[test]
fn a_frame_uploads_then_draws_with_one_multi_draw_call() {
    let mut flatlander = Flatlander::new(Some(7), true);
    let a = flatlander.create_alphabet();
    let (v, i) = triangle();
    a.add_entry(&mut flatlander, 1, v, i);
    let h1 = a.clone(&mut flatlander);
    let h2 = a.clone(&mut flatlander);
    let _g1 = FlatlandGroup::new(&mut flatlander, &identity(), white(), h1, vec![item(0, 0, 0)]);
    let _g2 = FlatlandGroup::new(&mut flatlander, &identity(), white(), h2, vec![item(0, 5, 5)]);
    let steps = flatlander.render();
    assert_eq!(
        steps,
        vec![
            RenderStep::AllocateBuffers,
            RenderStep::UploadVertices,
            RenderStep::UploadIndices,
            RenderStep::UploadGroups,
            RenderStep::UploadDrawCommands,
            RenderStep::UseProgram,
            RenderStep::SetViewProjection { location: 7 },
            RenderStep::BindVertexArray,
            RenderStep::BindIndirectBuffer,
            RenderStep::SetDefaultBlendFunc,
            RenderStep::FrontFaceCw,
            RenderStep::MultiDrawElementsIndirect { count: 2, stride: 20 },
            RenderStep::FrontFaceCcw,
            RenderStep::UnbindIndirectBuffer,
            RenderStep::UnbindVertexArray,
        ]
    );
}

#[test]
fn without_multi_draw_each_command_gets_its_own_call() {
    let mut flatlander = Flatlander::new(None, false);
    let a = flatlander.create_alphabet();
    let (v, i) = triangle();
    a.add_entry(&mut flatlander, 1, v, i);
    let h1 = a.clone(&mut flatlander);
    let h2 = a.clone(&mut flatlander);
    let h3 = a.clone(&mut flatlander);
    let _g1 = FlatlandGroup::new(&mut flatlander, &identity(), white(), h1, vec![item(0, 0, 0)]);
    let _g2 = FlatlandGroup::new(&mut flatlander, &identity(), white(), h2, vec![item(0, 5, 5)]);
    let _g3 = FlatlandGroup::new(&mut flatlander, &identity(), white(), h3, vec![item(0, 9, 9)]);
    flatlander.toggle_wireframe();
    flatlander.check_if_invalidated_and_reinitialize();
    let steps = flatlander.render();
    assert_eq!(
        steps,
        vec![
            RenderStep::UseProgram,
            RenderStep::BindVertexArray,
            RenderStep::BindIndirectBuffer,
            RenderStep::SetDefaultBlendFunc,
            RenderStep::FrontFaceCw,
            RenderStep::PolygonModeLine,
            RenderStep::DrawElementsIndirect { offset: 0 },
            RenderStep::DrawElementsIndirect { offset: 20 },
            RenderStep::DrawElementsIndirect { offset: 40 },
            RenderStep::PolygonModeFill,
            RenderStep::FrontFaceCcw,
            RenderStep::UnbindIndirectBuffer,
            RenderStep::UnbindVertexArray,
        ]
    );
}
