//! The records that go to the GPU and the staging copy of its four buffers.
//!
//! Floating-point attributes are carried as the bit patterns of their
//! single-precision values: nothing here computes with them.

use vstd::prelude::*;

verus! {

/// The size in bytes of one `DrawIndirectCmd` as the driver reads it.
pub const DRAW_INDIRECT_CMD_SIZE: u64 = 20;

/// One vertex of glyph geometry: position and normal, each component the bit
/// pattern of a single-precision value.
#[derive(Clone, Copy, Debug, PartialEq, Eq, Structural)]
pub struct FlatlanderVertex {
    pub x: u32,
    pub y: u32,
    pub normal_x: u32,
    pub normal_y: u32,
}

/// An RGBA color, eight bits per channel.
#[derive(Clone, Copy, Debug, PartialEq, Eq, Structural)]
pub struct Color {
    pub r: u8,
    pub g: u8,
    pub b: u8,
    pub a: u8,
}

/// A 4x4 transform in column-major order, each cell the bit pattern of a
/// single-precision value.
#[derive(Clone, Copy, Debug)]
pub struct Transform {
    pub cells: [u32; 16],
}

/// The per-instance record: one placed item together with the transform and
/// color of the group that places it.
#[derive(Clone, Copy, Debug)]
pub struct FlatlanderGroupDrawData {
    pub x_offset: i32,
    pub y_offset: i32,
    pub transform: Transform,
    pub color: Color,
}

/// One indexed, instanced draw in the layout of the driver's indirect-draw
/// record: five consecutive 32-bit words.
#[derive(Clone, Copy, Debug, PartialEq, Eq, Structural)]
pub struct DrawIndirectCmd {
    /// The number of indices to draw.
    pub count: u32,
    /// The number of instances to draw.
    pub prim_count: u32,
    /// Where the indices start in the shared index buffer.
    pub first_index: u32,
    /// What is added to each index before it selects a vertex.
    pub base_vertex: u32,
    /// Where the instances start in the instance buffer.
    pub base_instance: u32,
}

/// The staging copy of the GPU buffers: what the last upload of each buffer
/// held.
pub struct Buffers {
    vertices: Vec<FlatlanderVertex>,
    indices: Vec<u16>,
    groups: Vec<FlatlanderGroupDrawData>,
    indirect: Vec<DrawIndirectCmd>,
}

impl Buffers {
    /// The staged vertex buffer.
    pub closed spec fn vertices(&self) -> Seq<FlatlanderVertex> {
        self.vertices@
    }

    /// The staged index buffer.
    pub closed spec fn indices(&self) -> Seq<u16> {
        self.indices@
    }

    /// The staged instance buffer.
    pub closed spec fn groups(&self) -> Seq<FlatlanderGroupDrawData> {
        self.groups@
    }

    /// The staged indirect-command buffer.
    pub closed spec fn indirect(&self) -> Seq<DrawIndirectCmd> {
        self.indirect@
    }

    /// Four empty buffers.
    pub fn new() -> (buffers: Buffers)
        ensures
            buffers.vertices() =~= Seq::<FlatlanderVertex>::empty(),
            buffers.indices() =~= Seq::<u16>::empty(),
            buffers.groups() =~= Seq::<FlatlanderGroupDrawData>::empty(),
            buffers.indirect() =~= Seq::<DrawIndirectCmd>::empty(),
    {
        Buffers {
            vertices: Vec::new(),
            indices: Vec::new(),
            groups: Vec::new(),
            indirect: Vec::new(),
        }
    }

    /// Replaces the vertex buffer.
    pub fn upload_vertices(&mut self, data: Vec<FlatlanderVertex>)
        ensures
            final(self).vertices() == data@,
            final(self).indices() == old(self).indices(),
            final(self).groups() == old(self).groups(),
            final(self).indirect() == old(self).indirect(),
    {
        self.vertices = data;
    }

    /// Replaces the index buffer.
    pub fn upload_indices(&mut self, data: Vec<u16>)
        ensures
            final(self).indices() == data@,
            final(self).vertices() == old(self).vertices(),
            final(self).groups() == old(self).groups(),
            final(self).indirect() == old(self).indirect(),
    {
        self.indices = data;
    }

    /// Replaces the instance buffer.
    pub fn upload_groups(&mut self, data: Vec<FlatlanderGroupDrawData>)
        ensures
            final(self).groups() == data@,
            final(self).vertices() == old(self).vertices(),
            final(self).indices() == old(self).indices(),
            final(self).indirect() == old(self).indirect(),
    {
        self.groups = data;
    }

    /// Replaces the indirect-command buffer.
    pub fn upload_draw_commands(&mut self, data: Vec<DrawIndirectCmd>)
        ensures
            final(self).indirect() == data@,
            final(self).vertices() == old(self).vertices(),
            final(self).indices() == old(self).indices(),
            final(self).groups() == old(self).groups(),
    {
        self.indirect = data;
    }

    /// The staged vertices, for handing to the GPU.
    pub fn staged_vertices(&self) -> (data: &Vec<FlatlanderVertex>)
        ensures
            data@ == self.vertices(),
    {
        &self.vertices
    }

    /// The staged indices, for handing to the GPU.
    pub fn staged_indices(&self) -> (data: &Vec<u16>)
        ensures
            data@ == self.indices(),
    {
        &self.indices
    }

    /// The staged instance records, for handing to the GPU.
    pub fn staged_groups(&self) -> (data: &Vec<FlatlanderGroupDrawData>)
        ensures
            data@ == self.groups(),
    {
        &self.groups
    }

    /// The staged indirect commands, for handing to the GPU.
    pub fn staged_draw_commands(&self) -> (data: &Vec<DrawIndirectCmd>)
        ensures
            data@ == self.indirect(),
    {
        &self.indirect
    }

    /// The number of staged indirect commands.
    pub fn indirect_len(&self) -> (n: usize)
        ensures
            n == self.indirect().len(),
    {
        self.indirect.len()
    }
}

} // verus!
