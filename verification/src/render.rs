//! The steps of a frame: what is to be done against the graphics driver, in
//! order.

use vstd::prelude::*;
use crate::buffers::DRAW_INDIRECT_CMD_SIZE;
use crate::model::MAX_GROUPS;

verus! {

/// Which buffers a resolve has staged anew.
#[derive(Clone, Copy, Debug, PartialEq, Eq, Structural)]
pub struct Uploads {
    /// The buffers did not exist and have to be allocated first.
    pub allocate: bool,
    /// The vertex and index buffers.
    pub geometry: bool,
    /// The instance buffer.
    pub instances: bool,
    /// The indirect-command buffer.
    pub commands: bool,
}

/// One thing to do against the graphics driver.
#[derive(Clone, Copy, Debug, PartialEq, Eq, Structural)]
pub enum RenderStep {
    /// Create the GPU buffers.
    AllocateBuffers,
    /// Send the staged vertices.
    UploadVertices,
    /// Send the staged indices.
    UploadIndices,
    /// Send the staged instance records.
    UploadGroups,
    /// Send the staged indirect commands.
    UploadDrawCommands,
    /// Make the shader program current.
    UseProgram,
    /// Set the view-projection matrix at this uniform location.
    SetViewProjection { location: i32 },
    /// Bind the vertex array.
    BindVertexArray,
    /// Bind the indirect-command buffer.
    BindIndirectBuffer,
    /// Set the default blend function.
    SetDefaultBlendFunc,
    /// Make clockwise the front face.
    FrontFaceCw,
    /// Draw polygons as lines.
    PolygonModeLine,
    /// One call that draws `count` commands, `stride` bytes apart, from the
    /// start of the indirect-command buffer.
    MultiDrawElementsIndirect { count: i32, stride: i32 },
    /// One call that draws the command `offset` bytes into the
    /// indirect-command buffer.
    DrawElementsIndirect { offset: u64 },
    /// Draw polygons filled.
    PolygonModeFill,
    /// Make counter-clockwise the front face.
    FrontFaceCcw,
    /// Unbind the indirect-command buffer.
    UnbindIndirectBuffer,
    /// Unbind the vertex array.
    UnbindVertexArray,
}

/// The steps that carry out the uploads: allocation first, then geometry,
/// instance data and commands.
pub open spec fn upload_steps(due: Uploads) -> Seq<RenderStep> {
    (if due.allocate {
        seq![RenderStep::AllocateBuffers]
    } else {
        Seq::<RenderStep>::empty()
    }) + (if due.geometry {
        seq![RenderStep::UploadVertices, RenderStep::UploadIndices]
    } else {
        Seq::<RenderStep>::empty()
    }) + (if due.instances {
        seq![RenderStep::UploadGroups]
    } else {
        Seq::<RenderStep>::empty()
    }) + (if due.commands {
        seq![RenderStep::UploadDrawCommands]
    } else {
        Seq::<RenderStep>::empty()
    })
}

/// The draw calls for `commands` staged commands: one multi-draw call where
/// the driver has it, else one call per command, in order, each at the byte
/// offset of its command.
pub open spec fn draw_calls(multi_draw_indirect: bool, commands: nat) -> Seq<RenderStep> {
    if multi_draw_indirect {
        seq![
            RenderStep::MultiDrawElementsIndirect {
                count: commands as i32,
                stride: DRAW_INDIRECT_CMD_SIZE as i32,
            },
        ]
    } else {
        Seq::new(
            commands,
            |i: int| RenderStep::DrawElementsIndirect { offset: (i * DRAW_INDIRECT_CMD_SIZE) as u64 },
        )
    }
}

/// The steps of one draw: program and uniform, bindings, blend and winding,
/// the wireframe switch around the draw calls, and the way back.
pub open spec fn draw_steps(
    location: Option<i32>,
    wireframe: bool,
    multi_draw_indirect: bool,
    commands: nat,
) -> Seq<RenderStep> {
    seq![RenderStep::UseProgram] + (match location {
        Some(location) => seq![RenderStep::SetViewProjection { location }],
        None => Seq::<RenderStep>::empty(),
    }) + seq![
        RenderStep::BindVertexArray,
        RenderStep::BindIndirectBuffer,
        RenderStep::SetDefaultBlendFunc,
        RenderStep::FrontFaceCw,
    ] + (if wireframe {
        seq![RenderStep::PolygonModeLine]
    } else {
        Seq::<RenderStep>::empty()
    }) + draw_calls(multi_draw_indirect, commands) + (if wireframe {
        seq![RenderStep::PolygonModeFill]
    } else {
        Seq::<RenderStep>::empty()
    }) + seq![
        RenderStep::FrontFaceCcw,
        RenderStep::UnbindIndirectBuffer,
        RenderStep::UnbindVertexArray,
    ]
}

/// The steps that carry out `uploads`.
pub fn plan_uploads(uploads: Uploads) -> (steps: Vec<RenderStep>)
    ensures
        steps@ == upload_steps(uploads),
{
    let mut steps: Vec<RenderStep> = Vec::new();
    if uploads.allocate {
        steps.push(RenderStep::AllocateBuffers);
    }
    if uploads.geometry {
        steps.push(RenderStep::UploadVertices);
        steps.push(RenderStep::UploadIndices);
    }
    if uploads.instances {
        steps.push(RenderStep::UploadGroups);
    }
    if uploads.commands {
        steps.push(RenderStep::UploadDrawCommands);
    }
    assert(steps@ =~= upload_steps(uploads));
    steps
}

/// The draw calls for `commands` staged commands.
pub fn plan_draw_calls(multi_draw_indirect: bool, commands: usize) -> (steps: Vec<RenderStep>)
    requires
        commands <= MAX_GROUPS,
    ensures
        steps@ == draw_calls(multi_draw_indirect, commands as nat),
{
    let mut steps: Vec<RenderStep> = Vec::new();
    if multi_draw_indirect {
        steps.push(
            RenderStep::MultiDrawElementsIndirect {
                count: commands as i32,
                stride: DRAW_INDIRECT_CMD_SIZE as i32,
            },
        );
        assert(steps@ =~= draw_calls(multi_draw_indirect, commands as nat));
    } else {
        let mut i: usize = 0;
        while i < commands
            invariant
                i <= commands <= MAX_GROUPS,
                steps@ == draw_calls(false, i as nat),
            decreases commands - i,
        {
            let offset: u64 = i as u64 * DRAW_INDIRECT_CMD_SIZE;
            steps.push(RenderStep::DrawElementsIndirect { offset });
            assert(steps@ =~= draw_calls(false, (i + 1) as nat));
            i = i + 1;
        }
    }
    steps
}

/// The steps of one draw of `commands` staged commands.
pub fn plan_draw(
    location: Option<i32>,
    wireframe: bool,
    multi_draw_indirect: bool,
    commands: usize,
) -> (steps: Vec<RenderStep>)
    requires
        commands <= MAX_GROUPS,
    ensures
        steps@ == draw_steps(location, wireframe, multi_draw_indirect, commands as nat),
{
    let mut steps: Vec<RenderStep> = Vec::new();
    steps.push(RenderStep::UseProgram);
    if let Some(location) = location {
        steps.push(RenderStep::SetViewProjection { location });
    }
    steps.push(RenderStep::BindVertexArray);
    steps.push(RenderStep::BindIndirectBuffer);
    steps.push(RenderStep::SetDefaultBlendFunc);
    steps.push(RenderStep::FrontFaceCw);
    if wireframe {
        steps.push(RenderStep::PolygonModeLine);
    }
    let ghost head = steps@;
    assert(head =~= seq![RenderStep::UseProgram] + (match location {
        Some(location) => seq![RenderStep::SetViewProjection { location }],
        None => Seq::<RenderStep>::empty(),
    }) + seq![
        RenderStep::BindVertexArray,
        RenderStep::BindIndirectBuffer,
        RenderStep::SetDefaultBlendFunc,
        RenderStep::FrontFaceCw,
    ] + (if wireframe {
        seq![RenderStep::PolygonModeLine]
    } else {
        Seq::<RenderStep>::empty()
    }));
    let mut calls = plan_draw_calls(multi_draw_indirect, commands);
    steps.append(&mut calls);
    let ghost middle = steps@;
    if wireframe {
        steps.push(RenderStep::PolygonModeFill);
    }
    steps.push(RenderStep::FrontFaceCcw);
    steps.push(RenderStep::UnbindIndirectBuffer);
    steps.push(RenderStep::UnbindVertexArray);
    assert(steps@ =~= middle + (if wireframe {
        seq![RenderStep::PolygonModeFill]
    } else {
        Seq::<RenderStep>::empty()
    }) + seq![
        RenderStep::FrontFaceCcw,
        RenderStep::UnbindIndirectBuffer,
        RenderStep::UnbindVertexArray,
    ]);
    steps
}

} // verus!
