//! The WebGL2 render context and the decisions of its render pass setup.

use vstd::prelude::*;
use std::sync::Arc;

verus! {

/// A render context over a shared WebGL2 device and the render resources it draws with.
pub struct WebGL2RenderContext<D, R> {
    pub device: Arc<D>,
    pub render_resource_context: R,
}

impl<D, R> WebGL2RenderContext<D, R> {
    /// Creates a render context from a device and its render resources.
    pub fn new(device: Arc<D>, resources: R) -> (context: Self)
        ensures
            context.device == device,
            context.render_resource_context == resources,
    {
        WebGL2RenderContext { device, render_resource_context: resources }
    }

    /// Finalizes the context before synchronizing with the main thread; WebGL2 records no
    /// command encoder, so nothing changes.
    pub fn finish(&mut self)
        ensures
            *final(self) == *old(self),
    {
    }
}

/// WebGL's bit that selects the colour buffer in a clear.
pub const COLOR_BUFFER_BIT: u32 = 0x4000;

/// WebGL's bit that selects the depth buffer in a clear.
pub const DEPTH_BUFFER_BIT: u32 = 0x100;

/// The buffers that a render pass clears: the colour buffer when its colour attachment
/// loads by clearing, and the depth buffer when a depth attachment loads by clearing.
/// A mask of zero means that nothing is cleared.
pub fn clear_mask(clear_color: bool, clear_depth: bool) -> (mask: u32)
    ensures
        mask == (if clear_color { COLOR_BUFFER_BIT } else { 0u32 }) + (if clear_depth { DEPTH_BUFFER_BIT } else { 0u32 }),
        mask == 0 <==> (!clear_color && !clear_depth),
{
    let color: u32 = if clear_color { COLOR_BUFFER_BIT } else { 0 };
    let depth: u32 = if clear_depth { DEPTH_BUFFER_BIT } else { 0 };
    assert((color | depth) == color + depth && ((color | depth) == 0 <==> (color == 0 && depth == 0)))
        by (bit_vector)
        requires
            color == 0 || color == 0x4000,
            depth == 0 || depth == 0x100,
    ;
    color | depth
}

/// The colour attachment of a render pass.
#[derive(Debug, PartialEq, Eq)]
pub enum ColorAttachment {
    /// A texture by its id.
    Id(u128),
    /// A texture bound under a name in the render resource bindings.
    Name(String),
    /// A graph input slot, which the graph executor replaces before the pass runs.
    Input(String),
}

/// Where a render pass draws.
#[derive(Debug, PartialEq, Eq)]
pub enum PassTarget {
    /// The canvas: the default framebuffer is bound.
    Canvas,
    /// A texture given by id, attached to a new framebuffer.
    Texture(u128),
    /// The texture bound under a name, attached to a new framebuffer.
    NamedTexture(String),
}

/// Decides the target of a render pass from its colour attachment: the swap chain texture
/// renders to the canvas, any other texture to a framebuffer. Input slots must have been
/// resolved before the pass begins.
pub fn pass_target(attachment: &ColorAttachment, swap_chain_texture_id: u128) -> (target: PassTarget)
    requires
        !(attachment is Input),
    ensures
        match *attachment {
            ColorAttachment::Id(id) => if id == swap_chain_texture_id {
                target == PassTarget::Canvas
            } else {
                target == PassTarget::Texture(id)
            },
            ColorAttachment::Name(name) => target == PassTarget::NamedTexture(name),
            ColorAttachment::Input(_) => false,
        },
{
    match attachment {
        ColorAttachment::Id(id) => {
            if *id == swap_chain_texture_id {
                PassTarget::Canvas
            } else {
                PassTarget::Texture(*id)
            }
        },
        ColorAttachment::Name(name) => PassTarget::NamedTexture(name.clone()),
        ColorAttachment::Input(_) => PassTarget::Canvas,
    }
}

/// Where a buffer's contents live.
#[derive(Clone, Copy, Debug, PartialEq, Eq, Structural)]
pub enum BufferKind {
    /// A buffer object on the GPU.
    WebGl,
    /// Bytes kept in memory.
    Data,
}

/// How a copy between buffers is carried out, with its offsets and size as WebGL takes them.
#[derive(Clone, Copy, Debug, PartialEq, Eq, Structural)]
pub enum BufferCopy {
    /// `copyBufferSubData` from one GPU buffer to another.
    BetweenBuffers { source_offset: i32, destination_offset: i32, size: i32 },
    /// `bufferSubData` of the in-memory bytes into the GPU buffer.
    Upload { destination_offset: i32, source_offset: u32, size: u32 },
}

/// Plans a copy from one buffer to another: between two GPU buffers the GPU copies, and
/// in-memory bytes are uploaded into a GPU buffer. The destination must be a GPU buffer:
/// writing into an in-memory buffer is not supported. Offsets and size are truncated to the
/// widths WebGL takes.
pub fn buffer_copy(
    source: BufferKind,
    destination: BufferKind,
    source_offset: u64,
    destination_offset: u64,
    size: u64,
) -> (copy: BufferCopy)
    requires
        destination == BufferKind::WebGl,
    ensures
        source == BufferKind::WebGl ==> copy == (BufferCopy::BetweenBuffers {
            source_offset: source_offset as i32,
            destination_offset: destination_offset as i32,
            size: size as i32,
        }),
        source == BufferKind::Data ==> copy == (BufferCopy::Upload {
            destination_offset: destination_offset as i32,
            source_offset: source_offset as u32,
            size: size as u32,
        }),
{
    match source {
        BufferKind::WebGl => BufferCopy::BetweenBuffers {
            source_offset: source_offset as i32,
            destination_offset: destination_offset as i32,
            size: size as i32,
        },
        BufferKind::Data => BufferCopy::Upload {
            destination_offset: destination_offset as i32,
            source_offset: source_offset as u32,
            size: size as u32,
        },
    }
}

} // verus!
