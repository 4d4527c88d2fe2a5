use dango::texture::{random_texture_bytes_per_row, random_texture_data};
use dango::webgl2::{
    buffer_copy, clear_mask, pass_target, BufferCopy, BufferKind, ColorAttachment, PassTarget, WebGL2RenderContext,
    COLOR_BUFFER_BIT, DEPTH_BUFFER_BIT,
};
use std::sync::Arc;

#[test]
fn render_context_keeps_device_and_resources() {
    let device = Arc::new(17u32);
    let mut context = WebGL2RenderContext::new(device.clone(), vec![1u8, 2]);
    context.finish();
    assert_eq!(*context.device, 17);
    assert_eq!(context.render_resource_context, vec![1u8, 2]);
    assert!(Arc::ptr_eq(&context.device, &device));
}

#[test]
fn clear_masks() {
    assert_eq!(clear_mask(false, false), 0);
    assert_eq!(clear_mask(true, false), 0x4000);
    assert_eq!(clear_mask(false, true), 0x100);
    assert_eq!(clear_mask(true, true), COLOR_BUFFER_BIT | DEPTH_BUFFER_BIT);
    assert_eq!(clear_mask(true, true), 0x4100);
}

#[test]
fn swap_chain_texture_renders_to_canvas() {
    assert_eq!(pass_target(&ColorAttachment::Id(5), 5), PassTarget::Canvas);
    assert_eq!(pass_target(&ColorAttachment::Id(6), 5), PassTarget::Texture(6));
    assert_eq!(
        pass_target(&ColorAttachment::Name("color".to_string()), 5),
        PassTarget::NamedTexture("color".to_string())
    );
}

#[test]
fn random_texture_has_one_byte_per_texel_byte() {
    assert_eq!(random_texture_data(4, 16, 8, 1).len(), 512);
    assert_eq!(random_texture_data(4, 16, 8, 2).len(), 1024);
    assert_eq!(random_texture_data(4, 16, 0, 2).len(), 0);
    assert_eq!(random_texture_data(4, 16, 8, 0).len(), 0);
}

#[test]
fn random_texture_is_random() {
    let a = random_texture_data(1, 64, 64, 1);
    let b = random_texture_data(1, 64, 64, 1);
    assert_ne!(a, b);
    assert!(a.iter().any(|&x| x != 0));
}

#[test]
fn bytes_per_row() {
    assert_eq!(random_texture_bytes_per_row(4, 256), 1024);
    assert_eq!(random_texture_bytes_per_row(0, 256), 0);
}

#[test]
fn buffer_copies() {
    assert_eq!(
        buffer_copy(BufferKind::WebGl, BufferKind::WebGl, 1, 2, 3),
        BufferCopy::BetweenBuffers { source_offset: 1, destination_offset: 2, size: 3 }
    );
    assert_eq!(
        buffer_copy(BufferKind::Data, BufferKind::WebGl, 1, 2, 3),
        BufferCopy::Upload { destination_offset: 2, source_offset: 1, size: 3 }
    );
    assert_eq!(
        buffer_copy(BufferKind::WebGl, BufferKind::WebGl, 0x1_0000_0005, u64::MAX, 0x8000_0000),
        BufferCopy::BetweenBuffers { source_offset: 5, destination_offset: -1, size: i32::MIN }
    );
}
