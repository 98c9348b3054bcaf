//! Buffer, vertex-array and texture lifecycles: create, bind, configure,
//! batch delete, and the round trips that leave the error probe clear.
use opengl::context::Context;
use opengl::raw::buffer;
use opengl::raw::error;
use opengl::raw::texture;
use opengl::raw::vertex_array;
use opengl::texture::create as create_texture;

#[test]
fn buffer_round_trip_leaves_probe_clear() {
    let mut ctx = Context::new();
    let mut handles = Vec::new();
    for _ in 0..5 {
        handles.push(buffer::create(&mut ctx));
    }
    assert_eq!(ctx.buffers.len(), 5);
    buffer::delete(&mut ctx, &handles);
    assert_eq!(ctx.buffers.len(), 0);
    assert_eq!(error::check(&mut ctx), Ok(()));
}

#[test]
fn batched_round_trip_restores_table_and_slots() {
    let mut ctx = Context::new();
    // a pre-existing bound buffer must survive the round trip untouched
    let keep = buffer::create(&mut ctx);
    buffer::bind(&mut ctx, buffer::Target::Array, keep);
    let ids = buffer::create_delete_round_trip(&mut ctx, 7);
    assert_eq!(ids.len(), 7);
    assert_eq!(ctx.buffers.len(), 1);
    assert_eq!(ctx.buffers[0].id, keep);
    assert_eq!(ctx.bound_buffers[0], keep);
    assert_eq!(error::check(&mut ctx), Ok(()));
}

#[test]
fn deleting_buffer_handle_zero_is_tolerated() {
    let mut ctx = Context::new();
    buffer::delete(&mut ctx, &[0]);
    assert_eq!(error::check(&mut ctx), Ok(()));
}

#[test]
fn deleting_a_bound_buffer_unbinds_it() {
    let mut ctx = Context::new();
    let b = buffer::create(&mut ctx);
    buffer::bind(&mut ctx, buffer::Target::Array, b);
    assert_eq!(ctx.bound_buffers[0], b);
    buffer::delete(&mut ctx, &[b]);
    assert_eq!(ctx.bound_buffers[0], 0);
    assert_eq!(error::check(&mut ctx), Ok(()));
}

#[test]
fn upload_records_length_and_usage() {
    let mut ctx = Context::new();
    let b = buffer::create(&mut ctx);
    buffer::bind(&mut ctx, buffer::Target::Array, b);
    let data = [1u8, 2, 3, 4, 5, 6, 7, 8];
    buffer::set_bound_data(&mut ctx, buffer::Target::Array, &data, buffer::Usage::StaticDraw);
    assert_eq!(ctx.buffers[0].data_len, 8);
    assert!(matches!(ctx.buffers[0].usage, Some(buffer::Usage::StaticDraw)));
    assert_eq!(error::check(&mut ctx), Ok(()));
}

#[test]
fn binding_zero_empties_the_slot() {
    let mut ctx = Context::new();
    let b = buffer::create(&mut ctx);
    buffer::bind(&mut ctx, buffer::Target::Array, b);
    buffer::bind(&mut ctx, buffer::Target::Array, 0);
    assert_eq!(ctx.bound_buffers[0], 0);
    assert_eq!(error::check(&mut ctx), Ok(()));
}

#[test]
fn vertex_array_captures_the_bound_buffer() {
    let mut ctx = Context::new();
    let vao = vertex_array::create(&mut ctx);
    vertex_array::bind(&mut ctx, vao);
    let vbo = buffer::create(&mut ctx);
    buffer::bind(&mut ctx, buffer::Target::Array, vbo);
    vertex_array::configure_attribute(
        &mut ctx,
        0,
        vertex_array::Component::Triangle,
        vertex_array::Data::Float,
        false,
        12,
        0,
    );
    vertex_array::enable(&mut ctx, 0);
    let obj = &ctx.vertex_arrays[0];
    assert_eq!(obj.attributes.len(), 1);
    assert_eq!(obj.attributes[0].buffer, vbo);
    assert_eq!(obj.attributes[0].stride, 12);
    assert_eq!(obj.enabled, vec![0]);
    // rebinding another buffer afterwards does not touch the record
    buffer::bind(&mut ctx, buffer::Target::Array, 0);
    assert_eq!(ctx.vertex_arrays[0].attributes[0].buffer, vbo);
    assert_eq!(error::check(&mut ctx), Ok(()));
}

#[test]
fn configuring_without_a_vertex_array_sets_invalid_operation() {
    let mut ctx = Context::new();
    vertex_array::configure_attribute(
        &mut ctx,
        0,
        vertex_array::Component::Square,
        vertex_array::Data::Float,
        false,
        0,
        0,
    );
    assert_eq!(error::check(&mut ctx), Err(error::Error::InvalidOperation));
}

#[test]
fn vertex_array_round_trip_leaves_probe_clear() {
    let mut ctx = Context::new();
    let a = vertex_array::create(&mut ctx);
    let b = vertex_array::create(&mut ctx);
    vertex_array::bind(&mut ctx, b);
    vertex_array::delete(&mut ctx, &[a, b, 0]);
    assert_eq!(ctx.vertex_arrays.len(), 0);
    assert_eq!(ctx.bound_vertex_array, 0);
    assert_eq!(error::check(&mut ctx), Ok(()));
}

#[test]
fn uploading_without_a_bound_texture_sets_invalid_operation() {
    let mut ctx = Context::new();
    texture::generate_mipmap(&mut ctx, texture::Target::Value2D);
    assert_eq!(error::check(&mut ctx), Err(error::Error::InvalidOperation));
}

#[test]
fn texture_creation_records_image_and_mipmaps() {
    let mut ctx = Context::new();
    let pixels = [0u8; 16]; // a 2-by-2 image of 4 channels
    let t = create_texture(&mut ctx, 2, 2, &pixels);
    assert_eq!(ctx.textures.len(), 1);
    assert_eq!(ctx.textures[0].image, Some((2, 2)));
    assert!(ctx.textures[0].mipmap);
    // the assigned sampling configuration: repeat wrapping on both axes,
    // linear-between-mipmaps minification, linear magnification
    assert_eq!(ctx.textures[0].wrap_s, Some(0x2901));
    assert_eq!(ctx.textures[0].wrap_t, Some(0x2901));
    assert_eq!(ctx.textures[0].wrap_r, None);
    assert_eq!(ctx.textures[0].min_filter, Some(0x2703));
    assert_eq!(ctx.textures[0].mag_filter, Some(0x2601));
    // the new texture is left bound to the two-dimensional slot
    assert_eq!(ctx.bound_textures[2], t.id);
    assert_eq!(error::check(&mut ctx), Ok(()));
    texture::delete(&mut ctx, &[t.id]);
    assert_eq!(ctx.textures.len(), 0);
    assert_eq!(ctx.bound_textures[2], 0);
    assert_eq!(error::check(&mut ctx), Ok(()));
}

#[test]
fn sampling_property_writes_land_on_the_bound_texture() {
    let mut ctx = Context::new();
    let a = texture::create(&mut ctx);
    let b = texture::create(&mut ctx);
    texture::bind(&mut ctx, texture::Target::Value2D, b);
    texture::set_texture_property(
        &mut ctx,
        texture::Target::Value2D,
        texture::Property::WrapR,
        texture::Wrap::Mirrored.to_gl(),
    );
    // the bound texture records the write; the other stays untouched
    assert_eq!(ctx.textures[1].id, b);
    assert_eq!(ctx.textures[1].wrap_r, Some(0x8370));
    assert_eq!(ctx.textures[0].id, a);
    assert_eq!(ctx.textures[0].wrap_r, None);
    assert_eq!(error::check(&mut ctx), Ok(()));
}

#[test]
fn setting_a_property_without_a_bound_texture_sets_invalid_operation() {
    let mut ctx = Context::new();
    texture::set_texture_property(
        &mut ctx,
        texture::Target::Value2D,
        texture::Property::WrapS,
        texture::Wrap::Repeat.to_gl(),
    );
    assert_eq!(error::check(&mut ctx), Err(error::Error::InvalidOperation));
}

#[test]
fn handles_are_never_reused() {
    let mut ctx = Context::new();
    let a = buffer::create(&mut ctx);
    buffer::delete(&mut ctx, &[a]);
    let b = buffer::create(&mut ctx);
    assert_ne!(a, b);
}
