//! The enum-to-constant tables: total, deterministic, and matching the
//! native values.
use opengl::raw::buffer;
use opengl::raw::draw;
use opengl::raw::shader;
use opengl::raw::texture;
use opengl::raw::vertex_array;

#[test]
fn buffer_target_constants() {
    assert_eq!(buffer::Target::Array.to_gl(), 0x8892);
    assert_eq!(buffer::Target::ElementArray.to_gl(), 0x8893);
    assert_eq!(buffer::Target::Uniform.to_gl(), 0x8A11);
    assert_eq!(buffer::Target::AtomicCounter.to_gl(), 0x92C0);
    assert_eq!(buffer::Target::TransformFeedback.to_gl(), 0x8C8E);
}

#[test]
fn buffer_usage_constants() {
    assert_eq!(buffer::Usage::StaticDraw.to_gl(), 0x88E4);
    assert_eq!(buffer::Usage::StreamDraw.to_gl(), 0x88E0);
    assert_eq!(buffer::Usage::DynamicCopy.to_gl(), 0x88EA);
}

#[test]
fn mapping_is_deterministic() {
    // mapping twice yields the same constant
    assert_eq!(buffer::Target::Array.to_gl(), buffer::Target::Array.to_gl());
    assert_eq!(shader::Type::Vertex.to_gl(), shader::Type::Vertex.to_gl());
    assert_eq!(
        texture::Filter::LinearMipmapLinear.to_gl(),
        texture::Filter::LinearMipmapLinear.to_gl()
    );
    assert_eq!(draw::Mode::Triangles.to_gl(), draw::Mode::Triangles.to_gl());
}

#[test]
fn shader_type_constants() {
    assert_eq!(shader::Type::Vertex.to_gl(), 0x8B31);
    assert_eq!(shader::Type::Fragment.to_gl(), 0x8B30);
    assert_eq!(shader::Type::Compute.to_gl(), 0x91B9);
    assert_eq!(shader::Type::Geometry.to_gl(), 0x8DD9);
}

#[test]
fn draw_mode_and_clear_bits() {
    assert_eq!(draw::Mode::Triangles.to_gl(), 0x0004);
    assert_eq!(draw::Mode::Points.to_gl(), 0x0000);
    assert_eq!(draw::Buffer::Colour.to_gl(), 0x4000);
    assert_eq!(draw::Buffer::Depth.to_gl(), 0x0100);
    assert_eq!(draw::Buffer::Stencil.to_gl(), 0x0400);
}

#[test]
fn texture_filter_constants_are_distinct() {
    // every filter has a constant of its own, the two mipmap-linear kinds
    // included
    let all = [
        texture::Filter::Nearest.to_gl(),
        texture::Filter::Linear.to_gl(),
        texture::Filter::NearestMipmapNearest.to_gl(),
        texture::Filter::NearestMipmapLinear.to_gl(),
        texture::Filter::LinearMipmapNearest.to_gl(),
        texture::Filter::LinearMipmapLinear.to_gl(),
    ];
    for i in 0..all.len() {
        for j in 0..all.len() {
            if i != j {
                assert_ne!(all[i], all[j]);
            }
        }
    }
    assert_eq!(texture::Filter::LinearMipmapLinear.to_gl(), 0x2703);
    assert_eq!(texture::Filter::LinearMipmapNearest.to_gl(), 0x2701);
}

#[test]
fn texture_format_constants() {
    assert_eq!(texture::Target::Value2D.to_gl(), 0x0DE1);
    assert_eq!(texture::InternalFormat::RGBA.to_gl(), 0x1908);
    assert_eq!(texture::DataFormat::RGBA.to_gl(), 0x1908);
    assert_eq!(texture::DataType::U8.to_gl(), 0x1401);
    assert_eq!(texture::Wrap::Repeat.to_gl(), 0x2901);
    assert_eq!(texture::Property::WrapS.to_gl(), 0x2802);
}

#[test]
fn vertex_attribute_constants() {
    assert_eq!(vertex_array::Component::Triangle.to_gl(), 3);
    assert_eq!(vertex_array::Component::Square.to_gl(), 4);
    assert_eq!(vertex_array::Data::Float.to_gl(), 0x1406);
    assert_eq!(vertex_array::Data::UnsignedInt.to_gl(), 0x1405);
}
