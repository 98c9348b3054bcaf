//! A texture wrapper created from decoded pixel data.
//!
//! Decoding an encoded image into pixels, dimensions and channel layout
//! happens before this layer: `create` takes the decoded values and drives
//! the whole upload sequence against the context.
use vstd::prelude::*;

use crate::context::Context;
use crate::raw::texture;

verus! {

/// An owned texture handle bound and uploaded by [`create`]; the owner
/// deletes it through `raw::texture::delete` when done.
pub struct Texture {
    pub id: u32,
}

impl Texture {
    /// Binds the wrapped texture into the two-dimensional texture slot.
    pub fn bind(&self, ctx: &mut Context)
        requires
            old(ctx).wf(),
            old(ctx).has_texture(self.id),
        ensures
            final(ctx).wf(),
            final(ctx).bound_textures@ == old(ctx).bound_textures@.update(
                texture::Target::Value2D.spec_slot(),
                self.id,
            ),
            final(ctx).same_objects(*old(ctx)),
            final(ctx).same_slots_except_textures(*old(ctx)),
            final(ctx).next_id == old(ctx).next_id,
            final(ctx).error == old(ctx).error,
            final(ctx).draws == old(ctx).draws,
    {
        texture::bind(ctx, texture::Target::Value2D, self.id);
    }
}

/// Creates a two-dimensional texture from decoded pixels: allocates the
/// handle, binds it, assigns repeat wrapping and linear filtering, uploads
/// the image and generates its mipmaps. The new texture is left bound to
/// the two-dimensional slot and the error probe is left as it was.
pub fn create(ctx: &mut Context, width: u32, height: u32, pixels: &[u8]) -> (t: Texture)
    requires
        old(ctx).wf(),
        old(ctx).next_id < u32::MAX,
        width <= 0x7FFF_FFFF,
        height <= 0x7FFF_FFFF,
    ensures
        final(ctx).wf(),
        t.id == old(ctx).next_id,
        final(ctx).has_texture(t.id),
        final(ctx).texture_obj(t.id).image == Some((width, height)),
        final(ctx).texture_obj(t.id).mipmap == true,
        final(ctx).texture_obj(t.id).wrap_s == Some(texture::Wrap::Repeat.spec_to_gl()),
        final(ctx).texture_obj(t.id).wrap_t == Some(texture::Wrap::Repeat.spec_to_gl()),
        final(ctx).texture_obj(t.id).wrap_r is None,
        final(ctx).texture_obj(t.id).min_filter == Some(
            texture::Filter::LinearMipmapLinear.spec_to_gl(),
        ),
        final(ctx).texture_obj(t.id).mag_filter == Some(texture::Filter::Linear.spec_to_gl()),
        final(ctx).textures@.len() == old(ctx).textures@.len() + 1,
        final(ctx).bound_textures@ == old(ctx).bound_textures@.update(
            texture::Target::Value2D.spec_slot(),
            t.id,
        ),
        final(ctx).same_objects_except_textures(*old(ctx)),
        final(ctx).same_slots_except_textures(*old(ctx)),
        final(ctx).next_id == old(ctx).next_id + 1,
        final(ctx).error == old(ctx).error,
        final(ctx).draws == old(ctx).draws,
{
    let id = texture::create(ctx);
    proof {
        ctx.lemma_texture_idx_unique(id, old(ctx).textures@.len() as int);
    }
    texture::bind(ctx, texture::Target::Value2D, id);
    let wrap = texture::Wrap::Repeat.to_gl();
    let ghost b1 = *ctx;
    texture::set_texture_property(ctx, texture::Target::Value2D, texture::Property::WrapS, wrap);
    proof {
        b1.lemma_texture_idx(id);
        ctx.lemma_texture_idx_unique(id, b1.texture_idx(id));
    }
    let ghost b2 = *ctx;
    texture::set_texture_property(ctx, texture::Target::Value2D, texture::Property::WrapT, wrap);
    proof {
        b2.lemma_texture_idx(id);
        ctx.lemma_texture_idx_unique(id, b2.texture_idx(id));
    }
    let ghost b3 = *ctx;
    texture::set_texture_property(
        ctx,
        texture::Target::Value2D,
        texture::Property::MinifyFilter,
        texture::Filter::LinearMipmapLinear.to_gl(),
    );
    proof {
        b3.lemma_texture_idx(id);
        ctx.lemma_texture_idx_unique(id, b3.texture_idx(id));
    }
    let ghost b4 = *ctx;
    texture::set_texture_property(
        ctx,
        texture::Target::Value2D,
        texture::Property::MagnifyFilter,
        texture::Filter::Linear.to_gl(),
    );
    proof {
        b4.lemma_texture_idx(id);
        ctx.lemma_texture_idx_unique(id, b4.texture_idx(id));
    }
    let ghost before_apply = *ctx;
    texture::apply_2d_image(
        ctx,
        texture::Target::Value2D,
        0,
        texture::InternalFormat::RGBA,
        width,
        height,
        texture::DataFormat::RGBA,
        texture::DataType::U8,
        pixels,
    );
    proof {
        before_apply.lemma_texture_idx(id);
        ctx.lemma_texture_idx_unique(id, before_apply.texture_idx(id));
    }
    let ghost before_mipmap = *ctx;
    texture::generate_mipmap(ctx, texture::Target::Value2D);
    proof {
        before_mipmap.lemma_texture_idx(id);
        ctx.lemma_texture_idx_unique(id, before_mipmap.texture_idx(id));
    }
    Texture { id }
}

} // verus!
