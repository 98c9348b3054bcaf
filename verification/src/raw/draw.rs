//! Draw-call issuance and framebuffer clearing.
use vstd::prelude::*;

use crate::context::Context;

verus! {

/// A framebuffer attachment selected for clearing.
#[derive(Clone, Copy, Debug)]
pub enum Buffer {
    Colour,
    Depth,
    Stencil,
}

/// The primitive assembly mode of a draw submission.
#[derive(Clone, Copy, Debug)]
pub enum Mode {
    Points,
    LineStrip,
    LineLoop,
    Lines,
    LineStripAdjacency,
    LinesAdjacency,
    TriangleStrip,
    TriangleFan,
    Triangles,
    TriangleStripAdjacency,
    TrianglesAdjacency,
    Patches,
}

/// The element-index width of an indexed draw.
#[derive(Clone, Copy, Debug)]
pub enum Data {
    UnsignedByte,
    UnsignedShort,
    UnsignedInt,
}

impl Buffer {
    /// The native clear-mask bit this attachment maps to.
    pub open spec fn spec_to_gl(self) -> u32 {
        match self {
            Buffer::Colour => 0x00004000,
            Buffer::Depth => 0x00000100,
            Buffer::Stencil => 0x00000400,
        }
    }

    /// Maps this attachment to its native clear-mask bit.
    pub fn to_gl(self) -> (r: u32)
        ensures
            r == self.spec_to_gl(),
    {
        match self {
            Buffer::Colour => 0x00004000,
            Buffer::Depth => 0x00000100,
            Buffer::Stencil => 0x00000400,
        }
    }
}

impl Mode {
    /// The native constant this mode maps to.
    pub open spec fn spec_to_gl(self) -> u32 {
        match self {
            Mode::Points => 0x0000,
            Mode::LineStrip => 0x0003,
            Mode::LineLoop => 0x0002,
            Mode::Lines => 0x0001,
            Mode::LineStripAdjacency => 0x000B,
            Mode::LinesAdjacency => 0x000A,
            Mode::TriangleStrip => 0x0005,
            Mode::TriangleFan => 0x0006,
            Mode::Triangles => 0x0004,
            Mode::TriangleStripAdjacency => 0x000D,
            Mode::TrianglesAdjacency => 0x000C,
            Mode::Patches => 0x000E,
        }
    }

    /// Maps this mode to its native constant; total and deterministic.
    pub fn to_gl(self) -> (r: u32)
        ensures
            r == self.spec_to_gl(),
    {
        match self {
            Mode::Points => 0x0000,
            Mode::LineStrip => 0x0003,
            Mode::LineLoop => 0x0002,
            Mode::Lines => 0x0001,
            Mode::LineStripAdjacency => 0x000B,
            Mode::LinesAdjacency => 0x000A,
            Mode::TriangleStrip => 0x0005,
            Mode::TriangleFan => 0x0006,
            Mode::Triangles => 0x0004,
            Mode::TriangleStripAdjacency => 0x000D,
            Mode::TrianglesAdjacency => 0x000C,
            Mode::Patches => 0x000E,
        }
    }
}

impl Data {
    /// The native constant this index width maps to.
    pub open spec fn spec_to_gl(self) -> u32 {
        match self {
            Data::UnsignedByte => 0x1401,
            Data::UnsignedShort => 0x1403,
            Data::UnsignedInt => 0x1405,
        }
    }

    /// Maps this index width to its native constant.
    pub fn to_gl(self) -> (r: u32)
        ensures
            r == self.spec_to_gl(),
    {
        match self {
            Data::UnsignedByte => 0x1401,
            Data::UnsignedShort => 0x1403,
            Data::UnsignedInt => 0x1405,
        }
    }
}

/// The bitwise-or of the clear-mask bits of `s`.
pub open spec fn spec_clear_bits(s: Seq<Buffer>) -> u32
    decreases s.len(),
{
    if s.len() == 0 {
        0
    } else {
        spec_clear_bits(s.drop_last()) | s.last().spec_to_gl()
    }
}

/// Clears the selected attachments. The modeled context is left unchanged:
/// clearing touches only the framebuffer image, which this model does not
/// hold. The returned mask is the bitfield handed to the driver.
pub fn clear(ctx: &mut Context, buffers: &[Buffer]) -> (bits: u32)
    requires
        old(ctx).wf(),
    ensures
        *final(ctx) == *old(ctx),
        bits == spec_clear_bits(buffers@),
{
    let mut bits: u32 = 0;
    let mut i: usize = 0;
    while i < buffers.len()
        invariant
            i <= buffers@.len(),
            bits == spec_clear_bits(buffers@.take(i as int)),
        decreases buffers@.len() - i,
    {
        proof {
            assert(buffers@.take(i + 1 as int).drop_last() =~= buffers@.take(i as int));
            assert(buffers@.take(i + 1 as int).last() == buffers@[i as int]);
        }
        bits = bits | buffers[i].to_gl();
        i = i + 1;
    }
    proof {
        assert(buffers@.take(buffers@.len() as int) =~= buffers@);
    }
    bits
}

/// Submits a non-indexed draw of `count` vertices starting at `first` with
/// the bound vertex array and active program. The model performs no
/// validation: the submission is committed and no error is recorded, as the
/// layer leaves cross-resource compatibility to the caller.
pub fn arrays(ctx: &mut Context, mode: Mode, first: u32, count: u32)
    requires
        old(ctx).wf(),
        first <= 0x7FFF_FFFF,
        count <= 0x7FFF_FFFF,
        old(ctx).draws < u64::MAX,
    ensures
        final(ctx).wf(),
        final(ctx).draws == old(ctx).draws + 1,
        final(ctx).same_objects(*old(ctx)),
        final(ctx).same_slots(*old(ctx)),
        final(ctx).next_id == old(ctx).next_id,
        final(ctx).error == old(ctx).error,
{
    ctx.draws = ctx.draws + 1;
}

/// Submits an indexed draw of `num_indices` elements read from the bound
/// element-array buffer at `offset`, under the same no-validation policy as
/// [`arrays`].
pub fn elements(ctx: &mut Context, mode: Mode, num_indices: u32, data: Data, offset: u32)
    requires
        old(ctx).wf(),
        num_indices <= 0x7FFF_FFFF,
        old(ctx).draws < u64::MAX,
    ensures
        final(ctx).wf(),
        final(ctx).draws == old(ctx).draws + 1,
        final(ctx).same_objects(*old(ctx)),
        final(ctx).same_slots(*old(ctx)),
        final(ctx).next_id == old(ctx).next_id,
        final(ctx).error == old(ctx).error,
{
    ctx.draws = ctx.draws + 1;
}

} // verus!
