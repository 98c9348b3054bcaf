//! Texture objects: creation, binding, sampling properties and image upload.
use vstd::prelude::*;

use crate::context::Context;
use crate::context::TextureObject;

verus! {

/// How many texture binding slots the context keeps, one per [`Target`].
pub const TARGET_SLOTS: usize = 10;

/// A texture binding target; each target names one binding slot of the
/// context.
#[derive(Clone, Copy, Debug)]
pub enum Target {
    Value1D,
    Array1D,
    Value2D,
    Array2D,
    Value2DMultisample,
    Array2DMultisample,
    Value3D,
    CubeMap,
    CubeMapArray,
    Rectangle,
}

/// A sampling property that `set_texture_property` can assign.
#[derive(Clone, Copy, Debug)]
pub enum Property {
    WrapS,
    WrapT,
    WrapR,
    MinifyFilter,
    MagnifyFilter,
}

/// A wrapping behaviour for a texture coordinate axis.
#[derive(Clone, Copy, Debug)]
pub enum Wrap {
    Repeat,
    Mirrored,
    ClampToEdge,
    ClampToBorder,
}

/// A minification or magnification filter.
#[derive(Clone, Copy, Debug)]
pub enum Filter {
    Nearest,
    Linear,
    NearestMipmapNearest,
    NearestMipmapLinear,
    LinearMipmapNearest,
    LinearMipmapLinear,
}

/// The internal storage format of an uploaded image.
#[derive(Clone, Copy, Debug)]
pub enum InternalFormat {
    DepthComponent,
    DepthStencil,
    Red,
    RedGreen,
    RGB,
    RGBA,
}

/// The channel layout of the pixel data handed to an upload.
#[derive(Clone, Copy, Debug)]
pub enum DataFormat {
    Red,
    RedGreen,
    RGB,
    BGR,
    RGBA,
    BGRA,
    RedInteger,
    RedGreenInteger,
    RGBInteger,
    BGRInteger,
    RGBAInteger,
    BGRAInteger,
    StencilIndex,
    DepthComponent,
    DepthStencil,
}

/// The per-channel datatype of the pixel data handed to an upload.
#[derive(Clone, Copy, Debug)]
pub enum DataType {
    U8,
    I8,
    U16,
    I16,
    U32,
    I32,
    F16,
    F32,
    U8_332,
    U8_233R,
    U16_565,
    U16_565R,
    U16_4444,
    U16_4444R,
    U16_5551,
    U16_1555R,
    U32_8888,
    U32_8888R,
    U32_1010102,
    U32_2101010R,
}

impl Target {
    /// The native constant this target maps to.
    pub open spec fn spec_to_gl(self) -> u32 {
        match self {
            Target::Value1D => 0x0DE0,
            Target::Array1D => 0x8C18,
            Target::Value2D => 0x0DE1,
            Target::Array2D => 0x8C1A,
            Target::Value2DMultisample => 0x9100,
            Target::Array2DMultisample => 0x9102,
            Target::Value3D => 0x806F,
            Target::CubeMap => 0x8513,
            Target::CubeMapArray => 0x9009,
            Target::Rectangle => 0x84F5,
        }
    }

    /// Maps this target to its native constant; total and deterministic.
    pub fn to_gl(self) -> (r: u32)
        ensures
            r == self.spec_to_gl(),
    {
        match self {
            Target::Value1D => 0x0DE0,
            Target::Array1D => 0x8C18,
            Target::Value2D => 0x0DE1,
            Target::Array2D => 0x8C1A,
            Target::Value2DMultisample => 0x9100,
            Target::Array2DMultisample => 0x9102,
            Target::Value3D => 0x806F,
            Target::CubeMap => 0x8513,
            Target::CubeMapArray => 0x9009,
            Target::Rectangle => 0x84F5,
        }
    }

    /// The index of the binding slot this target names.
    pub open spec fn spec_slot(self) -> int {
        match self {
            Target::Value1D => 0,
            Target::Array1D => 1,
            Target::Value2D => 2,
            Target::Array2D => 3,
            Target::Value2DMultisample => 4,
            Target::Array2DMultisample => 5,
            Target::Value3D => 6,
            Target::CubeMap => 7,
            Target::CubeMapArray => 8,
            Target::Rectangle => 9,
        }
    }

    /// Returns the binding-slot index for this target.
    pub fn slot(self) -> (r: usize)
        ensures
            r == self.spec_slot(),
            r < TARGET_SLOTS,
    {
        match self {
            Target::Value1D => 0,
            Target::Array1D => 1,
            Target::Value2D => 2,
            Target::Array2D => 3,
            Target::Value2DMultisample => 4,
            Target::Array2DMultisample => 5,
            Target::Value3D => 6,
            Target::CubeMap => 7,
            Target::CubeMapArray => 8,
            Target::Rectangle => 9,
        }
    }
}

impl Property {
    /// The native constant this property maps to.
    pub open spec fn spec_to_gl(self) -> u32 {
        match self {
            Property::WrapS => 0x2802,
            Property::WrapT => 0x2803,
            Property::WrapR => 0x8072,
            Property::MinifyFilter => 0x2801,
            Property::MagnifyFilter => 0x2800,
        }
    }

    /// Maps this property to its native constant; total and deterministic.
    pub fn to_gl(self) -> (r: u32)
        ensures
            r == self.spec_to_gl(),
    {
        match self {
            Property::WrapS => 0x2802,
            Property::WrapT => 0x2803,
            Property::WrapR => 0x8072,
            Property::MinifyFilter => 0x2801,
            Property::MagnifyFilter => 0x2800,
        }
    }
}

impl Wrap {
    /// The native constant this wrapping behaviour maps to.
    pub open spec fn spec_to_gl(self) -> i32 {
        match self {
            Wrap::Repeat => 0x2901,
            Wrap::Mirrored => 0x8370,
            Wrap::ClampToEdge => 0x812F,
            Wrap::ClampToBorder => 0x812D,
        }
    }

    /// Maps this wrapping behaviour to its native constant.
    pub fn to_gl(self) -> (r: i32)
        ensures
            r == self.spec_to_gl(),
    {
        match self {
            Wrap::Repeat => 0x2901,
            Wrap::Mirrored => 0x8370,
            Wrap::ClampToEdge => 0x812F,
            Wrap::ClampToBorder => 0x812D,
        }
    }
}

impl Filter {
    /// The native constant this filter maps to. Every filter has a constant
    /// of its own: in particular the linear-between-mipmaps, linear-within-
    /// mipmap filter maps to its dedicated constant rather than sharing the
    /// nearest-within-mipmap one.
    pub open spec fn spec_to_gl(self) -> i32 {
        match self {
            Filter::Nearest => 0x2600,
            Filter::Linear => 0x2601,
            Filter::NearestMipmapNearest => 0x2700,
            Filter::NearestMipmapLinear => 0x2702,
            Filter::LinearMipmapNearest => 0x2701,
            Filter::LinearMipmapLinear => 0x2703,
        }
    }

    /// Maps this filter to its native constant; total and deterministic.
    pub fn to_gl(self) -> (r: i32)
        ensures
            r == self.spec_to_gl(),
    {
        match self {
            Filter::Nearest => 0x2600,
            Filter::Linear => 0x2601,
            Filter::NearestMipmapNearest => 0x2700,
            Filter::NearestMipmapLinear => 0x2702,
            Filter::LinearMipmapNearest => 0x2701,
            Filter::LinearMipmapLinear => 0x2703,
        }
    }
}

/// Two distinct filters never share a native constant: the filter table is
/// injective.
pub proof fn lemma_filter_to_gl_injective(a: Filter, b: Filter)
    requires
        a.spec_to_gl() == b.spec_to_gl(),
    ensures
        a == b,
{
}

impl InternalFormat {
    /// The native constant this internal format maps to.
    pub open spec fn spec_to_gl(self) -> i32 {
        match self {
            InternalFormat::DepthComponent => 0x1902,
            InternalFormat::DepthStencil => 0x84F9,
            InternalFormat::Red => 0x1903,
            InternalFormat::RedGreen => 0x8227,
            InternalFormat::RGB => 0x1907,
            InternalFormat::RGBA => 0x1908,
        }
    }

    /// Maps this internal format to its native constant.
    pub fn to_gl(self) -> (r: i32)
        ensures
            r == self.spec_to_gl(),
    {
        match self {
            InternalFormat::DepthComponent => 0x1902,
            InternalFormat::DepthStencil => 0x84F9,
            InternalFormat::Red => 0x1903,
            InternalFormat::RedGreen => 0x8227,
            InternalFormat::RGB => 0x1907,
            InternalFormat::RGBA => 0x1908,
        }
    }
}

impl DataFormat {
    /// The native constant this channel layout maps to.
    pub open spec fn spec_to_gl(self) -> u32 {
        match self {
            DataFormat::Red => 0x1903,
            DataFormat::RedGreen => 0x8227,
            DataFormat::RGB => 0x1907,
            DataFormat::BGR => 0x80E0,
            DataFormat::RGBA => 0x1908,
            DataFormat::BGRA => 0x80E1,
            DataFormat::RedInteger => 0x8D94,
            DataFormat::RedGreenInteger => 0x8228,
            DataFormat::RGBInteger => 0x8D98,
            DataFormat::BGRInteger => 0x8D9A,
            DataFormat::RGBAInteger => 0x8D99,
            DataFormat::BGRAInteger => 0x8D9B,
            DataFormat::StencilIndex => 0x1901,
            DataFormat::DepthComponent => 0x1902,
            DataFormat::DepthStencil => 0x84F9,
        }
    }

    /// Maps this channel layout to its native constant.
    pub fn to_gl(self) -> (r: u32)
        ensures
            r == self.spec_to_gl(),
    {
        match self {
            DataFormat::Red => 0x1903,
            DataFormat::RedGreen => 0x8227,
            DataFormat::RGB => 0x1907,
            DataFormat::BGR => 0x80E0,
            DataFormat::RGBA => 0x1908,
            DataFormat::BGRA => 0x80E1,
            DataFormat::RedInteger => 0x8D94,
            DataFormat::RedGreenInteger => 0x8228,
            DataFormat::RGBInteger => 0x8D98,
            DataFormat::BGRInteger => 0x8D9A,
            DataFormat::RGBAInteger => 0x8D99,
            DataFormat::BGRAInteger => 0x8D9B,
            DataFormat::StencilIndex => 0x1901,
            DataFormat::DepthComponent => 0x1902,
            DataFormat::DepthStencil => 0x84F9,
        }
    }
}

impl DataType {
    /// The native constant this per-channel datatype maps to.
    pub open spec fn spec_to_gl(self) -> u32 {
        match self {
            DataType::U8 => 0x1401,
            DataType::I8 => 0x1400,
            DataType::U16 => 0x1403,
            DataType::I16 => 0x1402,
            DataType::U32 => 0x1405,
            DataType::I32 => 0x1404,
            DataType::F16 => 0x140B,
            DataType::F32 => 0x1406,
            DataType::U8_332 => 0x8032,
            DataType::U8_233R => 0x8362,
            DataType::U16_565 => 0x8363,
            DataType::U16_565R => 0x8364,
            DataType::U16_4444 => 0x8033,
            DataType::U16_4444R => 0x8365,
            DataType::U16_5551 => 0x8034,
            DataType::U16_1555R => 0x8366,
            DataType::U32_8888 => 0x8035,
            DataType::U32_8888R => 0x8367,
            DataType::U32_1010102 => 0x8036,
            DataType::U32_2101010R => 0x8368,
        }
    }

    /// Maps this per-channel datatype to its native constant.
    pub fn to_gl(self) -> (r: u32)
        ensures
            r == self.spec_to_gl(),
    {
        match self {
            DataType::U8 => 0x1401,
            DataType::I8 => 0x1400,
            DataType::U16 => 0x1403,
            DataType::I16 => 0x1402,
            DataType::U32 => 0x1405,
            DataType::I32 => 0x1404,
            DataType::F16 => 0x140B,
            DataType::F32 => 0x1406,
            DataType::U8_332 => 0x8032,
            DataType::U8_233R => 0x8362,
            DataType::U16_565 => 0x8363,
            DataType::U16_565R => 0x8364,
            DataType::U16_4444 => 0x8033,
            DataType::U16_4444R => 0x8365,
            DataType::U16_5551 => 0x8034,
            DataType::U16_1555R => 0x8366,
            DataType::U32_8888 => 0x8035,
            DataType::U32_8888R => 0x8367,
            DataType::U32_1010102 => 0x8036,
            DataType::U32_2101010R => 0x8368,
        }
    }
}

/// The texture objects of `s` whose handles are not listed in `ids`, in
/// order.
pub open spec fn spec_kept(s: Seq<TextureObject>, ids: Seq<u32>) -> Seq<TextureObject>
    decreases s.len(),
{
    if s.len() == 0 {
        s
    } else if ids.contains(s.last().id) {
        spec_kept(s.drop_last(), ids)
    } else {
        spec_kept(s.drop_last(), ids).push(s.last())
    }
}

/// Every kept object comes from `s`, none is listed in `ids`, and any
/// unlisted object of `s` is kept.
pub proof fn lemma_kept(s: Seq<TextureObject>, ids: Seq<u32>)
    ensures
        spec_kept(s, ids).len() <= s.len(),
        forall|j: int|
            0 <= j < spec_kept(s, ids).len() ==> {
                &&& !ids.contains((#[trigger] spec_kept(s, ids)[j]).id)
                &&& exists|i: int| 0 <= i < s.len() && spec_kept(s, ids)[j] == #[trigger] s[i]
            },
        forall|i: int|
            0 <= i < s.len() && !ids.contains((#[trigger] s[i]).id) ==> exists|j: int|
                0 <= j < spec_kept(s, ids).len() && s[i] == #[trigger] spec_kept(s, ids)[j],
    decreases s.len(),
{
    if s.len() > 0 {
        lemma_kept(s.drop_last(), ids);
        assert forall|i: int| 0 <= i < s.len() - 1 implies s.drop_last()[i] == s[i] by {}
        assert(s.last() == s[s.len() - 1]);
        let kept = spec_kept(s, ids);
        let kd = spec_kept(s.drop_last(), ids);
        if !ids.contains(s.last().id) {
            assert(kept == kd.push(s.last()));
            assert forall|j: int| 0 <= j < kd.len() implies kept[j] == kd[j] by {}
            assert(kept[kept.len() - 1] == s[s.len() - 1]);
        } else {
            assert(kept == kd);
        }
    }
}

/// One old object occupies at most one position of the kept table.
proof fn lemma_kept_distinct_positions(s: Seq<TextureObject>, ids: Seq<u32>, j1: int, j2: int)
    requires
        forall|i1: int, i2: int|
            0 <= i1 < i2 < s.len() ==> (#[trigger] s[i1]).id != (#[trigger] s[i2]).id,
        0 <= j1 < j2 < spec_kept(s, ids).len(),
    ensures
        spec_kept(s, ids)[j1] != spec_kept(s, ids)[j2],
    decreases s.len(),
{
    if s.len() > 0 {
        assert forall|i: int| 0 <= i < s.len() - 1 implies s.drop_last()[i] == s[i] by {}
        let kept = spec_kept(s, ids);
        let kd = spec_kept(s.drop_last(), ids);
        if !ids.contains(s.last().id) && j2 == kept.len() - 1 {
            lemma_kept(s.drop_last(), ids);
            let i1 = choose|i1: int|
                0 <= i1 < s.drop_last().len() && kd[j1] == #[trigger] s.drop_last()[i1];
            assert(s[i1].id != s[s.len() - 1].id);
        } else {
            lemma_kept_distinct_positions(s.drop_last(), ids, j1, j2);
        }
    }
}

/// Allocates a fresh texture handle. Creation always succeeds and never
/// touches the error flag; the new object has no image, no mipmaps and no
/// assigned sampling properties.
pub fn create(ctx: &mut Context) -> (id: u32)
    requires
        old(ctx).wf(),
        old(ctx).next_id < u32::MAX,
    ensures
        final(ctx).wf(),
        id == old(ctx).next_id,
        id != 0,
        !old(ctx).has_texture(id),
        final(ctx).has_texture(id),
        final(ctx).textures@ == old(ctx).textures@.push(
            TextureObject { id, image: None, mipmap: false, wrap_s: None, wrap_t: None, wrap_r: None, min_filter: None, mag_filter: None },
        ),
        final(ctx).next_id == old(ctx).next_id + 1,
        final(ctx).same_objects_except_textures(*old(ctx)),
        final(ctx).same_slots(*old(ctx)),
        final(ctx).error == old(ctx).error,
        final(ctx).draws == old(ctx).draws,
{
    let id = ctx.next_id;
    proof {
        ctx.lemma_texture_idx(id);
        if ctx.has_texture(id) {
            assert(ctx.textures@[ctx.texture_idx(id)].id == id);
        }
    }
    let ghost pre = *ctx;
    ctx.textures.push(TextureObject { id, image: None, mipmap: false, wrap_s: None, wrap_t: None, wrap_r: None, min_filter: None, mag_filter: None });
    ctx.next_id = ctx.next_id + 1;
    proof {
        Context::lemma_texture_push_keeps(pre, *ctx, TextureObject { id, image: None, mipmap: false, wrap_s: None, wrap_t: None, wrap_r: None, min_filter: None, mag_filter: None });
        ctx.lemma_texture_idx(id);
        if !ctx.has_texture(id) {
            assert(ctx.textures@[pre.textures@.len() as int].id != id);
        }
    }
    id
}

/// Deletes the listed texture handles in one batch: each listed live
/// texture is removed and any binding slot holding it reverts to empty.
/// Unknown handles and the reserved handle `0` are silently tolerated, an
/// empty batch is a no-op, and the error flag is never touched.
#[verifier::rlimit(50)]
pub fn delete(ctx: &mut Context, ids: &[u32])
    requires
        old(ctx).wf(),
    ensures
        final(ctx).wf(),
        final(ctx).textures@ == spec_kept(old(ctx).textures@, ids@),
        forall|v: u32| final(ctx).has_texture(v) <==> old(ctx).has_texture(v) && !ids@.contains(v),
        final(ctx).bound_textures@.len() == old(ctx).bound_textures@.len(),
        forall|i: int|
            0 <= i < old(ctx).bound_textures@.len() ==> final(ctx).bound_textures@[i] == (
            if ids@.contains(#[trigger] old(ctx).bound_textures@[i]) {
                0u32
            } else {
                old(ctx).bound_textures@[i]
            }),
        final(ctx).same_objects_except_textures(*old(ctx)),
        final(ctx).same_slots_except_textures(*old(ctx)),
        final(ctx).next_id == old(ctx).next_id,
        final(ctx).error == old(ctx).error,
        final(ctx).draws == old(ctx).draws,
{
    let ghost pre = *ctx;
    let n = ctx.textures.len();
    let mut kept: Vec<TextureObject> = Vec::new();
    let mut i: usize = 0;
    while i < n
        invariant
            i <= n,
            n == pre.textures@.len(),
            *ctx == pre,
            kept@ == spec_kept(pre.textures@.take(i as int), ids@),
        decreases n - i,
    {
        proof {
            assert(pre.textures@.take(i + 1 as int).drop_last() =~= pre.textures@.take(i as int));
            assert(pre.textures@.take(i + 1 as int).last() == pre.textures@[i as int]);
        }
        let t = ctx.textures[i];
        if !crate::raw::buffer::contains_id(ids, t.id) {
            kept.push(t);
        }
        i = i + 1;
    }
    proof {
        assert(pre.textures@.take(n as int) =~= pre.textures@);
    }
    ctx.textures = kept;
    // unbind every slot that held a deleted handle
    let slots = ctx.bound_textures.len();
    let mut k: usize = 0;
    while k < slots
        invariant
            k <= slots,
            slots == pre.bound_textures@.len(),
            ctx.bound_textures@.len() == slots,
            ctx.textures@ == spec_kept(pre.textures@, ids@),
            ctx.same_objects_except_textures(pre),
            ctx.same_slots_except_textures(pre),
            ctx.next_id == pre.next_id,
            ctx.error == pre.error,
            ctx.draws == pre.draws,
            forall|j: int|
                k <= j < slots ==> ctx.bound_textures@[j] == #[trigger] pre.bound_textures@[j],
            forall|j: int|
                0 <= j < k ==> ctx.bound_textures@[j] == (
                if ids@.contains(#[trigger] pre.bound_textures@[j]) {
                    0u32
                } else {
                    pre.bound_textures@[j]
                }),
        decreases slots - k,
    {
        let v = ctx.bound_textures[k];
        if crate::raw::buffer::contains_id(ids, v) {
            let slot = &mut ctx.bound_textures[k];
            *slot = 0;
        }
        k = k + 1;
    }
    proof {
        lemma_kept(pre.textures@, ids@);
        assert forall|v: u32|
            ctx.has_texture(v) <==> (pre.has_texture(v) && !ids@.contains(v)) by {
            ctx.lemma_texture_idx(v);
            pre.lemma_texture_idx(v);
            if ctx.has_texture(v) {
                let j = ctx.texture_idx(v);
                assert(!ids@.contains(ctx.textures@[j].id));
                let i2 = choose|i2: int|
                    0 <= i2 < pre.textures@.len() && ctx.textures@[j] == pre.textures@[i2];
                assert(pre.textures@[i2].id == v);
                if !pre.has_texture(v) {
                    assert(pre.textures@[i2].id != v);
                }
            }
            if pre.has_texture(v) && !ids@.contains(v) {
                let i2 = pre.texture_idx(v);
                assert(!ids@.contains(pre.textures@[i2].id));
                let j = choose|j: int|
                    0 <= j < ctx.textures@.len() && pre.textures@[i2] == ctx.textures@[j];
                assert(ctx.textures@[j].id == v);
                if !ctx.has_texture(v) {
                    assert(ctx.textures@[j].id != v);
                }
            }
        }
        assert forall|j: int| 0 <= j < ctx.textures@.len() implies {
            &&& (#[trigger] ctx.textures@[j]).id != 0
            &&& ctx.textures@[j].id < ctx.next_id
        } by {
            let i2 = choose|i2: int|
                0 <= i2 < pre.textures@.len() && ctx.textures@[j] == pre.textures@[i2];
            assert(pre.textures@[i2].id != 0);
            assert(pre.textures@[i2].id < pre.next_id);
        }
        assert forall|j1: int, j2: int|
            0 <= j1 < j2 < ctx.textures@.len() implies (#[trigger] ctx.textures@[j1]).id != (
        #[trigger] ctx.textures@[j2]).id by {
            let w1 = ctx.textures@[j1];
            let w2 = ctx.textures@[j2];
            if w1.id == w2.id {
                let i1 = choose|i1: int| 0 <= i1 < pre.textures@.len() && w1 == pre.textures@[i1];
                let i2 = choose|i2: int| 0 <= i2 < pre.textures@.len() && w2 == pre.textures@[i2];
                if i1 != i2 {
                    assert(pre.textures@[i1].id != pre.textures@[i2].id);
                } else {
                    lemma_kept_distinct_positions(pre.textures@, ids@, j1, j2);
                }
            }
        }
        // every still-filled slot holds a surviving handle
        assert forall|i2: int| 0 <= i2 < ctx.bound_textures@.len() implies (
        #[trigger] ctx.bound_textures@[i2] == 0 || ctx.has_texture(ctx.bound_textures@[i2])) by {
            let v0 = pre.bound_textures@[i2];
            if !ids@.contains(v0) && v0 != 0 {
                assert(pre.has_texture(v0));
                assert(ctx.has_texture(v0));
            }
        }
    }
}

/// Binds a texture to the slot the target names. Binding the reserved
/// handle `0` empties the slot; binding a live handle fills it; binding a
/// handle the context never created records an invalid-operation error and
/// leaves every slot as it was.
pub fn bind(ctx: &mut Context, target: Target, id: u32)
    requires
        old(ctx).wf(),
    ensures
        final(ctx).wf(),
        id == 0 || old(ctx).has_texture(id) ==> {
            &&& final(ctx).bound_textures@ == old(ctx).bound_textures@.update(
                target.spec_slot(),
                id,
            )
            &&& final(ctx).error == old(ctx).error
        },
        id != 0 && !old(ctx).has_texture(id) ==> {
            &&& final(ctx).bound_textures@ == old(ctx).bound_textures@
            &&& final(ctx).error == crate::raw::error::INVALID_OPERATION
        },
        final(ctx).same_objects(*old(ctx)),
        final(ctx).same_slots_except_textures(*old(ctx)),
        final(ctx).next_id == old(ctx).next_id,
        final(ctx).draws == old(ctx).draws,
{
    if id == 0 || ctx.find_texture(id).is_some() {
        let s = target.slot();
        let slot = &mut ctx.bound_textures[s];
        *slot = id;
    } else {
        ctx.error = crate::raw::error::INVALID_OPERATION;
        proof {
            assert(ctx.bound_textures@ =~= old(ctx).bound_textures@);
        }
    }
}

/// Uploads a two-dimensional image to the texture bound to `target`,
/// passing dimensions and format tags through verbatim: the layer performs
/// no format conversion. The recorded object remembers the dimensions. With
/// no texture bound the call records an invalid-operation error.
pub fn apply_2d_image(
    ctx: &mut Context,
    target: Target,
    level: u32,
    internal_format: InternalFormat,
    width: u32,
    height: u32,
    data_format: DataFormat,
    data_type: DataType,
    data: &[u8],
)
    requires
        old(ctx).wf(),
        level <= 0x7FFF_FFFF,
        width <= 0x7FFF_FFFF,
        height <= 0x7FFF_FFFF,
    ensures
        final(ctx).wf(),
        old(ctx).bound_textures@[target.spec_slot()] == 0 ==> {
            &&& final(ctx).same_objects(*old(ctx))
            &&& final(ctx).error == crate::raw::error::INVALID_OPERATION
        },
        old(ctx).bound_textures@[target.spec_slot()] != 0 ==> {
            &&& final(ctx).textures@ == old(ctx).textures@.update(
                old(ctx).texture_idx(old(ctx).bound_textures@[target.spec_slot()]),
                TextureObject {
                    image: Some((width, height)),
                    ..old(ctx).texture_obj(old(ctx).bound_textures@[target.spec_slot()])
                },
            )
            &&& final(ctx).error == old(ctx).error
        },
        final(ctx).same_objects_except_textures(*old(ctx)),
        final(ctx).same_slots(*old(ctx)),
        final(ctx).next_id == old(ctx).next_id,
        final(ctx).draws == old(ctx).draws,
{
    let ghost pre = *ctx;
    let s = target.slot();
    let id = ctx.bound_textures[s];
    if id == 0 {
        ctx.error = crate::raw::error::INVALID_OPERATION;
        return;
    }
    proof {
        pre.lemma_texture_idx(id);
    }
    let idx = match ctx.find_texture(id) {
        Some(i) => i,
        None => 0,
    };
    let entry = &mut ctx.textures[idx];
    entry.image = Some((width, height));
    proof {
        Context::lemma_texture_update_keeps(pre, *ctx, idx as int, ctx.textures@[idx as int]);
    }
}

/// The texture object with one sampling property slot overwritten by the
/// given native constant.
pub open spec fn spec_with_property(obj: TextureObject, property: Property, value: i32) -> TextureObject {
    match property {
        Property::WrapS => TextureObject { wrap_s: Some(value), ..obj },
        Property::WrapT => TextureObject { wrap_t: Some(value), ..obj },
        Property::WrapR => TextureObject { wrap_r: Some(value), ..obj },
        Property::MinifyFilter => TextureObject { min_filter: Some(value), ..obj },
        Property::MagnifyFilter => TextureObject { mag_filter: Some(value), ..obj },
    }
}

/// Assigns one sampling property of the texture bound to `target`; the
/// value is the native constant of a wrap mode or filter, recorded on the
/// bound object's slot for that property. With no texture bound the call
/// records an invalid-operation error.
pub fn set_texture_property(ctx: &mut Context, target: Target, property: Property, value: i32)
    requires
        old(ctx).wf(),
    ensures
        final(ctx).wf(),
        old(ctx).bound_textures@[target.spec_slot()] == 0 ==> {
            &&& final(ctx).same_objects(*old(ctx))
            &&& final(ctx).error == crate::raw::error::INVALID_OPERATION
        },
        old(ctx).bound_textures@[target.spec_slot()] != 0 ==> {
            &&& final(ctx).textures@ == old(ctx).textures@.update(
                old(ctx).texture_idx(old(ctx).bound_textures@[target.spec_slot()]),
                spec_with_property(
                    old(ctx).texture_obj(old(ctx).bound_textures@[target.spec_slot()]),
                    property,
                    value,
                ),
            )
            &&& final(ctx).error == old(ctx).error
        },
        final(ctx).same_objects_except_textures(*old(ctx)),
        final(ctx).same_slots(*old(ctx)),
        final(ctx).next_id == old(ctx).next_id,
        final(ctx).draws == old(ctx).draws,
{
    let ghost pre = *ctx;
    let s = target.slot();
    let id = ctx.bound_textures[s];
    if id == 0 {
        ctx.error = crate::raw::error::INVALID_OPERATION;
        return;
    }
    proof {
        pre.lemma_texture_idx(id);
    }
    let idx = match ctx.find_texture(id) {
        Some(i) => i,
        None => 0,
    };
    let entry = &mut ctx.textures[idx];
    match property {
        Property::WrapS => {
            entry.wrap_s = Some(value);
        },
        Property::WrapT => {
            entry.wrap_t = Some(value);
        },
        Property::WrapR => {
            entry.wrap_r = Some(value);
        },
        Property::MinifyFilter => {
            entry.min_filter = Some(value);
        },
        Property::MagnifyFilter => {
            entry.mag_filter = Some(value);
        },
    }
    proof {
        Context::lemma_texture_update_keeps(pre, *ctx, idx as int, ctx.textures@[idx as int]);
    }
}

/// Generates the mipmap chain of the texture bound to `target`, recording
/// that the object now has mipmaps. With no texture bound the call records
/// an invalid-operation error.
pub fn generate_mipmap(ctx: &mut Context, target: Target)
    requires
        old(ctx).wf(),
    ensures
        final(ctx).wf(),
        old(ctx).bound_textures@[target.spec_slot()] == 0 ==> {
            &&& final(ctx).same_objects(*old(ctx))
            &&& final(ctx).error == crate::raw::error::INVALID_OPERATION
        },
        old(ctx).bound_textures@[target.spec_slot()] != 0 ==> {
            &&& final(ctx).textures@ == old(ctx).textures@.update(
                old(ctx).texture_idx(old(ctx).bound_textures@[target.spec_slot()]),
                TextureObject {
                    mipmap: true,
                    ..old(ctx).texture_obj(old(ctx).bound_textures@[target.spec_slot()])
                },
            )
            &&& final(ctx).error == old(ctx).error
        },
        final(ctx).same_objects_except_textures(*old(ctx)),
        final(ctx).same_slots(*old(ctx)),
        final(ctx).next_id == old(ctx).next_id,
        final(ctx).draws == old(ctx).draws,
{
    let ghost pre = *ctx;
    let s = target.slot();
    let id = ctx.bound_textures[s];
    if id == 0 {
        ctx.error = crate::raw::error::INVALID_OPERATION;
        return;
    }
    proof {
        pre.lemma_texture_idx(id);
    }
    let idx = match ctx.find_texture(id) {
        Some(i) => i,
        None => 0,
    };
    let entry = &mut ctx.textures[idx];
    entry.mipmap = true;
    proof {
        Context::lemma_texture_update_keeps(pre, *ctx, idx as int, ctx.textures@[idx as int]);
    }
}

} // verus!
