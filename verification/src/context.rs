//! The model of the driver context.
//!
//! The underlying driver keeps all its state — object tables, binding slots,
//! the sticky error flag — in a process-wide singleton. This module makes that
//! state an explicit value, so that every operation's contract can say exactly
//! which part of it is read and written. A [`Context`] holds one object table
//! per resource kind, one binding slot per target, the identifier allocator,
//! the one-deep error flag, and a count of committed draw submissions.
use vstd::prelude::*;

use crate::raw::buffer;
use crate::raw::shader;
use crate::raw::texture;
use crate::raw::vertex_array;

verus! {

/// A shader object: its handle, its stage, and the compile state machine
/// (source set, compiled with a verdict, diagnostic log).
pub struct ShaderObject {
    pub id: u32,
    pub stage: shader::Type,
    pub source: Option<Vec<u8>>,
    pub compiled: Option<bool>,
    pub log: Vec<u8>,
    pub flagged_for_delete: bool,
}

/// A program object: its handle, the attached shader handles, the link state
/// machine, and the uniform and attribute tables filled in by a successful
/// link (a uniform's location is its index in `uniforms`).
pub struct ProgramObject {
    pub id: u32,
    pub attached: Vec<u32>,
    pub linked: Option<bool>,
    pub log: Vec<u8>,
    pub uniforms: Vec<Vec<u8>>,
    pub attributes: Vec<Vec<u8>>,
    pub flagged_for_delete: bool,
}

/// A buffer object: its handle and the size and usage of its last upload.
#[derive(Clone, Copy)]
pub struct BufferObject {
    pub id: u32,
    pub data_len: usize,
    pub usage: Option<buffer::Usage>,
}

/// One vertex-attribute configuration captured by `configure_attribute`:
/// the layout parameters plus the buffer that was bound at the time.
pub struct AttributeRecord {
    pub index: u32,
    pub component: vertex_array::Component,
    pub data: vertex_array::Data,
    pub normalise: bool,
    pub stride: u32,
    pub offset: u32,
    pub buffer: u32,
}

/// A vertex-array object: its handle, the captured attribute records, and the
/// set of enabled attribute indices.
pub struct VertexArrayObject {
    pub id: u32,
    pub attributes: Vec<AttributeRecord>,
    pub enabled: Vec<u32>,
}

/// A texture object: its handle, whether an image and mipmaps were applied,
/// and the assigned sampling properties — one slot per assignable property,
/// each holding the native constant last written to it, `None` until one is.
#[derive(Clone, Copy)]
pub struct TextureObject {
    pub id: u32,
    pub image: Option<(u32, u32)>,
    pub mipmap: bool,
    pub wrap_s: Option<i32>,
    pub wrap_t: Option<i32>,
    pub wrap_r: Option<i32>,
    pub min_filter: Option<i32>,
    pub mag_filter: Option<i32>,
}

/// The index of the first element of `s` satisfying `p`, or `-1` if none does.
pub open spec fn idx_where<T>(s: Seq<T>, p: spec_fn(T) -> bool) -> int
    decreases s.len(),
{
    if s.len() == 0 {
        -1
    } else if p(s[0]) {
        0
    } else if idx_where(s.subrange(1, s.len() as int), p) == -1 {
        -1
    } else {
        idx_where(s.subrange(1, s.len() as int), p) + 1
    }
}

/// What `idx_where` returns: `-1` exactly when no element satisfies `p`,
/// otherwise the first satisfying index.
pub proof fn lemma_idx_where<T>(s: Seq<T>, p: spec_fn(T) -> bool)
    ensures
        idx_where(s, p) == -1 ==> forall|i: int| 0 <= i < s.len() ==> !p(#[trigger] s[i]),
        idx_where(s, p) != -1 ==> {
            &&& 0 <= idx_where(s, p) < s.len()
            &&& p(s[idx_where(s, p)])
            &&& forall|i: int| 0 <= i < idx_where(s, p) ==> !p(#[trigger] s[i])
        },
    decreases s.len(),
{
    if s.len() > 0 && !p(s[0]) {
        lemma_idx_where(s.subrange(1, s.len() as int), p);
        assert forall|i: int| 1 <= i < s.len() implies s.subrange(1, s.len() as int)[i - 1] == s[i]
        by {}
    }
}

/// The process-wide driver state as an explicit value.
pub struct Context {
    pub shaders: Vec<ShaderObject>,
    pub programs: Vec<ProgramObject>,
    pub buffers: Vec<BufferObject>,
    pub vertex_arrays: Vec<VertexArrayObject>,
    pub textures: Vec<TextureObject>,
    /// The next handle to hand out; handles are nonzero and never reused.
    pub next_id: u32,
    /// One bound buffer handle per buffer target, `0` for none.
    pub bound_buffers: Vec<u32>,
    /// One bound texture handle per texture target, `0` for none.
    pub bound_textures: Vec<u32>,
    /// The bound vertex array handle, `0` for none.
    pub bound_vertex_array: u32,
    /// The active program handle, `0` for none.
    pub active_program: u32,
    /// The sticky one-deep error flag: a raw error code, `0` when clear.
    pub error: u32,
    /// How many draw submissions have been committed.
    pub draws: u64,
}

impl Context {
    pub open spec fn shader_idx(self, id: u32) -> int {
        idx_where(self.shaders@, |o: ShaderObject| o.id == id)
    }

    pub open spec fn has_shader(self, id: u32) -> bool {
        self.shader_idx(id) != -1
    }

    pub open spec fn shader_obj(self, id: u32) -> ShaderObject {
        self.shaders@[self.shader_idx(id)]
    }

    pub open spec fn program_idx(self, id: u32) -> int {
        idx_where(self.programs@, |o: ProgramObject| o.id == id)
    }

    pub open spec fn has_program(self, id: u32) -> bool {
        self.program_idx(id) != -1
    }

    pub open spec fn program_obj(self, id: u32) -> ProgramObject {
        self.programs@[self.program_idx(id)]
    }

    pub open spec fn buffer_idx(self, id: u32) -> int {
        idx_where(self.buffers@, |o: BufferObject| o.id == id)
    }

    pub open spec fn has_buffer(self, id: u32) -> bool {
        self.buffer_idx(id) != -1
    }

    pub open spec fn buffer_obj(self, id: u32) -> BufferObject {
        self.buffers@[self.buffer_idx(id)]
    }

    pub open spec fn vertex_array_idx(self, id: u32) -> int {
        idx_where(self.vertex_arrays@, |o: VertexArrayObject| o.id == id)
    }

    pub open spec fn has_vertex_array(self, id: u32) -> bool {
        self.vertex_array_idx(id) != -1
    }

    pub open spec fn vertex_array_obj(self, id: u32) -> VertexArrayObject {
        self.vertex_arrays@[self.vertex_array_idx(id)]
    }

    pub open spec fn texture_idx(self, id: u32) -> int {
        idx_where(self.textures@, |o: TextureObject| o.id == id)
    }

    pub open spec fn has_texture(self, id: u32) -> bool {
        self.texture_idx(id) != -1
    }

    pub open spec fn texture_obj(self, id: u32) -> TextureObject {
        self.textures@[self.texture_idx(id)]
    }

    /// Well-formedness: handles are nonzero, below the allocator mark and
    /// distinct within their kind; every attached shader handle is live and
    /// attached at most once; every binding slot is empty or holds a live
    /// handle; the slot tables have one entry per target.
    pub open spec fn wf(self) -> bool {
        &&& self.next_id >= 1
        &&& forall|i: int|
            0 <= i < self.shaders@.len() ==> {
                &&& (#[trigger] self.shaders@[i]).id != 0
                &&& self.shaders@[i].id < self.next_id
            }
        &&& forall|i: int, j: int|
            0 <= i < j < self.shaders@.len() ==> (#[trigger] self.shaders@[i]).id != (#[trigger] self.shaders@[j]).id
        &&& forall|i: int|
            0 <= i < self.programs@.len() ==> {
                &&& (#[trigger] self.programs@[i]).id != 0
                &&& self.programs@[i].id < self.next_id
            }
        &&& forall|i: int, j: int|
            0 <= i < j < self.programs@.len() ==> (#[trigger] self.programs@[i]).id != (#[trigger] self.programs@[j]).id
        &&& forall|i: int|
            0 <= i < self.buffers@.len() ==> {
                &&& (#[trigger] self.buffers@[i]).id != 0
                &&& self.buffers@[i].id < self.next_id
            }
        &&& forall|i: int, j: int|
            0 <= i < j < self.buffers@.len() ==> (#[trigger] self.buffers@[i]).id != (#[trigger] self.buffers@[j]).id
        &&& forall|i: int|
            0 <= i < self.vertex_arrays@.len() ==> {
                &&& (#[trigger] self.vertex_arrays@[i]).id != 0
                &&& self.vertex_arrays@[i].id < self.next_id
            }
        &&& forall|i: int, j: int|
            0 <= i < j < self.vertex_arrays@.len() ==> (#[trigger] self.vertex_arrays@[i]).id != (#[trigger] self.vertex_arrays@[j]).id
        &&& forall|i: int|
            0 <= i < self.textures@.len() ==> {
                &&& (#[trigger] self.textures@[i]).id != 0
                &&& self.textures@[i].id < self.next_id
            }
        &&& forall|i: int, j: int|
            0 <= i < j < self.textures@.len() ==> (#[trigger] self.textures@[i]).id != (#[trigger] self.textures@[j]).id
        &&& forall|i: int|
            0 <= i < self.programs@.len() ==> (#[trigger] self.programs@[i]).wf_attached(self)
        &&& self.bound_buffers@.len() == buffer::TARGET_SLOTS
        &&& forall|i: int|
            0 <= i < self.bound_buffers@.len() ==> {
                #[trigger] self.bound_buffers@[i] == 0 || self.has_buffer(self.bound_buffers@[i])
            }
        &&& self.bound_textures@.len() == texture::TARGET_SLOTS
        &&& forall|i: int|
            0 <= i < self.bound_textures@.len() ==> {
                #[trigger] self.bound_textures@[i] == 0 || self.has_texture(self.bound_textures@[i])
            }
        &&& (self.bound_vertex_array == 0 || self.has_vertex_array(self.bound_vertex_array))
        &&& (self.active_program == 0 || self.has_program(self.active_program))
    }

    /// All five object tables agree.
    pub open spec fn same_objects(self, o: Context) -> bool {
        &&& self.shaders@ == o.shaders@
        &&& self.programs@ == o.programs@
        &&& self.buffers@ == o.buffers@
        &&& self.vertex_arrays@ == o.vertex_arrays@
        &&& self.textures@ == o.textures@
    }

    /// All object tables but the shader table agree.
    pub open spec fn same_objects_except_shaders(self, o: Context) -> bool {
        &&& self.programs@ == o.programs@
        &&& self.buffers@ == o.buffers@
        &&& self.vertex_arrays@ == o.vertex_arrays@
        &&& self.textures@ == o.textures@
    }

    /// All object tables but the program table agree.
    pub open spec fn same_objects_except_programs(self, o: Context) -> bool {
        &&& self.shaders@ == o.shaders@
        &&& self.buffers@ == o.buffers@
        &&& self.vertex_arrays@ == o.vertex_arrays@
        &&& self.textures@ == o.textures@
    }

    /// All object tables but the buffer table agree.
    pub open spec fn same_objects_except_buffers(self, o: Context) -> bool {
        &&& self.shaders@ == o.shaders@
        &&& self.programs@ == o.programs@
        &&& self.vertex_arrays@ == o.vertex_arrays@
        &&& self.textures@ == o.textures@
    }

    /// All object tables but the vertex-array table agree.
    pub open spec fn same_objects_except_vertex_arrays(self, o: Context) -> bool {
        &&& self.shaders@ == o.shaders@
        &&& self.programs@ == o.programs@
        &&& self.buffers@ == o.buffers@
        &&& self.textures@ == o.textures@
    }

    /// All object tables but the texture table agree.
    pub open spec fn same_objects_except_textures(self, o: Context) -> bool {
        &&& self.shaders@ == o.shaders@
        &&& self.programs@ == o.programs@
        &&& self.buffers@ == o.buffers@
        &&& self.vertex_arrays@ == o.vertex_arrays@
    }

    /// All four binding-slot groups agree.
    pub open spec fn same_slots(self, o: Context) -> bool {
        &&& self.bound_buffers@ == o.bound_buffers@
        &&& self.bound_textures@ == o.bound_textures@
        &&& self.bound_vertex_array == o.bound_vertex_array
        &&& self.active_program == o.active_program
    }

    /// All binding slots but the buffer slots agree.
    pub open spec fn same_slots_except_buffers(self, o: Context) -> bool {
        &&& self.bound_textures@ == o.bound_textures@
        &&& self.bound_vertex_array == o.bound_vertex_array
        &&& self.active_program == o.active_program
    }

    /// All binding slots but the texture slots agree.
    pub open spec fn same_slots_except_textures(self, o: Context) -> bool {
        &&& self.bound_buffers@ == o.bound_buffers@
        &&& self.bound_vertex_array == o.bound_vertex_array
        &&& self.active_program == o.active_program
    }

    /// All binding slots but the vertex-array slot agree.
    pub open spec fn same_slots_except_vertex_array(self, o: Context) -> bool {
        &&& self.bound_buffers@ == o.bound_buffers@
        &&& self.bound_textures@ == o.bound_textures@
        &&& self.active_program == o.active_program
    }

    /// All binding slots but the active-program slot agree.
    pub open spec fn same_slots_except_program(self, o: Context) -> bool {
        &&& self.bound_buffers@ == o.bound_buffers@
        &&& self.bound_textures@ == o.bound_textures@
        &&& self.bound_vertex_array == o.bound_vertex_array
    }

    /// The allocator mark, the error flag and the draw count agree.
    pub open spec fn same_counters(self, o: Context) -> bool {
        &&& self.next_id == o.next_id
        &&& self.error == o.error
        &&& self.draws == o.draws
    }

    /// A fresh context: no objects, every slot empty, the error flag clear.
    pub fn new() -> (ctx: Context)
        ensures
            ctx.wf(),
            ctx.shaders@.len() == 0,
            ctx.programs@.len() == 0,
            ctx.buffers@.len() == 0,
            ctx.vertex_arrays@.len() == 0,
            ctx.textures@.len() == 0,
            ctx.next_id == 1,
            forall|i: int| 0 <= i < ctx.bound_buffers@.len() ==> #[trigger] ctx.bound_buffers@[i] == 0,
            forall|i: int| 0 <= i < ctx.bound_textures@.len() ==> #[trigger] ctx.bound_textures@[i] == 0,
            ctx.bound_vertex_array == 0,
            ctx.active_program == 0,
            ctx.error == 0,
            ctx.draws == 0,
    {
        let mut bound_buffers: Vec<u32> = Vec::new();
        let mut i: usize = 0;
        while i < buffer::TARGET_SLOTS
            invariant
                i <= buffer::TARGET_SLOTS,
                bound_buffers@.len() == i,
                forall|k: int| 0 <= k < i ==> #[trigger] bound_buffers@[k] == 0,
            decreases buffer::TARGET_SLOTS - i,
        {
            bound_buffers.push(0);
            i = i + 1;
        }
        let mut bound_textures: Vec<u32> = Vec::new();
        let mut j: usize = 0;
        while j < texture::TARGET_SLOTS
            invariant
                j <= texture::TARGET_SLOTS,
                bound_textures@.len() == j,
                forall|k: int| 0 <= k < j ==> #[trigger] bound_textures@[k] == 0,
            decreases texture::TARGET_SLOTS - j,
        {
            bound_textures.push(0);
            j = j + 1;
        }
        Context {
            shaders: Vec::new(),
            programs: Vec::new(),
            buffers: Vec::new(),
            vertex_arrays: Vec::new(),
            textures: Vec::new(),
            next_id: 1,
            bound_buffers,
            bound_textures,
            bound_vertex_array: 0,
            active_program: 0,
            error: 0,
            draws: 0,
        }
    }
}

impl Context {
    /// Where a live shader handle stands in the table: within bounds, naming
    /// the handle, and first of its kind.
    pub proof fn lemma_shader_idx(self, id: u32)
        ensures
            !self.has_shader(id) ==> forall|i: int|
                0 <= i < self.shaders@.len() ==> (#[trigger] self.shaders@[i]).id != id,
            self.has_shader(id) ==> {
                &&& 0 <= self.shader_idx(id) < self.shaders@.len()
                &&& self.shader_obj(id).id == id
            },
    {
        lemma_idx_where(self.shaders@, |o: ShaderObject| o.id == id);
    }

    /// Where a live program handle stands in the table.
    pub proof fn lemma_program_idx(self, id: u32)
        ensures
            !self.has_program(id) ==> forall|i: int|
                0 <= i < self.programs@.len() ==> (#[trigger] self.programs@[i]).id != id,
            self.has_program(id) ==> {
                &&& 0 <= self.program_idx(id) < self.programs@.len()
                &&& self.program_obj(id).id == id
            },
    {
        lemma_idx_where(self.programs@, |o: ProgramObject| o.id == id);
    }

    /// Where a live buffer handle stands in the table.
    pub proof fn lemma_buffer_idx(self, id: u32)
        ensures
            !self.has_buffer(id) ==> forall|i: int|
                0 <= i < self.buffers@.len() ==> (#[trigger] self.buffers@[i]).id != id,
            self.has_buffer(id) ==> {
                &&& 0 <= self.buffer_idx(id) < self.buffers@.len()
                &&& self.buffer_obj(id).id == id
            },
    {
        lemma_idx_where(self.buffers@, |o: BufferObject| o.id == id);
    }

    /// Where a live vertex-array handle stands in the table.
    pub proof fn lemma_vertex_array_idx(self, id: u32)
        ensures
            !self.has_vertex_array(id) ==> forall|i: int|
                0 <= i < self.vertex_arrays@.len() ==> (#[trigger] self.vertex_arrays@[i]).id != id,
            self.has_vertex_array(id) ==> {
                &&& 0 <= self.vertex_array_idx(id) < self.vertex_arrays@.len()
                &&& self.vertex_array_obj(id).id == id
            },
    {
        lemma_idx_where(self.vertex_arrays@, |o: VertexArrayObject| o.id == id);
    }

    /// Where a live texture handle stands in the table.
    pub proof fn lemma_texture_idx(self, id: u32)
        ensures
            !self.has_texture(id) ==> forall|i: int|
                0 <= i < self.textures@.len() ==> (#[trigger] self.textures@[i]).id != id,
            self.has_texture(id) ==> {
                &&& 0 <= self.texture_idx(id) < self.textures@.len()
                &&& self.texture_obj(id).id == id
            },
    {
        lemma_idx_where(self.textures@, |o: TextureObject| o.id == id);
    }

    /// Under well-formedness the table holds at most one object per handle,
    /// so any index naming `id` is `shader_idx(id)`.
    pub proof fn lemma_shader_idx_unique(self, id: u32, i: int)
        requires
            forall|i1: int, i2: int|
                0 <= i1 < i2 < self.shaders@.len() ==> (#[trigger] self.shaders@[i1]).id != (
                #[trigger] self.shaders@[i2]).id,
            0 <= i < self.shaders@.len(),
            self.shaders@[i].id == id,
        ensures
            self.has_shader(id),
            self.shader_idx(id) == i,
    {
        self.lemma_shader_idx(id);
        let k = self.shader_idx(id);
        if k != i {
            assert(self.shaders@[k].id == self.shaders@[i].id);
        }
    }

    /// Any index naming `id` in the program table is `program_idx(id)`.
    pub proof fn lemma_program_idx_unique(self, id: u32, i: int)
        requires
            forall|i1: int, i2: int|
                0 <= i1 < i2 < self.programs@.len() ==> (#[trigger] self.programs@[i1]).id != (
                #[trigger] self.programs@[i2]).id,
            0 <= i < self.programs@.len(),
            self.programs@[i].id == id,
        ensures
            self.has_program(id),
            self.program_idx(id) == i,
    {
        self.lemma_program_idx(id);
        let k = self.program_idx(id);
        if k != i {
            assert(self.programs@[k].id == self.programs@[i].id);
        }
    }

    /// Any index naming `id` in the buffer table is `buffer_idx(id)`.
    pub proof fn lemma_buffer_idx_unique(self, id: u32, i: int)
        requires
            forall|i1: int, i2: int|
                0 <= i1 < i2 < self.buffers@.len() ==> (#[trigger] self.buffers@[i1]).id != (
                #[trigger] self.buffers@[i2]).id,
            0 <= i < self.buffers@.len(),
            self.buffers@[i].id == id,
        ensures
            self.has_buffer(id),
            self.buffer_idx(id) == i,
    {
        self.lemma_buffer_idx(id);
        let k = self.buffer_idx(id);
        if k != i {
            assert(self.buffers@[k].id == self.buffers@[i].id);
        }
    }

    /// Any index naming `id` in the vertex-array table is
    /// `vertex_array_idx(id)`.
    pub proof fn lemma_vertex_array_idx_unique(self, id: u32, i: int)
        requires
            forall|i1: int, i2: int|
                0 <= i1 < i2 < self.vertex_arrays@.len() ==> (#[trigger] self.vertex_arrays@[i1]).id != (
                #[trigger] self.vertex_arrays@[i2]).id,
            0 <= i < self.vertex_arrays@.len(),
            self.vertex_arrays@[i].id == id,
        ensures
            self.has_vertex_array(id),
            self.vertex_array_idx(id) == i,
    {
        self.lemma_vertex_array_idx(id);
        let k = self.vertex_array_idx(id);
        if k != i {
            assert(self.vertex_arrays@[k].id == self.vertex_arrays@[i].id);
        }
    }

    /// Any index naming `id` in the texture table is `texture_idx(id)`.
    pub proof fn lemma_texture_idx_unique(self, id: u32, i: int)
        requires
            forall|i1: int, i2: int|
                0 <= i1 < i2 < self.textures@.len() ==> (#[trigger] self.textures@[i1]).id != (
                #[trigger] self.textures@[i2]).id,
            0 <= i < self.textures@.len(),
            self.textures@[i].id == id,
        ensures
            self.has_texture(id),
            self.texture_idx(id) == i,
    {
        self.lemma_texture_idx(id);
        let k = self.texture_idx(id);
        if k != i {
            assert(self.textures@[k].id == self.textures@[i].id);
        }
    }

    /// Appending a shader object keeps every live shader handle live.
    pub proof fn lemma_shader_push_keeps(a: Context, b: Context, obj: ShaderObject)
        requires
            b.shaders@ == a.shaders@.push(obj),
        ensures
            forall|v: u32| a.has_shader(v) ==> #[trigger] b.has_shader(v),
    {
        assert forall|v: u32| a.has_shader(v) implies #[trigger] b.has_shader(v) by {
            a.lemma_shader_idx(v);
            let k = a.shader_idx(v);
            assert(b.shaders@[k].id == v);
            b.lemma_shader_idx(v);
            if !b.has_shader(v) {
                assert(b.shaders@[k].id != v);
            }
        }
    }

    /// Appending a program object keeps every live program handle live.
    pub proof fn lemma_program_push_keeps(a: Context, b: Context, obj: ProgramObject)
        requires
            b.programs@ == a.programs@.push(obj),
        ensures
            forall|v: u32| a.has_program(v) ==> #[trigger] b.has_program(v),
    {
        assert forall|v: u32| a.has_program(v) implies #[trigger] b.has_program(v) by {
            a.lemma_program_idx(v);
            let k = a.program_idx(v);
            assert(b.programs@[k].id == v);
            b.lemma_program_idx(v);
            if !b.has_program(v) {
                assert(b.programs@[k].id != v);
            }
        }
    }

    /// Appending a buffer object keeps every live buffer handle live.
    pub proof fn lemma_buffer_push_keeps(a: Context, b: Context, obj: BufferObject)
        requires
            b.buffers@ == a.buffers@.push(obj),
        ensures
            forall|v: u32| a.has_buffer(v) ==> #[trigger] b.has_buffer(v),
    {
        assert forall|v: u32| a.has_buffer(v) implies #[trigger] b.has_buffer(v) by {
            a.lemma_buffer_idx(v);
            let k = a.buffer_idx(v);
            assert(b.buffers@[k].id == v);
            b.lemma_buffer_idx(v);
            if !b.has_buffer(v) {
                assert(b.buffers@[k].id != v);
            }
        }
    }

    /// Appending a vertex-array object keeps every live handle live.
    pub proof fn lemma_vertex_array_push_keeps(a: Context, b: Context, obj: VertexArrayObject)
        requires
            b.vertex_arrays@ == a.vertex_arrays@.push(obj),
        ensures
            forall|v: u32| a.has_vertex_array(v) ==> #[trigger] b.has_vertex_array(v),
    {
        assert forall|v: u32| a.has_vertex_array(v) implies #[trigger] b.has_vertex_array(v) by {
            a.lemma_vertex_array_idx(v);
            let k = a.vertex_array_idx(v);
            assert(b.vertex_arrays@[k].id == v);
            b.lemma_vertex_array_idx(v);
            if !b.has_vertex_array(v) {
                assert(b.vertex_arrays@[k].id != v);
            }
        }
    }

    /// Appending a texture object keeps every live texture handle live.
    pub proof fn lemma_texture_push_keeps(a: Context, b: Context, obj: TextureObject)
        requires
            b.textures@ == a.textures@.push(obj),
        ensures
            forall|v: u32| a.has_texture(v) ==> #[trigger] b.has_texture(v),
    {
        assert forall|v: u32| a.has_texture(v) implies #[trigger] b.has_texture(v) by {
            a.lemma_texture_idx(v);
            let k = a.texture_idx(v);
            assert(b.textures@[k].id == v);
            b.lemma_texture_idx(v);
            if !b.has_texture(v) {
                assert(b.textures@[k].id != v);
            }
        }
    }

    /// Replacing a shader object by one with the same handle keeps every
    /// live shader handle live.
    pub proof fn lemma_shader_update_keeps(a: Context, b: Context, i: int, obj: ShaderObject)
        requires
            0 <= i < a.shaders@.len(),
            obj.id == a.shaders@[i].id,
            b.shaders@ == a.shaders@.update(i, obj),
        ensures
            forall|v: u32| a.has_shader(v) ==> #[trigger] b.has_shader(v),
    {
        assert forall|v: u32| a.has_shader(v) implies #[trigger] b.has_shader(v) by {
            a.lemma_shader_idx(v);
            let k = a.shader_idx(v);
            assert(b.shaders@[k].id == v);
            b.lemma_shader_idx(v);
            if !b.has_shader(v) {
                assert(b.shaders@[k].id != v);
            }
        }
    }

    /// Replacing a program object by one with the same handle keeps every
    /// live program handle live.
    pub proof fn lemma_program_update_keeps(a: Context, b: Context, i: int, obj: ProgramObject)
        requires
            0 <= i < a.programs@.len(),
            obj.id == a.programs@[i].id,
            b.programs@ == a.programs@.update(i, obj),
        ensures
            forall|v: u32| a.has_program(v) ==> #[trigger] b.has_program(v),
    {
        assert forall|v: u32| a.has_program(v) implies #[trigger] b.has_program(v) by {
            a.lemma_program_idx(v);
            let k = a.program_idx(v);
            assert(b.programs@[k].id == v);
            b.lemma_program_idx(v);
            if !b.has_program(v) {
                assert(b.programs@[k].id != v);
            }
        }
    }

    /// Replacing a buffer object by one with the same handle keeps every
    /// live buffer handle live.
    pub proof fn lemma_buffer_update_keeps(a: Context, b: Context, i: int, obj: BufferObject)
        requires
            0 <= i < a.buffers@.len(),
            obj.id == a.buffers@[i].id,
            b.buffers@ == a.buffers@.update(i, obj),
        ensures
            forall|v: u32| a.has_buffer(v) ==> #[trigger] b.has_buffer(v),
    {
        assert forall|v: u32| a.has_buffer(v) implies #[trigger] b.has_buffer(v) by {
            a.lemma_buffer_idx(v);
            let k = a.buffer_idx(v);
            assert(b.buffers@[k].id == v);
            b.lemma_buffer_idx(v);
            if !b.has_buffer(v) {
                assert(b.buffers@[k].id != v);
            }
        }
    }

    /// Replacing a vertex-array object by one with the same handle keeps
    /// every live handle live.
    pub proof fn lemma_vertex_array_update_keeps(
        a: Context,
        b: Context,
        i: int,
        obj: VertexArrayObject,
    )
        requires
            0 <= i < a.vertex_arrays@.len(),
            obj.id == a.vertex_arrays@[i].id,
            b.vertex_arrays@ == a.vertex_arrays@.update(i, obj),
        ensures
            forall|v: u32| a.has_vertex_array(v) ==> #[trigger] b.has_vertex_array(v),
    {
        assert forall|v: u32| a.has_vertex_array(v) implies #[trigger] b.has_vertex_array(v) by {
            a.lemma_vertex_array_idx(v);
            let k = a.vertex_array_idx(v);
            assert(b.vertex_arrays@[k].id == v);
            b.lemma_vertex_array_idx(v);
            if !b.has_vertex_array(v) {
                assert(b.vertex_arrays@[k].id != v);
            }
        }
    }

    /// Replacing a texture object by one with the same handle keeps every
    /// live texture handle live.
    pub proof fn lemma_texture_update_keeps(a: Context, b: Context, i: int, obj: TextureObject)
        requires
            0 <= i < a.textures@.len(),
            obj.id == a.textures@[i].id,
            b.textures@ == a.textures@.update(i, obj),
        ensures
            forall|v: u32| a.has_texture(v) ==> #[trigger] b.has_texture(v),
    {
        assert forall|v: u32| a.has_texture(v) implies #[trigger] b.has_texture(v) by {
            a.lemma_texture_idx(v);
            let k = a.texture_idx(v);
            assert(b.textures@[k].id == v);
            b.lemma_texture_idx(v);
            if !b.has_texture(v) {
                assert(b.textures@[k].id != v);
            }
        }
    }

    /// Looks a shader handle up in the table.
    pub fn find_shader(&self, id: u32) -> (r: Option<usize>)
        requires
            self.wf(),
        ensures
            match r {
                Some(i) => self.has_shader(id) && i == self.shader_idx(id),
                None => !self.has_shader(id),
            },
    {
        let n = self.shaders.len();
        let mut i: usize = 0;
        while i < n
            invariant
                i <= n,
                n == self.shaders@.len(),
                self.wf(),
                forall|j: int| 0 <= j < i ==> (#[trigger] self.shaders@[j]).id != id,
            decreases n - i,
        {
            if self.shaders[i].id == id {
                proof {
                    self.lemma_shader_idx_unique(id, i as int);
                }
                return Some(i);
            }
            i = i + 1;
        }
        proof {
            self.lemma_shader_idx(id);
            if self.has_shader(id) {
                assert(self.shaders@[self.shader_idx(id)].id == id);
            }
        }
        None
    }

    /// Looks a program handle up in the table.
    pub fn find_program(&self, id: u32) -> (r: Option<usize>)
        requires
            self.wf(),
        ensures
            match r {
                Some(i) => self.has_program(id) && i == self.program_idx(id),
                None => !self.has_program(id),
            },
    {
        let n = self.programs.len();
        let mut i: usize = 0;
        while i < n
            invariant
                i <= n,
                n == self.programs@.len(),
                self.wf(),
                forall|j: int| 0 <= j < i ==> (#[trigger] self.programs@[j]).id != id,
            decreases n - i,
        {
            if self.programs[i].id == id {
                proof {
                    self.lemma_program_idx_unique(id, i as int);
                }
                return Some(i);
            }
            i = i + 1;
        }
        proof {
            self.lemma_program_idx(id);
            if self.has_program(id) {
                assert(self.programs@[self.program_idx(id)].id == id);
            }
        }
        None
    }

    /// Looks a buffer handle up in the table.
    pub fn find_buffer(&self, id: u32) -> (r: Option<usize>)
        requires
            self.wf(),
        ensures
            match r {
                Some(i) => self.has_buffer(id) && i == self.buffer_idx(id),
                None => !self.has_buffer(id),
            },
    {
        let n = self.buffers.len();
        let mut i: usize = 0;
        while i < n
            invariant
                i <= n,
                n == self.buffers@.len(),
                self.wf(),
                forall|j: int| 0 <= j < i ==> (#[trigger] self.buffers@[j]).id != id,
            decreases n - i,
        {
            if self.buffers[i].id == id {
                proof {
                    self.lemma_buffer_idx_unique(id, i as int);
                }
                return Some(i);
            }
            i = i + 1;
        }
        proof {
            self.lemma_buffer_idx(id);
            if self.has_buffer(id) {
                assert(self.buffers@[self.buffer_idx(id)].id == id);
            }
        }
        None
    }

    /// Looks a vertex-array handle up in the table.
    pub fn find_vertex_array(&self, id: u32) -> (r: Option<usize>)
        requires
            self.wf(),
        ensures
            match r {
                Some(i) => self.has_vertex_array(id) && i == self.vertex_array_idx(id),
                None => !self.has_vertex_array(id),
            },
    {
        let n = self.vertex_arrays.len();
        let mut i: usize = 0;
        while i < n
            invariant
                i <= n,
                n == self.vertex_arrays@.len(),
                self.wf(),
                forall|j: int| 0 <= j < i ==> (#[trigger] self.vertex_arrays@[j]).id != id,
            decreases n - i,
        {
            if self.vertex_arrays[i].id == id {
                proof {
                    self.lemma_vertex_array_idx_unique(id, i as int);
                }
                return Some(i);
            }
            i = i + 1;
        }
        proof {
            self.lemma_vertex_array_idx(id);
            if self.has_vertex_array(id) {
                assert(self.vertex_arrays@[self.vertex_array_idx(id)].id == id);
            }
        }
        None
    }

    /// Looks a texture handle up in the table.
    pub fn find_texture(&self, id: u32) -> (r: Option<usize>)
        requires
            self.wf(),
        ensures
            match r {
                Some(i) => self.has_texture(id) && i == self.texture_idx(id),
                None => !self.has_texture(id),
            },
    {
        let n = self.textures.len();
        let mut i: usize = 0;
        while i < n
            invariant
                i <= n,
                n == self.textures@.len(),
                self.wf(),
                forall|j: int| 0 <= j < i ==> (#[trigger] self.textures@[j]).id != id,
            decreases n - i,
        {
            if self.textures[i].id == id {
                proof {
                    self.lemma_texture_idx_unique(id, i as int);
                }
                return Some(i);
            }
            i = i + 1;
        }
        proof {
            self.lemma_texture_idx(id);
            if self.has_texture(id) {
                assert(self.textures@[self.texture_idx(id)].id == id);
            }
        }
        None
    }
}

impl ShaderObject {
    /// Whether a source text has been set.
    pub open spec fn has_source(self) -> bool {
        self.source is Some
    }

    /// The bytes of the set source, or the empty text before any was set.
    pub open spec fn source_bytes(self) -> Seq<u8> {
        match self.source {
            Some(v) => v@,
            None => Seq::empty(),
        }
    }
}

impl Context {
    /// Whether the shader handle is attached to any live program.
    pub open spec fn shader_attached_anywhere(self, id: u32) -> bool {
        exists|i: int, k: int|
            0 <= i < self.programs@.len() && 0 <= k < self.programs@[i].attached@.len()
                && #[trigger] self.programs@[i].attached@[k] == id
    }

    /// Removing one shader object keeps every other live shader handle live.
    pub proof fn lemma_shader_remove_keeps(a: Context, b: Context, idx: int)
        requires
            a.wf(),
            0 <= idx < a.shaders@.len(),
            b.shaders@ == a.shaders@.remove(idx),
        ensures
            forall|v: u32|
                a.has_shader(v) && v != a.shaders@[idx].id ==> #[trigger] b.has_shader(v),
    {
        assert forall|v: u32|
            a.has_shader(v) && v != a.shaders@[idx].id implies #[trigger] b.has_shader(v) by {
            a.lemma_shader_idx(v);
            let k = a.shader_idx(v);
            assert(a.shaders@[k].id == v);
            let k2: int = if k < idx {
                k
            } else {
                k - 1
            };
            assert(b.shaders@[k2].id == v);
            b.lemma_shader_idx(v);
            if !b.has_shader(v) {
                assert(b.shaders@[k2].id != v);
            }
        }
    }

    /// Removing one program object keeps every other live program handle
    /// live.
    pub proof fn lemma_program_remove_keeps(a: Context, b: Context, idx: int)
        requires
            a.wf(),
            0 <= idx < a.programs@.len(),
            b.programs@ == a.programs@.remove(idx),
        ensures
            forall|v: u32|
                a.has_program(v) && v != a.programs@[idx].id ==> #[trigger] b.has_program(v),
    {
        assert forall|v: u32|
            a.has_program(v) && v != a.programs@[idx].id implies #[trigger] b.has_program(v) by {
            a.lemma_program_idx(v);
            let k = a.program_idx(v);
            assert(a.programs@[k].id == v);
            let k2: int = if k < idx {
                k
            } else {
                k - 1
            };
            assert(b.programs@[k2].id == v);
            b.lemma_program_idx(v);
            if !b.has_program(v) {
                assert(b.programs@[k2].id != v);
            }
        }
    }
}

impl ProgramObject {
    /// Attached handles are distinct and each names a live shader.
    pub open spec fn wf_attached(self, ctx: Context) -> bool {
        &&& forall|i: int| 0 <= i < self.attached@.len() ==> ctx.has_shader(#[trigger] self.attached@[i])
        &&& forall|i: int, j: int|
            0 <= i < j < self.attached@.len() ==> #[trigger] self.attached@[i] != #[trigger] self.attached@[j]
    }
}

} // verus!
