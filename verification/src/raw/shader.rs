//! Shader objects: creation, source upload, compilation and status queries.
use vstd::prelude::*;

use crate::context::Context;
use crate::context::ShaderObject;
use crate::scan;

verus! {

/// The closed set of shader stages.
#[derive(Clone, Copy, Debug, PartialEq, Eq, Structural)]
pub enum Type {
    Compute,
    Vertex,
    TessellationControl,
    TessellationEvaluation,
    Geometry,
    Fragment,
}

/// The error returned when a native stage constant is not one of the closed
/// set of stages.
#[derive(Clone, Copy, Debug, PartialEq, Eq, Structural)]
pub enum Error {
    UnknownType(i32),
}

impl Type {
    /// The native constant this stage maps to.
    pub open spec fn spec_to_gl(self) -> u32 {
        match self {
            Type::Compute => 0x91B9,
            Type::Vertex => 0x8B31,
            Type::TessellationControl => 0x8E88,
            Type::TessellationEvaluation => 0x8E87,
            Type::Geometry => 0x8DD9,
            Type::Fragment => 0x8B30,
        }
    }

    /// Maps this stage to its native constant; total and deterministic.
    pub fn to_gl(self) -> (r: u32)
        ensures
            r == self.spec_to_gl(),
    {
        match self {
            Type::Compute => 0x91B9,
            Type::Vertex => 0x8B31,
            Type::TessellationControl => 0x8E88,
            Type::TessellationEvaluation => 0x8E87,
            Type::Geometry => 0x8DD9,
            Type::Fragment => 0x8B30,
        }
    }
}

/// The diagnostic the model driver leaves after a failed compile.
pub open spec fn spec_compile_log() -> Seq<u8> {
    seq![117u8, 110u8, 98u8, 97u8, 108u8, 97u8, 110u8, 99u8, 101u8, 100u8, 32u8, 98u8, 114u8, 97u8, 99u8, 101u8, 115u8]
}

/// Builds the failed-compile diagnostic.
fn compile_failure_log() -> (r: Vec<u8>)
    ensures
        r@ == spec_compile_log(),
        r@.len() > 0,
{
    let mut r: Vec<u8> = Vec::new();
    r.push(117);
    r.push(110);
    r.push(98);
    r.push(97);
    r.push(108);
    r.push(97);
    r.push(110);
    r.push(99);
    r.push(101);
    r.push(100);
    r.push(32);
    r.push(98);
    r.push(114);
    r.push(97);
    r.push(99);
    r.push(101);
    r.push(115);
    proof {
        assert(r@ =~= spec_compile_log());
    }
    r
}

/// Allocates a fresh shader handle for the given stage. Creation always
/// succeeds and never touches the error flag; the new object has no source,
/// no compile verdict and an empty log.
pub fn create(ctx: &mut Context, value: Type) -> (id: u32)
    requires
        old(ctx).wf(),
        old(ctx).next_id < u32::MAX,
    ensures
        final(ctx).wf(),
        id == old(ctx).next_id,
        id != 0,
        !old(ctx).has_shader(id),
        final(ctx).has_shader(id),
        final(ctx).shader_idx(id) == old(ctx).shaders@.len(),
        final(ctx).shaders@ == old(ctx).shaders@.push(final(ctx).shader_obj(id)),
        final(ctx).shader_obj(id).id == id,
        final(ctx).shader_obj(id).stage == value,
        final(ctx).shader_obj(id).source is None,
        final(ctx).shader_obj(id).compiled is None,
        final(ctx).shader_obj(id).log@.len() == 0,
        !final(ctx).shader_obj(id).flagged_for_delete,
        final(ctx).next_id == old(ctx).next_id + 1,
        final(ctx).same_objects_except_shaders(*old(ctx)),
        final(ctx).same_slots(*old(ctx)),
        final(ctx).error == old(ctx).error,
        final(ctx).draws == old(ctx).draws,
{
    let id = ctx.next_id;
    proof {
        ctx.lemma_shader_idx(id);
        if ctx.has_shader(id) {
            assert(ctx.shaders@[ctx.shader_idx(id)].id == id);
        }
    }
    let ghost pre = *ctx;
    let obj = ShaderObject {
        id,
        stage: value,
        source: None,
        compiled: None,
        log: Vec::new(),
        flagged_for_delete: false,
    };
    ctx.shaders.push(obj);
    ctx.next_id = ctx.next_id + 1;
    proof {
        Context::lemma_shader_push_keeps(pre, *ctx, ctx.shaders@.last());
        ctx.lemma_shader_idx_unique(id, pre.shaders@.len() as int);
    }
    id
}

/// Deletes a shader handle. The reserved handle `0` is silently tolerated;
/// a handle the context never created records an invalid-value error. A live
/// shader still attached to some program is only flagged for deletion and
/// stays queryable until, once detached everywhere, it is deleted again; an
/// unattached one is removed outright.
pub fn delete(ctx: &mut Context, id: u32)
    requires
        old(ctx).wf(),
    ensures
        final(ctx).wf(),
        id == 0 ==> *final(ctx) == *old(ctx),
        id != 0 && !old(ctx).has_shader(id) ==> {
            &&& final(ctx).same_objects(*old(ctx))
            &&& final(ctx).error == crate::raw::error::INVALID_VALUE
        },
        id != 0 && old(ctx).has_shader(id) && old(ctx).shader_attached_anywhere(id) ==> {
            &&& final(ctx).shaders@ == old(ctx).shaders@.update(
                old(ctx).shader_idx(id),
                ShaderObject { flagged_for_delete: true, ..old(ctx).shader_obj(id) },
            )
            &&& final(ctx).has_shader(id)
            &&& final(ctx).error == old(ctx).error
        },
        id != 0 && old(ctx).has_shader(id) && !old(ctx).shader_attached_anywhere(id) ==> {
            &&& final(ctx).shaders@ == old(ctx).shaders@.remove(old(ctx).shader_idx(id))
            &&& !final(ctx).has_shader(id)
            &&& final(ctx).error == old(ctx).error
        },
        forall|v: u32|
            v != id ==> (final(ctx).has_shader(v) <==> old(ctx).has_shader(v)),
        final(ctx).same_objects_except_shaders(*old(ctx)),
        final(ctx).same_slots(*old(ctx)),
        final(ctx).next_id == old(ctx).next_id,
        final(ctx).draws == old(ctx).draws,
{
    let ghost pre = *ctx;
    if id == 0 {
        return;
    }
    let idx = match ctx.find_shader(id) {
        Some(i) => i,
        None => {
            ctx.error = crate::raw::error::INVALID_VALUE;
            proof {
                assert forall|v: u32| v != id implies (ctx.has_shader(v) <==> pre.has_shader(v))
                by {}
            }
            return;
        },
    };
    proof {
        pre.lemma_shader_idx(id);
    }
    if shader_is_attached(ctx, id) {
        let entry = &mut ctx.shaders[idx];
        let ghost before = *entry;
        entry.flagged_for_delete = true;
        proof {
            Context::lemma_shader_update_keeps(pre, *ctx, idx as int, ctx.shaders@[idx as int]);
            ctx.lemma_shader_idx_unique(id, idx as int);
            assert forall|v: u32| v != id implies (ctx.has_shader(v) <==> pre.has_shader(v)) by {
                assert(pre.shaders@ =~= ctx.shaders@.update(idx as int, pre.shaders@[idx as int]));
                Context::lemma_shader_update_keeps(
                    *ctx,
                    pre,
                    idx as int,
                    pre.shaders@[idx as int],
                );
            }
        }
    } else {
        ctx.shaders.remove(idx);
        proof {
            Context::lemma_shader_remove_keeps(pre, *ctx, idx as int);
            ctx.lemma_shader_idx(id);
            if ctx.has_shader(id) {
                let k = ctx.shader_idx(id);
                assert(ctx.shaders@[k].id == id);
                let ghost korig: int = if k < idx as int {
                    k
                } else {
                    k + 1
                };
                assert(pre.shaders@[korig].id == id);
                pre.lemma_shader_idx_unique(id, korig);
            }
            assert forall|v: u32| v != id implies (ctx.has_shader(v) <==> pre.has_shader(v)) by {
                if ctx.has_shader(v) {
                    ctx.lemma_shader_idx(v);
                    let k = ctx.shader_idx(v);
                    let korig: int = if k < idx as int {
                        k
                    } else {
                        k + 1
                    };
                    assert(pre.shaders@[korig].id == v);
                    pre.lemma_shader_idx_unique(v, korig);
                }
            }
            // every program's attachments stay live: none of them named `id`
            assert forall|i: int|
                0 <= i < ctx.programs@.len() implies (#[trigger] ctx.programs@[i]).wf_attached(
                *ctx,
            ) by {
                assert(pre.programs@[i].wf_attached(pre));
                assert forall|k: int|
                    0 <= k < ctx.programs@[i].attached@.len() implies ctx.has_shader(
                    #[trigger] ctx.programs@[i].attached@[k],
                ) by {
                    let v = pre.programs@[i].attached@[k];
                    assert(pre.has_shader(v));
                    if v == id {
                        assert(pre.shader_attached_anywhere(id));
                    }
                }
            }
        }
    }
}

/// Whether the shader handle occurs in any program's attachment list.
fn shader_is_attached(ctx: &Context, id: u32) -> (r: bool)
    requires
        ctx.wf(),
    ensures
        r == ctx.shader_attached_anywhere(id),
{
    let n = ctx.programs.len();
    let mut i: usize = 0;
    while i < n
        invariant
            i <= n,
            n == ctx.programs@.len(),
            forall|i2: int, k: int|
                0 <= i2 < i && 0 <= k < ctx.programs@[i2].attached@.len()
                    ==> #[trigger] ctx.programs@[i2].attached@[k] != id,
        decreases n - i,
    {
        let m = ctx.programs[i].attached.len();
        let mut k: usize = 0;
        while k < m
            invariant
                k <= m,
                i < n,
                n == ctx.programs@.len(),
                m == ctx.programs@[i as int].attached@.len(),
                forall|k2: int| 0 <= k2 < k ==> ctx.programs@[i as int].attached@[k2] != id,
            decreases m - k,
        {
            if ctx.programs[i].attached[k] == id {
                proof {
                    assert(0 <= i < ctx.programs@.len() && 0 <= k < ctx.programs@[
                        i as int
                    ].attached@.len() && ctx.programs@[i as int].attached@[k as int] == id);
                }
                return true;
            }
            k = k + 1;
        }
        i = i + 1;
    }
    false
}

/// Compiles the shader's set source: the verdict is recorded for the status
/// query, and on failure a nonempty diagnostic replaces the log. A shader
/// must have source set before compile is attempted.
pub fn compile(ctx: &mut Context, id: u32)
    requires
        old(ctx).wf(),
        old(ctx).has_shader(id),
        old(ctx).shader_obj(id).has_source(),
    ensures
        final(ctx).wf(),
        final(ctx).shaders@ == old(ctx).shaders@.update(
            old(ctx).shader_idx(id),
            final(ctx).shader_obj(id),
        ),
        final(ctx).shader_idx(id) == old(ctx).shader_idx(id),
        final(ctx).shader_obj(id) == (ShaderObject {
            compiled: Some(crate::scan::spec_balanced(old(ctx).shader_obj(id).source_bytes())),
            log: final(ctx).shader_obj(id).log,
            ..old(ctx).shader_obj(id)
        }),
        crate::scan::spec_balanced(old(ctx).shader_obj(id).source_bytes())
            ==> final(ctx).shader_obj(id).log@.len() == 0,
        !crate::scan::spec_balanced(old(ctx).shader_obj(id).source_bytes())
            ==> final(ctx).shader_obj(id).log@ == spec_compile_log(),
        final(ctx).same_objects_except_shaders(*old(ctx)),
        final(ctx).same_slots(*old(ctx)),
        final(ctx).next_id == old(ctx).next_id,
        final(ctx).error == old(ctx).error,
        final(ctx).draws == old(ctx).draws,
{
    let ghost pre = *ctx;
    proof {
        pre.lemma_shader_idx(id);
    }
    let idx = match ctx.find_shader(id) {
        Some(i) => i,
        None => 0,
    };
    let ok = match &ctx.shaders[idx].source {
        Some(src) => crate::scan::balanced(src.as_slice()),
        None => false,
    };
    let log: Vec<u8> = if ok {
        Vec::new()
    } else {
        compile_failure_log()
    };
    let entry = &mut ctx.shaders[idx];
    entry.compiled = Some(ok);
    entry.log = log;
    proof {
        Context::lemma_shader_update_keeps(pre, *ctx, idx as int, ctx.shaders@[idx as int]);
        ctx.lemma_shader_idx_unique(id, idx as int);
    }
}

/// Reads back which stage the shader was created for. The modeled context
/// always knows the stage it recorded at creation, so the result is always
/// the successful case; the error variant stands for a native constant
/// outside the closed set, which the model cannot produce.
pub fn get_type(ctx: &Context, id: u32) -> (r: Result<Type, Error>)
    requires
        ctx.wf(),
        ctx.has_shader(id),
    ensures
        r == Result::<Type, Error>::Ok(ctx.shader_obj(id).stage),
{
    proof {
        ctx.lemma_shader_idx(id);
    }
    let idx = match ctx.find_shader(id) {
        Some(i) => i,
        None => 0,
    };
    Ok(ctx.shaders[idx].stage)
}

/// Whether the shader is flagged for a deferred delete.
pub fn is_flagged_for_delete(ctx: &Context, id: u32) -> (r: bool)
    requires
        ctx.wf(),
        ctx.has_shader(id),
    ensures
        r == ctx.shader_obj(id).flagged_for_delete,
{
    proof {
        ctx.lemma_shader_idx(id);
    }
    let idx = match ctx.find_shader(id) {
        Some(i) => i,
        None => 0,
    };
    ctx.shaders[idx].flagged_for_delete
}

/// Whether the last compile of this shader succeeded; `false` before any
/// compile.
pub fn was_compile_successful(ctx: &Context, id: u32) -> (r: bool)
    requires
        ctx.wf(),
        ctx.has_shader(id),
    ensures
        r == (ctx.shader_obj(id).compiled == Some(true)),
{
    proof {
        ctx.lemma_shader_idx(id);
    }
    let idx = match ctx.find_shader(id) {
        Some(i) => i,
        None => 0,
    };
    match ctx.shaders[idx].compiled {
        Some(b) => b,
        None => false,
    }
}

/// The length in bytes of the shader's diagnostic log.
pub fn info_log_length(ctx: &Context, id: u32) -> (r: usize)
    requires
        ctx.wf(),
        ctx.has_shader(id),
    ensures
        r == ctx.shader_obj(id).log@.len(),
{
    proof {
        ctx.lemma_shader_idx(id);
    }
    let idx = match ctx.find_shader(id) {
        Some(i) => i,
        None => 0,
    };
    ctx.shaders[idx].log.len()
}

/// The driver-reported length of the shader's set source: the byte length
/// plus one for the null terminator of the native string, or `0` before any
/// source was set. The terminator must fit alongside the bytes in the
/// reported count.
pub fn source_length(ctx: &Context, id: u32) -> (r: usize)
    requires
        ctx.wf(),
        ctx.has_shader(id),
        ctx.shader_obj(id).source_bytes().len() < usize::MAX,
    ensures
        !ctx.shader_obj(id).has_source() ==> r == 0,
        ctx.shader_obj(id).has_source() ==> r == ctx.shader_obj(id).source_bytes().len() + 1,
{
    proof {
        ctx.lemma_shader_idx(id);
    }
    let idx = match ctx.find_shader(id) {
        Some(i) => i,
        None => 0,
    };
    match &ctx.shaders[idx].source {
        Some(v) => v.len() + 1,
        None => 0,
    }
}

/// The first `len` bytes of the shader's diagnostic log; asking for more
/// than the log holds returns the whole log, asking for less truncates it.
pub fn get_info_log(ctx: &Context, id: u32, len: usize) -> (r: Vec<u8>)
    requires
        ctx.wf(),
        ctx.has_shader(id),
    ensures
        r@ == ctx.shader_obj(id).log@.take(
            if len <= ctx.shader_obj(id).log@.len() {
                len as int
            } else {
                ctx.shader_obj(id).log@.len() as int
            },
        ),
{
    proof {
        ctx.lemma_shader_idx(id);
    }
    let idx = match ctx.find_shader(id) {
        Some(i) => i,
        None => 0,
    };
    let log = &ctx.shaders[idx].log;
    let take = if len <= log.len() {
        len
    } else {
        log.len()
    };
    let r = crate::scan::copy_range(log.as_slice(), 0, take);
    proof {
        assert(r@ =~= ctx.shader_obj(id).log@.take(take as int));
    }
    r
}

/// Replaces the shader's source text, last write winning. Fails exactly when
/// the text holds an embedded null byte, which the driver's null-terminated
/// strings cannot carry; the stored source and the error flag are then left
/// as they were.
pub fn set_source(ctx: &mut Context, id: u32, source: &[u8]) -> (r: Result<(), crate::Error>)
    requires
        old(ctx).wf(),
        old(ctx).has_shader(id),
    ensures
        final(ctx).wf(),
        r is Ok <==> !crate::scan::spec_contains_nul(source@),
        crate::scan::spec_contains_nul(source@) ==> {
            &&& *final(ctx) == *old(ctx)
            &&& r == Result::<(), crate::Error>::Err(crate::Error::CanNotConvertToCString)
        },
        !crate::scan::spec_contains_nul(source@) ==> {
            &&& final(ctx).shaders@ == old(ctx).shaders@.update(
                old(ctx).shader_idx(id),
                final(ctx).shader_obj(id),
            )
            &&& final(ctx).shader_idx(id) == old(ctx).shader_idx(id)
            &&& final(ctx).shader_obj(id) == (ShaderObject {
                source: final(ctx).shader_obj(id).source,
                ..old(ctx).shader_obj(id)
            })
            &&& final(ctx).shader_obj(id).source_bytes() == source@
            &&& final(ctx).shader_obj(id).has_source()
        },
        final(ctx).same_objects_except_shaders(*old(ctx)),
        final(ctx).same_slots(*old(ctx)),
        final(ctx).next_id == old(ctx).next_id,
        final(ctx).error == old(ctx).error,
        final(ctx).draws == old(ctx).draws,
{
    if crate::scan::contains_nul(source) {
        return Err(crate::Error::CanNotConvertToCString);
    }
    let ghost pre = *ctx;
    proof {
        pre.lemma_shader_idx(id);
    }
    let idx = match ctx.find_shader(id) {
        Some(i) => i,
        None => 0,
    };
    let copy = crate::scan::copy_range(source, 0, source.len());
    proof {
        assert(copy@ =~= source@);
    }
    let entry = &mut ctx.shaders[idx];
    entry.source = Some(copy);
    proof {
        Context::lemma_shader_update_keeps(pre, *ctx, idx as int, ctx.shaders@[idx as int]);
        ctx.lemma_shader_idx_unique(id, idx as int);
    }
    Ok(())
}

} // verus!
