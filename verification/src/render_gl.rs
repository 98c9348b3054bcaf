//! Owning wrappers for shader and program handles: one-call construction of
//! a compiled shader from source, and of a linked program from compiled
//! shaders.
use vstd::prelude::*;

use crate::context::Context;
use crate::context::ShaderObject;
use crate::raw::program;
use crate::raw::shader;
use crate::scan;

verus! {

/// An owned compiled shader: the wrapper holds the handle; the owner deletes
/// it through `raw::shader::delete` once no program needs it.
pub struct Shader {
    pub id: u32,
}

/// An owned linked program: the wrapper holds the handle; the owner deletes
/// it through `raw::program::delete` when done.
pub struct Program {
    pub id: u32,
}

impl Shader {
    /// Creates a shader of the given stage from `source` and compiles it.
    /// Succeeds exactly when the source compiles, handing back the new
    /// handle; on a failed compile the driver's diagnostic is returned and
    /// the shader object stays allocated with its failure recorded.
    pub fn from_source(ctx: &mut Context, source: &[u8], kind: shader::Type) -> (r: Result<
        Shader,
        Vec<u8>,
    >)
        requires
            old(ctx).wf(),
            old(ctx).next_id < u32::MAX,
            !scan::spec_contains_nul(source@),
        ensures
            final(ctx).wf(),
            r is Ok <==> scan::spec_balanced(source@),
            r matches Ok(sh) ==> {
                &&& sh.id == old(ctx).next_id
                &&& final(ctx).has_shader(sh.id)
                &&& final(ctx).shader_obj(sh.id).stage == kind
                &&& final(ctx).shader_obj(sh.id).compiled == Some(true)
                &&& final(ctx).shader_obj(sh.id).source_bytes() == source@
                &&& final(ctx).shader_obj(sh.id).log@.len() == 0
            },
            r matches Err(log) ==> {
                &&& log@ == shader::spec_compile_log()
                &&& log@.len() > 0
                &&& final(ctx).has_shader(old(ctx).next_id)
                &&& final(ctx).shader_obj(old(ctx).next_id).compiled == Some(false)
            },
            final(ctx).shaders@ == old(ctx).shaders@.push(final(ctx).shader_obj(old(ctx).next_id)),
            final(ctx).next_id == old(ctx).next_id + 1,
            final(ctx).same_objects_except_shaders(*old(ctx)),
            final(ctx).same_slots(*old(ctx)),
            final(ctx).error == old(ctx).error,
            final(ctx).draws == old(ctx).draws,
    {
        let id = shader::create(ctx, kind);
        let _ = shader::set_source(ctx, id, source);
        shader::compile(ctx, id);
        if shader::was_compile_successful(ctx, id) {
            Ok(Shader { id })
        } else {
            let len = shader::info_log_length(ctx, id);
            let log = shader::get_info_log(ctx, id, len);
            proof {
                assert(log@ =~= final(ctx).shader_obj(id).log@);
            }
            Err(log)
        }
    }

    /// Creates and compiles a vertex-stage shader from `source`.
    pub fn from_vert_source(ctx: &mut Context, source: &[u8]) -> (r: Result<Shader, Vec<u8>>)
        requires
            old(ctx).wf(),
            old(ctx).next_id < u32::MAX,
            !scan::spec_contains_nul(source@),
        ensures
            final(ctx).wf(),
            r is Ok <==> scan::spec_balanced(source@),
            r matches Ok(sh) ==> {
                &&& sh.id == old(ctx).next_id
                &&& final(ctx).has_shader(sh.id)
                &&& final(ctx).shader_obj(sh.id).stage == shader::Type::Vertex
                &&& final(ctx).shader_obj(sh.id).compiled == Some(true)
                &&& final(ctx).shader_obj(sh.id).source_bytes() == source@
            },
            final(ctx).shaders@ == old(ctx).shaders@.push(final(ctx).shader_obj(old(ctx).next_id)),
            final(ctx).next_id == old(ctx).next_id + 1,
            final(ctx).same_objects_except_shaders(*old(ctx)),
            final(ctx).same_slots(*old(ctx)),
            final(ctx).error == old(ctx).error,
            final(ctx).draws == old(ctx).draws,
    {
        Shader::from_source(ctx, source, shader::Type::Vertex)
    }

    /// Creates and compiles a fragment-stage shader from `source`.
    pub fn from_frag_source(ctx: &mut Context, source: &[u8]) -> (r: Result<Shader, Vec<u8>>)
        requires
            old(ctx).wf(),
            old(ctx).next_id < u32::MAX,
            !scan::spec_contains_nul(source@),
        ensures
            final(ctx).wf(),
            r is Ok <==> scan::spec_balanced(source@),
            r matches Ok(sh) ==> {
                &&& sh.id == old(ctx).next_id
                &&& final(ctx).has_shader(sh.id)
                &&& final(ctx).shader_obj(sh.id).stage == shader::Type::Fragment
                &&& final(ctx).shader_obj(sh.id).compiled == Some(true)
                &&& final(ctx).shader_obj(sh.id).source_bytes() == source@
            },
            final(ctx).shaders@ == old(ctx).shaders@.push(final(ctx).shader_obj(old(ctx).next_id)),
            final(ctx).next_id == old(ctx).next_id + 1,
            final(ctx).same_objects_except_shaders(*old(ctx)),
            final(ctx).same_slots(*old(ctx)),
            final(ctx).error == old(ctx).error,
            final(ctx).draws == old(ctx).draws,
    {
        Shader::from_source(ctx, source, shader::Type::Fragment)
    }

    /// The wrapped shader handle.
    pub fn id(&self) -> (r: u32)
        ensures
            r == self.id,
    {
        self.id
    }
}

/// The shader objects the wrappers name, in order.
pub open spec fn spec_shader_objs(ctx: Context, shaders: Seq<Shader>) -> Seq<ShaderObject> {
    Seq::new(shaders.len(), |k: int| ctx.shader_obj(shaders[k].id))
}

impl Program {
    /// Builds a program from compiled shaders: creates the handle, attaches
    /// every shader, links, and detaches them all again whatever the
    /// verdict, leaving the program independent of the shaders' lifetime.
    /// Succeeds exactly when the model driver's link verdict over the
    /// attached shaders is positive; on failure the driver's diagnostic is
    /// returned and the program stays allocated with its failure recorded
    /// and nothing attached.
    #[verifier::rlimit(100)]
    pub fn from_shaders(ctx: &mut Context, shaders: &[Shader]) -> (r: Result<Program, Vec<u8>>)
        requires
            old(ctx).wf(),
            old(ctx).next_id < u32::MAX,
            forall|i: int|
                0 <= i < shaders@.len() ==> old(ctx).has_shader((#[trigger] shaders@[i]).id),
            forall|i: int, j: int|
                0 <= i < j < shaders@.len() ==> (#[trigger] shaders@[i]).id != (
                #[trigger] shaders@[j]).id,
        ensures
            final(ctx).wf(),
            r is Ok <==> program::spec_link_ok(spec_shader_objs(*old(ctx), shaders@)),
            r matches Ok(p) ==> {
                &&& p.id == old(ctx).next_id
                &&& final(ctx).has_program(p.id)
                &&& final(ctx).program_obj(p.id).linked == Some(true)
                &&& final(ctx).program_obj(p.id).attached@.len() == 0
                &&& scan::spec_names_of(final(ctx).program_obj(p.id).uniforms@)
                    == program::spec_collect_all(
                    spec_shader_objs(*old(ctx), shaders@),
                    program::spec_kw_uniform(),
                    Seq::empty(),
                )
                &&& scan::spec_names_of(final(ctx).program_obj(p.id).attributes@)
                    == program::spec_collect_stage(
                    spec_shader_objs(*old(ctx), shaders@),
                    shader::Type::Vertex,
                    program::spec_kw_in(),
                    Seq::empty(),
                )
            },
            r matches Err(log) ==> {
                &&& log@ == program::spec_link_log()
                &&& log@.len() > 0
                &&& final(ctx).has_program(old(ctx).next_id)
                &&& final(ctx).program_obj(old(ctx).next_id).linked == Some(false)
                &&& final(ctx).program_obj(old(ctx).next_id).attached@.len() == 0
            },
            final(ctx).shaders@ == old(ctx).shaders@,
            final(ctx).next_id == old(ctx).next_id + 1,
            final(ctx).same_objects_except_programs(*old(ctx)),
            final(ctx).same_slots(*old(ctx)),
            final(ctx).error == old(ctx).error,
            final(ctx).draws == old(ctx).draws,
    {
        let ghost pre = *ctx;
        let ghost ids = Seq::new(shaders@.len(), |i: int| shaders@[i].id);
        let ghost objs = spec_shader_objs(pre, shaders@);
        let pid = program::create(ctx);
        let n = shaders.len();
        let mut k: usize = 0;
        proof {
            assert(ctx.program_obj(pid).attached@ =~= ids.take(0));
            assert(ctx.programs@ == pre.programs@.push(ctx.program_obj(pid)));
        }
        while k < n
            invariant
                k <= n,
                n == shaders@.len(),
                ids == Seq::new(shaders@.len(), |i: int| shaders@[i].id),
                pre == *old(ctx),
                pre.wf(),
                ctx.wf(),
                pid == pre.next_id,
                forall|i: int|
                    0 <= i < shaders@.len() ==> pre.has_shader((#[trigger] shaders@[i]).id),
                forall|i: int, j: int|
                    0 <= i < j < shaders@.len() ==> (#[trigger] shaders@[i]).id != (
                    #[trigger] shaders@[j]).id,
                ctx.shaders@ == pre.shaders@,
                ctx.has_program(pid),
                ctx.program_idx(pid) == pre.programs@.len(),
                ctx.program_obj(pid).id == pid,
                ctx.program_obj(pid).attached@ == ids.take(k as int),
                ctx.program_obj(pid).linked is None,
                ctx.programs@ == pre.programs@.push(ctx.program_obj(pid)),
                ctx.same_objects_except_programs(pre),
                ctx.same_slots(pre),
                ctx.next_id == pre.next_id + 1,
                ctx.error == pre.error,
                ctx.draws == pre.draws,
            decreases n - k,
        {
            let sid = shaders[k].id;
            proof {
                assert(ids[k as int] == sid);
                assert(pre.has_shader(sid));
                if ctx.program_obj(pid).attached@.contains(sid) {
                    let j = choose|j: int|
                        0 <= j < k && ctx.program_obj(pid).attached@[j] == sid;
                    assert(ids[j] == sid);
                    assert(shaders@[j].id == shaders@[k as int].id);
                }
            }
            program::attach(ctx, pid, sid);
            proof {
                assert(ctx.program_obj(pid).attached@ =~= ids.take(k + 1 as int));
                assert(ctx.programs@ =~= pre.programs@.push(ctx.program_obj(pid)));
            }
            k = k + 1;
        }
        proof {
            assert(ids.take(n as int) =~= ids);
            assert(ctx.attached_objs(pid) =~= objs);
        }
        let ghost at_link = *ctx;
        program::link(ctx, pid);
        proof {
            assert(ctx.programs@ =~= pre.programs@.push(ctx.program_obj(pid)));
        }
        let linked = program::was_link_successful(ctx, pid);
        let log: Vec<u8> = if linked {
            Vec::new()
        } else {
            let len = program::info_log_length(ctx, pid);
            program::get_info_log(ctx, pid, len)
        };
        proof {
            if !linked {
                assert(log@ =~= ctx.program_obj(pid).log@);
            }
        }
        // tear the link unit down whatever the verdict
        let ghost linked_obj = ctx.program_obj(pid);
        let mut k2: usize = 0;
        while k2 < n
            invariant
                k2 <= n,
                n == shaders@.len(),
                ids == Seq::new(shaders@.len(), |i: int| shaders@[i].id),
                pre == *old(ctx),
                pre.wf(),
                ctx.wf(),
                pid == pre.next_id,
                forall|i: int|
                    0 <= i < shaders@.len() ==> pre.has_shader((#[trigger] shaders@[i]).id),
                forall|i: int, j: int|
                    0 <= i < j < shaders@.len() ==> (#[trigger] shaders@[i]).id != (
                    #[trigger] shaders@[j]).id,
                ctx.shaders@ == pre.shaders@,
                ctx.has_program(pid),
                ctx.program_idx(pid) == pre.programs@.len(),
                ctx.program_obj(pid).id == pid,
                ctx.program_obj(pid).attached@ == ids.skip(k2 as int),
                ctx.program_obj(pid).linked == linked_obj.linked,
                linked == (linked_obj.linked == Some(true)),
                ctx.program_obj(pid).uniforms == linked_obj.uniforms,
                ctx.program_obj(pid).attributes == linked_obj.attributes,
                ctx.program_obj(pid).log == linked_obj.log,
                ctx.programs@ == pre.programs@.push(ctx.program_obj(pid)),
                ctx.same_objects_except_programs(pre),
                ctx.same_slots(pre),
                ctx.next_id == pre.next_id + 1,
                ctx.error == pre.error,
                ctx.draws == pre.draws,
            decreases n - k2,
        {
            let sid = shaders[k2].id;
            let ghost oa = ctx.program_obj(pid).attached@;
            proof {
                assert(ids[k2 as int] == sid);
                assert(pre.has_shader(sid));
                assert(ctx.has_shader(sid));
                assert(oa[0] == ids[k2 as int]);
                assert(oa.contains(sid));
            }
            program::detach(ctx, pid, sid);
            proof {
                let j = choose|j: int|
                    {
                        &&& 0 <= j < oa.len()
                        &&& oa[j] == sid
                        &&& (forall|i: int| 0 <= i < j ==> oa[i] != sid)
                        &&& ctx.program_obj(pid).attached@ == oa.remove(j)
                    };
                if j != 0 {
                    assert(oa[0] != sid);
                }
                assert(ctx.program_obj(pid).attached@ =~= ids.skip(k2 + 1 as int));
                assert(ctx.programs@ =~= pre.programs@.push(ctx.program_obj(pid)));
            }
            k2 = k2 + 1;
        }
        proof {
            assert(ids.skip(n as int) =~= Seq::<u32>::empty());
        }
        if linked {
            Ok(Program { id: pid })
        } else {
            Err(log)
        }
    }

    /// Makes the wrapped program the context's active one; defined only for
    /// a successfully linked program.
    pub fn set_used(&self, ctx: &mut Context)
        requires
            old(ctx).wf(),
            old(ctx).has_program(self.id),
            old(ctx).program_obj(self.id).linked == Some(true),
            self.id != 0,
        ensures
            final(ctx).wf(),
            final(ctx).active_program == self.id,
            final(ctx).same_objects(*old(ctx)),
            final(ctx).same_slots_except_program(*old(ctx)),
            final(ctx).next_id == old(ctx).next_id,
            final(ctx).error == old(ctx).error,
            final(ctx).draws == old(ctx).draws,
    {
        program::enable(ctx, self.id);
    }
}

} // verus!
