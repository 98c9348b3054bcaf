//! The one-call shader pipeline: two sources in, a linked program out, plus
//! name-based uniform writes against that program.
use vstd::prelude::*;

use crate::Error;
use crate::context::Context;
use crate::context::ShaderObject;
use crate::raw::program;
use crate::raw::shader;
use crate::raw::uniform;
use crate::scan;

verus! {

/// An owned linked program built from a vertex and a fragment source; the
/// owner deletes the handle through `raw::program::delete` when done.
#[derive(Debug)]
pub struct Shader {
    pub id: u32,
}

/// Both sources are representable and compile: neither holds an embedded
/// null byte and both have balanced braces.
pub open spec fn spec_sources_ok(v: Seq<u8>, f: Seq<u8>) -> bool {
    &&& !scan::spec_contains_nul(v)
    &&& !scan::spec_contains_nul(f)
    &&& scan::spec_balanced(v)
    &&& scan::spec_balanced(f)
}

/// The stage interfaces match: every `in` name the fragment source declares
/// is declared `out` by the vertex source.
pub open spec fn spec_interfaces_match(v: Seq<u8>, f: Seq<u8>) -> bool {
    forall|n: Seq<u8>|
        #[trigger] scan::spec_has_word(scan::spec_declared(f, program::spec_kw_in()), n)
            ==> scan::spec_has_word(scan::spec_declared(v, program::spec_kw_out()), n)
}

/// The uniform table a program linked from the two sources carries: the
/// vertex source's uniform names followed by the fragment source's new ones.
pub open spec fn spec_pipeline_uniforms(v: Seq<u8>, f: Seq<u8>) -> Seq<Seq<u8>> {
    scan::spec_declared_from(f, program::spec_kw_uniform(), scan::spec_declared(v, program::spec_kw_uniform()))
}

impl Shader {
    /// Makes the wrapped program the context's active one; defined only for
    /// a successfully linked program.
    pub fn enable(&self, ctx: &mut Context)
        requires
            old(ctx).wf(),
            old(ctx).has_program(self.id),
            old(ctx).program_obj(self.id).linked == Some(true),
            self.id != 0,
        ensures
            final(ctx).wf(),
            final(ctx).active_program == self.id,
            final(ctx).same_objects(*old(ctx)),
            final(ctx).same_slots_except_program(*old(ctx)),
            final(ctx).next_id == old(ctx).next_id,
            final(ctx).error == old(ctx).error,
            final(ctx).draws == old(ctx).draws,
    {
        program::enable(ctx, self.id);
    }

    /// Writes one float, carried as its bit pattern, to the named uniform of
    /// the wrapped program. Fails exactly when the name cannot become a
    /// native string or names no uniform of the program; the write itself is
    /// checked against the active program, so with the wrapped program
    /// active the context is left unchanged, while a write resolved against
    /// an inactive program may only record an invalid-operation error.
    pub fn set_float(&self, ctx: &mut Context, name: &[u8], value: u32) -> (r: Result<(), Error>)
        requires
            old(ctx).wf(),
            old(ctx).has_program(self.id),
        ensures
            final(ctx).wf(),
            r is Ok <==> !scan::spec_contains_nul(name@) && scan::spec_has_word(
                scan::spec_names_of(old(ctx).program_obj(self.id).uniforms@),
                name@,
            ),
            r is Err ==> *final(ctx) == *old(ctx),
            scan::spec_contains_nul(name@) ==> r == Result::<(), Error>::Err(
                Error::CanNotConvertToCString,
            ),
            !scan::spec_contains_nul(name@) && !scan::spec_has_word(
                scan::spec_names_of(old(ctx).program_obj(self.id).uniforms@),
                name@,
            ) ==> (r matches Err(e) && e matches Error::UnknownUniformName(v) && v@ == name@),
            r is Ok && old(ctx).active_program == self.id ==> *final(ctx) == *old(ctx),
            final(ctx).same_objects(*old(ctx)),
            final(ctx).same_slots(*old(ctx)),
            final(ctx).next_id == old(ctx).next_id,
            final(ctx).draws == old(ctx).draws,
            final(ctx).error == old(ctx).error || final(ctx).error
                == crate::raw::error::INVALID_OPERATION,
    {
        let loc = match uniform::get_uniform_location(ctx, self.id, name) {
            Ok(loc) => loc,
            Err(e) => {
                return Err(e);
            },
        };
        proof {
            ctx.lemma_program_idx(self.id);
            assert(ctx.programs@[ctx.program_idx(self.id)].id != 0);
        }
        uniform::set_uniform1f(ctx, loc, value);
        Ok(())
    }

    /// Writes a three-component float vector, carried as bit patterns, to
    /// the named uniform of the wrapped program, under the same policy as
    /// [`Shader::set_float`].
    pub fn set_vec3(&self, ctx: &mut Context, name: &[u8], v1: u32, v2: u32, v3: u32) -> (r:
        Result<(), Error>)
        requires
            old(ctx).wf(),
            old(ctx).has_program(self.id),
        ensures
            final(ctx).wf(),
            r is Ok <==> !scan::spec_contains_nul(name@) && scan::spec_has_word(
                scan::spec_names_of(old(ctx).program_obj(self.id).uniforms@),
                name@,
            ),
            r is Err ==> *final(ctx) == *old(ctx),
            scan::spec_contains_nul(name@) ==> r == Result::<(), Error>::Err(
                Error::CanNotConvertToCString,
            ),
            !scan::spec_contains_nul(name@) && !scan::spec_has_word(
                scan::spec_names_of(old(ctx).program_obj(self.id).uniforms@),
                name@,
            ) ==> (r matches Err(e) && e matches Error::UnknownUniformName(v) && v@ == name@),
            r is Ok && old(ctx).active_program == self.id ==> *final(ctx) == *old(ctx),
            final(ctx).same_objects(*old(ctx)),
            final(ctx).same_slots(*old(ctx)),
            final(ctx).next_id == old(ctx).next_id,
            final(ctx).draws == old(ctx).draws,
            final(ctx).error == old(ctx).error || final(ctx).error
                == crate::raw::error::INVALID_OPERATION,
    {
        let loc = match uniform::get_uniform_location(ctx, self.id, name) {
            Ok(loc) => loc,
            Err(e) => {
                return Err(e);
            },
        };
        proof {
            ctx.lemma_program_idx(self.id);
            assert(ctx.programs@[ctx.program_idx(self.id)].id != 0);
        }
        uniform::set_uniform3f(ctx, loc, v1, v2, v3);
        Ok(())
    }

    /// Writes a four-by-four float matrix, carried as sixteen bit patterns
    /// in column-major order, to the named uniform of the wrapped program,
    /// under the same policy as [`Shader::set_float`].
    pub fn set_mat4(&self, ctx: &mut Context, name: &[u8], values: &[u32]) -> (r: Result<
        (),
        Error,
    >)
        requires
            old(ctx).wf(),
            old(ctx).has_program(self.id),
            values@.len() == 16,
        ensures
            final(ctx).wf(),
            r is Ok <==> !scan::spec_contains_nul(name@) && scan::spec_has_word(
                scan::spec_names_of(old(ctx).program_obj(self.id).uniforms@),
                name@,
            ),
            r is Err ==> *final(ctx) == *old(ctx),
            scan::spec_contains_nul(name@) ==> r == Result::<(), Error>::Err(
                Error::CanNotConvertToCString,
            ),
            !scan::spec_contains_nul(name@) && !scan::spec_has_word(
                scan::spec_names_of(old(ctx).program_obj(self.id).uniforms@),
                name@,
            ) ==> (r matches Err(e) && e matches Error::UnknownUniformName(v) && v@ == name@),
            r is Ok && old(ctx).active_program == self.id ==> *final(ctx) == *old(ctx),
            final(ctx).same_objects(*old(ctx)),
            final(ctx).same_slots(*old(ctx)),
            final(ctx).next_id == old(ctx).next_id,
            final(ctx).draws == old(ctx).draws,
            final(ctx).error == old(ctx).error || final(ctx).error
                == crate::raw::error::INVALID_OPERATION,
    {
        let loc = match uniform::get_uniform_location(ctx, self.id, name) {
            Ok(loc) => loc,
            Err(e) => {
                return Err(e);
            },
        };
        proof {
            ctx.lemma_program_idx(self.id);
            assert(ctx.programs@[ctx.program_idx(self.id)].id != 0);
        }
        uniform::set_uniform_matrix4(ctx, loc, values);
        Ok(())
    }
}

/// Creates a shader of the given stage, sets its source and compiles it.
/// On a failed compile the diagnostic is read back, the shader object is
/// deleted again, and a compile error is returned.
fn compile_stage(ctx: &mut Context, source: &[u8], kind: shader::Type) -> (r: Result<u32, Error>)
    requires
        old(ctx).wf(),
        old(ctx).next_id < u32::MAX,
        !scan::spec_contains_nul(source@),
    ensures
        final(ctx).wf(),
        r is Ok <==> scan::spec_balanced(source@),
        r matches Ok(id) ==> {
            &&& id == old(ctx).next_id
            &&& final(ctx).has_shader(id)
            &&& final(ctx).shader_obj(id).stage == kind
            &&& final(ctx).shader_obj(id).compiled == Some(true)
            &&& final(ctx).shader_obj(id).source_bytes() == source@
            &&& final(ctx).shaders@ == old(ctx).shaders@.push(final(ctx).shader_obj(id))
        },
        r matches Err(e) ==> {
            &&& e matches Error::ShaderCompilation(log) && log@ == shader::spec_compile_log()
            &&& final(ctx).shaders@ == old(ctx).shaders@
        },
        final(ctx).same_objects_except_shaders(*old(ctx)),
        final(ctx).same_slots(*old(ctx)),
        final(ctx).next_id == old(ctx).next_id + 1,
        final(ctx).error == old(ctx).error,
        final(ctx).draws == old(ctx).draws,
{
    let ghost pre = *ctx;
    let id = shader::create(ctx, kind);
    let _ = shader::set_source(ctx, id, source);
    shader::compile(ctx, id);
    if shader::was_compile_successful(ctx, id) {
        Ok(id)
    } else {
        let len = shader::info_log_length(ctx, id);
        let log = shader::get_info_log(ctx, id, len);
        proof {
            assert(log@ =~= ctx.shader_obj(id).log@);
            assert forall|i: int| 0 <= i < ctx.programs@.len() implies (exists|i2: int|
                0 <= i2 < pre.programs@.len() && (#[trigger] ctx.programs@[i]).attached@
                    == pre.programs@[i2].attached@) by {
                assert(ctx.programs@[i].attached@ == pre.programs@[i].attached@);
            }
            shaders_unattached(ctx, pre, id, id);
        }
        shader::delete(ctx, id);
        proof {
            assert(ctx.shaders@ =~= pre.shaders@);
        }
        Err(Error::ShaderCompilation(log))
    }
}

/// Builds a program over the two compiled stages: creates the handle,
/// attaches both shaders, links, and detaches them again. On success the
/// linked program is handed back; on failure the diagnostic is read back and
/// the program is deleted again. The shader objects are never touched.
#[verifier::rlimit(100)]
fn link_stages(ctx: &mut Context, vid: u32, fid: u32) -> (r: Result<u32, Vec<u8>>)
    requires
        old(ctx).wf(),
        old(ctx).next_id < u32::MAX,
        old(ctx).has_shader(vid),
        old(ctx).has_shader(fid),
        vid != fid,
    ensures
        final(ctx).wf(),
        final(ctx).shaders@ == old(ctx).shaders@,
        r is Ok <==> program::spec_link_ok(
            seq![old(ctx).shader_obj(vid), old(ctx).shader_obj(fid)],
        ),
        r matches Ok(pid) ==> {
            &&& pid == old(ctx).next_id
            &&& final(ctx).has_program(pid)
            &&& final(ctx).program_obj(pid).linked == Some(true)
            &&& final(ctx).program_obj(pid).attached@.len() == 0
            &&& scan::spec_names_of(final(ctx).program_obj(pid).uniforms@)
                == program::spec_collect_all(
                seq![old(ctx).shader_obj(vid), old(ctx).shader_obj(fid)],
                program::spec_kw_uniform(),
                Seq::empty(),
            )
            &&& final(ctx).programs@ == old(ctx).programs@.push(final(ctx).program_obj(pid))
        },
        r matches Err(log) ==> {
            &&& log@ == program::spec_link_log()
            &&& final(ctx).programs@ == old(ctx).programs@
        },
        final(ctx).same_objects_except_programs(*old(ctx)),
        final(ctx).same_slots(*old(ctx)),
        final(ctx).next_id == old(ctx).next_id + 1,
        final(ctx).error == old(ctx).error,
        final(ctx).draws == old(ctx).draws,
{
    let ghost pre = *ctx;
    let ghost vobj = ctx.shader_obj(vid);
    let ghost fobj = ctx.shader_obj(fid);
    let pid = program::create(ctx);
    program::attach(ctx, pid, vid);
    proof {
        assert(!ctx.program_obj(pid).attached@.contains(fid)) by {
            if ctx.program_obj(pid).attached@.contains(fid) {
                let j = choose|j: int|
                    0 <= j < ctx.program_obj(pid).attached@.len() && ctx.program_obj(
                        pid,
                    ).attached@[j] == fid;
            }
        }
    }
    program::attach(ctx, pid, fid);
    let ghost objs = ctx.attached_objs(pid);
    proof {
        assert(objs =~= seq![vobj, fobj]);
        assert(ctx.programs@ =~= pre.programs@.push(ctx.program_obj(pid)));
    }
    program::link(ctx, pid);
    proof {
        assert(ctx.programs@ =~= pre.programs@.push(ctx.program_obj(pid)));
    }
    let linked = program::was_link_successful(ctx, pid);
    let log: Vec<u8> = if linked {
        Vec::new()
    } else {
        let len = program::info_log_length(ctx, pid);
        program::get_info_log(ctx, pid, len)
    };
    proof {
        if !linked {
            assert(log@ =~= ctx.program_obj(pid).log@);
        }
    }
    // tear the link unit down again
    program::detach(ctx, pid, vid);
    proof {
        assert(ctx.programs@ =~= pre.programs@.push(ctx.program_obj(pid)));
        assert(ctx.program_obj(pid).attached@.contains(fid)) by {
            assert(ctx.program_obj(pid).attached@.len() == 1);
            assert(ctx.program_obj(pid).attached@[0] == fid);
        }
    }
    program::detach(ctx, pid, fid);
    proof {
        assert(ctx.programs@ =~= pre.programs@.push(ctx.program_obj(pid)));
    }
    if linked {
        Ok(pid)
    } else {
        proof {
            // the failed program is inactive: its handle is fresh
            if ctx.active_program == pid {
                pre.lemma_program_idx(pre.active_program);
            }
        }
        program::delete(ctx, pid);
        proof {
            assert(ctx.programs@ =~= pre.programs@);
        }
        Err(log)
    }
}

/// Runs the whole pipeline: compiles a vertex and a fragment shader from the
/// two sources, links them into one program, detaches and deletes the shader
/// objects, and hands back the linked program. Succeeds exactly when both
/// sources are representable and compile and the stage interfaces match;
/// each failure names its stage: an encoding error for an embedded null
/// byte, a compile error with the diagnostic for unbalanced braces, a link
/// error with the diagnostic for a mismatched interface. Whatever the
/// outcome, every temporary object is cleaned up and the error probe is left
/// as it was; the allocator advances once per driver object actually
/// created — three on any run that reaches the link, on success leaving
/// exactly the one new program in the table.
#[verifier::rlimit(100)]
pub fn compile_from_sources(
    ctx: &mut Context,
    vertex_source: &[u8],
    fragment_source: &[u8],
) -> (r: Result<Shader, Error>)
    requires
        old(ctx).wf(),
        old(ctx).next_id < u32::MAX - 2,
    ensures
        final(ctx).wf(),
        r is Ok <==> spec_sources_ok(vertex_source@, fragment_source@) && spec_interfaces_match(
            vertex_source@,
            fragment_source@,
        ),
        r matches Ok(sh) ==> {
            &&& sh.id == old(ctx).next_id + 2
            &&& final(ctx).has_program(sh.id)
            &&& final(ctx).program_obj(sh.id).linked == Some(true)
            &&& final(ctx).program_obj(sh.id).attached@.len() == 0
            &&& scan::spec_names_of(final(ctx).program_obj(sh.id).uniforms@)
                == spec_pipeline_uniforms(vertex_source@, fragment_source@)
            &&& final(ctx).programs@ == old(ctx).programs@.push(final(ctx).program_obj(sh.id))
        },
        (scan::spec_contains_nul(vertex_source@) || scan::spec_contains_nul(fragment_source@))
            ==> r == Result::<Shader, Error>::Err(Error::CanNotConvertToCString),
        !scan::spec_contains_nul(vertex_source@) && !scan::spec_contains_nul(fragment_source@)
            && !(scan::spec_balanced(vertex_source@) && scan::spec_balanced(fragment_source@))
            ==> (r matches Err(e) && e matches Error::ShaderCompilation(log) && log@
            == shader::spec_compile_log()),
        spec_sources_ok(vertex_source@, fragment_source@) && !spec_interfaces_match(
            vertex_source@,
            fragment_source@,
        ) ==> (r matches Err(e) && e matches Error::ProgramLinkage(log) && log@
            == program::spec_link_log()),
        r is Err ==> final(ctx).same_objects(*old(ctx)),
        final(ctx).shaders@ == old(ctx).shaders@,
        final(ctx).same_slots(*old(ctx)),
        final(ctx).error == old(ctx).error,
        final(ctx).draws == old(ctx).draws,
        final(ctx).same_objects_except_programs(*old(ctx)),
        // the allocator advances once per driver object actually created
        old(ctx).next_id <= final(ctx).next_id <= old(ctx).next_id + 3,
        (scan::spec_contains_nul(vertex_source@) || scan::spec_contains_nul(fragment_source@))
            ==> final(ctx).next_id == old(ctx).next_id,
        !scan::spec_contains_nul(vertex_source@) && !scan::spec_contains_nul(fragment_source@)
            && !scan::spec_balanced(vertex_source@) ==> final(ctx).next_id == old(ctx).next_id
            + 1,
        !scan::spec_contains_nul(vertex_source@) && !scan::spec_contains_nul(fragment_source@)
            && scan::spec_balanced(vertex_source@) && !scan::spec_balanced(fragment_source@)
            ==> final(ctx).next_id == old(ctx).next_id + 2,
        spec_sources_ok(vertex_source@, fragment_source@) ==> final(ctx).next_id == old(
            ctx,
        ).next_id + 3,
{
    let ghost pre = *ctx;
    if scan::contains_nul(vertex_source) {
        return Err(Error::CanNotConvertToCString);
    }
    if scan::contains_nul(fragment_source) {
        return Err(Error::CanNotConvertToCString);
    }
    let vid = match compile_stage(ctx, vertex_source, shader::Type::Vertex) {
        Ok(id) => id,
        Err(e) => {
            return Err(e);
        },
    };
    let ghost after_v = *ctx;
    let fid = match compile_stage(ctx, fragment_source, shader::Type::Fragment) {
        Ok(id) => id,
        Err(e) => {
            // tear the vertex stage down again
            proof {
                assert forall|i: int| 0 <= i < ctx.programs@.len() implies (exists|i2: int|
                    0 <= i2 < pre.programs@.len() && (#[trigger] ctx.programs@[i]).attached@
                        == pre.programs@[i2].attached@) by {
                    assert(ctx.programs@[i].attached@ == pre.programs@[i].attached@);
                }
                shaders_unattached(ctx, pre, vid, vid);
                after_v.lemma_shader_idx(vid);
                assert(ctx.shaders@[pre.shaders@.len() as int] == after_v.shader_obj(vid));
                assert(ctx.shaders@[pre.shaders@.len() as int].id == vid);
                ctx.lemma_shader_idx_unique(vid, pre.shaders@.len() as int);
                assert(ctx.shaders@ == pre.shaders@.push(ctx.shader_obj(vid)));
            }
            shader::delete(ctx, vid);
            proof {
                assert(ctx.shaders@ =~= pre.shaders@);
            }
            return Err(e);
        },
    };
    proof {
        // the fragment push left the vertex object where it stood
        after_v.lemma_shader_idx(vid);
        let k = after_v.shader_idx(vid);
        assert(ctx.shaders@[k] == after_v.shaders@[k]);
        ctx.lemma_shader_idx_unique(vid, k);
        assert(ctx.shader_obj(vid) == after_v.shader_obj(vid));
        assert forall|i: int| 0 <= i < pre.shaders@.len() implies ctx.shaders@[i]
            == pre.shaders@[i] by {}
    }
    finish_pipeline(ctx, vid, fid, vertex_source, fragment_source, Ghost(pre))
}

/// Links the two compiled stages, tears the temporaries down, and shapes
/// the pipeline's result.
#[verifier::rlimit(100)]
fn finish_pipeline(
    ctx: &mut Context,
    vid: u32,
    fid: u32,
    vertex_source: &[u8],
    fragment_source: &[u8],
    Ghost(pre): Ghost<Context>,
) -> (r: Result<Shader, Error>)
    requires
        old(ctx).wf(),
        pre.wf(),
        old(ctx).next_id == pre.next_id + 2,
        pre.next_id < u32::MAX - 2,
        vid == pre.next_id,
        fid == pre.next_id + 1,
        old(ctx).has_shader(vid),
        old(ctx).has_shader(fid),
        old(ctx).shaders@.len() == pre.shaders@.len() + 2,
        forall|i: int| 0 <= i < pre.shaders@.len() ==> #[trigger] old(ctx).shaders@[i]
            == pre.shaders@[i],
        old(ctx).shader_obj(vid).stage == shader::Type::Vertex,
        old(ctx).shader_obj(vid).compiled == Some(true),
        old(ctx).shader_obj(vid).source_bytes() == vertex_source@,
        old(ctx).shader_obj(fid).stage == shader::Type::Fragment,
        old(ctx).shader_obj(fid).compiled == Some(true),
        old(ctx).shader_obj(fid).source_bytes() == fragment_source@,
        old(ctx).programs@ == pre.programs@,
        old(ctx).same_objects_except_shaders(pre),
        old(ctx).same_slots(pre),
        old(ctx).error == pre.error,
        old(ctx).draws == pre.draws,
    ensures
        final(ctx).wf(),
        r is Ok <==> spec_interfaces_match(vertex_source@, fragment_source@),
        r matches Ok(sh) ==> {
            &&& sh.id == pre.next_id + 2
            &&& final(ctx).has_program(sh.id)
            &&& final(ctx).program_obj(sh.id).linked == Some(true)
            &&& final(ctx).program_obj(sh.id).attached@.len() == 0
            &&& scan::spec_names_of(final(ctx).program_obj(sh.id).uniforms@)
                == spec_pipeline_uniforms(vertex_source@, fragment_source@)
            &&& final(ctx).programs@ == pre.programs@.push(final(ctx).program_obj(sh.id))
        },
        r matches Err(e) ==> {
            &&& e matches Error::ProgramLinkage(log) && log@ == program::spec_link_log()
            &&& final(ctx).same_objects(pre)
        },
        final(ctx).shaders@ == pre.shaders@,
        final(ctx).same_slots(pre),
        final(ctx).error == pre.error,
        final(ctx).draws == pre.draws,
        final(ctx).next_id == pre.next_id + 3,
        final(ctx).same_objects_except_programs(pre),
{
    let ghost vobj = ctx.shader_obj(vid);
    let ghost fobj = ctx.shader_obj(fid);
    proof {
        lemma_two_stage_link(vobj, fobj, vertex_source@, fragment_source@);
    }
    let outcome = link_stages(ctx, vid, fid);
    // the shader objects have served their purpose either way
    let ghost s0 = ctx.shaders@;
    proof {
        lemma_unattached_after_link(*ctx, pre, vid, fid);
        // both temporaries stand past the old table's end
        ctx.lemma_shader_idx(fid);
        let kf = ctx.shader_idx(fid);
        assert(kf >= pre.shaders@.len()) by {
            if kf < pre.shaders@.len() {
                assert(s0[kf] == pre.shaders@[kf]);
                assert(pre.shaders@[kf].id < pre.next_id);
            }
        }
    }
    shader::delete(ctx, fid);
    proof {
        let s1 = ctx.shaders@;
        assert forall|i: int| 0 <= i < pre.shaders@.len() implies s1[i] == pre.shaders@[i] by {
            assert(s1[i] == s0[i]);
        }
        ctx.lemma_shader_idx(vid);
        let kv = ctx.shader_idx(vid);
        assert(kv >= pre.shaders@.len()) by {
            if kv < pre.shaders@.len() {
                assert(s1[kv] == pre.shaders@[kv]);
                assert(pre.shaders@[kv].id < pre.next_id);
            }
        }
        assert(s1.len() == pre.shaders@.len() + 1);
        assert(kv == pre.shaders@.len());
    }
    shader::delete(ctx, vid);
    proof {
        assert(ctx.shaders@ =~= pre.shaders@);
    }
    match outcome {
        Ok(pid) => Ok(Shader { id: pid }),
        Err(log) => Err(Error::ProgramLinkage(log)),
    }
}

/// After the link unit is torn down, the two pipeline shaders hang off no
/// program: older programs only hold older handles and the pipeline's own
/// program holds nothing.
proof fn lemma_unattached_after_link(ctx: Context, pre: Context, vid: u32, fid: u32)
    requires
        pre.wf(),
        vid >= pre.next_id,
        fid >= pre.next_id,
        pre.programs@.len() <= ctx.programs@.len(),
        forall|i: int|
            0 <= i < pre.programs@.len() ==> (#[trigger] ctx.programs@[i]).attached@
                == pre.programs@[i].attached@,
        forall|i: int|
            pre.programs@.len() <= i < ctx.programs@.len() ==> (#[trigger] ctx.programs@[
                i
            ]).attached@.len() == 0,
    ensures
        !ctx.shader_attached_anywhere(vid),
        !ctx.shader_attached_anywhere(fid),
{
    assert forall|i: int| 0 <= i < ctx.programs@.len() implies {
        ||| (exists|i2: int|
            0 <= i2 < pre.programs@.len() && (#[trigger] ctx.programs@[i]).attached@
                == pre.programs@[i2].attached@)
        ||| !ctx.programs@[i].attached@.contains(vid) && !ctx.programs@[i].attached@.contains(fid)
    } by {
        if i < pre.programs@.len() {
            assert(ctx.programs@[i].attached@ == pre.programs@[i].attached@);
        } else {
            if ctx.programs@[i].attached@.contains(vid) {
                let j = choose|j: int|
                    0 <= j < ctx.programs@[i].attached@.len() && ctx.programs@[i].attached@[j]
                        == vid;
            }
            if ctx.programs@[i].attached@.contains(fid) {
                let j = choose|j: int|
                    0 <= j < ctx.programs@[i].attached@.len() && ctx.programs@[i].attached@[j]
                        == fid;
            }
        }
    }
    shaders_unattached(&ctx, pre, vid, fid);
}

/// The two freshly created pipeline shaders are attached to no program once
/// detached from the pipeline's own: no older program may hold them.
proof fn shaders_unattached(ctx: &Context, pre: Context, vid: u32, fid: u32)
    requires
        pre.wf(),
        vid >= pre.next_id,
        fid >= pre.next_id,
        forall|i: int|
            0 <= i < ctx.programs@.len() ==> {
                ||| (exists|i2: int|
                    0 <= i2 < pre.programs@.len() && (#[trigger] ctx.programs@[i]).attached@
                        == pre.programs@[i2].attached@)
                ||| !ctx.programs@[i].attached@.contains(vid) && !ctx.programs@[
                    i
                ].attached@.contains(fid)
            },
    ensures
        !ctx.shader_attached_anywhere(vid),
        !ctx.shader_attached_anywhere(fid),
{
    assert forall|i: int, k: int|
        0 <= i < ctx.programs@.len() && 0 <= k < ctx.programs@[i].attached@.len() implies {
        &&& #[trigger] ctx.programs@[i].attached@[k] != vid
        &&& ctx.programs@[i].attached@[k] != fid
    } by {
        if exists|i2: int|
            0 <= i2 < pre.programs@.len() && ctx.programs@[i].attached@ == pre.programs@[
                i2
            ].attached@ {
            let i2 = choose|i2: int|
                0 <= i2 < pre.programs@.len() && ctx.programs@[i].attached@ == pre.programs@[
                    i2
                ].attached@;
            assert(pre.programs@[i2].wf_attached(pre));
            let v = pre.programs@[i2].attached@[k];
            assert(pre.has_shader(v));
            pre.lemma_shader_idx(v);
            assert(pre.shader_obj(v).id == v);
            assert(v < pre.next_id);
        } else {
            if ctx.programs@[i].attached@[k] == vid {
                assert(ctx.programs@[i].attached@.contains(vid));
            }
            if ctx.programs@[i].attached@[k] == fid {
                assert(ctx.programs@[i].attached@.contains(fid));
            }
        }
    }
    if ctx.shader_attached_anywhere(vid) {
        let (i, k) = choose|i: int, k: int|
            0 <= i < ctx.programs@.len() && 0 <= k < ctx.programs@[i].attached@.len()
                && #[trigger] ctx.programs@[i].attached@[k] == vid;
    }
    if ctx.shader_attached_anywhere(fid) {
        let (i, k) = choose|i: int, k: int|
            0 <= i < ctx.programs@.len() && 0 <= k < ctx.programs@[i].attached@.len()
                && #[trigger] ctx.programs@[i].attached@[k] == fid;
    }
}

/// Over exactly one vertex and one fragment object, both compiled, the
/// model link verdict is the source-level interface match, and the collected
/// tables are the source-level declaration lists.
proof fn lemma_two_stage_link(vobj: ShaderObject, fobj: ShaderObject, v: Seq<u8>, f: Seq<u8>)
    requires
        vobj.stage == shader::Type::Vertex,
        fobj.stage == shader::Type::Fragment,
        vobj.compiled == Some(true),
        fobj.compiled == Some(true),
        vobj.source_bytes() == v,
        fobj.source_bytes() == f,
    ensures
        program::spec_link_ok(seq![vobj, fobj]) == spec_interfaces_match(v, f),
        program::spec_collect_all(seq![vobj, fobj], program::spec_kw_uniform(), Seq::empty())
            == spec_pipeline_uniforms(v, f),
{
    let objs = seq![vobj, fobj];
    let tail = objs.subrange(1, 2);
    assert(tail =~= seq![fobj]);
    assert(tail.subrange(1, 1) =~= Seq::<ShaderObject>::empty());
    assert(objs[0] == vobj && tail[0] == fobj);
    // fragment `in` names: the vertex object contributes nothing, the
    // fragment object contributes its declared list
    let kwi = program::spec_kw_in();
    let kwo = program::spec_kw_out();
    let kwu = program::spec_kw_uniform();
    assert(program::spec_collect_stage(objs, shader::Type::Fragment, kwi, Seq::empty())
        == program::spec_collect_stage(tail, shader::Type::Fragment, kwi, Seq::empty()));
    assert(program::spec_collect_stage(tail, shader::Type::Fragment, kwi, Seq::empty())
        == program::spec_collect_stage(
        tail.subrange(1, 1),
        shader::Type::Fragment,
        kwi,
        scan::spec_declared_from(f, kwi, Seq::empty()),
    ));
    assert(program::spec_collect_stage(objs, shader::Type::Fragment, kwi, Seq::empty())
        == scan::spec_declared(f, kwi));
    // vertex `out` names: only the vertex object contributes
    assert(program::spec_collect_stage(objs, shader::Type::Vertex, kwo, Seq::empty())
        == program::spec_collect_stage(tail, shader::Type::Vertex, kwo, scan::spec_declared_from(v, kwo, Seq::empty())));
    assert(program::spec_collect_stage(tail, shader::Type::Vertex, kwo, scan::spec_declared(v, kwo))
        == program::spec_collect_stage(tail.subrange(1, 1), shader::Type::Vertex, kwo, scan::spec_declared(v, kwo)));
    assert(program::spec_collect_stage(objs, shader::Type::Vertex, kwo, Seq::empty())
        == scan::spec_declared(v, kwo));
    // uniform names over both stages
    assert(program::spec_collect_all(objs, kwu, Seq::empty())
        == program::spec_collect_all(tail, kwu, scan::spec_declared_from(v, kwu, Seq::empty())));
    assert(program::spec_collect_all(tail, kwu, scan::spec_declared(v, kwu))
        == program::spec_collect_all(tail.subrange(1, 1), kwu, scan::spec_declared_from(f, kwu, scan::spec_declared(v, kwu))));
    assert(program::spec_collect_all(objs, kwu, Seq::empty()) == spec_pipeline_uniforms(v, f));
    assert(forall|i: int| 0 <= i < objs.len() ==> (#[trigger] objs[i]).compiled == Some(true));
}

} // verus!
