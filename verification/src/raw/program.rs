//! Program objects: creation, attach/detach, linking and status queries.
//!
//! The model driver links a program when every attached shader compiled
//! successfully, at least one shader is attached, and every `in` name of the
//! fragment stage is declared `out` by the vertex stage. A successful link
//! fills the program's uniform and attribute tables from the attached
//! sources; a uniform's location is its index in the table.
use vstd::prelude::*;

use crate::context::Context;
use crate::context::ProgramObject;
use crate::context::ShaderObject;
use crate::scan;
use crate::raw::shader::Type;

verus! {

/// The `uniform` qualifier keyword.
pub open spec fn spec_kw_uniform() -> Seq<u8> {
    seq![117u8, 110u8, 105u8, 102u8, 111u8, 114u8, 109u8]
}

/// The `in` qualifier keyword.
pub open spec fn spec_kw_in() -> Seq<u8> {
    seq![105u8, 110u8]
}

/// The `out` qualifier keyword.
pub open spec fn spec_kw_out() -> Seq<u8> {
    seq![111u8, 117u8, 116u8]
}

/// Builds the `uniform` keyword.
fn kw_uniform() -> (r: Vec<u8>)
    ensures
        r@ == spec_kw_uniform(),
{
    let mut r: Vec<u8> = Vec::new();
    r.push(117);
    r.push(110);
    r.push(105);
    r.push(102);
    r.push(111);
    r.push(114);
    r.push(109);
    proof {
        assert(r@ =~= spec_kw_uniform());
    }
    r
}

/// Builds the `in` keyword.
fn kw_in() -> (r: Vec<u8>)
    ensures
        r@ == spec_kw_in(),
{
    let mut r: Vec<u8> = Vec::new();
    r.push(105);
    r.push(110);
    proof {
        assert(r@ =~= spec_kw_in());
    }
    r
}

/// Builds the `out` keyword.
fn kw_out() -> (r: Vec<u8>)
    ensures
        r@ == spec_kw_out(),
{
    let mut r: Vec<u8> = Vec::new();
    r.push(111);
    r.push(117);
    r.push(116);
    proof {
        assert(r@ =~= spec_kw_out());
    }
    r
}

/// The diagnostic the model driver leaves after a failed link.
pub open spec fn spec_link_log() -> Seq<u8> {
    seq![
        108u8, 105u8, 110u8, 107u8, 32u8, 102u8, 97u8, 105u8, 108u8, 101u8, 100u8,
    ]
}

/// Builds the failed-link diagnostic (`link failed`).
fn link_failure_log() -> (r: Vec<u8>)
    ensures
        r@ == spec_link_log(),
        r@.len() > 0,
{
    let mut r: Vec<u8> = Vec::new();
    r.push(108);
    r.push(105);
    r.push(110);
    r.push(107);
    r.push(32);
    r.push(102);
    r.push(97);
    r.push(105);
    r.push(108);
    r.push(101);
    r.push(100);
    proof {
        assert(r@ =~= spec_link_log());
    }
    r
}

/// The names the attached shaders declare under `qual`, every stage read in
/// attach order, first occurrences kept.
pub open spec fn spec_collect_all(
    objs: Seq<ShaderObject>,
    qual: Seq<u8>,
    acc: Seq<Seq<u8>>,
) -> Seq<Seq<u8>>
    decreases objs.len(),
{
    if objs.len() == 0 {
        acc
    } else {
        spec_collect_all(
            objs.subrange(1, objs.len() as int),
            qual,
            scan::spec_declared_from(objs[0].source_bytes(), qual, acc),
        )
    }
}

/// The names the attached shaders of one stage declare under `qual`, in
/// attach order, first occurrences kept.
pub open spec fn spec_collect_stage(
    objs: Seq<ShaderObject>,
    stage: Type,
    qual: Seq<u8>,
    acc: Seq<Seq<u8>>,
) -> Seq<Seq<u8>>
    decreases objs.len(),
{
    if objs.len() == 0 {
        acc
    } else {
        spec_collect_stage(
            objs.subrange(1, objs.len() as int),
            stage,
            qual,
            if objs[0].stage == stage {
                scan::spec_declared_from(objs[0].source_bytes(), qual, acc)
            } else {
                acc
            },
        )
    }
}

/// The link verdict of the model driver over the attached shader objects:
/// something is attached, everything attached compiled successfully, and the
/// fragment stage's `in` names all appear among the vertex stage's `out`
/// names.
pub open spec fn spec_link_ok(objs: Seq<ShaderObject>) -> bool {
    &&& objs.len() > 0
    &&& forall|i: int| 0 <= i < objs.len() ==> (#[trigger] objs[i]).compiled == Some(true)
    &&& forall|n: Seq<u8>|
        #[trigger] scan::spec_has_word(
            spec_collect_stage(objs, Type::Fragment, spec_kw_in(), Seq::empty()),
            n,
        ) ==> scan::spec_has_word(
            spec_collect_stage(objs, Type::Vertex, spec_kw_out(), Seq::empty()),
            n,
        )
}

impl Context {
    /// The attached shader objects of a live program, in attach order.
    pub open spec fn attached_objs(self, id: u32) -> Seq<ShaderObject> {
        Seq::new(
            self.program_obj(id).attached@.len(),
            |k: int| self.shader_obj(self.program_obj(id).attached@[k]),
        )
    }
}

/// Allocates a fresh program handle. Creation always succeeds and never
/// touches the error flag; the new object has nothing attached, no link
/// verdict, an empty log and empty uniform and attribute tables.
pub fn create(ctx: &mut Context) -> (id: u32)
    requires
        old(ctx).wf(),
        old(ctx).next_id < u32::MAX,
    ensures
        final(ctx).wf(),
        id == old(ctx).next_id,
        id != 0,
        !old(ctx).has_program(id),
        final(ctx).has_program(id),
        final(ctx).program_idx(id) == old(ctx).programs@.len(),
        final(ctx).programs@ == old(ctx).programs@.push(final(ctx).program_obj(id)),
        final(ctx).program_obj(id).id == id,
        final(ctx).program_obj(id).attached@.len() == 0,
        final(ctx).program_obj(id).linked is None,
        final(ctx).program_obj(id).log@.len() == 0,
        final(ctx).program_obj(id).uniforms@.len() == 0,
        final(ctx).program_obj(id).attributes@.len() == 0,
        !final(ctx).program_obj(id).flagged_for_delete,
        final(ctx).next_id == old(ctx).next_id + 1,
        final(ctx).same_objects_except_programs(*old(ctx)),
        final(ctx).same_slots(*old(ctx)),
        final(ctx).error == old(ctx).error,
        final(ctx).draws == old(ctx).draws,
{
    let id = ctx.next_id;
    proof {
        ctx.lemma_program_idx(id);
        if ctx.has_program(id) {
            assert(ctx.programs@[ctx.program_idx(id)].id == id);
        }
    }
    let ghost pre = *ctx;
    let obj = ProgramObject {
        id,
        attached: Vec::new(),
        linked: None,
        log: Vec::new(),
        uniforms: Vec::new(),
        attributes: Vec::new(),
        flagged_for_delete: false,
    };
    ctx.programs.push(obj);
    ctx.next_id = ctx.next_id + 1;
    proof {
        Context::lemma_program_push_keeps(pre, *ctx, ctx.programs@.last());
        ctx.lemma_program_idx_unique(id, pre.programs@.len() as int);
    }
    id
}

/// Deletes a program handle. A handle the context never created records an
/// invalid-value error; the reserved handle `0` is silently tolerated. The
/// active program is only flagged for deletion and stays queryable until,
/// once inactive, it is deleted again; an inactive one is removed outright.
pub fn delete(ctx: &mut Context, id: u32)
    requires
        old(ctx).wf(),
    ensures
        final(ctx).wf(),
        id == 0 ==> *final(ctx) == *old(ctx),
        id != 0 && !old(ctx).has_program(id) ==> {
            &&& final(ctx).same_objects(*old(ctx))
            &&& final(ctx).error == crate::raw::error::INVALID_VALUE
        },
        id != 0 && old(ctx).has_program(id) && old(ctx).active_program == id ==> {
            &&& final(ctx).programs@ == old(ctx).programs@.update(
                old(ctx).program_idx(id),
                ProgramObject { flagged_for_delete: true, ..old(ctx).program_obj(id) },
            )
            &&& final(ctx).has_program(id)
            &&& final(ctx).error == old(ctx).error
        },
        id != 0 && old(ctx).has_program(id) && old(ctx).active_program != id ==> {
            &&& final(ctx).programs@ == old(ctx).programs@.remove(old(ctx).program_idx(id))
            &&& !final(ctx).has_program(id)
            &&& final(ctx).error == old(ctx).error
        },
        forall|v: u32| v != id ==> (final(ctx).has_program(v) <==> old(ctx).has_program(v)),
        final(ctx).same_objects_except_programs(*old(ctx)),
        final(ctx).same_slots(*old(ctx)),
        final(ctx).next_id == old(ctx).next_id,
        final(ctx).draws == old(ctx).draws,
{
    let ghost pre = *ctx;
    if id == 0 {
        return;
    }
    let idx = match ctx.find_program(id) {
        Some(i) => i,
        None => {
            ctx.error = crate::raw::error::INVALID_VALUE;
            return;
        },
    };
    proof {
        pre.lemma_program_idx(id);
    }
    if ctx.active_program == id {
        let entry = &mut ctx.programs[idx];
        entry.flagged_for_delete = true;
        proof {
            Context::lemma_program_update_keeps(pre, *ctx, idx as int, ctx.programs@[idx as int]);
            ctx.lemma_program_idx_unique(id, idx as int);
            assert forall|v: u32| v != id implies (ctx.has_program(v) <==> pre.has_program(v)) by {
                assert(pre.programs@ =~= ctx.programs@.update(
                    idx as int,
                    pre.programs@[idx as int],
                ));
                Context::lemma_program_update_keeps(
                    *ctx,
                    pre,
                    idx as int,
                    pre.programs@[idx as int],
                );
            }
        }
    } else {
        ctx.programs.remove(idx);
        proof {
            Context::lemma_program_remove_keeps(pre, *ctx, idx as int);
            ctx.lemma_program_idx(id);
            if ctx.has_program(id) {
                let k = ctx.program_idx(id);
                let korig: int = if k < idx as int {
                    k
                } else {
                    k + 1
                };
                assert(pre.programs@[korig].id == id);
                pre.lemma_program_idx_unique(id, korig);
            }
            assert forall|v: u32| v != id implies (ctx.has_program(v) <==> pre.has_program(v)) by {
                if ctx.has_program(v) {
                    ctx.lemma_program_idx(v);
                    let k = ctx.program_idx(v);
                    let korig: int = if k < idx as int {
                        k
                    } else {
                        k + 1
                    };
                    assert(pre.programs@[korig].id == v);
                    pre.lemma_program_idx_unique(v, korig);
                }
            }
            // the remaining programs' attachments are untouched
            assert forall|i: int|
                0 <= i < ctx.programs@.len() implies (#[trigger] ctx.programs@[i]).wf_attached(
                *ctx,
            ) by {
                let iorig: int = if i < idx as int {
                    i
                } else {
                    i + 1
                };
                assert(ctx.programs@[i] == pre.programs@[iorig]);
                assert(pre.programs@[iorig].wf_attached(pre));
            }
        }
    }
}

/// Attaches a compiled-or-not shader to a program. Attaching the same shader
/// twice records an invalid-operation error and changes nothing; otherwise
/// the handle joins the end of the attachment list.
pub fn attach(ctx: &mut Context, program_id: u32, shader_id: u32)
    requires
        old(ctx).wf(),
        old(ctx).has_program(program_id),
        old(ctx).has_shader(shader_id),
    ensures
        final(ctx).wf(),
        old(ctx).program_obj(program_id).attached@.contains(shader_id) ==> {
            &&& final(ctx).same_objects(*old(ctx))
            &&& final(ctx).error == crate::raw::error::INVALID_OPERATION
        },
        !old(ctx).program_obj(program_id).attached@.contains(shader_id) ==> {
            &&& final(ctx).programs@ == old(ctx).programs@.update(
                old(ctx).program_idx(program_id),
                ProgramObject {
                    attached: final(ctx).program_obj(program_id).attached,
                    ..old(ctx).program_obj(program_id)
                },
            )
            &&& final(ctx).program_idx(program_id) == old(ctx).program_idx(program_id)
            &&& final(ctx).program_obj(program_id).attached@ == old(ctx).program_obj(
                program_id,
            ).attached@.push(shader_id)
            &&& final(ctx).error == old(ctx).error
        },
        final(ctx).same_objects_except_programs(*old(ctx)),
        final(ctx).same_slots(*old(ctx)),
        final(ctx).next_id == old(ctx).next_id,
        final(ctx).draws == old(ctx).draws,
{
    let ghost pre = *ctx;
    proof {
        pre.lemma_program_idx(program_id);
    }
    let idx = match ctx.find_program(program_id) {
        Some(i) => i,
        None => 0,
    };
    if attached_contains(ctx, idx, shader_id) {
        ctx.error = crate::raw::error::INVALID_OPERATION;
        return;
    }
    let entry = &mut ctx.programs[idx];
    entry.attached.push(shader_id);
    proof {
        Context::lemma_program_update_keeps(pre, *ctx, idx as int, ctx.programs@[idx as int]);
        ctx.lemma_program_idx_unique(program_id, idx as int);
        // the one extended program keeps distinct, live attachments
        assert forall|i: int|
            0 <= i < ctx.programs@.len() implies (#[trigger] ctx.programs@[i]).wf_attached(*ctx)
        by {
            assert(pre.programs@[i].wf_attached(pre));
            if i == idx as int {
                let na = ctx.programs@[i].attached@;
                let oa = pre.programs@[i].attached@;
                assert(na == oa.push(shader_id));
                assert forall|k: int| 0 <= k < na.len() implies ctx.has_shader(
                    #[trigger] na[k],
                ) by {
                    if k < oa.len() {
                        assert(na[k] == oa[k]);
                    } else {
                        assert(na[k] == shader_id);
                    }
                }
                assert forall|k1: int, k2: int|
                    0 <= k1 < k2 < na.len() implies #[trigger] na[k1] != #[trigger] na[k2] by {
                    if k2 == oa.len() {
                        assert(na[k2] == shader_id);
                        assert(na[k1] == oa[k1]);
                        if oa[k1] == shader_id {
                            assert(oa.contains(shader_id));
                        }
                    }
                }
            }
        }
    }
}

/// Whether the program at table index `idx` has `shader_id` attached.
fn attached_contains(ctx: &Context, idx: usize, shader_id: u32) -> (r: bool)
    requires
        idx < ctx.programs@.len(),
    ensures
        r == ctx.programs@[idx as int].attached@.contains(shader_id),
{
    let m = ctx.programs[idx].attached.len();
    let mut k: usize = 0;
    while k < m
        invariant
            k <= m,
            idx < ctx.programs@.len(),
            m == ctx.programs@[idx as int].attached@.len(),
            forall|j: int| 0 <= j < k ==> ctx.programs@[idx as int].attached@[j] != shader_id,
        decreases m - k,
    {
        if ctx.programs[idx].attached[k] == shader_id {
            return true;
        }
        k = k + 1;
    }
    false
}

/// Detaches a shader from a program, whatever the link outcome. The shader
/// object itself is never touched, let alone deleted: it stays exactly as it
/// was and remains independently deletable. Detaching a shader that is not
/// attached records an invalid-operation error; naming a shader handle the
/// context never created records an invalid-value error.
pub fn detach(ctx: &mut Context, program_id: u32, shader_id: u32)
    requires
        old(ctx).wf(),
        old(ctx).has_program(program_id),
    ensures
        final(ctx).wf(),
        final(ctx).shaders@ == old(ctx).shaders@,
        forall|v: u32| final(ctx).has_shader(v) <==> old(ctx).has_shader(v),
        !old(ctx).has_shader(shader_id) ==> {
            &&& final(ctx).same_objects(*old(ctx))
            &&& final(ctx).error == crate::raw::error::INVALID_VALUE
        },
        old(ctx).has_shader(shader_id) && !old(ctx).program_obj(program_id).attached@.contains(
            shader_id,
        ) ==> {
            &&& final(ctx).same_objects(*old(ctx))
            &&& final(ctx).error == crate::raw::error::INVALID_OPERATION
        },
        old(ctx).has_shader(shader_id) && old(ctx).program_obj(program_id).attached@.contains(
            shader_id,
        ) ==> {
            &&& final(ctx).programs@ == old(ctx).programs@.update(
                old(ctx).program_idx(program_id),
                ProgramObject {
                    attached: final(ctx).program_obj(program_id).attached,
                    ..old(ctx).program_obj(program_id)
                },
            )
            &&& final(ctx).program_idx(program_id) == old(ctx).program_idx(program_id)
            &&& (exists|j: int|
                {
                    &&& 0 <= j < old(ctx).program_obj(program_id).attached@.len()
                    &&& old(ctx).program_obj(program_id).attached@[j] == shader_id
                    &&& (forall|i: int|
                        0 <= i < j ==> old(ctx).program_obj(program_id).attached@[i] != shader_id)
                    &&& final(ctx).program_obj(program_id).attached@ == old(ctx).program_obj(
                        program_id,
                    ).attached@.remove(j)
                })
            &&& final(ctx).program_obj(program_id).attached@.len() == old(ctx).program_obj(
                program_id,
            ).attached@.len() - 1
            &&& !final(ctx).program_obj(program_id).attached@.contains(shader_id)
            &&& forall|v: u32|
                v != shader_id ==> (final(ctx).program_obj(program_id).attached@.contains(v)
                    <==> old(ctx).program_obj(program_id).attached@.contains(v))
            &&& final(ctx).error == old(ctx).error
        },
        final(ctx).same_objects_except_programs(*old(ctx)),
        final(ctx).same_slots(*old(ctx)),
        final(ctx).next_id == old(ctx).next_id,
        final(ctx).draws == old(ctx).draws,
{
    let ghost pre = *ctx;
    proof {
        pre.lemma_program_idx(program_id);
    }
    if ctx.find_shader(shader_id).is_none() {
        ctx.error = crate::raw::error::INVALID_VALUE;
        return;
    }
    let idx = match ctx.find_program(program_id) {
        Some(i) => i,
        None => 0,
    };
    // find the position of the shader in the attachment list
    let m = ctx.programs[idx].attached.len();
    let mut k: usize = 0;
    while k < m
        invariant
            k <= m,
            *ctx == pre,
            pre == *old(ctx),
            pre.wf(),
            pre.has_shader(shader_id),
            pre.has_program(program_id),
            idx as int == pre.program_idx(program_id),
            idx < ctx.programs@.len(),
            m == ctx.programs@[idx as int].attached@.len(),
            forall|j: int| 0 <= j < k ==> ctx.programs@[idx as int].attached@[j] != shader_id,
        decreases m - k,
    {
        if ctx.programs[idx].attached[k] == shader_id {
            let ghost oa = pre.programs@[idx as int].attached@;
            let entry = &mut ctx.programs[idx];
            entry.attached.remove(k);
            proof {
                pre.lemma_program_idx(program_id);
                assert(ctx.programs@ == pre.programs@.update(idx as int, ctx.programs@[idx as int]));
                assert(ctx.programs@[idx as int].id == pre.programs@[idx as int].id);
                assert forall|i1: int, i2: int|
                    0 <= i1 < i2 < ctx.programs@.len() implies (#[trigger] ctx.programs@[i1]).id
                    != (#[trigger] ctx.programs@[i2]).id by {
                    assert(pre.programs@[i1].id != pre.programs@[i2].id);
                }
                Context::lemma_program_update_keeps(
                    pre,
                    *ctx,
                    idx as int,
                    ctx.programs@[idx as int],
                );
                ctx.lemma_program_idx_unique(program_id, idx as int);
                let na = ctx.programs@[idx as int].attached@;
                assert(na == oa.remove(k as int));
                assert(oa[k as int] == shader_id);
                assert(forall|i: int| 0 <= i < k ==> oa[i] != shader_id);
                // the shortened list stays distinct, live, and free of the
                // detached handle
                assert forall|j: int| 0 <= j < na.len() implies #[trigger] na[j] != shader_id by {
                    let jorig: int = if j < k as int {
                        j
                    } else {
                        j + 1
                    };
                    assert(na[j] == oa[jorig]);
                    if jorig > k as int && oa[jorig] == shader_id {
                        assert(oa[k as int] == shader_id);
                    }
                }
                if na.contains(shader_id) {
                    let j = choose|j: int| 0 <= j < na.len() && na[j] == shader_id;
                    assert(na[j] != shader_id);
                }
                assert forall|v: u32| v != shader_id implies (na.contains(v) <==> oa.contains(v))
                by {
                    if na.contains(v) {
                        let j = choose|j: int| 0 <= j < na.len() && na[j] == v;
                        let jorig: int = if j < k as int {
                            j
                        } else {
                            j + 1
                        };
                        assert(oa[jorig] == v);
                    }
                    if oa.contains(v) {
                        let j = choose|j: int| 0 <= j < oa.len() && oa[j] == v;
                        let jnew: int = if j < k as int {
                            j
                        } else {
                            j - 1
                        };
                        assert(j != k as int);
                        assert(na[jnew] == v);
                    }
                }
                assert forall|i: int|
                    0 <= i < ctx.programs@.len() implies (#[trigger] ctx.programs@[
                    i
                ]).wf_attached(*ctx) by {
                    assert(pre.programs@[i].wf_attached(pre));
                    if i == idx as int {
                        assert forall|j: int| 0 <= j < na.len() implies ctx.has_shader(
                            #[trigger] na[j],
                        ) by {
                            let jorig: int = if j < k as int {
                                j
                            } else {
                                j + 1
                            };
                            assert(na[j] == oa[jorig]);
                        }
                        assert forall|j1: int, j2: int|
                            0 <= j1 < j2 < na.len() implies #[trigger] na[j1]
                            != #[trigger] na[j2] by {
                            let o1: int = if j1 < k as int {
                                j1
                            } else {
                                j1 + 1
                            };
                            let o2: int = if j2 < k as int {
                                j2
                            } else {
                                j2 + 1
                            };
                            assert(na[j1] == oa[o1] && na[j2] == oa[o2]);
                        }
                    }
                }
            }
            return;
        }
        k = k + 1;
    }
    ctx.error = crate::raw::error::INVALID_OPERATION;
    proof {
        if pre.program_obj(program_id).attached@.contains(shader_id) {
            let j = choose|j: int|
                0 <= j < pre.program_obj(program_id).attached@.len() && pre.program_obj(
                    program_id,
                ).attached@[j] == shader_id;
            assert(ctx.programs@[idx as int].attached@[j] != shader_id);
        }
    }
}

/// The attached shader objects of the program at table index `idx`.
pub open spec fn spec_objs_at(ctx: Context, idx: int) -> Seq<ShaderObject> {
    Seq::new(
        ctx.programs@[idx].attached@.len(),
        |k: int| ctx.shader_obj(ctx.programs@[idx].attached@[k]),
    )
}

/// Collects the names every attached shader declares under `qual`.
fn collect_all_decls(ctx: &Context, idx: usize, qual: &[u8]) -> (r: Vec<Vec<u8>>)
    requires
        ctx.wf(),
        idx < ctx.programs@.len(),
    ensures
        scan::spec_names_of(r@) == spec_collect_all(
            spec_objs_at(*ctx, idx as int),
            qual@,
            Seq::empty(),
        ),
{
    let ghost objs = spec_objs_at(*ctx, idx as int);
    let mut acc: Vec<Vec<u8>> = Vec::new();
    let m = ctx.programs[idx].attached.len();
    let mut k: usize = 0;
    proof {
        assert(objs.subrange(0, objs.len() as int) =~= objs);
        assert(scan::spec_names_of(acc@) =~= Seq::<Seq<u8>>::empty());
    }
    while k < m
        invariant
            k <= m,
            ctx.wf(),
            idx < ctx.programs@.len(),
            m == ctx.programs@[idx as int].attached@.len(),
            objs == spec_objs_at(*ctx, idx as int),
            objs.len() == m,
            spec_collect_all(objs.subrange(k as int, m as int), qual@, scan::spec_names_of(acc@))
                == spec_collect_all(objs, qual@, Seq::empty()),
        decreases m - k,
    {
        let sid = ctx.programs[idx].attached[k];
        proof {
            assert(ctx.programs@[idx as int].wf_attached(*ctx));
            assert(ctx.has_shader(sid));
            ctx.lemma_shader_idx(sid);
        }
        let i = match ctx.find_shader(sid) {
            Some(i) => i,
            None => 0,
        };
        let ghost names_before = scan::spec_names_of(acc@);
        let ghost rest = objs.subrange(k as int, m as int);
        proof {
            assert(rest[0] == objs[k as int]);
            assert(objs[k as int] == ctx.shader_obj(sid));
            assert(rest.subrange(1, rest.len() as int) =~= objs.subrange(
                k + 1 as int,
                m as int,
            ));
        }
        match &ctx.shaders[i].source {
            Some(v) => {
                scan::declared_into(v.as_slice(), qual, &mut acc);
            },
            None => {
                proof {
                    assert(scan::spec_segments(Seq::<u8>::empty()) =~= Seq::<Seq<u8>>::empty());
                    assert(scan::spec_declared_from(Seq::<u8>::empty(), qual@, names_before)
                        == names_before);
                }
            },
        }
        k = k + 1;
    }
    proof {
        assert(objs.subrange(m as int, m as int) =~= Seq::<ShaderObject>::empty());
    }
    acc
}

/// Collects the names the attached shaders of one stage declare under
/// `qual`.
fn collect_stage_decls(ctx: &Context, idx: usize, stage: Type, qual: &[u8]) -> (r: Vec<Vec<u8>>)
    requires
        ctx.wf(),
        idx < ctx.programs@.len(),
    ensures
        scan::spec_names_of(r@) == spec_collect_stage(
            spec_objs_at(*ctx, idx as int),
            stage,
            qual@,
            Seq::empty(),
        ),
{
    let ghost objs = spec_objs_at(*ctx, idx as int);
    let mut acc: Vec<Vec<u8>> = Vec::new();
    let m = ctx.programs[idx].attached.len();
    let mut k: usize = 0;
    proof {
        assert(objs.subrange(0, objs.len() as int) =~= objs);
        assert(scan::spec_names_of(acc@) =~= Seq::<Seq<u8>>::empty());
    }
    while k < m
        invariant
            k <= m,
            ctx.wf(),
            idx < ctx.programs@.len(),
            m == ctx.programs@[idx as int].attached@.len(),
            objs == spec_objs_at(*ctx, idx as int),
            objs.len() == m,
            spec_collect_stage(
                objs.subrange(k as int, m as int),
                stage,
                qual@,
                scan::spec_names_of(acc@),
            ) == spec_collect_stage(objs, stage, qual@, Seq::empty()),
        decreases m - k,
    {
        let sid = ctx.programs[idx].attached[k];
        proof {
            assert(ctx.programs@[idx as int].wf_attached(*ctx));
            assert(ctx.has_shader(sid));
            ctx.lemma_shader_idx(sid);
        }
        let i = match ctx.find_shader(sid) {
            Some(i) => i,
            None => 0,
        };
        let ghost names_before = scan::spec_names_of(acc@);
        let ghost rest = objs.subrange(k as int, m as int);
        proof {
            assert(rest[0] == objs[k as int]);
            assert(objs[k as int] == ctx.shader_obj(sid));
            assert(rest.subrange(1, rest.len() as int) =~= objs.subrange(
                k + 1 as int,
                m as int,
            ));
        }
        if ctx.shaders[i].stage == stage {
            match &ctx.shaders[i].source {
                Some(v) => {
                    scan::declared_into(v.as_slice(), qual, &mut acc);
                },
                None => {
                    proof {
                        assert(scan::spec_segments(Seq::<u8>::empty())
                            =~= Seq::<Seq<u8>>::empty());
                        assert(scan::spec_declared_from(Seq::<u8>::empty(), qual@, names_before)
                            == names_before);
                    }
                },
            }
        }
        k = k + 1;
    }
    proof {
        assert(objs.subrange(m as int, m as int) =~= Seq::<ShaderObject>::empty());
    }
    acc
}

/// Whether every name of `a` occurs in `b`.
fn names_subset(a: &Vec<Vec<u8>>, b: &Vec<Vec<u8>>) -> (r: bool)
    ensures
        r == (forall|n: Seq<u8>|
            #[trigger] scan::spec_has_word(scan::spec_names_of(a@), n) ==> scan::spec_has_word(
                scan::spec_names_of(b@),
                n,
            )),
{
    let m = a.len();
    let mut k: usize = 0;
    while k < m
        invariant
            k <= m,
            m == a@.len(),
            forall|j: int|
                0 <= j < k ==> scan::spec_has_word(
                    scan::spec_names_of(b@),
                    #[trigger] scan::spec_names_of(a@)[j],
                ),
        decreases m - k,
    {
        if !scan::has_name(b, a[k].as_slice()) {
            proof {
                assert(scan::spec_names_of(a@)[k as int] == a@[k as int]@);
                assert(scan::spec_has_word(scan::spec_names_of(a@), a@[k as int]@));
            }
            return false;
        }
        proof {
            assert(scan::spec_names_of(a@)[k as int] == a@[k as int]@);
        }
        k = k + 1;
    }
    proof {
        assert forall|n: Seq<u8>|
            #[trigger] scan::spec_has_word(scan::spec_names_of(a@), n) implies scan::spec_has_word(
            scan::spec_names_of(b@),
            n,
        ) by {
            let j = choose|j: int|
                0 <= j < scan::spec_names_of(a@).len() && scan::spec_names_of(a@)[j] == n;
            assert(scan::spec_has_word(scan::spec_names_of(b@), scan::spec_names_of(a@)[j]));
        }
    }
    true
}

/// Links the program from its attached shaders. The verdict is recorded for
/// the status query: success fills the uniform and attribute tables from the
/// attached sources and clears the log, failure leaves a nonempty diagnostic
/// and empty tables. The attachments themselves are untouched either way.
#[verifier::rlimit(50)]
pub fn link(ctx: &mut Context, id: u32)
    requires
        old(ctx).wf(),
        old(ctx).has_program(id),
    ensures
        final(ctx).wf(),
        final(ctx).programs@ == old(ctx).programs@.update(
            old(ctx).program_idx(id),
            final(ctx).program_obj(id),
        ),
        final(ctx).program_idx(id) == old(ctx).program_idx(id),
        final(ctx).program_obj(id).id == old(ctx).program_obj(id).id,
        final(ctx).program_obj(id).attached == old(ctx).program_obj(id).attached,
        final(ctx).program_obj(id).flagged_for_delete == old(ctx).program_obj(
            id,
        ).flagged_for_delete,
        final(ctx).program_obj(id).linked == Some(spec_link_ok(old(ctx).attached_objs(id))),
        spec_link_ok(old(ctx).attached_objs(id)) ==> {
            &&& final(ctx).program_obj(id).log@.len() == 0
            &&& scan::spec_names_of(final(ctx).program_obj(id).uniforms@) == spec_collect_all(
                old(ctx).attached_objs(id),
                spec_kw_uniform(),
                Seq::empty(),
            )
            &&& scan::spec_names_of(final(ctx).program_obj(id).attributes@) == spec_collect_stage(
                old(ctx).attached_objs(id),
                Type::Vertex,
                spec_kw_in(),
                Seq::empty(),
            )
        },
        !spec_link_ok(old(ctx).attached_objs(id)) ==> {
            &&& final(ctx).program_obj(id).log@ == spec_link_log()
            &&& final(ctx).program_obj(id).uniforms@.len() == 0
            &&& final(ctx).program_obj(id).attributes@.len() == 0
        },
        final(ctx).same_objects_except_programs(*old(ctx)),
        final(ctx).same_slots(*old(ctx)),
        final(ctx).next_id == old(ctx).next_id,
        final(ctx).error == old(ctx).error,
        final(ctx).draws == old(ctx).draws,
{
    let ghost pre = *ctx;
    proof {
        pre.lemma_program_idx(id);
    }
    let idx = match ctx.find_program(id) {
        Some(i) => i,
        None => 0,
    };
    let ghost objs = spec_objs_at(pre, idx as int);
    proof {
        assert(pre.attached_objs(id) =~= objs);
    }
    let m = ctx.programs[idx].attached.len();
    // every attached shader must have compiled successfully
    let mut compiled_ok = true;
    let mut k: usize = 0;
    while k < m
        invariant
            k <= m,
            *ctx == pre,
            pre.wf(),
            idx < ctx.programs@.len(),
            m == ctx.programs@[idx as int].attached@.len(),
            objs == spec_objs_at(pre, idx as int),
            objs.len() == m,
            compiled_ok == (forall|j: int|
                0 <= j < k ==> (#[trigger] objs[j]).compiled == Some(true)),
        decreases m - k,
    {
        let sid = ctx.programs[idx].attached[k];
        proof {
            assert(ctx.programs@[idx as int].wf_attached(*ctx));
            assert(ctx.has_shader(sid));
            ctx.lemma_shader_idx(sid);
            assert(objs[k as int] == ctx.shader_obj(sid));
        }
        let i = match ctx.find_shader(sid) {
            Some(i) => i,
            None => 0,
        };
        let this_ok = match ctx.shaders[i].compiled {
            Some(b) => b,
            None => false,
        };
        compiled_ok = compiled_ok && this_ok;
        k = k + 1;
    }
    let ku = kw_uniform();
    let ki = kw_in();
    let ko = kw_out();
    let uniforms = collect_all_decls(ctx, idx, ku.as_slice());
    let attributes = collect_stage_decls(ctx, idx, Type::Vertex, ki.as_slice());
    let vert_outs = collect_stage_decls(ctx, idx, Type::Vertex, ko.as_slice());
    let frag_ins = collect_stage_decls(ctx, idx, Type::Fragment, ki.as_slice());
    let matched = names_subset(&frag_ins, &vert_outs);
    let ok = m > 0 && compiled_ok && matched;
    proof {
        assert(ok == spec_link_ok(objs));
    }
    let log: Vec<u8> = if ok {
        Vec::new()
    } else {
        link_failure_log()
    };
    let new_uniforms: Vec<Vec<u8>> = if ok {
        uniforms
    } else {
        Vec::new()
    };
    let new_attributes: Vec<Vec<u8>> = if ok {
        attributes
    } else {
        Vec::new()
    };
    let entry = &mut ctx.programs[idx];
    entry.linked = Some(ok);
    entry.log = log;
    entry.uniforms = new_uniforms;
    entry.attributes = new_attributes;
    proof {
        assert(ctx.programs@ == pre.programs@.update(idx as int, ctx.programs@[idx as int]));
        assert(ctx.programs@[idx as int].id == pre.programs@[idx as int].id);
        assert forall|i1: int, i2: int|
            0 <= i1 < i2 < ctx.programs@.len() implies (#[trigger] ctx.programs@[i1]).id != (
        #[trigger] ctx.programs@[i2]).id by {
            assert(pre.programs@[i1].id != pre.programs@[i2].id);
        }
        Context::lemma_program_update_keeps(pre, *ctx, idx as int, ctx.programs@[idx as int]);
        ctx.lemma_program_idx_unique(id, idx as int);
        assert forall|i: int|
            0 <= i < ctx.programs@.len() implies (#[trigger] ctx.programs@[i]).wf_attached(*ctx)
        by {
            assert(pre.programs@[i].wf_attached(pre));
            if i == idx as int {
                assert(ctx.programs@[i].attached == pre.programs@[i].attached);
            }
        }
    }
}

/// Makes the program the context's active one. The reserved handle `0`
/// empties the slot; a successfully linked program fills it; a live program
/// that never linked successfully records an invalid-operation error and a
/// handle the context never created records an invalid-value error, both
/// leaving the slot as it was.
pub fn enable(ctx: &mut Context, id: u32)
    requires
        old(ctx).wf(),
    ensures
        final(ctx).wf(),
        id == 0 ==> {
            &&& final(ctx).active_program == 0
            &&& final(ctx).error == old(ctx).error
        },
        id != 0 && old(ctx).has_program(id) && old(ctx).program_obj(id).linked == Some(true)
            ==> {
            &&& final(ctx).active_program == id
            &&& final(ctx).error == old(ctx).error
        },
        id != 0 && old(ctx).has_program(id) && old(ctx).program_obj(id).linked != Some(true)
            ==> {
            &&& final(ctx).active_program == old(ctx).active_program
            &&& final(ctx).error == crate::raw::error::INVALID_OPERATION
        },
        id != 0 && !old(ctx).has_program(id) ==> {
            &&& final(ctx).active_program == old(ctx).active_program
            &&& final(ctx).error == crate::raw::error::INVALID_VALUE
        },
        final(ctx).same_objects(*old(ctx)),
        final(ctx).same_slots_except_program(*old(ctx)),
        final(ctx).next_id == old(ctx).next_id,
        final(ctx).draws == old(ctx).draws,
{
    if id == 0 {
        ctx.active_program = 0;
        return;
    }
    proof {
        ctx.lemma_program_idx(id);
    }
    let idx = match ctx.find_program(id) {
        Some(i) => i,
        None => {
            ctx.error = crate::raw::error::INVALID_VALUE;
            return;
        },
    };
    let linked = match ctx.programs[idx].linked {
        Some(b) => b,
        None => false,
    };
    if linked {
        ctx.active_program = id;
    } else {
        ctx.error = crate::raw::error::INVALID_OPERATION;
    }
}

/// Whether the program is flagged for a deferred delete.
pub fn is_flagged_for_delete(ctx: &Context, id: u32) -> (r: bool)
    requires
        ctx.wf(),
        ctx.has_program(id),
    ensures
        r == ctx.program_obj(id).flagged_for_delete,
{
    proof {
        ctx.lemma_program_idx(id);
    }
    let idx = match ctx.find_program(id) {
        Some(i) => i,
        None => 0,
    };
    ctx.programs[idx].flagged_for_delete
}

/// Whether the last link of this program succeeded; `false` before any link.
pub fn was_link_successful(ctx: &Context, id: u32) -> (r: bool)
    requires
        ctx.wf(),
        ctx.has_program(id),
    ensures
        r == (ctx.program_obj(id).linked == Some(true)),
{
    proof {
        ctx.lemma_program_idx(id);
    }
    let idx = match ctx.find_program(id) {
        Some(i) => i,
        None => 0,
    };
    match ctx.programs[idx].linked {
        Some(b) => b,
        None => false,
    }
}

/// Whether the driver validated the program. This layer never issues a
/// validation request, so the reported status is still `false`.
pub fn was_validation_successful(ctx: &Context, id: u32) -> (r: bool)
    requires
        ctx.wf(),
        ctx.has_program(id),
    ensures
        r == false,
{
    false
}

/// The length in bytes of the program's diagnostic log.
pub fn info_log_length(ctx: &Context, id: u32) -> (r: usize)
    requires
        ctx.wf(),
        ctx.has_program(id),
    ensures
        r == ctx.program_obj(id).log@.len(),
{
    proof {
        ctx.lemma_program_idx(id);
    }
    let idx = match ctx.find_program(id) {
        Some(i) => i,
        None => 0,
    };
    ctx.programs[idx].log.len()
}

/// How many shaders are attached to the program.
pub fn attached_shaders(ctx: &Context, id: u32) -> (r: usize)
    requires
        ctx.wf(),
        ctx.has_program(id),
    ensures
        r == ctx.program_obj(id).attached@.len(),
{
    proof {
        ctx.lemma_program_idx(id);
    }
    let idx = match ctx.find_program(id) {
        Some(i) => i,
        None => 0,
    };
    ctx.programs[idx].attached.len()
}

/// How many active atomic-counter buffers the program uses. The model
/// driver's shading language has none, so the count is always zero.
pub fn active_atomic_counter_buffers(ctx: &Context, id: u32) -> (r: usize)
    requires
        ctx.wf(),
        ctx.has_program(id),
    ensures
        r == 0,
{
    0
}

/// How many active vertex attributes the last successful link found.
pub fn active_attributes(ctx: &Context, id: u32) -> (r: usize)
    requires
        ctx.wf(),
        ctx.has_program(id),
    ensures
        r == ctx.program_obj(id).attributes@.len(),
{
    proof {
        ctx.lemma_program_idx(id);
    }
    let idx = match ctx.find_program(id) {
        Some(i) => i,
        None => 0,
    };
    ctx.programs[idx].attributes.len()
}

/// The length in bytes of the longest active attribute name; `0` with no
/// attributes.
pub fn max_active_attribute_name_length(ctx: &Context, id: u32) -> (r: usize)
    requires
        ctx.wf(),
        ctx.has_program(id),
    ensures
        r == spec_max_name_len(ctx.program_obj(id).attributes@),
{
    proof {
        ctx.lemma_program_idx(id);
    }
    let idx = match ctx.find_program(id) {
        Some(i) => i,
        None => 0,
    };
    max_name_len(&ctx.programs[idx].attributes)
}

/// How many active uniforms the last successful link found.
pub fn active_uniforms(ctx: &Context, id: u32) -> (r: usize)
    requires
        ctx.wf(),
        ctx.has_program(id),
    ensures
        r == ctx.program_obj(id).uniforms@.len(),
{
    proof {
        ctx.lemma_program_idx(id);
    }
    let idx = match ctx.find_program(id) {
        Some(i) => i,
        None => 0,
    };
    ctx.programs[idx].uniforms.len()
}

/// The length in bytes of the longest active uniform name; `0` with no
/// uniforms.
pub fn max_active_uniform_name_length(ctx: &Context, id: u32) -> (r: usize)
    requires
        ctx.wf(),
        ctx.has_program(id),
    ensures
        r == spec_max_name_len(ctx.program_obj(id).uniforms@),
{
    proof {
        ctx.lemma_program_idx(id);
    }
    let idx = match ctx.find_program(id) {
        Some(i) => i,
        None => 0,
    };
    max_name_len(&ctx.programs[idx].uniforms)
}

/// The length in bytes of the program's stored binary. The model driver
/// keeps no program binaries, so the length is always zero.
pub fn binary_length(ctx: &Context, id: u32) -> (r: usize)
    requires
        ctx.wf(),
        ctx.has_program(id),
    ensures
        r == 0,
{
    0
}

/// The geometry stage's declared output vertex bound. The model driver does
/// not read geometry-stage layouts, so the bound is always zero.
pub fn max_output_vertices(ctx: &Context, id: u32) -> (r: usize)
    requires
        ctx.wf(),
        ctx.has_program(id),
    ensures
        r == 0,
{
    0
}

/// The length in bytes of the longest name in the list; `0` for an empty
/// list.
pub open spec fn spec_max_name_len(ns: Seq<Vec<u8>>) -> int
    decreases ns.len(),
{
    if ns.len() == 0 {
        0
    } else if ns.last()@.len() > spec_max_name_len(ns.drop_last()) {
        ns.last()@.len() as int
    } else {
        spec_max_name_len(ns.drop_last())
    }
}

/// Computes the longest name length in the list.
fn max_name_len(ns: &Vec<Vec<u8>>) -> (r: usize)
    ensures
        r == spec_max_name_len(ns@),
{
    let m = ns.len();
    let mut best: usize = 0;
    let mut k: usize = 0;
    proof {
        assert(ns@.take(0) =~= Seq::<Vec<u8>>::empty());
    }
    while k < m
        invariant
            k <= m,
            m == ns@.len(),
            best == spec_max_name_len(ns@.take(k as int)),
        decreases m - k,
    {
        proof {
            assert(ns@.take(k + 1 as int).drop_last() =~= ns@.take(k as int));
            assert(ns@.take(k + 1 as int).last() == ns@[k as int]);
        }
        let l = ns[k].len();
        if l > best {
            best = l;
        }
        k = k + 1;
    }
    proof {
        assert(ns@.take(m as int) =~= ns@);
    }
    best
}

/// The first `len` bytes of the program's diagnostic log; asking for more
/// than the log holds returns the whole log, asking for less truncates it.
pub fn get_info_log(ctx: &Context, id: u32, len: usize) -> (r: Vec<u8>)
    requires
        ctx.wf(),
        ctx.has_program(id),
    ensures
        r@ == ctx.program_obj(id).log@.take(
            if len <= ctx.program_obj(id).log@.len() {
                len as int
            } else {
                ctx.program_obj(id).log@.len() as int
            },
        ),
{
    proof {
        ctx.lemma_program_idx(id);
    }
    let idx = match ctx.find_program(id) {
        Some(i) => i,
        None => 0,
    };
    let log = &ctx.programs[idx].log;
    let take = if len <= log.len() {
        len
    } else {
        log.len()
    };
    let r = crate::scan::copy_range(log.as_slice(), 0, take);
    proof {
        assert(r@ =~= ctx.program_obj(id).log@.take(take as int));
    }
    r
}

} // verus!
