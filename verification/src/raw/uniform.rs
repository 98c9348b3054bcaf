//! Uniform lookup and value writes against the active program.
//!
//! A location is the uniform's index in the owning program's uniform table,
//! filled in by the last successful link; relinking rebuilds the table, so
//! previously resolved locations are invalidated without notice. Uniform
//! values are floating-point on the driver side; this layer carries them as
//! their IEEE 754 bit patterns and records only that the write happened, so
//! the contracts say exactly when a write is accepted.
use vstd::prelude::*;

use crate::context::Context;
use crate::scan;

verus! {

/// Resolves a uniform name to its location in a program's uniform table.
/// Fails with an encoding error when the name holds an embedded null byte,
/// and with an unknown-name error carrying the name when the program's last
/// successful link found no such uniform; otherwise the location returned is
/// the first table index holding the name.
pub fn get_uniform_location(ctx: &Context, id: u32, name: &[u8]) -> (r: Result<
    usize,
    crate::Error,
>)
    requires
        ctx.wf(),
        ctx.has_program(id),
    ensures
        r is Ok <==> !scan::spec_contains_nul(name@) && scan::spec_has_word(
            scan::spec_names_of(ctx.program_obj(id).uniforms@),
            name@,
        ),
        scan::spec_contains_nul(name@) ==> r == Result::<usize, crate::Error>::Err(
            crate::Error::CanNotConvertToCString,
        ),
        !scan::spec_contains_nul(name@) && !scan::spec_has_word(
            scan::spec_names_of(ctx.program_obj(id).uniforms@),
            name@,
        ) ==> (r matches Err(e) && e matches crate::Error::UnknownUniformName(v) && v@ == name@),
        r matches Ok(loc) ==> {
            &&& loc < ctx.program_obj(id).uniforms@.len()
            &&& ctx.program_obj(id).uniforms@[loc as int]@ == name@
            &&& forall|j: int| 0 <= j < loc ==> ctx.program_obj(id).uniforms@[j]@ != name@
        },
{
    if scan::contains_nul(name) {
        return Err(crate::Error::CanNotConvertToCString);
    }
    proof {
        ctx.lemma_program_idx(id);
    }
    let idx = match ctx.find_program(id) {
        Some(i) => i,
        None => 0,
    };
    let uniforms = &ctx.programs[idx].uniforms;
    let m = uniforms.len();
    let mut k: usize = 0;
    while k < m
        invariant
            k <= m,
            !scan::spec_contains_nul(name@),
            ctx.wf(),
            ctx.has_program(id),
            idx as int == ctx.program_idx(id),
            idx < ctx.programs@.len(),
            uniforms == &ctx.programs@[idx as int].uniforms,
            m == uniforms@.len(),
            forall|j: int| 0 <= j < k ==> uniforms@[j]@ != name@,
        decreases m - k,
    {
        if scan::bytes_eq(uniforms[k].as_slice(), name) {
            proof {
                assert(scan::spec_names_of(uniforms@)[k as int] == name@);
            }
            return Ok(k);
        }
        k = k + 1;
    }
    proof {
        if scan::spec_has_word(scan::spec_names_of(uniforms@), name@) {
            let j = choose|j: int|
                0 <= j < scan::spec_names_of(uniforms@).len() && scan::spec_names_of(uniforms@)[j]
                    == name@;
            assert(uniforms@[j]@ != name@);
        }
    }
    let copy = scan::copy_range(name, 0, name.len());
    proof {
        assert(copy@ =~= name@);
    }
    Err(crate::Error::UnknownUniformName(copy))
}

/// Whether the context accepts a uniform write at this location: some
/// program is active and the location lies inside its uniform table.
pub open spec fn spec_write_accepted(ctx: Context, location: usize) -> bool {
    &&& ctx.active_program != 0
    &&& (location as int) < ctx.program_obj(ctx.active_program).uniforms@.len()
}

/// Checks a uniform write against the active program, recording an
/// invalid-operation error when no program is active or the location lies
/// outside its table; an accepted write changes no modeled state.
fn apply_write(ctx: &mut Context, location: usize)
    requires
        old(ctx).wf(),
    ensures
        final(ctx).wf(),
        spec_write_accepted(*old(ctx), location) ==> *final(ctx) == *old(ctx),
        !spec_write_accepted(*old(ctx), location) ==> {
            &&& final(ctx).error == crate::raw::error::INVALID_OPERATION
            &&& final(ctx).same_objects(*old(ctx))
            &&& final(ctx).same_slots(*old(ctx))
            &&& final(ctx).next_id == old(ctx).next_id
            &&& final(ctx).draws == old(ctx).draws
        },
{
    let active = ctx.active_program;
    if active == 0 {
        ctx.error = crate::raw::error::INVALID_OPERATION;
        return;
    }
    proof {
        ctx.lemma_program_idx(active);
    }
    let idx = match ctx.find_program(active) {
        Some(i) => i,
        None => 0,
    };
    if location >= ctx.programs[idx].uniforms.len() {
        ctx.error = crate::raw::error::INVALID_OPERATION;
        return;
    }
}

/// Writes one float, carried as its bit pattern, to the uniform at
/// `location` of the active program; accepted exactly under
/// [`spec_write_accepted`].
pub fn set_uniform1f(ctx: &mut Context, uniform_id: usize, v1: u32)
    requires
        old(ctx).wf(),
    ensures
        final(ctx).wf(),
        spec_write_accepted(*old(ctx), uniform_id) ==> *final(ctx) == *old(ctx),
        !spec_write_accepted(*old(ctx), uniform_id) ==> {
            &&& final(ctx).error == crate::raw::error::INVALID_OPERATION
            &&& final(ctx).same_objects(*old(ctx))
            &&& final(ctx).same_slots(*old(ctx))
        },
        final(ctx).next_id == old(ctx).next_id,
        final(ctx).draws == old(ctx).draws,
{
    apply_write(ctx, uniform_id);
}

/// Writes a three-component float vector, carried as bit patterns, to the
/// uniform at `location` of the active program.
pub fn set_uniform3f(ctx: &mut Context, uniform_id: usize, v1: u32, v2: u32, v3: u32)
    requires
        old(ctx).wf(),
    ensures
        final(ctx).wf(),
        spec_write_accepted(*old(ctx), uniform_id) ==> *final(ctx) == *old(ctx),
        !spec_write_accepted(*old(ctx), uniform_id) ==> {
            &&& final(ctx).error == crate::raw::error::INVALID_OPERATION
            &&& final(ctx).same_objects(*old(ctx))
            &&& final(ctx).same_slots(*old(ctx))
        },
        final(ctx).next_id == old(ctx).next_id,
        final(ctx).draws == old(ctx).draws,
{
    apply_write(ctx, uniform_id);
}

/// Writes a four-component float vector, carried as bit patterns, to the
/// uniform at `location` of the active program.
pub fn set_uniform4f(ctx: &mut Context, uniform_id: usize, v1: u32, v2: u32, v3: u32, v4: u32)
    requires
        old(ctx).wf(),
    ensures
        final(ctx).wf(),
        spec_write_accepted(*old(ctx), uniform_id) ==> *final(ctx) == *old(ctx),
        !spec_write_accepted(*old(ctx), uniform_id) ==> {
            &&& final(ctx).error == crate::raw::error::INVALID_OPERATION
            &&& final(ctx).same_objects(*old(ctx))
            &&& final(ctx).same_slots(*old(ctx))
        },
        final(ctx).next_id == old(ctx).next_id,
        final(ctx).draws == old(ctx).draws,
{
    apply_write(ctx, uniform_id);
}

/// Writes a four-by-four float matrix, carried as sixteen bit patterns in
/// column-major order, to the uniform at `location` of the active program.
pub fn set_uniform_matrix4(ctx: &mut Context, uniform_id: usize, values: &[u32])
    requires
        old(ctx).wf(),
        values@.len() == 16,
    ensures
        final(ctx).wf(),
        spec_write_accepted(*old(ctx), uniform_id) ==> *final(ctx) == *old(ctx),
        !spec_write_accepted(*old(ctx), uniform_id) ==> {
            &&& final(ctx).error == crate::raw::error::INVALID_OPERATION
            &&& final(ctx).same_objects(*old(ctx))
            &&& final(ctx).same_slots(*old(ctx))
        },
        final(ctx).next_id == old(ctx).next_id,
        final(ctx).draws == old(ctx).draws,
{
    apply_write(ctx, uniform_id);
}

} // verus!
