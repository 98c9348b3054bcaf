//! A safety layer over a handle-based, procedural graphics driver interface.
//!
//! The driver is a process-wide state machine: numbered binding slots, opaque
//! integer handles for GPU-resident objects, and a sticky one-deep error flag
//! that must be polled because calls do not return error codes. This crate
//! gives that interface a precise, fully specified model: a [`context::Context`]
//! value holds the driver state as plain data, and every operation on it is a
//! verified function whose contract says exactly which handles, slots and
//! flags it reads and writes.
use vstd::prelude::*;

pub mod context;
pub mod raw;
pub mod render_gl;
pub mod scan;
pub mod shader;
pub mod texture;

verus! {

/// The structured errors surfaced by the shader pipeline and uniform lookup.
///
/// Each variant carries the driver-reported diagnostic as raw bytes, since the
/// driver consumes and produces byte strings.
#[derive(Debug, Clone, PartialEq, Eq)]
pub enum Error {
    /// The given text cannot become a null-terminated native string
    /// (it holds an embedded null byte).
    CanNotConvertToCString,
    /// The driver reported a failed compile; the payload is the info log.
    ShaderCompilation(Vec<u8>),
    /// The driver reported a failed link; the payload is the info log.
    ProgramLinkage(Vec<u8>),
    /// A generic driver error taken from the error probe.
    GL(raw::error::Error),
    /// No active uniform of the given name exists in the linked program.
    UnknownUniformName(Vec<u8>),
}

/// Polls the sticky error flag, wrapping the driver-reported kind in the
/// structured error. Returns `Ok` exactly when the flag was clear; reading
/// always clears it, so a second check without an intervening failure
/// returns `Ok`.
pub fn check_for_error(ctx: &mut context::Context) -> (r: Result<(), Error>)
    requires
        old(ctx).wf(),
    ensures
        final(ctx).wf(),
        final(ctx).error == 0,
        final(ctx).same_objects(*old(ctx)),
        final(ctx).same_slots(*old(ctx)),
        final(ctx).next_id == old(ctx).next_id,
        final(ctx).draws == old(ctx).draws,
        r is Ok <==> old(ctx).error == 0,
        old(ctx).error != 0 ==> r == Result::<(), Error>::Err(
            Error::GL(raw::error::spec_error_of(old(ctx).error)),
        ),
{
    match raw::error::check(ctx) {
        Ok(()) => Ok(()),
        Err(e) => Err(Error::GL(e)),
    }
}

/// The full render scenario over any two matched, well-formed sources:
/// compile and link them into one program, configure one attribute of a
/// fresh vertex array from an uploaded buffer, activate the program, resolve
/// the named uniform and write a four-component value to it (each component
/// carried as its bit pattern), and submit one non-indexed draw of three
/// vertices — polling the error probe after each stage. With the probe clear
/// at the start every poll comes back clear: the scenario hands back the
/// linked program, commits exactly one draw submission, and leaves the flag
/// clear. Five fresh handles are spent: two shader stages, the program, the
/// vertex array and the buffer.
#[verifier::rlimit(100)]
pub fn run_triangle_scenario(
    ctx: &mut context::Context,
    vertex_source: &[u8],
    fragment_source: &[u8],
    uniform_name: &[u8],
    c1: u32,
    c2: u32,
    c3: u32,
    c4: u32,
    vertices: &[u8],
) -> (r: Result<shader::Shader, Error>)
    requires
        old(ctx).wf(),
        old(ctx).error == 0,
        shader::spec_sources_ok(vertex_source@, fragment_source@),
        shader::spec_interfaces_match(vertex_source@, fragment_source@),
        !scan::spec_contains_nul(uniform_name@),
        scan::spec_has_word(
            shader::spec_pipeline_uniforms(vertex_source@, fragment_source@),
            uniform_name@,
        ),
        old(ctx).next_id + 5 <= u32::MAX,
        old(ctx).draws < u64::MAX,
    ensures
        final(ctx).wf(),
        r is Ok,
        final(ctx).error == 0,
        final(ctx).draws == old(ctx).draws + 1,
        r matches Ok(sh) ==> {
            &&& final(ctx).has_program(sh.id)
            &&& final(ctx).program_obj(sh.id).linked == Some(true)
            &&& final(ctx).active_program == sh.id
        },
{
    let sh = match shader::compile_from_sources(ctx, vertex_source, fragment_source) {
        Ok(s) => s,
        Err(e) => {
            return Err(e);
        },
    };
    match check_for_error(ctx) {
        Ok(()) => {},
        Err(e) => {
            return Err(e);
        },
    }
    // one triangle: a vertex array with one enabled attribute fed by a buffer
    let vao = raw::vertex_array::create(ctx);
    raw::vertex_array::bind(ctx, vao);
    let vbo = raw::buffer::create(ctx);
    raw::buffer::bind(ctx, raw::buffer::Target::Array, vbo);
    raw::buffer::set_bound_data(
        ctx,
        raw::buffer::Target::Array,
        vertices,
        raw::buffer::Usage::StaticDraw,
    );
    raw::vertex_array::configure_attribute(
        ctx,
        0,
        raw::vertex_array::Component::Triangle,
        raw::vertex_array::Data::Float,
        false,
        12,
        0,
    );
    raw::vertex_array::enable(ctx, 0);
    match check_for_error(ctx) {
        Ok(()) => {},
        Err(e) => {
            return Err(e);
        },
    }
    // activate the program and write the named uniform
    sh.enable(ctx);
    let loc = match raw::uniform::get_uniform_location(ctx, sh.id, uniform_name) {
        Ok(l) => l,
        Err(e) => {
            return Err(e);
        },
    };
    raw::uniform::set_uniform4f(ctx, loc, c1, c2, c3, c4);
    match check_for_error(ctx) {
        Ok(()) => {},
        Err(e) => {
            return Err(e);
        },
    }
    // one committed draw submission
    raw::draw::arrays(ctx, raw::draw::Mode::Triangles, 0, 3);
    match check_for_error(ctx) {
        Ok(()) => {},
        Err(e) => {
            return Err(e);
        },
    }
    Ok(sh)
}

} // verus!
