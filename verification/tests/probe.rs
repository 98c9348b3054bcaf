//! The error probe: clear on a fresh context, sticky until read, cleared by
//! reading, and fed by the misuse cases the model records.
use opengl::context::Context;
use opengl::raw::buffer;
use opengl::raw::error;
use opengl::raw::program;
use opengl::raw::shader;
use opengl::raw::uniform;

#[test]
fn fresh_context_probe_is_clear() {
    let mut ctx = Context::new();
    assert_eq!(error::check(&mut ctx), Ok(()));
}

#[test]
fn two_checks_without_driver_call_both_return_ok() {
    let mut ctx = Context::new();
    assert_eq!(error::check(&mut ctx), Ok(()));
    assert_eq!(error::check(&mut ctx), Ok(()));
}

#[test]
fn binding_unknown_buffer_sets_invalid_operation() {
    let mut ctx = Context::new();
    buffer::bind(&mut ctx, buffer::Target::Array, 42);
    assert_eq!(error::check(&mut ctx), Err(error::Error::InvalidOperation));
    // reading cleared the flag
    assert_eq!(error::check(&mut ctx), Ok(()));
}

#[test]
fn deleting_unknown_shader_sets_invalid_value() {
    let mut ctx = Context::new();
    shader::delete(&mut ctx, 7);
    assert_eq!(error::check(&mut ctx), Err(error::Error::InvalidValue));
}

#[test]
fn deleting_shader_handle_zero_is_tolerated() {
    let mut ctx = Context::new();
    shader::delete(&mut ctx, 0);
    assert_eq!(error::check(&mut ctx), Ok(()));
}

#[test]
fn enabling_unknown_program_sets_invalid_value() {
    let mut ctx = Context::new();
    program::enable(&mut ctx, 9);
    assert_eq!(error::check(&mut ctx), Err(error::Error::InvalidValue));
}

#[test]
fn enabling_unlinked_program_sets_invalid_operation() {
    let mut ctx = Context::new();
    let pid = program::create(&mut ctx);
    program::enable(&mut ctx, pid);
    assert_eq!(error::check(&mut ctx), Err(error::Error::InvalidOperation));
    assert_eq!(ctx.active_program, 0);
}

#[test]
fn uniform_write_without_active_program_sets_invalid_operation() {
    let mut ctx = Context::new();
    uniform::set_uniform1f(&mut ctx, 0, 1.0f32.to_bits());
    assert_eq!(error::check(&mut ctx), Err(error::Error::InvalidOperation));
}

#[test]
fn probe_keeps_the_most_recent_error() {
    let mut ctx = Context::new();
    shader::delete(&mut ctx, 7); // invalid value
    buffer::bind(&mut ctx, buffer::Target::Array, 42); // invalid operation
    assert_eq!(error::check(&mut ctx), Err(error::Error::InvalidOperation));
}

#[test]
fn structured_probe_wraps_the_driver_kind() {
    let mut ctx = Context::new();
    assert_eq!(opengl::check_for_error(&mut ctx), Ok(()));
    buffer::bind(&mut ctx, buffer::Target::Array, 42);
    assert_eq!(
        opengl::check_for_error(&mut ctx),
        Err(opengl::Error::GL(error::Error::InvalidOperation))
    );
    assert_eq!(opengl::check_for_error(&mut ctx), Ok(()));
}

#[test]
fn every_raw_code_maps_to_its_kind() {
    // inject raw codes as a future driver revision might report them
    let mut ctx = Context::new();
    for (code, kind) in [
        (0x0500, error::Error::InvalidEnum),
        (0x0501, error::Error::InvalidValue),
        (0x0502, error::Error::InvalidOperation),
        (0x0506, error::Error::InvalidFrameBufferOperation),
        (0xFFFFFFFF, error::Error::InvalidIndex),
        (0x9999, error::Error::Unknown(0x9999)),
    ] {
        ctx.error = code;
        assert_eq!(error::check(&mut ctx), Err(kind));
        assert_eq!(error::check(&mut ctx), Ok(()));
    }
}
