//! The shader compilation and link pipeline, from raw stage calls up to the
//! one-call interface, including uniform lookup and the full draw scenario.
use opengl::Error;
use opengl::context::Context;
use opengl::raw::buffer;
use opengl::raw::draw;
use opengl::raw::error;
use opengl::raw::program;
use opengl::raw::shader;
use opengl::raw::uniform;
use opengl::raw::vertex_array;
use opengl::render_gl;
use opengl::shader::compile_from_sources;

const VERT: &[u8] = b"#version 330 core\nlayout (location = 0) in vec3 aPos;\nout vec4 vColor;\nvoid main() { gl_Position = vec4(aPos, 1.0); vColor = vec4(1.0); }\n";
const FRAG: &[u8] = b"#version 330 core\nin vec4 vColor;\nuniform vec4 uColor;\nuniform float uMix;\nout vec4 FragColor;\nvoid main() { FragColor = uColor; }\n";
const VERT_NO_OUT: &[u8] = b"in vec3 aPos;\nvoid main() { gl_Position = vec4(aPos, 1.0); }\n";
const FRAG_WANTS_NORMAL: &[u8] = b"in vec3 vNormal;\nout vec4 FragColor;\nvoid main() { FragColor = vec4(vNormal, 1.0); }\n";
const BROKEN: &[u8] = b"void main() { {\n";

#[test]
fn broken_source_fails_compile_with_nonempty_log() {
    let mut ctx = Context::new();
    let id = shader::create(&mut ctx, shader::Type::Vertex);
    shader::set_source(&mut ctx, id, BROKEN).unwrap();
    shader::compile(&mut ctx, id);
    assert!(!shader::was_compile_successful(&mut ctx, id));
    let len = shader::info_log_length(&mut ctx, id);
    assert!(len > 0);
    let log = shader::get_info_log(&mut ctx, id, len);
    assert_eq!(log, b"unbalanced braces".to_vec());
}

#[test]
fn minimal_source_compiles_with_empty_log() {
    let mut ctx = Context::new();
    let id = shader::create(&mut ctx, shader::Type::Vertex);
    shader::set_source(&mut ctx, id, VERT).unwrap();
    shader::compile(&mut ctx, id);
    assert!(shader::was_compile_successful(&mut ctx, id));
    assert_eq!(shader::info_log_length(&mut ctx, id), 0);
    // the driver-reported source length counts the null terminator
    assert_eq!(shader::source_length(&mut ctx, id), VERT.len() + 1);
    assert_eq!(shader::get_type(&mut ctx, id), Ok(shader::Type::Vertex));
}

#[test]
fn source_with_embedded_nul_is_rejected() {
    let mut ctx = Context::new();
    let id = shader::create(&mut ctx, shader::Type::Fragment);
    let r = shader::set_source(&mut ctx, id, b"void main() { }\0");
    assert_eq!(r, Err(Error::CanNotConvertToCString));
    // the stored source is untouched and the probe stays clear
    assert_eq!(shader::source_length(&mut ctx, id), 0);
    assert_eq!(error::check(&mut ctx), Ok(()));
}

#[test]
fn later_set_source_replaces_earlier_text() {
    let mut ctx = Context::new();
    let id = shader::create(&mut ctx, shader::Type::Vertex);
    shader::set_source(&mut ctx, id, BROKEN).unwrap();
    shader::set_source(&mut ctx, id, VERT).unwrap();
    // the reported length reflects the later text alone
    assert_eq!(shader::source_length(&mut ctx, id), VERT.len() + 1);
    shader::compile(&mut ctx, id);
    assert!(shader::was_compile_successful(&mut ctx, id));
}

#[test]
fn mismatched_stages_fail_to_link_with_nonempty_log() {
    let mut ctx = Context::new();
    // both stages compile on their own
    let v = render_gl::Shader::from_source(&mut ctx, VERT_NO_OUT, shader::Type::Vertex).unwrap();
    let f = render_gl::Shader::from_frag_source(&mut ctx, FRAG_WANTS_NORMAL).unwrap();
    let shaders = [v, f];
    let r = render_gl::Program::from_shaders(&mut ctx, &shaders);
    match r {
        Err(log) => {
            assert!(!log.is_empty());
            assert_eq!(log, b"link failed".to_vec());
        },
        Ok(_) => panic!("a mismatched interface must not link"),
    }
    // detach-all ran despite the failed link: nothing stays attached and
    // both shaders remain live and independently deletable
    let pid = ctx.programs.last().unwrap().id;
    assert_eq!(program::attached_shaders(&mut ctx, pid), 0);
    assert!(shader::was_compile_successful(&mut ctx, shaders[0].id));
    assert!(shader::was_compile_successful(&mut ctx, shaders[1].id));
}

#[test]
fn matched_stages_link_and_detach() {
    let mut ctx = Context::new();
    let v = render_gl::Shader::from_vert_source(&mut ctx, VERT).unwrap();
    let f = render_gl::Shader::from_frag_source(&mut ctx, FRAG).unwrap();
    let vid = v.id();
    let shaders = [v, f];
    let p = render_gl::Program::from_shaders(&mut ctx, &shaders).unwrap();
    assert!(program::was_link_successful(&mut ctx, p.id));
    assert_eq!(program::attached_shaders(&mut ctx, p.id), 0);
    assert_eq!(program::info_log_length(&mut ctx, p.id), 0);
    assert_eq!(program::active_uniforms(&mut ctx, p.id), 2);
    assert_eq!(program::active_attributes(&mut ctx, p.id), 1);
    assert_eq!(program::max_active_attribute_name_length(&mut ctx, p.id), 4);
    assert_eq!(program::max_active_uniform_name_length(&mut ctx, p.id), 6);
    assert!(!program::was_validation_successful(&mut ctx, p.id));
    assert_eq!(program::binary_length(&mut ctx, p.id), 0);
    assert_eq!(program::max_output_vertices(&mut ctx, p.id), 0);
    assert_eq!(program::active_atomic_counter_buffers(&mut ctx, p.id), 0);
    // the detached shader is still live and independently deletable
    assert!(!shader::is_flagged_for_delete(&mut ctx, vid));
    shader::delete(&mut ctx, vid);
    assert_eq!(error::check(&mut ctx), Ok(()));
}

#[test]
fn detach_is_safe_after_a_failed_link() {
    let mut ctx = Context::new();
    let vid = shader::create(&mut ctx, shader::Type::Vertex);
    shader::set_source(&mut ctx, vid, VERT_NO_OUT).unwrap();
    shader::compile(&mut ctx, vid);
    let fid = shader::create(&mut ctx, shader::Type::Fragment);
    shader::set_source(&mut ctx, fid, FRAG_WANTS_NORMAL).unwrap();
    shader::compile(&mut ctx, fid);
    let pid = program::create(&mut ctx);
    program::attach(&mut ctx, pid, vid);
    program::attach(&mut ctx, pid, fid);
    program::link(&mut ctx, pid);
    assert!(!program::was_link_successful(&mut ctx, pid));
    // detach regardless of the link outcome; the shaders survive it
    program::detach(&mut ctx, pid, vid);
    program::detach(&mut ctx, pid, fid);
    assert_eq!(program::attached_shaders(&mut ctx, pid), 0);
    assert!(shader::was_compile_successful(&mut ctx, vid));
    assert!(shader::was_compile_successful(&mut ctx, fid));
    shader::delete(&mut ctx, vid);
    shader::delete(&mut ctx, fid);
    assert_eq!(error::check(&mut ctx), Ok(()));
}

#[test]
fn deleting_an_attached_shader_defers_until_detach() {
    let mut ctx = Context::new();
    let vid = shader::create(&mut ctx, shader::Type::Vertex);
    shader::set_source(&mut ctx, vid, VERT).unwrap();
    shader::compile(&mut ctx, vid);
    let pid = program::create(&mut ctx);
    program::attach(&mut ctx, pid, vid);
    shader::delete(&mut ctx, vid);
    // still attached: only flagged
    assert!(shader::is_flagged_for_delete(&mut ctx, vid));
    program::detach(&mut ctx, pid, vid);
    shader::delete(&mut ctx, vid);
    // now gone: a further query is impossible, and a further delete errs
    shader::delete(&mut ctx, vid);
    assert_eq!(error::check(&mut ctx), Err(error::Error::InvalidValue));
}

#[test]
fn uniform_lookup_present_unused_and_absent() {
    let mut ctx = Context::new();
    let sh = compile_from_sources(&mut ctx, VERT, FRAG).unwrap();
    // referenced in source
    let used = uniform::get_uniform_location(&mut ctx, sh.id, b"uColor").unwrap();
    // declared but unused
    let unused = uniform::get_uniform_location(&mut ctx, sh.id, b"uMix").unwrap();
    assert_eq!(used, 0);
    assert_eq!(unused, 1);
    // absent from source
    match uniform::get_uniform_location(&mut ctx, sh.id, b"uMissing") {
        Err(Error::UnknownUniformName(name)) => assert_eq!(name, b"uMissing".to_vec()),
        other => panic!("expected an unknown-uniform error, got {:?}", other),
    }
    // a name with an embedded null byte cannot reach the driver
    assert_eq!(
        uniform::get_uniform_location(&mut ctx, sh.id, b"u\0Color"),
        Err(Error::CanNotConvertToCString)
    );
}

#[test]
fn compile_from_sources_reports_the_failing_stage() {
    let mut ctx = Context::new();
    match compile_from_sources(&mut ctx, BROKEN, FRAG) {
        Err(Error::ShaderCompilation(log)) => assert_eq!(log, b"unbalanced braces".to_vec()),
        other => panic!("expected a compile error, got {:?}", other),
    }
    match compile_from_sources(&mut ctx, VERT_NO_OUT, FRAG_WANTS_NORMAL) {
        Err(Error::ProgramLinkage(log)) => assert_eq!(log, b"link failed".to_vec()),
        other => panic!("expected a link error, got {:?}", other),
    }
    match compile_from_sources(&mut ctx, b"void main() { }\0", FRAG) {
        Err(Error::CanNotConvertToCString) => {},
        other => panic!("expected an encoding error, got {:?}", other),
    }
    // every temporary was cleaned up and the probe stayed clear
    assert_eq!(ctx.shaders.len(), 0);
    assert_eq!(ctx.programs.len(), 0);
    assert_eq!(error::check(&mut ctx), Ok(()));
}

#[test]
fn pipeline_spends_three_handles_and_leaves_one_program() {
    let mut ctx = Context::new();
    let before = ctx.next_id;
    let sh = compile_from_sources(&mut ctx, VERT, FRAG).unwrap();
    // exactly three driver objects were created: two stages and the program,
    // of which only the program survives
    assert_eq!(sh.id, before + 2);
    assert_eq!(ctx.next_id, before + 3);
    assert_eq!(ctx.programs.len(), 1);
    assert_eq!(ctx.shaders.len(), 0);
    // a failing run spends only the handles created before its failure
    let at_broken = ctx.next_id;
    assert!(compile_from_sources(&mut ctx, BROKEN, FRAG).is_err());
    assert_eq!(ctx.next_id, at_broken + 1);
    let at_mismatch = ctx.next_id;
    assert!(compile_from_sources(&mut ctx, VERT_NO_OUT, FRAG_WANTS_NORMAL).is_err());
    assert_eq!(ctx.next_id, at_mismatch + 3);
    let at_nul = ctx.next_id;
    assert!(compile_from_sources(&mut ctx, b"void main() { }\0", FRAG).is_err());
    assert_eq!(ctx.next_id, at_nul);
}

#[test]
fn one_call_scenario_commits_one_draw() {
    let mut ctx = Context::new();
    let vertices = [0u8; 36]; // 3 vertices of 3 floats each
    let before = ctx.draws;
    let sh = opengl::run_triangle_scenario(
        &mut ctx,
        VERT,
        FRAG,
        b"uColor",
        1.0f32.to_bits(),
        0.0f32.to_bits(),
        0.0f32.to_bits(),
        1.0f32.to_bits(),
        &vertices,
    )
    .unwrap();
    assert_eq!(ctx.draws, before + 1);
    assert_eq!(ctx.active_program, sh.id);
    assert_eq!(error::check(&mut ctx), Ok(()));
}

#[test]
fn full_scenario_draws_without_probe_failure() {
    let mut ctx = Context::new();
    // two known-good minimal sources: pass position through, output a colour
    let sh = compile_from_sources(&mut ctx, VERT, FRAG).unwrap();
    assert_eq!(error::check(&mut ctx), Ok(()));

    // a vertex array with one attribute fed by a buffer of 3 vertices
    let vao = vertex_array::create(&mut ctx);
    vertex_array::bind(&mut ctx, vao);
    let vbo = buffer::create(&mut ctx);
    buffer::bind(&mut ctx, buffer::Target::Array, vbo);
    let vertices = [0u8; 36]; // 3 vertices of 3 floats each
    buffer::set_bound_data(&mut ctx, buffer::Target::Array, &vertices, buffer::Usage::StaticDraw);
    vertex_array::configure_attribute(
        &mut ctx,
        0,
        vertex_array::Component::Triangle,
        vertex_array::Data::Float,
        false,
        12,
        0,
    );
    vertex_array::enable(&mut ctx, 0);
    assert_eq!(error::check(&mut ctx), Ok(()));

    // resolve a uniform named in the fragment source and set it to red
    sh.enable(&mut ctx);
    let loc = uniform::get_uniform_location(&mut ctx, sh.id, b"uColor").unwrap();
    uniform::set_uniform4f(
        &mut ctx,
        loc,
        1.0f32.to_bits(),
        0.0f32.to_bits(),
        0.0f32.to_bits(),
        1.0f32.to_bits(),
    );
    assert_eq!(error::check(&mut ctx), Ok(()));

    // a defined, committed draw call
    let before = ctx.draws;
    draw::arrays(&mut ctx, draw::Mode::Triangles, 0, 3);
    assert_eq!(ctx.draws, before + 1);
    assert_eq!(error::check(&mut ctx), Ok(()));
}

#[test]
fn set_float_against_the_active_program() {
    let mut ctx = Context::new();
    let sh = compile_from_sources(&mut ctx, VERT, FRAG).unwrap();
    sh.enable(&mut ctx);
    sh.set_float(&mut ctx, b"uMix", 0.5f32.to_bits()).unwrap();
    assert_eq!(error::check(&mut ctx), Ok(()));
    match sh.set_float(&mut ctx, b"uNothing", 0.5f32.to_bits()) {
        Err(Error::UnknownUniformName(name)) => assert_eq!(name, b"uNothing".to_vec()),
        other => panic!("expected an unknown-uniform error, got {:?}", other),
    }
}
