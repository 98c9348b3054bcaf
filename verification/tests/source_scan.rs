//! The source-analysis entry points of the model driver: brace balancing,
//! declaration extraction, and log truncation behaviour.
use opengl::context::Context;
use opengl::raw::shader;
use opengl::scan;

#[test]
fn balanced_braces() {
    assert!(scan::balanced(b"void main() { if (x) { } }"));
    assert!(scan::balanced(b""));
    assert!(!scan::balanced(b"void main() { {"));
    assert!(!scan::balanced(b"} {"));
}

#[test]
fn nul_detection() {
    assert!(!scan::contains_nul(b"plain text"));
    assert!(scan::contains_nul(b"plain\0text"));
}

#[test]
fn declared_names_are_extracted_in_order_without_duplicates() {
    let source = b"uniform vec4 uColor;\nin vec3 aPos;\nuniform float uMix;\nuniform vec4 uColor;\nvoid main() { }\n";
    let uniforms = scan::declared(source, b"uniform");
    assert_eq!(uniforms, vec![b"uColor".to_vec(), b"uMix".to_vec()]);
    let ins = scan::declared(source, b"in");
    assert_eq!(ins, vec![b"aPos".to_vec()]);
    // a statement without the qualifier declares nothing
    assert_eq!(scan::declared(b"vec4 uColor;", b"uniform"), Vec::<Vec<u8>>::new());
}

#[test]
fn info_log_is_truncated_to_the_requested_length() {
    let mut ctx = Context::new();
    let id = shader::create(&mut ctx, shader::Type::Vertex);
    shader::set_source(&mut ctx, id, b"{").unwrap();
    shader::compile(&mut ctx, id);
    let full = shader::info_log_length(&mut ctx, id);
    assert_eq!(shader::get_info_log(&mut ctx, id, 4), b"unba".to_vec());
    assert_eq!(shader::get_info_log(&mut ctx, id, full + 100).len(), full);
}
