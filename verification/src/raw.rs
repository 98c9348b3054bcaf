//! The per-resource operations and their enumeration tables, one module per
//! resource kind, all acting on an explicit [`crate::context::Context`].
pub mod buffer;
pub mod draw;
pub mod error;
pub mod program;
pub mod shader;
pub mod texture;
pub mod uniform;
pub mod vertex_array;
