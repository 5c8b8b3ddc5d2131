//! Vertex deduplication and remapping for mesh data.
//!
//! A mesh is a vertex buffer (a sequence of fixed-size opaque byte records)
//! optionally driven by an index buffer of `u32` positions. This crate finds
//! binary-identical vertex records, assigns each distinct record a dense new
//! index in order of first appearance, and rewrites index and vertex buffers
//! through the resulting remap table. Unreferenced vertices receive the
//! [`SENTINEL`] value and are dropped.

pub mod apply;
pub mod generate;
pub mod laws;
pub mod model;
pub mod types;

pub use apply::remap_index_buffer;
pub use apply::remap_index_buffer_in_place;
pub use apply::remap_vertex_buffer;
pub use apply::remap_vertex_buffer_in_place;
pub use apply::remap_vertex_buffer_sized;
pub use apply::remap_vertex_buffer_sized_in_place;
pub use generate::generate_vertex_remap;
pub use generate::generate_vertex_remap_multi;
pub use generate::generate_vertex_sized_remap;
pub use types::RemapError;
pub use types::VertexStream;
pub use types::SENTINEL;
