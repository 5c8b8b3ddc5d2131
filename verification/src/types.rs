//! The data types shared by the generators and the remappers.

use vstd::prelude::*;

verus! {

/// The value a remap table holds for a vertex position that no index buffer
/// entry references: such a vertex has no canonical slot and is dropped when
/// the vertex buffer is remapped. It is the maximum `u32`, so it can never
/// collide with a dense canonical index (those are always below the vertex
/// count, which fits in `u32`).
pub const SENTINEL: u32 = 0xFFFF_FFFF;

/// Why a generator or remapper rejected its input.
#[derive(Clone, Copy, Debug, PartialEq, Eq, Structural)]
pub enum RemapError {
    /// A vertex or element size is zero, a vertex size is not a multiple of
    /// the element size, a stream's element size is zero or exceeds its
    /// stride, or a stream set is empty.
    InvalidSize,
    /// An index buffer entry or a remap table entry points at or past the
    /// declared vertex count.
    OutOfRangeIndex,
    /// A buffer is too short for the declared vertex count or for the remap
    /// table's length.
    LengthMismatch,
}

/// One attribute channel of a multi-stream mesh: a strided view over a byte
/// buffer. Position `p` occupies the `size` bytes starting at `p * stride`.
/// Streams are aligned position-for-position with one another and with the
/// index buffer's referents.
pub struct VertexStream {
    /// The channel's raw bytes.
    pub data: Vec<u8>,
    /// How many bytes of each position take part in vertex equivalence.
    pub size: usize,
    /// The distance in bytes between consecutive positions.
    pub stride: usize,
}

} // verus!
