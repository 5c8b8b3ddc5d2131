//! Remap application: rewriting index buffers and compacting vertex buffers
//! through a remap table.

use crate::generate::indices_in_bounds;
use crate::model::record;
use crate::model::remapped_indices;
use crate::model::slot_bytes;
use crate::model::targets_below;
use crate::model::zero_record;
use crate::types::RemapError;
use crate::types::SENTINEL;
use vstd::prelude::*;

verus! {

/// A vector of `n` zero bytes.
fn zero_filled(n: usize) -> (r: Vec<u8>)
    ensures
        r@ == Seq::new(n as nat, |t: int| 0u8),
{
    let mut r: Vec<u8> = Vec::new();
    let mut i: usize = 0;
    while i < n
        invariant
            i <= n,
            r@ =~= Seq::new(i as nat, |t: int| 0u8),
        decreases n - i,
    {
        r.push(0u8);
        assert(r@ =~= Seq::new((i + 1) as nat, |t: int| 0u8));
        i += 1;
    }
    assert(r@ =~= Seq::new(n as nat, |t: int| 0u8));
    r
}

/// Does every non-sentinel table entry point below `vc`?
fn targets_in_bounds(remap: &Vec<u32>, vc: usize) -> (r: bool)
    ensures
        r == targets_below(remap@, vc as int),
{
    let mut i: usize = 0;
    while i < remap.len()
        invariant
            i <= remap@.len(),
            forall|u: int|
                0 <= u < i ==> ((#[trigger] remap@[u]) == SENTINEL || (remap@[u] as int) < vc),
        decreases remap@.len() - i,
    {
        let d = remap[i];
        if d != SENTINEL && d as usize >= vc {
            assert(!targets_below(remap@, vc as int));
            return false;
        }
        i += 1;
    }
    true
}

/// Rewrites an index buffer through the table: entry `m` becomes
/// `remap[indices[m]]`. A [`SENTINEL`] held by the table propagates verbatim;
/// keeping table and buffers coherent is the caller's business. For an
/// unindexed mesh (`indices` is `None`) the table's entries themselves become
/// the index buffer, materialising one for the first time; the table's length
/// must then equal `vertex_count`.
///
/// Rejects an index buffer entry that does not point below the table's
/// length.
pub fn remap_index_buffer(indices: Option<&Vec<u32>>, vertex_count: usize, remap: &Vec<u32>) -> (r:
    Result<Vec<u32>, RemapError>)
    ensures
        match indices {
            Some(ix) => {
                &&& r is Ok <==> forall|m: int|
                    0 <= m < ix@.len() ==> ((#[trigger] ix@[m]) as int) < remap@.len()
                &&& r is Err ==> r == Err::<Vec<u32>, RemapError>(RemapError::OutOfRangeIndex)
                &&& r matches Ok(out) ==> out@ == remapped_indices(ix@, remap@)
            },
            None => {
                &&& r is Ok <==> remap@.len() == vertex_count
                &&& r is Err ==> r == Err::<Vec<u32>, RemapError>(RemapError::LengthMismatch)
                &&& r matches Ok(out) ==> out@ == remap@
            },
        },
{
    match indices {
        Some(ix) => {
            if !indices_in_bounds(ix, remap.len()) {
                return Err(RemapError::OutOfRangeIndex);
            }
            let n = ix.len();
            let mut out: Vec<u32> = Vec::new();
            let mut m: usize = 0;
            while m < n
                invariant
                    m <= n == ix@.len(),
                    forall|u: int| 0 <= u < n ==> ((#[trigger] ix@[u]) as int) < remap@.len(),
                    out@ =~= remapped_indices(ix@, remap@).take(m as int),
                decreases n - m,
            {
                out.push(remap[ix[m] as usize]);
                assert(out@ =~= remapped_indices(ix@, remap@).take(m + 1));
                m += 1;
            }
            assert(out@ =~= remapped_indices(ix@, remap@));
            Ok(out)
        },
        None => {
            if remap.len() != vertex_count {
                return Err(RemapError::LengthMismatch);
            }
            let n = remap.len();
            let mut out: Vec<u32> = Vec::new();
            let mut m: usize = 0;
            while m < n
                invariant
                    m <= n == remap@.len(),
                    out@ =~= remap@.take(m as int),
                decreases n - m,
            {
                out.push(remap[m]);
                assert(out@ =~= remap@.take(m + 1));
                m += 1;
            }
            assert(out@ =~= remap@);
            Ok(out)
        },
    }
}

/// Rewrites an index buffer through the table in place. Each output entry
/// depends only on the input entry at the same position, so the element-wise
/// overwrite is order-independent. On rejection the buffer is unchanged.
pub fn remap_index_buffer_in_place(indices: &mut Vec<u32>, remap: &Vec<u32>) -> (r: Result<
    (),
    RemapError,
>)
    ensures
        r is Ok <==> forall|m: int|
            0 <= m < old(indices)@.len() ==> ((#[trigger] old(indices)@[m]) as int) < remap@.len(),
        r is Err ==> r == Err::<(), RemapError>(RemapError::OutOfRangeIndex) && final(indices)@
            == old(indices)@,
        r is Ok ==> final(indices)@ == remapped_indices(old(indices)@, remap@),
{
    if !indices_in_bounds(indices, remap.len()) {
        return Err(RemapError::OutOfRangeIndex);
    }
    let n = indices.len();
    let mut m: usize = 0;
    while m < n
        invariant
            m <= n == indices@.len() == old(indices)@.len(),
            forall|u: int|
                0 <= u < n ==> ((#[trigger] old(indices)@[u]) as int) < remap@.len(),
            forall|u: int| 0 <= u < m ==> indices@[u] == remap@[(#[trigger] old(indices)@[u]) as int],
            forall|u: int| m <= u < n ==> indices@[u] == old(indices)@[u],
        decreases n - m,
    {
        let x = indices[m];
        indices.set(m, remap[x as usize]);
        m += 1;
    }
    assert(indices@ =~= remapped_indices(old(indices)@, remap@));
    Ok(())
}

/// Copies the `sz`-byte record at position `src` of `v` over the record at
/// position `dst` of `out`, leaving every other byte of `out` unchanged.
fn copy_record(out: &mut Vec<u8>, v: &Vec<u8>, sz: usize, src: usize, dst: usize)
    requires
        (src as int + 1) * (sz as int) <= v@.len(),
        (dst as int + 1) * (sz as int) <= old(out)@.len(),
    ensures
        final(out)@.len() == old(out)@.len(),
        record(final(out)@, sz as int, dst as int) == record(v@, sz as int, src as int),
        forall|b: int|
            0 <= b < old(out)@.len() && !((dst as int) * (sz as int) <= b < (dst as int + 1) * (
            sz as int)) ==> final(out)@[b] == old(out)@[b],
{
    let vlen = v.len();
    let olen = out.len();
    proof {
        assert((src as int + 1) * (sz as int) == src as int * sz as int + sz as int)
            by (nonlinear_arith);
        assert((dst as int + 1) * (sz as int) == dst as int * sz as int + sz as int)
            by (nonlinear_arith);
        assert(src as int * sz as int + sz as int <= vlen);
        assert(dst as int * sz as int + sz as int <= olen);
    }
    let sbase = src * sz;
    let dbase = dst * sz;
    let mut t: usize = 0;
    while t < sz
        invariant
            t <= sz,
            sbase == src as int * sz as int,
            dbase == dst as int * sz as int,
            sbase + sz <= vlen,
            dbase + sz <= olen,
            vlen == v@.len(),
            olen == out@.len(),
            out@.len() == old(out)@.len(),
            forall|b: int|
                0 <= b < out@.len() && !(dbase <= b < dbase + t) ==> out@[b] == old(out)@[b],
            forall|u: int| 0 <= u < t ==> #[trigger] out@[dbase + u] == v@[sbase + u],
        decreases sz - t,
    {
        out.set(dbase + t, v[sbase + t]);
        t += 1;
    }
    proof {
        assert forall|u: int| 0 <= u < sz implies record(out@, sz as int, dst as int)[u] == record(
            v@,
            sz as int,
            src as int,
        )[u] by {
            assert(out@[dbase + u] == v@[sbase + u]);
        }
        assert(record(out@, sz as int, dst as int) =~= record(v@, sz as int, src as int));
    }
}

/// Applies the table out of place: walking the table front to back, the
/// record of every position `i` with `remap[i] != SENTINEL` is copied into
/// slot `remap[i]` of a fresh zero-initialised buffer of `vc` records.
fn remap_vertex_bytes(v: &Vec<u8>, vc: usize, sz: usize, remap: &Vec<u32>) -> (out: Vec<u8>)
    requires
        sz > 0,
        vc as int * sz as int <= usize::MAX,
        remap@.len() * (sz as int) <= v@.len(),
        targets_below(remap@, vc as int),
    ensures
        out@.len() == vc as int * sz as int,
        forall|s: int|
            0 <= s < vc ==> record(out@, sz as int, s) == slot_bytes(
                v@,
                sz as int,
                remap@,
                s,
                remap@.len() as int,
            ),
{
    let total = vc * sz;
    let mut out = zero_filled(total);
    proof {
        assert forall|s: int| 0 <= s < vc implies record(out@, sz as int, s) == slot_bytes(
            v@,
            sz as int,
            remap@,
            s,
            0,
        ) by {
            vstd::arithmetic::mul::lemma_mul_inequality(s + 1, vc as int, sz as int);
            assert((s + 1) * (sz as int) == s * sz + sz) by (nonlinear_arith);
            assert(record(out@, sz as int, s) =~= zero_record(sz as int));
        }
    }
    let n = remap.len();
    let mut i: usize = 0;
    while i < n
        invariant
            i <= n == remap@.len(),
            sz > 0,
            vc as int * sz as int <= usize::MAX,
            out@.len() == vc as int * sz as int,
            n * (sz as int) <= v@.len(),
            targets_below(remap@, vc as int),
            forall|s: int|
                0 <= s < vc ==> record(out@, sz as int, s) == slot_bytes(
                    v@,
                    sz as int,
                    remap@,
                    s,
                    i as int,
                ),
        decreases n - i,
    {
        let d = remap[i];
        if d != SENTINEL {
            let dst = d as usize;
            proof {
                vstd::arithmetic::mul::lemma_mul_inequality(i as int + 1, n as int, sz as int);
                vstd::arithmetic::mul::lemma_mul_inequality(dst as int + 1, vc as int, sz as int);
            }
            let ghost prev = out@;
            copy_record(&mut out, v, sz, i, dst);
            proof {
                assert forall|s: int| 0 <= s < vc implies record(out@, sz as int, s) == slot_bytes(
                    v@,
                    sz as int,
                    remap@,
                    s,
                    i as int + 1,
                ) by {
                    if s == dst as int {
                        assert(slot_bytes(v@, sz as int, remap@, s, i as int + 1) == record(
                            v@,
                            sz as int,
                            i as int,
                        ));
                    } else {
                        assert(slot_bytes(v@, sz as int, remap@, s, i as int + 1) == slot_bytes(
                            v@,
                            sz as int,
                            remap@,
                            s,
                            i as int,
                        ));
                        assert((s + 1) * (sz as int) == s * sz + sz) by (nonlinear_arith);
                        assert((dst as int + 1) * (sz as int) == dst as int * sz + sz)
                            by (nonlinear_arith);
                        vstd::arithmetic::mul::lemma_mul_inequality(s + 1, vc as int, sz as int);
                        if s < dst as int {
                            vstd::arithmetic::mul::lemma_mul_inequality(
                                s + 1,
                                dst as int,
                                sz as int,
                            );
                        } else {
                            vstd::arithmetic::mul::lemma_mul_inequality(
                                dst as int + 1,
                                s,
                                sz as int,
                            );
                        }
                        assert forall|u: int| 0 <= u < sz implies record(out@, sz as int, s)[u]
                            == record(prev, sz as int, s)[u] by {
                            assert(out@[s * sz + u] == prev[s * sz + u]);
                        }
                        assert(record(out@, sz as int, s) =~= record(prev, sz as int, s));
                    }
                }
            }
        } else {
            proof {
                assert forall|s: int| 0 <= s < vc implies record(out@, sz as int, s) == slot_bytes(
                    v@,
                    sz as int,
                    remap@,
                    s,
                    i as int + 1,
                ) by {
                    assert(slot_bytes(v@, sz as int, remap@, s, i as int + 1) == slot_bytes(
                        v@,
                        sz as int,
                        remap@,
                        s,
                        i as int,
                    ));
                }
            }
        }
        i += 1;
    }
    out
}

/// Compacts a vertex buffer of `vertex_size`-byte records: the record of
/// every position `i` with `remap[i] != SENTINEL` lands in slot `remap[i]` of
/// a fresh zero-initialised buffer of `vertex_count` records, a later
/// position overwriting an earlier one mapped to the same slot. Sentinel
/// positions are dropped; a slot nothing maps to stays zeroed.
///
/// Rejects a zero `vertex_size`, a vertex buffer shorter than the table
/// declares, and a table entry at or past `vertex_count`.
pub fn remap_vertex_buffer(
    vertices: &Vec<u8>,
    vertex_count: usize,
    vertex_size: usize,
    remap: &Vec<u32>,
) -> (r: Result<Vec<u8>, RemapError>)
    requires
        vertex_count as int * vertex_size as int <= usize::MAX,
    ensures
        r == Err::<Vec<u8>, RemapError>(RemapError::InvalidSize) <==> vertex_size == 0,
        r == Err::<Vec<u8>, RemapError>(RemapError::LengthMismatch) <==> vertex_size > 0
            && remap@.len() * (vertex_size as int) > vertices@.len(),
        r == Err::<Vec<u8>, RemapError>(RemapError::OutOfRangeIndex) <==> vertex_size > 0
            && remap@.len() * (vertex_size as int) <= vertices@.len() && !targets_below(
            remap@,
            vertex_count as int,
        ),
        r is Ok <==> vertex_size > 0 && remap@.len() * (vertex_size as int) <= vertices@.len()
            && targets_below(remap@, vertex_count as int),
        r matches Ok(out) ==> out@.len() == vertex_count as int * vertex_size as int && forall|
            s: int,
        |
            0 <= s < vertex_count ==> record(out@, vertex_size as int, s) == slot_bytes(
                vertices@,
                vertex_size as int,
                remap@,
                s,
                remap@.len() as int,
            ),
{
    if vertex_size == 0 {
        return Err(RemapError::InvalidSize);
    }
    let vlen = vertices.len();
    match remap.len().checked_mul(vertex_size) {
        None => {
            return Err(RemapError::LengthMismatch);
        },
        Some(bytes) => {
            if bytes > vlen {
                return Err(RemapError::LengthMismatch);
            }
        },
    }
    if !targets_in_bounds(remap, vertex_count) {
        return Err(RemapError::OutOfRangeIndex);
    }
    Ok(remap_vertex_bytes(vertices, vertex_count, vertex_size, remap))
}

/// [`remap_vertex_buffer`] through the buffer's own storage. An arbitrary
/// table can move a record forward as well as backward, so the compaction
/// goes through an internal scratch buffer; the first `vertex_count` records
/// are then replaced and the bytes beyond them kept. On rejection the buffer
/// is unchanged.
pub fn remap_vertex_buffer_in_place(
    vertices: &mut Vec<u8>,
    vertex_count: usize,
    vertex_size: usize,
    remap: &Vec<u32>,
) -> (r: Result<(), RemapError>)
    ensures
        r == Err::<(), RemapError>(RemapError::InvalidSize) <==> vertex_size == 0,
        r == Err::<(), RemapError>(RemapError::LengthMismatch) <==> vertex_size > 0 && (remap@.len()
            * (vertex_size as int) > old(vertices)@.len() || vertex_count as int * (
        vertex_size as int) > old(vertices)@.len()),
        r == Err::<(), RemapError>(RemapError::OutOfRangeIndex) <==> vertex_size > 0 && remap@.len()
            * (vertex_size as int) <= old(vertices)@.len() && vertex_count as int * (
        vertex_size as int) <= old(vertices)@.len() && !targets_below(remap@, vertex_count as int),
        r is Ok <==> vertex_size > 0 && remap@.len() * (vertex_size as int) <= old(
            vertices,
        )@.len() && vertex_count as int * (vertex_size as int) <= old(vertices)@.len()
            && targets_below(remap@, vertex_count as int),
        r is Err ==> final(vertices)@ == old(vertices)@,
        r is Ok ==> final(vertices)@.len() == old(vertices)@.len() && (forall|s: int|
            0 <= s < vertex_count ==> record(final(vertices)@, vertex_size as int, s) == slot_bytes(
                old(vertices)@,
                vertex_size as int,
                remap@,
                s,
                remap@.len() as int,
            )) && (forall|b: int|
            vertex_count as int * (vertex_size as int) <= b < old(vertices)@.len()
                ==> final(vertices)@[b] == old(vertices)@[b]),
{
    if vertex_size == 0 {
        return Err(RemapError::InvalidSize);
    }
    let vlen = vertices.len();
    match remap.len().checked_mul(vertex_size) {
        None => {
            return Err(RemapError::LengthMismatch);
        },
        Some(bytes) => {
            if bytes > vlen {
                return Err(RemapError::LengthMismatch);
            }
        },
    }
    let total = match vertex_count.checked_mul(vertex_size) {
        None => {
            return Err(RemapError::LengthMismatch);
        },
        Some(total) => {
            if total > vlen {
                return Err(RemapError::LengthMismatch);
            }
            total
        },
    };
    if !targets_in_bounds(remap, vertex_count) {
        return Err(RemapError::OutOfRangeIndex);
    }
    let scratch = remap_vertex_bytes(vertices, vertex_count, vertex_size, remap);
    let mut b: usize = 0;
    while b < total
        invariant
            b <= total,
            total == vertex_count as int * vertex_size as int,
            total <= vlen,
            vlen == vertices@.len() == old(vertices)@.len(),
            scratch@.len() == total,
            forall|u: int| 0 <= u < b ==> vertices@[u] == scratch@[u],
            forall|u: int| b <= u < vlen ==> vertices@[u] == old(vertices)@[u],
        decreases total - b,
    {
        vertices.set(b, scratch[b]);
        b += 1;
    }
    proof {
        assert forall|s: int| 0 <= s < vertex_count implies record(
            vertices@,
            vertex_size as int,
            s,
        ) == slot_bytes(old(vertices)@, vertex_size as int, remap@, s, remap@.len() as int) by {
            vstd::arithmetic::mul::lemma_mul_inequality(
                s + 1,
                vertex_count as int,
                vertex_size as int,
            );
            assert((s + 1) * (vertex_size as int) == s * vertex_size + vertex_size)
                by (nonlinear_arith);
            assert forall|u: int| 0 <= u < vertex_size implies record(
                vertices@,
                vertex_size as int,
                s,
            )[u] == record(scratch@, vertex_size as int, s)[u] by {
                assert(vertices@[s * vertex_size + u] == scratch@[s * vertex_size + u]);
            }
            assert(record(vertices@, vertex_size as int, s) =~= record(
                scratch@,
                vertex_size as int,
                s,
            ));
        }
    }
    Ok(())
}

/// [`remap_vertex_buffer`] for a buffer declared in elements: the vertex size
/// must additionally be a positive multiple of the element size.
pub fn remap_vertex_buffer_sized(
    vertices: &Vec<u8>,
    vertex_count: usize,
    element_size: usize,
    vertex_size: usize,
    remap: &Vec<u32>,
) -> (r: Result<Vec<u8>, RemapError>)
    requires
        vertex_count as int * vertex_size as int <= usize::MAX,
    ensures
        r == Err::<Vec<u8>, RemapError>(RemapError::InvalidSize) <==> element_size == 0
            || vertex_size == 0 || vertex_size % element_size != 0,
        r == Err::<Vec<u8>, RemapError>(RemapError::LengthMismatch) <==> element_size > 0
            && vertex_size > 0 && vertex_size % element_size == 0 && remap@.len() * (
        vertex_size as int) > vertices@.len(),
        r is Ok <==> element_size > 0 && vertex_size > 0 && vertex_size % element_size == 0
            && remap@.len() * (vertex_size as int) <= vertices@.len() && targets_below(
            remap@,
            vertex_count as int,
        ),
        r is Err ==> r == Err::<Vec<u8>, RemapError>(RemapError::InvalidSize) || r == Err::<
            Vec<u8>,
            RemapError,
        >(RemapError::LengthMismatch) || r == Err::<Vec<u8>, RemapError>(
            RemapError::OutOfRangeIndex,
        ),
        r matches Ok(out) ==> out@.len() == vertex_count as int * vertex_size as int && forall|
            s: int,
        |
            0 <= s < vertex_count ==> record(out@, vertex_size as int, s) == slot_bytes(
                vertices@,
                vertex_size as int,
                remap@,
                s,
                remap@.len() as int,
            ),
{
    if element_size == 0 || vertex_size == 0 || vertex_size % element_size != 0 {
        return Err(RemapError::InvalidSize);
    }
    remap_vertex_buffer(vertices, vertex_count, vertex_size, remap)
}

/// [`remap_vertex_buffer_in_place`] for a buffer declared in elements: the
/// vertex size must additionally be a positive multiple of the element size.
pub fn remap_vertex_buffer_sized_in_place(
    vertices: &mut Vec<u8>,
    vertex_count: usize,
    element_size: usize,
    vertex_size: usize,
    remap: &Vec<u32>,
) -> (r: Result<(), RemapError>)
    ensures
        r == Err::<(), RemapError>(RemapError::InvalidSize) <==> element_size == 0 || vertex_size
            == 0 || vertex_size % element_size != 0,
        r is Ok <==> element_size > 0 && vertex_size > 0 && vertex_size % element_size == 0
            && remap@.len() * (vertex_size as int) <= old(vertices)@.len() && vertex_count as int
            * (vertex_size as int) <= old(vertices)@.len() && targets_below(
            remap@,
            vertex_count as int,
        ),
        r is Err ==> r == Err::<(), RemapError>(RemapError::InvalidSize) || r == Err::<
            (),
            RemapError,
        >(RemapError::LengthMismatch) || r == Err::<(), RemapError>(RemapError::OutOfRangeIndex),
        r is Err ==> final(vertices)@ == old(vertices)@,
        r is Ok ==> final(vertices)@.len() == old(vertices)@.len() && (forall|s: int|
            0 <= s < vertex_count ==> record(final(vertices)@, vertex_size as int, s) == slot_bytes(
                old(vertices)@,
                vertex_size as int,
                remap@,
                s,
                remap@.len() as int,
            )) && (forall|b: int|
            vertex_count as int * (vertex_size as int) <= b < old(vertices)@.len()
                ==> final(vertices)@[b] == old(vertices)@[b]),
{
    if element_size == 0 || vertex_size == 0 || vertex_size % element_size != 0 {
        return Err(RemapError::InvalidSize);
    }
    remap_vertex_buffer_in_place(vertices, vertex_count, vertex_size, remap)
}

} // verus!
