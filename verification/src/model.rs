//! The mathematical model of meshes and remap tables.
//!
//! A vertex buffer is a byte sequence holding fixed-size records; an index
//! buffer is a sequence of `u32` positions ("references"). A generated remap
//! table is characterised by [`valid_remap`] over the *equivalence keys* of
//! the positions: for a single-stream mesh the key of position `p` is its
//! record, for a multi-stream mesh it is the concatenation of the bytes the
//! position holds in every stream, in stream order.

use crate::types::SENTINEL;
use crate::types::VertexStream;
use vstd::prelude::*;

verus! {

/// The byte record of position `p` in a buffer of `sz`-byte records.
pub open spec fn record(v: Seq<u8>, sz: int, p: int) -> Seq<u8> {
    v.subrange(p * sz, p * sz + sz)
}

/// A record of `sz` zero bytes: what an output slot holds when nothing was
/// copied into it.
pub open spec fn zero_record(sz: int) -> Seq<u8> {
    Seq::new(sz as nat, |t: int| 0u8)
}

/// The equivalence keys of a single-stream vertex buffer: one record per
/// position, trailing bytes that do not fill a whole record ignored.
pub open spec fn single_keys(v: Seq<u8>, sz: int) -> Seq<Seq<u8>> {
    Seq::new((v.len() as int / sz) as nat, |p: int| record(v, sz, p))
}

/// The bytes position `p` contributes from one stream.
pub open spec fn stream_record(s: VertexStream, p: int) -> Seq<u8> {
    s.data@.subrange(p * s.stride as int, p * s.stride as int + s.size as int)
}

/// The composite key of position `p`: the per-stream records, concatenated in
/// stream order. Two positions are equivalent iff these keys are equal.
pub open spec fn multi_record(streams: Seq<VertexStream>, p: int) -> Seq<u8>
    decreases streams.len(),
{
    if streams.len() == 0 {
        Seq::empty()
    } else {
        multi_record(streams.drop_last(), p) + stream_record(streams.last(), p)
    }
}

/// The equivalence keys of a multi-stream mesh of `vc` positions.
pub open spec fn multi_keys(streams: Seq<VertexStream>, vc: int) -> Seq<Seq<u8>> {
    Seq::new(vc as nat, |p: int| multi_record(streams, p))
}

/// A stream set is usable when it is non-empty and every stream's element
/// size is positive and at most its stride.
pub open spec fn streams_well_sized(streams: Seq<VertexStream>) -> bool {
    streams.len() > 0 && forall|s: int|
        0 <= s < streams.len() ==> 0 < (#[trigger] streams[s]).size <= streams[s].stride
}

/// The stream's data holds all of positions `0 .. vc`.
pub open spec fn stream_covers(s: VertexStream, vc: int) -> bool {
    vc == 0 || (vc - 1) * (s.stride as int) + s.size as int <= s.data@.len()
}

/// Every stream's data holds all of positions `0 .. vc`.
pub open spec fn streams_cover(streams: Seq<VertexStream>, vc: int) -> bool {
    forall|s: int| 0 <= s < streams.len() ==> stream_covers(#[trigger] streams[s], vc)
}

/// The keys held by a vector of key buffers.
pub open spec fn keys_view(ks: Seq<Vec<u8>>) -> Seq<Seq<u8>> {
    Seq::new(ks.len(), |p: int| ks[p]@)
}

/// The reference order of an unindexed mesh: every position once, in buffer
/// order.
pub open spec fn identity_refs(n: int) -> Seq<u32> {
    Seq::new(n as nat, |m: int| m as u32)
}

/// Position `i` occurs among the first `k` references.
pub open spec fn referenced_upto(refs: Seq<u32>, i: int, k: int) -> bool {
    exists|m: int| 0 <= m < k && (#[trigger] refs[m]) as int == i
}

/// Position `i` is referenced.
pub open spec fn referenced(refs: Seq<u32>, i: int) -> bool {
    referenced_upto(refs, i, refs.len() as int)
}

/// The scan step at which the key `pat` first appears while walking the
/// referenced positions front to back. Meaningful only when some referenced
/// position has key `pat`; see [`lemma_pat_first_found`].
pub open spec fn pat_first(keys: Seq<Seq<u8>>, refs: Seq<u32>, pat: Seq<u8>) -> int
    decreases refs.len(),
{
    if refs.len() == 0 {
        0
    } else if keys[refs[0] as int] == pat {
        0
    } else {
        1 + pat_first(keys, refs.drop_first(), pat)
    }
}

/// The scan step at which position `i` is first referenced. Meaningful only
/// when `i` is referenced; see [`lemma_first_ref_found`].
pub open spec fn first_ref(refs: Seq<u32>, i: int) -> int
    decreases refs.len(),
{
    if refs.len() == 0 {
        0
    } else if refs[0] as int == i {
        0
    } else {
        1 + first_ref(refs.drop_first(), i)
    }
}

/// Some position maps to canonical index `c`.
pub open spec fn attained(remap: Seq<u32>, c: int) -> bool {
    exists|i: int| 0 <= i < remap.len() && (#[trigger] remap[i]) as int == c
}

/// What a generated remap table promises, over the equivalence keys of the
/// positions and the reference order `refs`:
/// - one table entry per position, and `unique` at most the position count;
/// - a position holds [`SENTINEL`] exactly when it is never referenced;
/// - every other entry is a canonical index below `unique`, every canonical
///   index below `unique` is attained (density), and two referenced positions
///   share a canonical index exactly when their keys are equal (equivalence);
/// - canonical indices order the classes by the scan step of their first
///   appearance (first-appearance ordering).
pub open spec fn valid_remap(keys: Seq<Seq<u8>>, refs: Seq<u32>, remap: Seq<u32>, unique: int) -> bool {
    &&& keys.len() <= 0xFFFF_FFFF
    &&& remap.len() == keys.len()
    &&& 0 <= unique <= keys.len()
    &&& forall|m: int| 0 <= m < refs.len() ==> ((#[trigger] refs[m]) as int) < keys.len()
    &&& forall|i: int| 0 <= i < keys.len() ==> ((#[trigger] remap[i]) != SENTINEL <==> referenced(refs, i))
    &&& forall|i: int| 0 <= i < keys.len() && (#[trigger] remap[i]) != SENTINEL ==> (remap[i] as int) < unique
    &&& forall|c: int| 0 <= c < unique ==> #[trigger] attained(remap, c)
    &&& forall|i: int, j: int|
        #![trigger remap[i], remap[j]]
        0 <= i < keys.len() && 0 <= j < keys.len() && referenced(refs, i) && referenced(refs, j)
            ==> (remap[i] == remap[j] <==> keys[i] == keys[j])
    &&& forall|i: int, j: int|
        #![trigger remap[i], remap[j]]
        0 <= i < keys.len() && 0 <= j < keys.len() && referenced(refs, i) && referenced(refs, j)
            && keys[i] != keys[j]
            ==> (remap[i] < remap[j] <==> pat_first(keys, refs, keys[i]) < pat_first(keys, refs, keys[j]))
}

/// Every non-sentinel table entry points below `vc`.
pub open spec fn targets_below(remap: Seq<u32>, vc: int) -> bool {
    forall|i: int|
        0 <= i < remap.len() ==> ((#[trigger] remap[i]) == SENTINEL || (remap[i] as int) < vc)
}

/// Every entry of a remapped index buffer is the table's entry for the old
/// index at the same place.
pub open spec fn remapped_indices(ix: Seq<u32>, remap: Seq<u32>) -> Seq<u32> {
    Seq::new(ix.len(), |m: int| remap[ix[m] as int])
}

/// What output slot `s` of a remapped vertex buffer holds after the first `n`
/// table entries were applied: the record of the last position below `n`
/// mapped to `s`, or zeroes when no position is.
pub open spec fn slot_bytes(v: Seq<u8>, sz: int, remap: Seq<u32>, s: int, n: int) -> Seq<u8>
    decreases n,
{
    if n <= 0 {
        zero_record(sz)
    } else if remap[n - 1] != SENTINEL && remap[n - 1] as int == s {
        record(v, sz, n - 1)
    } else {
        slot_bytes(v, sz, remap, s, n - 1)
    }
}

/// When some referenced position has key `pat`, `pat_first` names the first
/// scan step at which `pat` appears.
pub proof fn lemma_pat_first_found(keys: Seq<Seq<u8>>, refs: Seq<u32>, pat: Seq<u8>)
    requires
        exists|m: int| 0 <= m < refs.len() && keys[(#[trigger] refs[m]) as int] == pat,
    ensures
        0 <= pat_first(keys, refs, pat) < refs.len(),
        keys[refs[pat_first(keys, refs, pat)] as int] == pat,
        forall|m: int| 0 <= m < pat_first(keys, refs, pat) ==> keys[(#[trigger] refs[m]) as int] != pat,
    decreases refs.len(),
{
    if keys[refs[0] as int] == pat {
    } else {
        let sub = refs.drop_first();
        let m0 = choose|m: int| 0 <= m < refs.len() && keys[(#[trigger] refs[m]) as int] == pat;
        assert(sub[m0 - 1] == refs[m0]);
        lemma_pat_first_found(keys, sub, pat);
        let f = pat_first(keys, sub, pat);
        assert(refs[1 + f] == sub[f]);
        assert forall|m: int| 0 <= m < 1 + f implies keys[(#[trigger] refs[m]) as int] != pat by {
            if m > 0 {
                assert(sub[m - 1] == refs[m]);
            }
        }
    }
}

/// `pat_first` is the unique scan step that sees `pat` with no earlier sight.
pub proof fn lemma_pat_first_is(keys: Seq<Seq<u8>>, refs: Seq<u32>, pat: Seq<u8>, m0: int)
    requires
        0 <= m0 < refs.len(),
        keys[refs[m0] as int] == pat,
        forall|m: int| 0 <= m < m0 ==> keys[(#[trigger] refs[m]) as int] != pat,
    ensures
        pat_first(keys, refs, pat) == m0,
{
    lemma_pat_first_found(keys, refs, pat);
}

/// When position `i` is referenced, `first_ref` names its first reference.
pub proof fn lemma_first_ref_found(refs: Seq<u32>, i: int)
    requires
        referenced(refs, i),
    ensures
        0 <= first_ref(refs, i) < refs.len(),
        refs[first_ref(refs, i)] as int == i,
        forall|m: int| 0 <= m < first_ref(refs, i) ==> (#[trigger] refs[m]) as int != i,
    decreases refs.len(),
{
    if refs[0] as int == i {
    } else {
        let sub = refs.drop_first();
        let m0 = choose|m: int| 0 <= m < refs.len() && (#[trigger] refs[m]) as int == i;
        assert(sub[m0 - 1] == refs[m0]);
        assert(referenced(sub, i));
        lemma_first_ref_found(sub, i);
        let f = first_ref(sub, i);
        assert(refs[1 + f] == sub[f]);
        assert forall|m: int| 0 <= m < 1 + f implies (#[trigger] refs[m]) as int != i by {
            if m > 0 {
                assert(sub[m - 1] == refs[m]);
            }
        }
    }
}

/// `first_ref` is the unique scan step that references `i` with no earlier
/// reference.
pub proof fn lemma_first_ref_is(refs: Seq<u32>, i: int, m0: int)
    requires
        0 <= m0 < refs.len(),
        refs[m0] as int == i,
        forall|m: int| 0 <= m < m0 ==> (#[trigger] refs[m]) as int != i,
    ensures
        first_ref(refs, i) == m0,
{
    assert(referenced(refs, i));
    lemma_first_ref_found(refs, i);
}

/// In buffer order, position `i` is first referenced at step `i`.
pub proof fn lemma_identity_first_ref(n: int, i: int)
    requires
        0 <= i < n <= 0xFFFF_FFFF,
    ensures
        first_ref(identity_refs(n), i) == i,
{
    assert(identity_refs(n)[i] as int == i);
    assert forall|m: int| 0 <= m < i implies ((#[trigger] identity_refs(n)[m]) as int) != i by {
        assert(identity_refs(n)[m] as int == m);
    }
    lemma_first_ref_is(identity_refs(n), i, i);
}

/// Pigeonhole: pairwise-distinct values drawn from `[0, bound)` number at
/// most `bound`.
pub proof fn lemma_distinct_in_range(s: Seq<int>, bound: int)
    requires
        bound >= 0,
        forall|a: int| 0 <= a < s.len() ==> 0 <= #[trigger] s[a] < bound,
        forall|a: int, b: int| 0 <= a < b < s.len() ==> s[a] != s[b],
    ensures
        s.len() <= bound,
{
    assert(s.no_duplicates());
    s.unique_seq_to_set();
    vstd::set_lib::lemma_int_range(0, bound);
    assert(s.to_set().subset_of(vstd::set_lib::set_int_range(0, bound))) by {
        assert forall|x: int| s.to_set().contains(x) implies vstd::set_lib::set_int_range(
            0,
            bound,
        ).contains(x) by {
            let a = choose|a: int| 0 <= a < s.len() && s[a] == x;
            assert(0 <= s[a] < bound);
        }
    }
    vstd::set_lib::lemma_len_subset(s.to_set(), vstd::set_lib::set_int_range(0, bound));
}

/// When some position below `n` maps to slot `s`, the slot holds the record
/// of one such position.
pub proof fn lemma_slot_bytes_written(v: Seq<u8>, sz: int, remap: Seq<u32>, s: int, n: int)
    requires
        0 <= n <= remap.len(),
        exists|i: int| 0 <= i < n && (#[trigger] remap[i]) != SENTINEL && remap[i] as int == s,
    ensures
        exists|j: int|
            0 <= j < n && (#[trigger] remap[j]) != SENTINEL && remap[j] as int == s
                && slot_bytes(v, sz, remap, s, n) == record(v, sz, j),
    decreases n,
{
    if remap[n - 1] != SENTINEL && remap[n - 1] as int == s {
        assert(slot_bytes(v, sz, remap, s, n) == record(v, sz, n - 1));
    } else {
        let i0 = choose|i: int| 0 <= i < n && (#[trigger] remap[i]) != SENTINEL && remap[i] as int == s;
        assert(i0 < n - 1);
        lemma_slot_bytes_written(v, sz, remap, s, n - 1);
    }
}

/// When no position below `n` maps to slot `s`, the slot holds zeroes.
pub proof fn lemma_slot_bytes_unwritten(v: Seq<u8>, sz: int, remap: Seq<u32>, s: int, n: int)
    requires
        0 <= n <= remap.len(),
        forall|i: int| 0 <= i < n ==> !((#[trigger] remap[i]) != SENTINEL && remap[i] as int == s),
    ensures
        slot_bytes(v, sz, remap, s, n) == zero_record(sz),
    decreases n,
{
    if n > 0 {
        lemma_slot_bytes_unwritten(v, sz, remap, s, n - 1);
    }
}

/// Appending one stream to a composite key appends that stream's record.
pub proof fn lemma_multi_record_step(streams: Seq<VertexStream>, s: int, p: int)
    requires
        0 <= s < streams.len(),
    ensures
        multi_record(streams.take(s + 1), p) == multi_record(streams.take(s), p) + stream_record(
            streams[s],
            p,
        ),
{
    assert(streams.take(s + 1).drop_last() =~= streams.take(s));
    assert(streams.take(s + 1).last() == streams[s]);
}

/// The composite key over all streams is the key over the full take.
pub proof fn lemma_multi_record_full(streams: Seq<VertexStream>, p: int)
    ensures
        multi_record(streams.take(streams.len() as int), p) == multi_record(streams, p),
{
    assert(streams.take(streams.len() as int) =~= streams);
}

} // verus!
