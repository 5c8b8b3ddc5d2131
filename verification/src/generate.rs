//! Remap table generation: classify the referenced positions of a mesh by
//! byte equality of their equivalence keys and assign dense canonical indices
//! in first-appearance order.

use crate::model::attained;
use crate::model::identity_refs;
use crate::model::keys_view;
use crate::model::lemma_distinct_in_range;
use crate::model::lemma_multi_record_full;
use crate::model::lemma_multi_record_step;
use crate::model::lemma_pat_first_is;
use crate::model::multi_keys;
use crate::model::multi_record;
use crate::model::pat_first;
use crate::model::record;
use crate::model::referenced;
use crate::model::referenced_upto;
use crate::model::single_keys;
use crate::model::stream_covers;
use crate::model::stream_record;
use crate::model::streams_cover;
use crate::model::streams_well_sized;
use crate::model::valid_remap;
use crate::types::RemapError;
use crate::types::SENTINEL;
use crate::types::VertexStream;
use vstd::prelude::*;

verus! {

/// A vector of `n` copies of `x`.
fn filled(n: usize, x: u32) -> (r: Vec<u32>)
    ensures
        r@ == Seq::new(n as nat, |i: int| x),
{
    let mut r: Vec<u32> = Vec::new();
    let mut i: usize = 0;
    while i < n
        invariant
            i <= n,
            r@ =~= Seq::new(i as nat, |t: int| x),
        decreases n - i,
    {
        r.push(x);
        assert(r@ =~= Seq::new((i + 1) as nat, |t: int| x));
        i += 1;
    }
    assert(r@ =~= Seq::new(n as nat, |t: int| x));
    r
}

/// The reference order of an unindexed mesh of `n` positions.
fn identity_vec(n: usize) -> (r: Vec<u32>)
    requires
        n <= 0xFFFF_FFFF,
    ensures
        r@ == identity_refs(n as int),
{
    let mut r: Vec<u32> = Vec::new();
    let mut i: usize = 0;
    while i < n
        invariant
            i <= n <= 0xFFFF_FFFF,
            r@ =~= identity_refs(n as int).take(i as int),
        decreases n - i,
    {
        r.push(i as u32);
        assert(r@ =~= identity_refs(n as int).take((i + 1) as int));
        i += 1;
    }
    assert(r@ =~= identity_refs(n as int));
    r
}

/// Byte-for-byte equality of two keys.
fn bytes_equal(a: &Vec<u8>, b: &Vec<u8>) -> (r: bool)
    ensures
        r == (a@ == b@),
{
    if a.len() != b.len() {
        return false;
    }
    let mut t: usize = 0;
    while t < a.len()
        invariant
            t <= a.len() == b.len(),
            forall|u: int| 0 <= u < t ==> a@[u] == b@[u],
        decreases a.len() - t,
    {
        if a[t] != b[t] {
            return false;
        }
        t += 1;
    }
    assert(a@ =~= b@);
    true
}

/// The `len` bytes of `v` starting at `start`, as a fresh vector.
fn copy_bytes(v: &Vec<u8>, start: usize, len: usize) -> (r: Vec<u8>)
    requires
        start + len <= v@.len(),
    ensures
        r@ == v@.subrange(start as int, start as int + len as int),
{
    let n = v.len();
    let end = start + len;
    let mut r: Vec<u8> = Vec::new();
    let mut u: usize = start;
    while u < end
        invariant
            start <= u <= end <= n == v@.len(),
            r@ =~= v@.subrange(start as int, u as int),
        decreases end - u,
    {
        r.push(v[u]);
        assert(r@ =~= v@.subrange(start as int, u + 1));
        u += 1;
    }
    r
}

/// The equivalence keys of a single-stream buffer: one `sz`-byte record per
/// position.
fn build_keys_single(v: &Vec<u8>, sz: usize) -> (keys: Vec<Vec<u8>>)
    requires
        sz > 0,
    ensures
        keys_view(keys@) == single_keys(v@, sz as int),
        keys@.len() == v@.len() as int / sz as int,
{
    let n = v.len();
    let vc = n / sz;
    proof {
        vstd::arithmetic::div_mod::lemma_fundamental_div_mod(n as int, sz as int);
        vstd::arithmetic::div_mod::lemma_mod_bound(n as int, sz as int);
        assert(vc * sz <= n);
    }
    let mut keys: Vec<Vec<u8>> = Vec::new();
    let mut p: usize = 0;
    while p < vc
        invariant
            p <= vc,
            sz > 0,
            n == v@.len(),
            vc == n as int / sz as int,
            vc * sz <= n,
            keys@.len() == p,
            forall|q: int| 0 <= q < p ==> (#[trigger] keys@[q])@ == record(v@, sz as int, q),
        decreases vc - p,
    {
        proof {
            vstd::arithmetic::mul::lemma_mul_inequality(p + 1, vc as int, sz as int);
            assert((p as int + 1) * (sz as int) == p as int * sz as int + sz as int) by (nonlinear_arith);
        }
        let base = p * sz;
        let key = copy_bytes(v, base, sz);
        keys.push(key);
        p += 1;
    }
    proof {
        assert(keys_view(keys@) =~= single_keys(v@, sz as int));
    }
    keys
}

/// The class among the representatives `reps` whose key equals that of
/// position `p`, if one exists.
fn find_class(keys: &Vec<Vec<u8>>, reps: &Vec<usize>, p: usize) -> (r: Option<usize>)
    requires
        p < keys@.len(),
        forall|c: int| 0 <= c < reps@.len() ==> (#[trigger] reps@[c]) < keys@.len(),
    ensures
        match r {
            Some(c) => c < reps@.len() && keys@[reps@[c as int] as int]@ == keys@[p as int]@,
            None => forall|c: int|
                0 <= c < reps@.len() ==> keys@[(#[trigger] reps@[c]) as int]@ != keys@[p as int]@,
        },
{
    let mut c: usize = 0;
    while c < reps.len()
        invariant
            c <= reps@.len(),
            p < keys@.len(),
            forall|u: int| 0 <= u < reps@.len() ==> (#[trigger] reps@[u]) < keys@.len(),
            forall|u: int| 0 <= u < c ==> keys@[(#[trigger] reps@[u]) as int]@ != keys@[p as int]@,
        decreases reps@.len() - c,
    {
        if bytes_equal(&keys[reps[c]], &keys[p]) {
            return Some(c);
        }
        c += 1;
    }
    None
}

/// Does every index buffer entry point below `vc`?
pub(crate) fn indices_in_bounds(ix: &Vec<u32>, vc: usize) -> (r: bool)
    ensures
        r == forall|m: int| 0 <= m < ix@.len() ==> ((#[trigger] ix@[m]) as int) < vc,
{
    let mut m: usize = 0;
    while m < ix.len()
        invariant
            m <= ix@.len(),
            forall|u: int| 0 <= u < m ==> ((#[trigger] ix@[u]) as int) < vc,
        decreases ix.len() - m,
    {
        if ix[m] as usize >= vc {
            return false;
        }
        m += 1;
    }
    true
}

/// Is the stream set non-empty, with every element size positive and at most
/// its stride?
fn check_streams_sized(streams: &Vec<VertexStream>) -> (r: bool)
    ensures
        r == streams_well_sized(streams@),
{
    if streams.len() == 0 {
        return false;
    }
    let mut s: usize = 0;
    while s < streams.len()
        invariant
            s <= streams@.len(),
            forall|u: int| 0 <= u < s ==> 0 < (#[trigger] streams@[u]).size <= streams@[u].stride,
        decreases streams@.len() - s,
    {
        let st = &streams[s];
        if st.size == 0 || st.size > st.stride {
            return false;
        }
        s += 1;
    }
    true
}

/// Does each stream's data hold all of positions `0 .. vc`?
fn check_streams_cover(streams: &Vec<VertexStream>, vc: usize) -> (r: bool)
    ensures
        r == streams_cover(streams@, vc as int),
{
    let mut s: usize = 0;
    while s < streams.len()
        invariant
            s <= streams@.len(),
            forall|u: int| 0 <= u < s ==> stream_covers(#[trigger] streams@[u], vc as int),
        decreases streams@.len() - s,
    {
        let st = &streams[s];
        let dlen = st.data.len();
        if vc > 0 {
            match (vc - 1).checked_mul(st.stride) {
                Some(x) => match x.checked_add(st.size) {
                    Some(need) => {
                        if need > dlen {
                            return false;
                        }
                    },
                    None => {
                        return false;
                    },
                },
                None => {
                    return false;
                },
            }
        }
        s += 1;
    }
    true
}

/// The composite key of position `p`: each stream's record, concatenated in
/// stream order.
fn build_key_multi(streams: &Vec<VertexStream>, p: usize) -> (key: Vec<u8>)
    requires
        forall|s: int|
            0 <= s < streams@.len() ==> (p as int) * (((#[trigger] streams@[s]).stride) as int)
                + streams@[s].size as int <= streams@[s].data@.len(),
    ensures
        key@ == multi_record(streams@, p as int),
{
    let mut key: Vec<u8> = Vec::new();
    let ns = streams.len();
    let mut s: usize = 0;
    while s < ns
        invariant
            s <= ns == streams@.len(),
            forall|u: int|
                0 <= u < streams@.len() ==> (p as int) * (((#[trigger] streams@[u]).stride) as int)
                    + streams@[u].size as int <= streams@[u].data@.len(),
            key@ =~= multi_record(streams@.take(s as int), p as int),
        decreases ns - s,
    {
        let st = &streams[s];
        let dlen = st.data.len();
        assert(p as int * (streams@[s as int].stride as int) + streams@[s as int].size as int
            <= dlen);
        let base = p * st.stride;
        let end = base + st.size;
        let ghost pre = key@;
        let mut t: usize = base;
        while t < end
            invariant
                base <= t <= end,
                s < streams@.len(),
                base == p as int * (streams@[s as int].stride as int),
                end == base + streams@[s as int].size,
                end <= dlen,
                dlen == streams@[s as int].data@.len(),
                key@ =~= pre + streams@[s as int].data@.subrange(base as int, t as int),
            decreases end - t,
        {
            key.push(streams[s].data[t]);
            assert(key@ =~= pre + streams@[s as int].data@.subrange(base as int, t + 1));
            t += 1;
        }
        proof {
            assert(streams@[s as int].data@.subrange(base as int, end as int) == stream_record(
                streams@[s as int],
                p as int,
            ));
            lemma_multi_record_step(streams@, s as int, p as int);
            assert(key@ =~= multi_record(streams@.take(s as int + 1), p as int));
        }
        s += 1;
    }
    proof {
        lemma_multi_record_full(streams@, p as int);
    }
    key
}

/// The composite keys of all `vc` positions of a stream set.
fn build_keys_multi(streams: &Vec<VertexStream>, vc: usize) -> (keys: Vec<Vec<u8>>)
    requires
        forall|s: int|
            0 <= s < streams@.len() ==> 0 < (#[trigger] streams@[s]).size <= streams@[s].stride,
        streams_cover(streams@, vc as int),
    ensures
        keys_view(keys@) == multi_keys(streams@, vc as int),
        keys@.len() == vc,
{
    let mut keys: Vec<Vec<u8>> = Vec::new();
    let mut p: usize = 0;
    while p < vc
        invariant
            p <= vc,
            forall|s: int|
                0 <= s < streams@.len() ==> 0 < (#[trigger] streams@[s]).size <= streams@[s].stride,
            streams_cover(streams@, vc as int),
            keys@.len() == p,
            forall|q: int| 0 <= q < p ==> (#[trigger] keys@[q])@ == multi_record(streams@, q),
        decreases vc - p,
    {
        proof {
            assert forall|s: int|
                0 <= s < streams@.len() implies (p as int) * (((#[trigger] streams@[s]).stride) as int)
                + streams@[s].size as int <= streams@[s].data@.len() by {
                assert(stream_covers(streams@[s], vc as int));
                vstd::arithmetic::mul::lemma_mul_inequality(
                    p as int,
                    vc as int - 1,
                    streams@[s].stride as int,
                );
            }
        }
        let key = build_key_multi(streams, p);
        keys.push(key);
        p += 1;
    }
    proof {
        assert(keys_view(keys@) =~= multi_keys(streams@, vc as int));
    }
    keys
}

/// The scan itself: walk the references front to back, give the first
/// appearance of each key the next canonical index, reuse that index on every
/// repeat, and leave unreferenced positions at [`SENTINEL`]. Returns the
/// number of classes and the remap table.
fn generate_remap_core(keys: &Vec<Vec<u8>>, refs: &Vec<u32>) -> (r: (usize, Vec<u32>))
    requires
        keys@.len() <= 0xFFFF_FFFF,
        forall|m: int| 0 <= m < refs@.len() ==> ((#[trigger] refs@[m]) as int) < keys@.len(),
    ensures
        valid_remap(keys_view(keys@), refs@, r.1@, r.0 as int),
{
    let vc = keys.len();
    let n = refs.len();
    let mut remap: Vec<u32> = filled(vc, SENTINEL);
    let mut reps: Vec<usize> = Vec::new();
    let ghost mut birth: Seq<int> = Seq::empty();
    let mut k: usize = 0;
    while k < n
        invariant
            k <= n == refs@.len(),
            vc == keys@.len() <= 0xFFFF_FFFF,
            forall|m: int| 0 <= m < n ==> ((#[trigger] refs@[m]) as int) < vc,
            remap@.len() == vc,
            birth.len() == reps@.len() <= vc,
            forall|c: int| 0 <= c < reps@.len() ==> (#[trigger] reps@[c]) < vc,
            forall|c: int| 0 <= c < reps@.len() ==> remap@[(#[trigger] reps@[c]) as int] as int == c,
            forall|i: int|
                0 <= i < vc ==> ((#[trigger] remap@[i]) != SENTINEL <==> referenced_upto(
                    refs@,
                    i,
                    k as int,
                )),
            forall|i: int|
                0 <= i < vc && (#[trigger] remap@[i]) != SENTINEL ==> (remap@[i] as int)
                    < reps@.len() && keys@[i]@ == keys@[reps@[remap@[i] as int] as int]@,
            forall|c1: int, c2: int|
                #![trigger reps@[c1], reps@[c2]]
                0 <= c1 < c2 < reps@.len() ==> keys@[reps@[c1] as int]@ != keys@[reps@[c2] as int]@,
            forall|c: int| 0 <= c < reps@.len() ==> 0 <= #[trigger] birth[c] < k,
            forall|c: int|
                0 <= c < reps@.len() ==> (refs@[#[trigger] birth[c]] as int) == reps@[c] as int,
            forall|c: int, m: int|
                #![trigger reps@[c], refs@[m]]
                0 <= c < reps@.len() && 0 <= m < birth[c] ==> keys@[refs@[m] as int]@
                    != keys@[reps@[c] as int]@,
            forall|c1: int, c2: int|
                #![trigger birth[c1], birth[c2]]
                0 <= c1 < c2 < birth.len() ==> birth[c1] < birth[c2],
        decreases n - k,
    {
        let p = refs[k] as usize;
        let ghost prev_remap = remap@;
        if remap[p] == SENTINEL {
            match find_class(keys, &reps, p) {
                Some(c) => {
                    remap.set(p, c as u32);
                    proof {
                        assert forall|i: int|
                            0 <= i < vc implies ((#[trigger] remap@[i]) != SENTINEL
                            <==> referenced_upto(refs@, i, k as int + 1)) by {
                            if i == p as int {
                                assert(refs@[k as int] as int == i);
                            } else {
                                assert(remap@[i] == prev_remap[i]);
                                if referenced_upto(refs@, i, k as int + 1) {
                                    let m = choose|m: int|
                                        0 <= m < k as int + 1 && (#[trigger] refs@[m]) as int == i;
                                    assert(m < k as int);
                                    assert(referenced_upto(refs@, i, k as int));
                                }
                            }
                        }
                        assert forall|c2: int| 0 <= c2 < reps@.len() implies remap@[(
                        #[trigger] reps@[c2]) as int] as int == c2 by {
                            assert(prev_remap[reps@[c2] as int] as int == c2);
                            assert(reps@[c2] as int != p as int);
                        }
                    }
                },
                None => {
                    let c_new = reps.len();
                    proof {
                        let s = reps@.push(p as usize).map_values(|x: usize| x as int);
                        assert forall|a: int, b: int| 0 <= a < b < s.len() implies s[a] != s[b] by {
                            if b < reps@.len() {
                                assert(prev_remap[reps@[a] as int] as int == a);
                                assert(prev_remap[reps@[b] as int] as int == b);
                            } else {
                                assert(s[b] == p as int);
                                assert(prev_remap[reps@[a] as int] as int == a);
                                assert(a < reps@.len() <= vc <= 0xFFFF_FFFF);
                                assert(prev_remap[reps@[a] as int] != SENTINEL);
                            }
                        }
                        lemma_distinct_in_range(s, vc as int);
                        assert(reps@.len() + 1 <= vc);
                    }
                    remap.set(p, c_new as u32);
                    reps.push(p);
                    proof {
                        birth = birth.push(k as int);
                        assert forall|i: int|
                            0 <= i < vc implies ((#[trigger] remap@[i]) != SENTINEL
                            <==> referenced_upto(refs@, i, k as int + 1)) by {
                            if i == p as int {
                                assert(refs@[k as int] as int == i);
                                assert(remap@[i] as int == c_new < 0xFFFF_FFFF);
                            } else {
                                assert(remap@[i] == prev_remap[i]);
                                if referenced_upto(refs@, i, k as int + 1) {
                                    let m = choose|m: int|
                                        0 <= m < k as int + 1 && (#[trigger] refs@[m]) as int == i;
                                    assert(m < k as int);
                                    assert(referenced_upto(refs@, i, k as int));
                                }
                            }
                        }
                        // the new class's key was never seen among the first k references
                        assert forall|c: int, m: int|
                            #![trigger reps@[c], refs@[m]]
                            0 <= c < reps@.len() && 0 <= m < birth[c] implies keys@[refs@[m] as int]@
                            != keys@[reps@[c] as int]@ by {
                            if c == c_new {
                                assert(birth[c] == k as int);
                                assert(reps@[c] == p);
                                let q = refs@[m] as int;
                                assert(referenced_upto(refs@, q, k as int));
                                assert(prev_remap[q] != SENTINEL);
                                let cq = prev_remap[q] as int;
                                assert(keys@[q]@ == keys@[reps@.subrange(0, c_new as int)[cq] as int]@);
                                assert(keys@[reps@[cq] as int]@ != keys@[p as int]@);
                            }
                        }
                        assert forall|c2: int| 0 <= c2 < reps@.len() implies remap@[(
                        #[trigger] reps@[c2]) as int] as int == c2 by {
                            if c2 < c_new {
                                assert(prev_remap[reps@[c2] as int] as int == c2);
                                assert(reps@[c2] as int != p as int);
                            }
                        }
                    }
                },
            }
        } else {
            proof {
                assert forall|i: int|
                    0 <= i < vc implies ((#[trigger] remap@[i]) != SENTINEL <==> referenced_upto(
                    refs@,
                    i,
                    k as int + 1,
                )) by {
                    if i == p as int {
                        assert(refs@[k as int] as int == i);
                    } else {
                        if referenced_upto(refs@, i, k as int + 1) {
                            let m = choose|m: int|
                                0 <= m < k as int + 1 && (#[trigger] refs@[m]) as int == i;
                            assert(m < k as int);
                            assert(referenced_upto(refs@, i, k as int));
                        }
                    }
                }
            }
        }
        k += 1;
    }
    let unique = reps.len();
    proof {
        let kv = keys_view(keys@);
        assert forall|c: int| 0 <= c < unique implies #[trigger] attained(remap@, c) by {
            assert(remap@[reps@[c] as int] as int == c);
        }
        assert forall|i: int, j: int|
            #![trigger remap@[i], remap@[j]]
            0 <= i < kv.len() && 0 <= j < kv.len() && referenced(refs@, i) && referenced(refs@, j)
            implies (remap@[i] == remap@[j] <==> kv[i] == kv[j]) by {
            assert(remap@[i] != SENTINEL && remap@[j] != SENTINEL);
            let ci = remap@[i] as int;
            let cj = remap@[j] as int;
            assert(keys@[i]@ == keys@[reps@[ci] as int]@);
            assert(keys@[j]@ == keys@[reps@[cj] as int]@);
            if ci != cj {
                if ci < cj {
                    assert(keys@[reps@[ci] as int]@ != keys@[reps@[cj] as int]@);
                } else {
                    assert(keys@[reps@[cj] as int]@ != keys@[reps@[ci] as int]@);
                }
            }
        }
        assert forall|i: int, j: int|
            #![trigger remap@[i], remap@[j]]
            0 <= i < kv.len() && 0 <= j < kv.len() && referenced(refs@, i) && referenced(refs@, j)
                && kv[i] != kv[j] implies (remap@[i] < remap@[j] <==> pat_first(kv, refs@, kv[i])
            < pat_first(kv, refs@, kv[j])) by {
            assert(remap@[i] != SENTINEL && remap@[j] != SENTINEL);
            let ci = remap@[i] as int;
            let cj = remap@[j] as int;
            assert(keys@[i]@ == keys@[reps@[ci] as int]@);
            assert(keys@[j]@ == keys@[reps@[cj] as int]@);
            assert(refs@[birth[ci]] as int == reps@[ci] as int);
            assert(kv[refs@[birth[ci]] as int] == kv[i]);
            assert forall|m: int| 0 <= m < birth[ci] implies kv[(#[trigger] refs@[m]) as int]
                != kv[i] by {
                assert(keys@[refs@[m] as int]@ != keys@[reps@[ci] as int]@);
            }
            lemma_pat_first_is(kv, refs@, kv[i], birth[ci]);
            assert(refs@[birth[cj]] as int == reps@[cj] as int);
            assert(kv[refs@[birth[cj]] as int] == kv[j]);
            assert forall|m: int| 0 <= m < birth[cj] implies kv[(#[trigger] refs@[m]) as int]
                != kv[j] by {
                assert(keys@[refs@[m] as int]@ != keys@[reps@[cj] as int]@);
            }
            lemma_pat_first_is(kv, refs@, kv[j], birth[cj]);
            assert(ci != cj);
            if ci < cj {
                assert(birth[ci] < birth[cj]);
            } else {
                assert(birth[cj] < birth[ci]);
            }
        }
    }
    (unique, remap)
}

/// Builds a remap table for a single-stream vertex buffer of `vertex_size`-byte
/// records, driven by `indices` when present and by buffer order when not.
/// Returns the number of unique vertices and the table, which maps every
/// referenced position to a dense canonical index assigned in first-appearance
/// order and every unreferenced position to [`SENTINEL`].
///
/// Rejects a zero `vertex_size` and, when `indices` is present, any entry that
/// does not point below the vertex count `vertices.len() / vertex_size`.
pub fn generate_vertex_remap(
    vertices: &Vec<u8>,
    vertex_size: usize,
    indices: Option<&Vec<u32>>,
) -> (r: Result<(usize, Vec<u32>), RemapError>)
    requires
        vertex_size > 0 ==> vertices@.len() as int / vertex_size as int <= 0xFFFF_FFFF,
    ensures
        r == Err::<(usize, Vec<u32>), RemapError>(RemapError::InvalidSize) <==> vertex_size == 0,
        r is Ok <==> vertex_size > 0 && (match indices {
            Some(ix) => forall|m: int|
                0 <= m < ix@.len() ==> ((#[trigger] ix@[m]) as int) < vertices@.len() as int
                    / vertex_size as int,
            None => true,
        }),
        r is Err ==> r == Err::<(usize, Vec<u32>), RemapError>(RemapError::InvalidSize) || r
            == Err::<(usize, Vec<u32>), RemapError>(RemapError::OutOfRangeIndex),
        r matches Ok(out) ==> valid_remap(
            single_keys(vertices@, vertex_size as int),
            match indices {
                Some(ix) => ix@,
                None => identity_refs(vertices@.len() as int / vertex_size as int),
            },
            out.1@,
            out.0 as int,
        ),
{
    if vertex_size == 0 {
        return Err(RemapError::InvalidSize);
    }
    let vc = vertices.len() / vertex_size;
    match indices {
        Some(ix) => {
            if !indices_in_bounds(ix, vc) {
                return Err(RemapError::OutOfRangeIndex);
            }
            let keys = build_keys_single(vertices, vertex_size);
            let (unique, remap) = generate_remap_core(&keys, ix);
            Ok((unique, remap))
        },
        None => {
            let keys = build_keys_single(vertices, vertex_size);
            let refs = identity_vec(vc);
            proof {
                assert forall|m: int| 0 <= m < refs@.len() implies ((#[trigger] refs@[m]) as int)
                    < keys@.len() by {
                    assert(refs@[m] == m as u32);
                }
            }
            let (unique, remap) = generate_remap_core(&keys, &refs);
            Ok((unique, remap))
        },
    }
}

/// Builds a remap table for a mesh whose attributes live in several
/// independent streams: two positions are equivalent only when their bytes
/// agree in every stream. Driven by `indices` when present and by buffer
/// order when not; the remap table and first-appearance ordering are as in
/// [`generate_vertex_remap`].
///
/// Rejects an empty stream set, a stream whose element size is zero or larger
/// than its stride, a stream whose data does not hold `vertex_count`
/// positions, and, when `indices` is present, any entry that does not point
/// below `vertex_count`.
pub fn generate_vertex_remap_multi(
    vertex_count: usize,
    streams: &Vec<VertexStream>,
    indices: Option<&Vec<u32>>,
) -> (r: Result<(usize, Vec<u32>), RemapError>)
    requires
        vertex_count <= 0xFFFF_FFFF,
    ensures
        r == Err::<(usize, Vec<u32>), RemapError>(RemapError::InvalidSize) <==> !streams_well_sized(
            streams@,
        ),
        r == Err::<(usize, Vec<u32>), RemapError>(RemapError::LengthMismatch) <==> streams_well_sized(
            streams@,
        ) && !streams_cover(streams@, vertex_count as int),
        r is Ok <==> streams_well_sized(streams@) && streams_cover(streams@, vertex_count as int)
            && (match indices {
            Some(ix) => forall|m: int|
                0 <= m < ix@.len() ==> ((#[trigger] ix@[m]) as int) < vertex_count as int,
            None => true,
        }),
        r is Err ==> r == Err::<(usize, Vec<u32>), RemapError>(RemapError::InvalidSize) || r
            == Err::<(usize, Vec<u32>), RemapError>(RemapError::LengthMismatch) || r == Err::<
            (usize, Vec<u32>),
            RemapError,
        >(RemapError::OutOfRangeIndex),
        r matches Ok(out) ==> valid_remap(
            multi_keys(streams@, vertex_count as int),
            match indices {
                Some(ix) => ix@,
                None => identity_refs(vertex_count as int),
            },
            out.1@,
            out.0 as int,
        ),
{
    if !check_streams_sized(streams) {
        return Err(RemapError::InvalidSize);
    }
    if !check_streams_cover(streams, vertex_count) {
        return Err(RemapError::LengthMismatch);
    }
    match indices {
        Some(ix) => {
            if !indices_in_bounds(ix, vertex_count) {
                return Err(RemapError::OutOfRangeIndex);
            }
            let keys = build_keys_multi(streams, vertex_count);
            let (unique, remap) = generate_remap_core(&keys, ix);
            Ok((unique, remap))
        },
        None => {
            let keys = build_keys_multi(streams, vertex_count);
            let refs = identity_vec(vertex_count);
            proof {
                assert forall|m: int| 0 <= m < refs@.len() implies ((#[trigger] refs@[m]) as int)
                    < keys@.len() by {
                    assert(refs@[m] == m as u32);
                }
            }
            let (unique, remap) = generate_remap_core(&keys, &refs);
            Ok((unique, remap))
        },
    }
}

/// [`generate_vertex_remap`] for a buffer declared in elements: the vertex
/// size must additionally be a positive multiple of the element size.
pub fn generate_vertex_sized_remap(
    vertices: &Vec<u8>,
    element_size: usize,
    vertex_size: usize,
    indices: Option<&Vec<u32>>,
) -> (r: Result<(usize, Vec<u32>), RemapError>)
    requires
        vertex_size > 0 ==> vertices@.len() as int / vertex_size as int <= 0xFFFF_FFFF,
    ensures
        r == Err::<(usize, Vec<u32>), RemapError>(RemapError::InvalidSize) <==> element_size == 0
            || vertex_size == 0 || vertex_size % element_size != 0,
        r is Ok <==> element_size > 0 && vertex_size > 0 && vertex_size % element_size == 0 && (
        match indices {
            Some(ix) => forall|m: int|
                0 <= m < ix@.len() ==> ((#[trigger] ix@[m]) as int) < vertices@.len() as int
                    / vertex_size as int,
            None => true,
        }),
        r is Err ==> r == Err::<(usize, Vec<u32>), RemapError>(RemapError::InvalidSize) || r
            == Err::<(usize, Vec<u32>), RemapError>(RemapError::OutOfRangeIndex),
        r matches Ok(out) ==> valid_remap(
            single_keys(vertices@, vertex_size as int),
            match indices {
                Some(ix) => ix@,
                None => identity_refs(vertices@.len() as int / vertex_size as int),
            },
            out.1@,
            out.0 as int,
        ),
{
    if element_size == 0 || vertex_size == 0 || vertex_size % element_size != 0 {
        return Err(RemapError::InvalidSize);
    }
    generate_vertex_remap(vertices, vertex_size, indices)
}

} // verus!
