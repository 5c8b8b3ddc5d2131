//! The library-wide laws, proved once over the spec functions that the
//! public contracts use: density, first-appearance ordering, the index/vertex
//! round trip, idempotence on compacted meshes, and the dropping of
//! unreferenced vertices. Binary equivalence itself — equal canonical index
//! exactly when the keys are byte-equal — is a clause of
//! [`valid_remap`](crate::model::valid_remap) and so part of every
//! generator's `ensures`.

use crate::model::first_ref;
use crate::model::identity_refs;
use crate::model::lemma_first_ref_found;
use crate::model::lemma_identity_first_ref;
use crate::model::lemma_pat_first_found;
use crate::model::lemma_pat_first_is;
use crate::model::lemma_slot_bytes_unwritten;
use crate::model::lemma_slot_bytes_written;
use crate::model::pat_first;
use crate::model::record;
use crate::model::referenced;
use crate::model::remapped_indices;
use crate::model::single_keys;
use crate::model::slot_bytes;
use crate::model::valid_remap;
use crate::model::zero_record;
use crate::types::SENTINEL;
use vstd::prelude::*;

verus! {

/// Density: the non-sentinel values of a generated remap table form exactly
/// the set `{0, ..., unique - 1}` — no gaps, nothing out of range.
pub proof fn lemma_remap_dense(keys: Seq<Seq<u8>>, refs: Seq<u32>, remap: Seq<u32>, unique: int)
    requires
        valid_remap(keys, refs, remap, unique),
    ensures
        Set::new(|x: u32| remap.contains(x) && x != SENTINEL) == Set::new(
            |x: u32| (x as int) < unique,
        ),
{
    assert forall|x: u32| (remap.contains(x) && x != SENTINEL) <==> ((x as int) < unique) by {
        if remap.contains(x) && x != SENTINEL {
            let i = choose|i: int| 0 <= i < remap.len() && remap[i] == x;
            assert(remap[i] != SENTINEL);
            assert((remap[i] as int) < unique);
        }
        if (x as int) < unique {
            assert(crate::model::attained(remap, x as int));
            let i = choose|i: int|
                0 <= i < remap.len() && ((#[trigger] remap[i]) as int) == x as int;
            assert(remap[i] == x);
            assert((remap[i] as int) < unique && unique <= keys.len() <= 0xFFFF_FFFF);
            assert(remap[i] != SENTINEL);
        }
    }
    assert(Set::new(|x: u32| remap.contains(x) && x != SENTINEL) =~= Set::new(
        |x: u32| (x as int) < unique,
    ));
}

/// First-appearance ordering: when position `i` is first referenced strictly
/// before position `j`, their keys differ, and no position referenced before
/// `j`'s first reference shares `j`'s key, then `remap[i] < remap[j]`.
///
/// The last premise is needed: when `j`'s key was already seen under some
/// other position, `j`'s class was born at that earlier sight and may
/// precede `i`'s.
pub proof fn lemma_first_appearance_order(
    keys: Seq<Seq<u8>>,
    refs: Seq<u32>,
    remap: Seq<u32>,
    unique: int,
    i: int,
    j: int,
)
    requires
        valid_remap(keys, refs, remap, unique),
        0 <= i < keys.len(),
        0 <= j < keys.len(),
        referenced(refs, i),
        referenced(refs, j),
        keys[i] != keys[j],
        first_ref(refs, i) < first_ref(refs, j),
        forall|m: int|
            0 <= m < first_ref(refs, j) ==> keys[(#[trigger] refs[m]) as int] != keys[j],
    ensures
        remap[i] < remap[j],
{
    lemma_first_ref_found(refs, i);
    lemma_first_ref_found(refs, j);
    lemma_pat_first_is(keys, refs, keys[j], first_ref(refs, j));
    assert(keys[refs[first_ref(refs, i)] as int] == keys[i]);
    lemma_pat_first_found(keys, refs, keys[i]);
    let fi = pat_first(keys, refs, keys[i]);
    assert(fi <= first_ref(refs, i)) by {
        if fi > first_ref(refs, i) {
            assert(keys[refs[first_ref(refs, i)] as int] != keys[i]);
        }
    }
    assert(pat_first(keys, refs, keys[i]) < pat_first(keys, refs, keys[j]));
}

/// Round-trip: after remapping the index buffer and compacting the vertex
/// buffer, every index buffer entry resolves to the very record the old
/// entry resolved to. The drawn sequence of records is unchanged entry for
/// entry, hence so is its multiset.
pub proof fn lemma_round_trip(
    v: Seq<u8>,
    sz: int,
    ix: Seq<u32>,
    remap: Seq<u32>,
    unique: int,
    new_ix: Seq<u32>,
    new_v: Seq<u8>,
)
    requires
        sz > 0,
        valid_remap(single_keys(v, sz), ix, remap, unique),
        new_ix == remapped_indices(ix, remap),
        forall|s: int|
            0 <= s < unique ==> record(new_v, sz, s) == slot_bytes(
                v,
                sz,
                remap,
                s,
                remap.len() as int,
            ),
    ensures
        new_ix.len() == ix.len(),
        forall|m: int|
            0 <= m < ix.len() ==> ((#[trigger] new_ix[m]) as int) < unique && record(
                new_v,
                sz,
                new_ix[m] as int,
            ) == record(v, sz, ix[m] as int),
        Seq::new(ix.len(), |m: int| record(v, sz, ix[m] as int)).to_multiset() == Seq::new(
            new_ix.len(),
            |m: int| record(new_v, sz, new_ix[m] as int),
        ).to_multiset(),
{
    let kv = single_keys(v, sz);
    assert forall|m: int| 0 <= m < ix.len() implies ((#[trigger] new_ix[m]) as int) < unique
        && record(new_v, sz, new_ix[m] as int) == record(v, sz, ix[m] as int) by {
        let i = ix[m] as int;
        assert(referenced(ix, i));
        assert(remap[i] != SENTINEL);
        let s = remap[i] as int;
        assert(s < unique);
        assert(new_ix[m] == remap[i]);
        assert(0 <= i < remap.len() && remap[i] != SENTINEL && remap[i] as int == s);
        lemma_slot_bytes_written(v, sz, remap, s, remap.len() as int);
        let j = choose|j: int|
            0 <= j < remap.len() && (#[trigger] remap[j]) != SENTINEL && remap[j] as int == s
                && slot_bytes(v, sz, remap, s, remap.len() as int) == record(v, sz, j);
        assert(referenced(ix, j));
        assert(remap[j] == remap[i]);
        assert(kv[i] == kv[j]);
        assert(record(v, sz, i) == record(v, sz, j));
    }
    assert(Seq::new(ix.len(), |m: int| record(v, sz, ix[m] as int)) =~= Seq::new(
        new_ix.len(),
        |m: int| record(new_v, sz, new_ix[m] as int),
    ));
}

/// Strictly increasing table values are at least their position.
proof fn lemma_increasing_lower(remap: Seq<u32>, i: int)
    requires
        0 <= i < remap.len(),
        forall|a: int, b: int|
            #![trigger remap[a], remap[b]]
            0 <= a < b < remap.len() ==> remap[a] < remap[b],
    ensures
        remap[i] as int >= i,
    decreases i,
{
    if i > 0 {
        lemma_increasing_lower(remap, i - 1);
        assert(remap[i - 1] < remap[i]);
    }
}

/// Strictly increasing table values below the table's length are exactly
/// their position.
proof fn lemma_increasing_exact(remap: Seq<u32>, i: int)
    requires
        0 <= i < remap.len(),
        forall|a: int, b: int|
            #![trigger remap[a], remap[b]]
            0 <= a < b < remap.len() ==> remap[a] < remap[b],
        forall|a: int| 0 <= a < remap.len() ==> ((#[trigger] remap[a]) as int) < remap.len(),
    ensures
        remap[i] as int == i,
    decreases remap.len() - i,
{
    lemma_increasing_lower(remap, i);
    if i + 1 < remap.len() {
        lemma_increasing_exact(remap, i + 1);
        assert(remap[i] < remap[i + 1]);
    }
}

/// Idempotence: generating over an already-compacted mesh — every position
/// referenced, all keys pairwise distinct, first references in position
/// order, as an earlier remap pass leaves them — changes nothing: the table
/// is the identity and the unique count is the position count. An unindexed
/// buffer of pairwise-distinct records is the special case `refs ==
/// identity_refs(keys.len())`.
pub proof fn lemma_idempotent(keys: Seq<Seq<u8>>, refs: Seq<u32>, remap: Seq<u32>, unique: int)
    requires
        valid_remap(keys, refs, remap, unique),
        forall|i: int| 0 <= i < keys.len() ==> referenced(refs, i),
        forall|i: int, j: int|
            #![trigger keys[i], keys[j]]
            0 <= i < j < keys.len() ==> keys[i] != keys[j],
        forall|i: int, j: int|
            #![trigger first_ref(refs, i), first_ref(refs, j)]
            0 <= i < j < keys.len() ==> first_ref(refs, i) < first_ref(refs, j),
    ensures
        unique == keys.len(),
        forall|i: int| 0 <= i < keys.len() ==> ((#[trigger] remap[i]) as int) == i,
{
    let n = keys.len() as int;
    assert forall|i: int| 0 <= i < n implies pat_first(keys, refs, keys[i]) == first_ref(
        refs,
        i,
    ) by {
        lemma_first_ref_found(refs, i);
        assert forall|m: int| 0 <= m < first_ref(refs, i) implies keys[(#[trigger] refs[m]) as int]
            != keys[i] by {
            let q = refs[m] as int;
            assert(q != i);
            if q < i {
                assert(keys[q] != keys[i]);
            } else {
                assert(keys[i] != keys[q]);
            }
        }
        lemma_pat_first_is(keys, refs, keys[i], first_ref(refs, i));
    }
    assert forall|a: int, b: int|
        #![trigger remap[a], remap[b]]
        0 <= a < b < remap.len() implies remap[a] < remap[b] by {
        assert(keys[a] != keys[b]);
        assert(first_ref(refs, a) < first_ref(refs, b));
        assert(pat_first(keys, refs, keys[a]) < pat_first(keys, refs, keys[b]));
        assert(remap[a] != SENTINEL && remap[b] != SENTINEL);
    }
    if n > 0 {
        lemma_increasing_lower(remap, n - 1);
        assert(remap[n - 1] as int >= n - 1);
        assert(remap[n - 1] != SENTINEL);
        assert((remap[n - 1] as int) < unique);
        assert(unique == n);
        assert forall|i: int| 0 <= i < n implies ((#[trigger] remap[i]) as int) == i by {
            assert(remap[i] != SENTINEL);
            lemma_increasing_exact(remap, i);
        }
    }
}

/// Idempotence of an unindexed regeneration: scanning a vertex buffer of
/// pairwise-distinct records in buffer order — a buffer a previous
/// compaction produced — yields the identity table and an unchanged unique
/// count.
pub proof fn lemma_idempotent_unindexed(keys: Seq<Seq<u8>>, remap: Seq<u32>, unique: int)
    requires
        valid_remap(keys, identity_refs(keys.len() as int), remap, unique),
        forall|i: int, j: int|
            #![trigger keys[i], keys[j]]
            0 <= i < j < keys.len() ==> keys[i] != keys[j],
    ensures
        unique == keys.len(),
        forall|i: int| 0 <= i < keys.len() ==> ((#[trigger] remap[i]) as int) == i,
{
    let n = keys.len() as int;
    let refs = identity_refs(n);
    assert forall|i: int| 0 <= i < n implies referenced(refs, i) by {
        assert(refs[i] as int == i);
    }
    assert forall|i: int, j: int|
        #![trigger first_ref(refs, i), first_ref(refs, j)]
        0 <= i < j < n implies first_ref(refs, i) < first_ref(refs, j) by {
        lemma_identity_first_ref(n, i);
        lemma_identity_first_ref(n, j);
    }
    lemma_idempotent(keys, refs, remap, unique);
}

/// Unreferenced drop: a position no index buffer entry names holds the
/// sentinel (and, through density, takes no part in the unique count), and
/// its record never reaches the remapped vertex buffer: every output slot
/// holds either zeroes or the record of a referenced position.
pub proof fn lemma_unreferenced_dropped(
    keys: Seq<Seq<u8>>,
    refs: Seq<u32>,
    remap: Seq<u32>,
    unique: int,
    v: Seq<u8>,
    sz: int,
    s: int,
)
    requires
        valid_remap(keys, refs, remap, unique),
    ensures
        forall|i: int|
            0 <= i < keys.len() && !referenced(refs, i) ==> (#[trigger] remap[i]) == SENTINEL,
        (exists|j: int| 0 <= j < remap.len() && (#[trigger] remap[j]) != SENTINEL && remap[j] as int == s)
            ==> exists|j: int|
            0 <= j < remap.len() && referenced(refs, j) && (#[trigger] remap[j]) != SENTINEL
                && remap[j] as int == s && slot_bytes(v, sz, remap, s, remap.len() as int)
                == record(v, sz, j),
        !(exists|j: int| 0 <= j < remap.len() && (#[trigger] remap[j]) != SENTINEL && remap[j] as int == s)
            ==> slot_bytes(v, sz, remap, s, remap.len() as int) == zero_record(sz),
{
    if exists|j: int|
        0 <= j < remap.len() && (#[trigger] remap[j]) != SENTINEL && remap[j] as int == s {
        lemma_slot_bytes_written(v, sz, remap, s, remap.len() as int);
        let j = choose|j: int|
            0 <= j < remap.len() && (#[trigger] remap[j]) != SENTINEL && remap[j] as int == s
                && slot_bytes(v, sz, remap, s, remap.len() as int) == record(v, sz, j);
        assert(referenced(refs, j));
    } else {
        lemma_slot_bytes_unwritten(v, sz, remap, s, remap.len() as int);
    }
}

} // verus!
