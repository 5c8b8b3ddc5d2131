use meshremap::generate_vertex_remap;
use meshremap::generate_vertex_remap_multi;
use meshremap::generate_vertex_sized_remap;
use meshremap::remap_index_buffer;
use meshremap::remap_index_buffer_in_place;
use meshremap::remap_vertex_buffer;
use meshremap::remap_vertex_buffer_in_place;
use meshremap::remap_vertex_buffer_sized;
use meshremap::remap_vertex_buffer_sized_in_place;
use meshremap::RemapError;
use meshremap::VertexStream;
use meshremap::SENTINEL;

#[test]
fn scenario_indexed_duplicates() {
    // vertices [A, B, A, C] of 4-byte records, indices [0, 1, 2, 0, 3, 2]
    let vertices: Vec<u8> = vec![
        1, 0, 0, 0, // A
        2, 0, 0, 0, // B
        1, 0, 0, 0, // A again
        3, 0, 0, 0, // C
    ];
    let indices: Vec<u32> = vec![0, 1, 2, 0, 3, 2];
    let (unique, remap) = generate_vertex_remap(&vertices, 4, Some(&indices)).unwrap();
    assert_eq!(unique, 3);
    assert_eq!(remap, vec![0, 1, 0, 2]);

    let new_indices = remap_index_buffer(Some(&indices), 4, &remap).unwrap();
    assert_eq!(new_indices, vec![0, 1, 0, 0, 2, 0]);

    let new_vertices = remap_vertex_buffer(&vertices, unique, 4, &remap).unwrap();
    assert_eq!(new_vertices, vec![1, 0, 0, 0, 2, 0, 0, 0, 3, 0, 0, 0]);
}

#[test]
fn scenario_unindexed_duplicates() {
    // unindexed vertices [X, X, Y] of 2-byte records
    let vertices: Vec<u8> = vec![7, 7, 7, 7, 9, 9];
    let (unique, remap) = generate_vertex_remap(&vertices, 2, None).unwrap();
    assert_eq!(unique, 2);
    assert_eq!(remap, vec![0, 0, 1]);

    let synthesized = remap_index_buffer(None, 3, &remap).unwrap();
    assert_eq!(synthesized, vec![0, 0, 1]);

    let new_vertices = remap_vertex_buffer(&vertices, unique, 2, &remap).unwrap();
    assert_eq!(new_vertices, vec![7, 7, 9, 9]);
}

#[test]
fn round_trip_resolves_same_records() {
    let vertices: Vec<u8> = vec![1, 0, 0, 0, 2, 0, 0, 0, 1, 0, 0, 0, 3, 0, 0, 0];
    let indices: Vec<u32> = vec![0, 1, 2, 0, 3, 2];
    let (unique, remap) = generate_vertex_remap(&vertices, 4, Some(&indices)).unwrap();
    let new_indices = remap_index_buffer(Some(&indices), 4, &remap).unwrap();
    let new_vertices = remap_vertex_buffer(&vertices, unique, 4, &remap).unwrap();
    for m in 0..indices.len() {
        let old = indices[m] as usize;
        let new = new_indices[m] as usize;
        assert_eq!(new_vertices[new * 4..new * 4 + 4], vertices[old * 4..old * 4 + 4]);
    }
}

#[test]
fn unreferenced_position_dropped() {
    // position 1 never referenced: sentinel, excluded, bytes absent
    let vertices: Vec<u8> = vec![1, 1, 2, 2, 3, 3];
    let indices: Vec<u32> = vec![0, 2, 0];
    let (unique, remap) = generate_vertex_remap(&vertices, 2, Some(&indices)).unwrap();
    assert_eq!(unique, 2);
    assert_eq!(remap, vec![0, SENTINEL, 1]);

    let new_vertices = remap_vertex_buffer(&vertices, unique, 2, &remap).unwrap();
    assert_eq!(new_vertices, vec![1, 1, 3, 3]);
    assert!(!new_vertices.windows(2).any(|w| w == [2, 2]));
}

#[test]
fn idempotent_on_compacted_mesh() {
    let vertices: Vec<u8> = vec![1, 0, 0, 0, 2, 0, 0, 0, 3, 0, 0, 0];
    let indices: Vec<u32> = vec![0, 1, 0, 0, 2, 0];
    let (unique, remap) = generate_vertex_remap(&vertices, 4, Some(&indices)).unwrap();
    assert_eq!(unique, 3);
    assert_eq!(remap, vec![0, 1, 2]);

    let (unique2, remap2) = generate_vertex_remap(&vertices, 4, None).unwrap();
    assert_eq!(unique2, 3);
    assert_eq!(remap2, vec![0, 1, 2]);
}

#[test]
fn first_appearance_order_follows_index_buffer() {
    // position 2 is seen first, then 0, then 1
    let vertices: Vec<u8> = vec![10, 20, 30];
    let indices: Vec<u32> = vec![2, 0, 1, 2];
    let (unique, remap) = generate_vertex_remap(&vertices, 1, Some(&indices)).unwrap();
    assert_eq!(unique, 3);
    assert_eq!(remap, vec![1, 2, 0]);
}

#[test]
fn density_no_gaps_no_repeats_among_classes() {
    let vertices: Vec<u8> = vec![5, 6, 5, 7, 6, 8];
    let indices: Vec<u32> = vec![4, 2, 5, 0, 3];
    let (unique, remap) = generate_vertex_remap(&vertices, 1, Some(&indices)).unwrap();
    let mut seen: Vec<u32> = remap.iter().copied().filter(|&x| x != SENTINEL).collect();
    seen.sort();
    seen.dedup();
    let expected: Vec<u32> = (0..unique as u32).collect();
    assert_eq!(seen, expected);
}

#[test]
fn generate_rejects_zero_vertex_size() {
    let vertices: Vec<u8> = vec![1, 2, 3];
    assert_eq!(
        generate_vertex_remap(&vertices, 0, None),
        Err(RemapError::InvalidSize)
    );
}

#[test]
fn generate_rejects_out_of_range_index() {
    let vertices: Vec<u8> = vec![1, 2, 3];
    let indices: Vec<u32> = vec![0, 3];
    assert_eq!(
        generate_vertex_remap(&vertices, 1, Some(&indices)),
        Err(RemapError::OutOfRangeIndex)
    );
}

#[test]
fn sized_generate_checks_element_size() {
    let vertices: Vec<u8> = vec![1, 2, 3, 4, 1, 2, 3, 4];
    assert_eq!(
        generate_vertex_sized_remap(&vertices, 0, 4, None),
        Err(RemapError::InvalidSize)
    );
    assert_eq!(
        generate_vertex_sized_remap(&vertices, 3, 4, None),
        Err(RemapError::InvalidSize)
    );
    let (unique, remap) = generate_vertex_sized_remap(&vertices, 2, 4, None).unwrap();
    assert_eq!(unique, 1);
    assert_eq!(remap, vec![0, 0]);
}

#[test]
fn multi_stream_joint_equality() {
    // positions agree in the first stream; only 0 and 2 agree in both
    let positions = VertexStream {
        data: vec![1, 1, 1, 1, 1, 1],
        size: 2,
        stride: 2,
    };
    let uvs = VertexStream {
        data: vec![9, 0, 8, 0, 9, 0],
        size: 1,
        stride: 2,
    };
    let streams = vec![positions, uvs];
    let (unique, remap) = generate_vertex_remap_multi(3, &streams, None).unwrap();
    assert_eq!(unique, 2);
    assert_eq!(remap, vec![0, 1, 0]);
}

#[test]
fn multi_stream_indexed_with_padding() {
    // stride exceeds size: the padding byte differs but is ignored
    let stream = VertexStream {
        data: vec![4, 99, 4, 98, 5, 97],
        size: 1,
        stride: 2,
    };
    let streams = vec![stream];
    let indices: Vec<u32> = vec![2, 1, 0, 1];
    let (unique, remap) = generate_vertex_remap_multi(3, &streams, Some(&indices)).unwrap();
    assert_eq!(unique, 2);
    assert_eq!(remap, vec![1, 1, 0]);
}

#[test]
fn multi_stream_table_remaps_each_stream() {
    // positions 0 and 2 agree in both channels; compact each buffer with the
    // one shared table
    let positions: Vec<u8> = vec![1, 2, 3, 4, 1, 2];
    let colors: Vec<u8> = vec![9, 8, 9];
    let streams = vec![
        VertexStream { data: positions.clone(), size: 2, stride: 2 },
        VertexStream { data: colors.clone(), size: 1, stride: 1 },
    ];
    let indices: Vec<u32> = vec![0, 1, 2];
    let (unique, remap) = generate_vertex_remap_multi(3, &streams, Some(&indices)).unwrap();
    assert_eq!(unique, 2);
    assert_eq!(remap, vec![0, 1, 0]);

    let new_positions = remap_vertex_buffer(&positions, unique, 2, &remap).unwrap();
    assert_eq!(new_positions, vec![1, 2, 3, 4]);
    let new_colors = remap_vertex_buffer(&colors, unique, 1, &remap).unwrap();
    assert_eq!(new_colors, vec![9, 8]);
}

#[test]
fn multi_stream_rejects_bad_streams() {
    let empty: Vec<VertexStream> = Vec::new();
    assert_eq!(
        generate_vertex_remap_multi(0, &empty, None),
        Err(RemapError::InvalidSize)
    );
    let zero_size = vec![VertexStream { data: vec![1, 2], size: 0, stride: 1 }];
    assert_eq!(
        generate_vertex_remap_multi(2, &zero_size, None),
        Err(RemapError::InvalidSize)
    );
    let size_over_stride = vec![VertexStream { data: vec![1, 2, 3, 4], size: 2, stride: 1 }];
    assert_eq!(
        generate_vertex_remap_multi(2, &size_over_stride, None),
        Err(RemapError::InvalidSize)
    );
    let short = vec![VertexStream { data: vec![1, 2, 3], size: 2, stride: 2 }];
    assert_eq!(
        generate_vertex_remap_multi(2, &short, None),
        Err(RemapError::LengthMismatch)
    );
    let fine = vec![VertexStream { data: vec![1, 2, 3, 4], size: 2, stride: 2 }];
    let bad_indices: Vec<u32> = vec![0, 2];
    assert_eq!(
        generate_vertex_remap_multi(2, &fine, Some(&bad_indices)),
        Err(RemapError::OutOfRangeIndex)
    );
}

#[test]
fn index_remap_propagates_sentinel() {
    // a stale table maps a referenced position to the sentinel: it propagates
    let remap: Vec<u32> = vec![0, SENTINEL];
    let indices: Vec<u32> = vec![1, 0, 1];
    let out = remap_index_buffer(Some(&indices), 2, &remap).unwrap();
    assert_eq!(out, vec![SENTINEL, 0, SENTINEL]);
}

#[test]
fn index_remap_rejects_out_of_range_entry() {
    let remap: Vec<u32> = vec![0, 1];
    let indices: Vec<u32> = vec![0, 2];
    assert_eq!(
        remap_index_buffer(Some(&indices), 2, &remap),
        Err(RemapError::OutOfRangeIndex)
    );
}

#[test]
fn index_remap_unindexed_needs_matching_length() {
    let remap: Vec<u32> = vec![0, 1, 2];
    assert_eq!(
        remap_index_buffer(None, 2, &remap),
        Err(RemapError::LengthMismatch)
    );
    let out = remap_index_buffer(None, 3, &remap).unwrap();
    assert_eq!(out, vec![0, 1, 2]);
}

#[test]
fn index_remap_in_place_rewrites_entries() {
    let remap: Vec<u32> = vec![2, 0, 1];
    let mut indices: Vec<u32> = vec![0, 1, 2, 1];
    remap_index_buffer_in_place(&mut indices, &remap).unwrap();
    assert_eq!(indices, vec![2, 0, 1, 0]);
}

#[test]
fn index_remap_in_place_error_leaves_buffer() {
    let remap: Vec<u32> = vec![0];
    let mut indices: Vec<u32> = vec![0, 5];
    assert_eq!(
        remap_index_buffer_in_place(&mut indices, &remap),
        Err(RemapError::OutOfRangeIndex)
    );
    assert_eq!(indices, vec![0, 5]);
}

#[test]
fn vertex_remap_moves_records_and_zeroes_unwritten() {
    // position order differs from slot order; slot 2 gets no writer
    let vertices: Vec<u8> = vec![10, 11, 20, 21];
    let remap: Vec<u32> = vec![1, 0];
    let out = remap_vertex_buffer(&vertices, 3, 2, &remap).unwrap();
    assert_eq!(out, vec![20, 21, 10, 11, 0, 0]);
}

#[test]
fn vertex_remap_skips_sentinel_positions() {
    let vertices: Vec<u8> = vec![5, 6];
    let remap: Vec<u32> = vec![SENTINEL];
    let out = remap_vertex_buffer(&vertices, 1, 2, &remap).unwrap();
    assert_eq!(out, vec![0, 0]);
}

#[test]
fn vertex_remap_rejects_bad_input() {
    let vertices: Vec<u8> = vec![1, 2, 3, 4];
    let remap: Vec<u32> = vec![0, 1];
    assert_eq!(
        remap_vertex_buffer(&vertices, 2, 0, &remap),
        Err(RemapError::InvalidSize)
    );
    assert_eq!(
        remap_vertex_buffer(&vertices, 2, 3, &remap),
        Err(RemapError::LengthMismatch)
    );
    assert_eq!(
        remap_vertex_buffer(&vertices, 1, 2, &remap),
        Err(RemapError::OutOfRangeIndex)
    );
}

#[test]
fn vertex_remap_in_place_keeps_tail() {
    // compact [A, B, A] to [A, B]; the third record's bytes stay behind
    let mut vertices: Vec<u8> = vec![1, 1, 2, 2, 1, 1];
    let remap: Vec<u32> = vec![0, 1, 0];
    remap_vertex_buffer_in_place(&mut vertices, 2, 2, &remap).unwrap();
    assert_eq!(vertices, vec![1, 1, 2, 2, 1, 1]);

    let mut shuffled: Vec<u8> = vec![3, 3, 4, 4, 5, 5];
    let remap2: Vec<u32> = vec![1, SENTINEL, 0];
    remap_vertex_buffer_in_place(&mut shuffled, 2, 2, &remap2).unwrap();
    assert_eq!(shuffled, vec![5, 5, 3, 3, 5, 5]);
}

#[test]
fn vertex_remap_in_place_error_leaves_buffer() {
    let mut vertices: Vec<u8> = vec![1, 2];
    let remap: Vec<u32> = vec![0, 1];
    assert_eq!(
        remap_vertex_buffer_in_place(&mut vertices, 2, 2, &remap),
        Err(RemapError::LengthMismatch)
    );
    assert_eq!(vertices, vec![1, 2]);
}

#[test]
fn vertex_remap_sized_checks_element_size() {
    let vertices: Vec<u8> = vec![1, 2, 3, 4];
    let remap: Vec<u32> = vec![0];
    assert_eq!(
        remap_vertex_buffer_sized(&vertices, 1, 3, 4, &remap),
        Err(RemapError::InvalidSize)
    );
    let out = remap_vertex_buffer_sized(&vertices, 1, 2, 4, &remap).unwrap();
    assert_eq!(out, vec![1, 2, 3, 4]);

    let mut buf: Vec<u8> = vec![9, 8, 7, 6];
    assert_eq!(
        remap_vertex_buffer_sized_in_place(&mut buf, 1, 0, 4, &remap),
        Err(RemapError::InvalidSize)
    );
    remap_vertex_buffer_sized_in_place(&mut buf, 1, 4, 4, &remap).unwrap();
    assert_eq!(buf, vec![9, 8, 7, 6]);
}

#[test]
fn empty_mesh() {
    let vertices: Vec<u8> = Vec::new();
    let (unique, remap) = generate_vertex_remap(&vertices, 4, None).unwrap();
    assert_eq!(unique, 0);
    assert!(remap.is_empty());

    let empty_table: Vec<u32> = Vec::new();
    let out = remap_vertex_buffer(&vertices, 0, 4, &empty_table).unwrap();
    assert!(out.is_empty());
    let synthesized = remap_index_buffer(None, 0, &empty_table).unwrap();
    assert!(synthesized.is_empty());
}

#[test]
fn trailing_bytes_ignored_by_generator() {
    // seven bytes of 2-byte records: the seventh byte is no record
    let vertices: Vec<u8> = vec![1, 1, 2, 2, 1, 1, 9];
    let (unique, remap) = generate_vertex_remap(&vertices, 2, None).unwrap();
    assert_eq!(unique, 2);
    assert_eq!(remap, vec![0, 1, 0]);
}
