//! Geometry padding and GPU buffer packing.

use chameleos::batch::BatchOverflow;
use chameleos::batch::BUFFER_CAPACITY;
use chameleos::batch::COPY_ALIGNMENT;
use chameleos::batch::DrawCall;
use chameleos::batch::Geometry;
use chameleos::batch::VERTEX_SIZE;
use chameleos::batch::plan_batch;

#[test]
fn padding_rounds_up_to_the_copy_alignment() {
    let g = Geometry::new(10, vec![1, 2, 3, 4, 5]);
    assert_eq!(g.original_index_count, 5);
    assert_eq!(g.indices, vec![1, 2, 3, 4, 5, 0, 0, 0]);
    assert_eq!(g.indices.len() % COPY_ALIGNMENT, 0);
    assert!(g.indices.len() >= g.original_index_count);
}

#[test]
fn aligned_indices_need_no_padding() {
    let g = Geometry::new(3, vec![0, 1, 2, 0]);
    assert_eq!(g.original_index_count, 4);
    assert_eq!(g.indices.len(), 4);
}

#[test]
fn empty_geometry_stays_empty() {
    let g = Geometry::new(0, vec![]);
    assert_eq!(g.original_index_count, 0);
    assert_eq!(g.indices.len(), 0);
}

#[test]
fn batch_offsets_accumulate_in_order() {
    let a = Geometry::new(3, vec![0, 1, 2]);
    let b = Geometry::new(5, vec![0, 1, 2, 2, 3, 0]);
    let c = Geometry::new(2, vec![0, 1]);
    let calls = plan_batch(&vec![a, b, c]).expect("fits");
    assert_eq!(
        calls,
        vec![
            DrawCall { vertex_offset: 0, index_offset: 0, index_count: 3 },
            DrawCall { vertex_offset: 3, index_offset: 4, index_count: 6 },
            DrawCall { vertex_offset: 8, index_offset: 12, index_count: 2 },
        ]
    );
}

#[test]
fn draw_calls_use_the_unpadded_count() {
    let g = Geometry::new(4, vec![0, 1, 2, 0, 3]);
    assert_eq!(g.indices.len(), 8);
    let calls = plan_batch(&vec![g]).expect("fits");
    assert_eq!(calls[0].index_count, 5);
}

#[test]
fn vertex_overflow_is_reported() {
    let too_many = BUFFER_CAPACITY / VERTEX_SIZE + 1;
    let g = Geometry::new(too_many, vec![0, 1, 2]);
    assert_eq!(plan_batch(&vec![g]), Err(BatchOverflow::Vertices));
}

#[test]
fn vertex_overflow_across_geometries_is_reported() {
    let half = BUFFER_CAPACITY / VERTEX_SIZE / 2 + 1;
    let a = Geometry::new(half, vec![0, 1, 2]);
    let b = Geometry::new(half, vec![0, 1, 2]);
    assert_eq!(plan_batch(&vec![a, b]), Err(BatchOverflow::Vertices));
}

#[test]
fn index_overflow_is_reported() {
    let too_many = BUFFER_CAPACITY / 2 + 4;
    let g = Geometry::new(1, vec![0u16; too_many]);
    assert_eq!(plan_batch(&vec![g]), Err(BatchOverflow::Indices));
}

#[test]
fn an_empty_batch_fits() {
    assert_eq!(plan_batch(&vec![]), Ok(vec![]));
}
