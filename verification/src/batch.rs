//! Packing tessellated stroke meshes into shared GPU buffers.
//!
//! Each stroke is tessellated independently into a vertex buffer and a
//! `u16` index buffer. One frame submission packs all of them, in
//! stroke-creation order, into two fixed-capacity GPU buffers, writing
//! each mesh at a running offset and drawing each with its own indexed
//! draw call. GPU buffer writes must be multiples of the copy alignment,
//! so each index buffer is padded with zero indices up to the next
//! multiple; the padding affects only what is written, never what is
//! drawn.

use vstd::prelude::*;

verus! {

/// The GPU's minimum copy alignment, in index elements: index buffers
/// are written in multiples of this many indices.
pub const COPY_ALIGNMENT: usize = 4;

/// Size of one vertex in bytes: two position and four color floats.
pub const VERTEX_SIZE: usize = 24;

/// Size of one index in bytes.
pub const INDEX_SIZE: usize = 2;

/// Capacity, in bytes, of the shared vertex buffer and of the shared
/// index buffer.
pub const BUFFER_CAPACITY: usize = 0x1000000;

/// `n` rounded up to the next multiple of [`COPY_ALIGNMENT`].
pub open spec fn round_up_align(n: int) -> int {
    ((n + COPY_ALIGNMENT - 1) / (COPY_ALIGNMENT as int)) * (COPY_ALIGNMENT as int)
}

/// GPU-ready geometry of one stroke: how many vertices its mesh has
/// (the vertex data itself lives beside the drawing logic, with the
/// renderer), its index buffer already padded for the copy alignment,
/// and the index count before padding, which is what is drawn.
#[derive(Clone, Debug)]
pub struct Geometry {
    /// Number of vertices of the mesh.
    pub vertex_count: usize,
    /// The mesh's indices, zero-padded to a multiple of
    /// [`COPY_ALIGNMENT`].
    pub indices: Vec<u16>,
    /// The index count before padding: the drawn length.
    pub original_index_count: usize,
}

/// The padding invariant of one geometry: the padded index buffer is a
/// multiple of the copy alignment, at least as long as the original,
/// less than one alignment longer, and zero in the padded tail.
pub open spec fn geometry_wf(g: Geometry) -> bool {
    &&& g.original_index_count <= g.indices@.len()
    &&& g.indices@.len() as int % (COPY_ALIGNMENT as int) == 0
    &&& g.indices@.len() < g.original_index_count + COPY_ALIGNMENT
    &&& forall|i: int|
        g.original_index_count <= i < g.indices@.len() ==> g.indices@[i] == 0
}

impl Geometry {
    /// Wrap one tessellated mesh: remember the original index count and
    /// pad the index buffer with zero indices up to the next multiple
    /// of [`COPY_ALIGNMENT`].
    pub fn new(vertex_count: usize, indices: Vec<u16>) -> (r: Geometry)
        requires
            indices@.len() + COPY_ALIGNMENT <= usize::MAX,
        ensures
            r.vertex_count == vertex_count,
            r.original_index_count == indices@.len(),
            r.indices@.len() == round_up_align(indices@.len() as int),
            forall|i: int| 0 <= i < indices@.len() ==> r.indices@[i] == indices@[i],
            geometry_wf(r),
    {
        let original_index_count = indices.len();
        let pad = (COPY_ALIGNMENT - original_index_count % COPY_ALIGNMENT) % COPY_ALIGNMENT;
        let target = original_index_count + pad;
        proof {
            assert(target as int % (COPY_ALIGNMENT as int) == 0);
            assert(target < original_index_count + COPY_ALIGNMENT);
        }
        let mut padded = indices;
        while padded.len() < target
            invariant
                original_index_count <= padded@.len() <= target,
                target < original_index_count + COPY_ALIGNMENT,
                forall|i: int|
                    0 <= i < original_index_count ==> padded@[i] == indices@[i],
                forall|i: int| original_index_count <= i < padded@.len() ==> padded@[i] == 0,
                original_index_count == indices@.len(),
            decreases target - padded@.len(),
        {
            padded.push(0);
        }
        proof {
            lemma_round_up_align(original_index_count as int, target as int);
        }
        Geometry { vertex_count, indices: padded, original_index_count }
    }
}

/// A padded length that is a multiple of the alignment and within one
/// alignment of the original is exactly the original rounded up.
proof fn lemma_round_up_align(n: int, padded: int)
    requires
        0 <= n <= padded < n + COPY_ALIGNMENT,
        padded % (COPY_ALIGNMENT as int) == 0,
    ensures
        padded == round_up_align(n),
{
    assert(padded == round_up_align(n)) by (nonlinear_arith)
        requires
            0 <= n <= padded < n + 4,
            padded % 4 == 0,
    ;
}

/// One indexed draw call of a frame submission: where the stroke's
/// vertices and indices begin in the shared buffers, and how many
/// indices are drawn — exactly the original, unpadded count.
#[derive(Clone, Copy, PartialEq, Eq, Structural, Debug)]
pub struct DrawCall {
    /// Offset of the stroke's vertices in the shared vertex buffer, in
    /// vertices.
    pub vertex_offset: usize,
    /// Offset of the stroke's indices in the shared index buffer, in
    /// indices.
    pub index_offset: usize,
    /// How many indices are drawn, starting at `index_offset`.
    pub index_count: usize,
}

/// The shared buffer whose capacity a batch would exceed.
#[derive(Clone, Copy, PartialEq, Eq, Structural, Debug)]
pub enum BatchOverflow {
    /// The vertex buffer would overflow.
    Vertices,
    /// The index buffer would overflow.
    Indices,
}

/// Total vertex count of the first `n` geometries.
pub open spec fn vertex_total(geoms: Seq<Geometry>, n: int) -> int
    decreases n,
{
    if n <= 0 {
        0
    } else {
        vertex_total(geoms, n - 1) + geoms[n - 1].vertex_count
    }
}

/// Total padded index count of the first `n` geometries.
pub open spec fn index_total(geoms: Seq<Geometry>, n: int) -> int
    decreases n,
{
    if n <= 0 {
        0
    } else {
        index_total(geoms, n - 1) + geoms[n - 1].indices.len()
    }
}

/// Whether a whole batch fits the two shared buffers.
pub open spec fn batch_fits(geoms: Seq<Geometry>) -> bool {
    &&& vertex_total(geoms, geoms.len() as int) * VERTEX_SIZE <= BUFFER_CAPACITY
    &&& index_total(geoms, geoms.len() as int) * INDEX_SIZE <= BUFFER_CAPACITY
}

proof fn lemma_vertex_total_mono(geoms: Seq<Geometry>, a: int, b: int)
    requires
        0 <= a <= b,
    ensures
        vertex_total(geoms, a) <= vertex_total(geoms, b),
    decreases b,
{
    if a < b {
        lemma_vertex_total_mono(geoms, a, b - 1);
    }
}

proof fn lemma_index_total_mono(geoms: Seq<Geometry>, a: int, b: int)
    requires
        0 <= a <= b,
    ensures
        index_total(geoms, a) <= index_total(geoms, b),
    decreases b,
{
    if a < b {
        lemma_index_total_mono(geoms, a, b - 1);
    }
}

/// Lay out a frame's geometries, in the order given, in the two shared
/// buffers: each geometry's vertices and padded indices go at the
/// running offsets, and its draw call draws exactly the original index
/// count from its index offset. Exceeding either buffer's capacity is
/// reported instead; the caller treats that as fatal, since no safe
/// degraded mode exists for a render buffer.
pub fn plan_batch(geoms: &Vec<Geometry>) -> (r: Result<Vec<DrawCall>, BatchOverflow>)
    ensures
        r is Ok <==> batch_fits(geoms@),
        r matches Ok(calls) ==> {
            &&& calls@.len() == geoms@.len()
            &&& forall|i: int|
                0 <= i < geoms@.len() ==> (#[trigger] calls@[i]) == (DrawCall {
                    vertex_offset: vertex_total(geoms@, i) as usize,
                    index_offset: index_total(geoms@, i) as usize,
                    index_count: geoms@[i].original_index_count,
                })
        },
{
    let vertex_capacity: usize = BUFFER_CAPACITY / VERTEX_SIZE;
    let index_capacity: usize = BUFFER_CAPACITY / INDEX_SIZE;
    let n = geoms.len();
    let mut calls: Vec<DrawCall> = Vec::new();
    let mut vertex_offset: usize = 0;
    let mut index_offset: usize = 0;
    let mut i: usize = 0;
    while i < n
        invariant
            n == geoms@.len(),
            0 <= i <= n,
            vertex_capacity == BUFFER_CAPACITY / VERTEX_SIZE,
            index_capacity == BUFFER_CAPACITY / INDEX_SIZE,
            vertex_offset == vertex_total(geoms@, i as int),
            index_offset == index_total(geoms@, i as int),
            vertex_offset <= vertex_capacity,
            index_offset <= index_capacity,
            calls@.len() == i,
            forall|k: int|
                0 <= k < i ==> (#[trigger] calls@[k]) == (DrawCall {
                    vertex_offset: vertex_total(geoms@, k) as usize,
                    index_offset: index_total(geoms@, k) as usize,
                    index_count: geoms@[k].original_index_count,
                }),
        decreases n - i,
    {
        let g = &geoms[i];
        if g.vertex_count > vertex_capacity - vertex_offset {
            proof {
                lemma_vertex_total_mono(geoms@, i as int + 1, geoms@.len() as int);
            }
            return Err(BatchOverflow::Vertices);
        }
        if g.indices.len() > index_capacity - index_offset {
            proof {
                lemma_index_total_mono(geoms@, i as int + 1, geoms@.len() as int);
            }
            return Err(BatchOverflow::Indices);
        }
        calls.push(
            DrawCall {
                vertex_offset,
                index_offset,
                index_count: g.original_index_count,
            },
        );
        vertex_offset = vertex_offset + g.vertex_count;
        index_offset = index_offset + g.indices.len();
        i = i + 1;
    }
    proof {
        lemma_vertex_total_mono(geoms@, 0, geoms@.len() as int);
        lemma_index_total_mono(geoms@, 0, geoms@.len() as int);
    }
    Ok(calls)
}

/// Padding law: every well-formed geometry's padded index count is a
/// multiple of the copy alignment and at least the original count, and
/// the draw calls of a fitting batch draw exactly the original counts.
pub proof fn lemma_padding_invariant(g: Geometry)
    requires
        geometry_wf(g),
    ensures
        g.indices@.len() as int % (COPY_ALIGNMENT as int) == 0,
        g.indices@.len() >= g.original_index_count,
{
}

} // verus!
