//! Triangle indices of the procedural meshes.
//!
//! Vertex positions are floating point and are computed elsewhere; the index
//! buffers are pure integer functions of the mesh resolution, and each index
//! is proved to name a vertex of the mesh.

use vstd::prelude::*;

verus! {

/// The `k`-th index (of six) of the two triangles of a quad whose corners are
/// `a`, `a + 1` (in one row) and `b`, `b + 1` (in the next).
pub open spec fn quad_corner(a: int, b: int, k: int) -> int {
    if k == 0 {
        a
    } else if k == 1 {
        b
    } else if k == 2 {
        a + 1
    } else if k == 3 {
        a + 1
    } else if k == 4 {
        b
    } else {
        b + 1
    }
}

/// The position in the index buffer of corner `k` of cell (`row`, `col`) of
/// a grid with `cols` cells per row.
pub open spec fn grid_slot(cols: int, row: int, col: int, k: int) -> int {
    6 * (row * cols + col) + k
}

/// Corner `k` of cell (`row`, `col`): the cell's first vertex is
/// `row * (cols + 1) + col`, and the vertex below it is one row of
/// `cols + 1` vertices further.
pub open spec fn grid_corner(cols: int, row: int, col: int, k: int) -> int {
    let current = row * (cols + 1) + col;
    quad_corner(current, current + cols + 1, k)
}

/// The number of vertices of a grid of `rows` by `cols` cells.
pub open spec fn grid_vertex_count(rows: int, cols: int) -> int {
    (rows + 1) * (cols + 1)
}

/// Whether the indices of a `rows` by `cols` grid fit in `u32` (when there
/// is any cell at all).
pub open spec fn grid_fits(rows: int, cols: int) -> bool {
    rows == 0 || cols == 0 || grid_vertex_count(rows, cols) <= u32::MAX + 1
}

proof fn lemma_slot_order(cols: int, r1: int, c1: int, r2: int, c2: int)
    requires
        0 <= c1 < cols,
        0 <= c2 <= cols,
        0 <= r1,
        0 <= r2,
        r1 < r2 || (r1 == r2 && c1 < c2),
    ensures
        r1 * cols + c1 < r2 * cols + c2,
{
    if r1 < r2 {
        assert(r1 * cols + cols <= r2 * cols) by (nonlinear_arith)
            requires
                r1 < r2,
                cols >= 0,
        ;
    }
}

proof fn lemma_corner_bound(rows: int, cols: int, row: int, col: int)
    requires
        0 <= row < rows,
        0 <= col < cols,
    ensures
        row * (cols + 1) + col + cols + 2 < grid_vertex_count(rows, cols),
        0 <= row * (cols + 1),
{
    assert(grid_vertex_count(rows, cols) == rows * (cols + 1) + cols + 1) by (nonlinear_arith);
    assert(row * (cols + 1) + (cols + 1) <= rows * (cols + 1)) by (nonlinear_arith)
        requires
            row < rows,
            cols >= 0,
    ;
    assert(0 <= row * (cols + 1)) by (nonlinear_arith)
        requires
            row >= 0,
            cols >= 0,
    ;
}

/// The position in the vertex buffer of the vertex in row `row` and column
/// `col` of a grid with `cols` cells per row: the rows of `cols + 1`
/// vertices follow one another.
pub open spec fn grid_vertex(cols: int, row: int, col: int) -> int {
    row * (cols + 1) + col
}

/// The layout of a grid's buffers: vertices are numbered from zero, one
/// after another along a row of `cols + 1` and then on to the next row, and
/// the last vertex of a `rows` by `cols` grid is the last one counted; the
/// six indices of each cell follow one another, cell by cell and row by
/// row, from position zero.
pub proof fn law_grid_layout(rows: int, cols: int, row: int, col: int, k: int)
    requires
        0 <= rows,
        0 <= cols,
        0 <= row,
        0 <= col,
    ensures
        grid_vertex(cols, 0, 0) == 0,
        col < cols ==> grid_vertex(cols, row, col) + 1 == grid_vertex(cols, row, col + 1),
        grid_vertex(cols, row, cols) + 1 == grid_vertex(cols, row + 1, 0),
        grid_vertex_count(rows, cols) == grid_vertex(cols, rows, cols) + 1,
        grid_slot(cols, 0, 0, 0) == 0,
        0 <= k < 5 ==> grid_slot(cols, row, col, k) + 1 == grid_slot(cols, row, col, k + 1),
        col + 1 < cols ==> grid_slot(cols, row, col, 5) + 1 == grid_slot(cols, row, col + 1, 0),
        col + 1 == cols ==> grid_slot(cols, row, col, 5) + 1 == grid_slot(cols, row + 1, 0, 0),
{
    assert((row + 1) * (cols + 1) == row * (cols + 1) + cols + 1) by (nonlinear_arith);
    assert((row + 1) * cols == row * cols + cols) by (nonlinear_arith);
    assert((rows + 1) * (cols + 1) == rows * (cols + 1) + cols + 1) by (nonlinear_arith);
}

/// The grid position (row, column) of every vertex of a `rows` by `cols`
/// grid, in vertex-buffer order: row by row, `cols + 1` vertices per row.
/// This is the order in which the triangle indices name the vertices, so a
/// vertex buffer built by walking this list has exactly
/// `grid_vertex_count(rows, cols)` vertices, which every index is below.
pub fn grid_vertex_order(rows: u32, cols: u32) -> (r: Vec<(u32, u32)>)
    requires
        grid_fits(rows as int, cols as int),
        grid_vertex_count(rows as int, cols as int) <= usize::MAX,
    ensures
        r@.len() == grid_vertex_count(rows as int, cols as int),
        forall|row: int, col: int|
            0 <= row <= rows && 0 <= col <= cols ==> #[trigger] r@[grid_vertex(cols as int, row, col)] == (
            row as u32,
            col as u32,
        ),
{
    let mut order: Vec<(u32, u32)> = Vec::new();
    let mut ring: u64 = 0;
    while ring <= rows as u64
        invariant
            ring <= rows + 1,
            grid_vertex_count(rows as int, cols as int) <= usize::MAX,
            order@.len() == ring * (cols + 1),
            forall|row: int, col: int|
                0 <= row < ring && 0 <= col <= cols ==> #[trigger] order@[grid_vertex(cols as int, row, col)] == (
                row as u32,
                col as u32,
            ),
        decreases rows + 1 - ring,
    {
        let mut seg: u64 = 0;
        proof {
            assert(ring * (cols + 1) + cols + 1 <= (rows + 1) * (cols + 1)) by (nonlinear_arith)
                requires
                    ring <= rows,
                    cols >= 0,
            ;
        }
        while seg <= cols as u64
            invariant
                ring <= rows,
                seg <= cols + 1,
                grid_vertex_count(rows as int, cols as int) <= usize::MAX,
                ring * (cols + 1) + cols + 1 <= grid_vertex_count(rows as int, cols as int),
                order@.len() == ring * (cols + 1) + seg,
                forall|row: int, col: int|
                    0 <= row && 0 <= col <= cols && (row < ring || (row == ring && col < seg)) ==> #[trigger] order@[grid_vertex(
                        cols as int,
                        row,
                        col,
                    )] == (row as u32, col as u32),
            decreases cols + 1 - seg,
        {
            let ghost before = order@;
            order.push((ring as u32, seg as u32));
            proof {
                let base = ring * (cols + 1) + seg;
                assert forall|row: int, col: int|
                    0 <= row && 0 <= col <= cols && (row < ring || (row == ring && col < seg + 1)) implies #[trigger] order@[grid_vertex(
                        cols as int,
                        row,
                        col,
                    )] == (row as u32, col as u32) by {
                    if row == ring && col == seg {
                        assert(grid_vertex(cols as int, row, col) == base);
                    } else {
                        lemma_slot_order(cols + 1, row, col, ring as int, seg as int);
                        assert(order@[grid_vertex(cols as int, row, col)] == before[grid_vertex(cols as int, row, col)]);
                    }
                }
            }
            seg = seg + 1;
        }
        proof {
            assert((ring + 1) * (cols + 1) == ring * (cols + 1) + cols + 1) by (nonlinear_arith);
        }
        ring = ring + 1;
    }
    proof {
        assert(grid_vertex_count(rows as int, cols as int) == (rows + 1) * (cols + 1));
    }
    order
}

/// The triangle indices of a grid of `rows` by `cols` cells, each cell split
/// into two triangles, cell by cell and row by row.
pub fn grid_indices(rows: u32, cols: u32) -> (r: Vec<u32>)
    requires
        grid_fits(rows as int, cols as int),
    ensures
        r@.len() == 6 * rows * cols,
        forall|row: int, col: int, k: int|
            0 <= row < rows && 0 <= col < cols && 0 <= k < 6 ==> #[trigger] r@[grid_slot(cols as int, row, col, k)]
                == grid_corner(cols as int, row, col, k),
        forall|i: int| 0 <= i < r@.len() ==> #[trigger] r@[i] < grid_vertex_count(rows as int, cols as int),
{
    let mut indices: Vec<u32> = Vec::new();
    let mut ring: u32 = 0;
    while ring < rows
        invariant
            grid_fits(rows as int, cols as int),
            ring <= rows,
            indices@.len() == 6 * (ring * cols),
            forall|row: int, col: int, k: int|
                0 <= row < ring && 0 <= col < cols && 0 <= k < 6 ==> #[trigger] indices@[grid_slot(cols as int, row, col, k)]
                    == grid_corner(cols as int, row, col, k),
            forall|i: int| 0 <= i < indices@.len() ==> #[trigger] indices@[i] < grid_vertex_count(rows as int, cols as int),
        decreases rows - ring,
    {
        let mut seg: u32 = 0;
        while seg < cols
            invariant
                grid_fits(rows as int, cols as int),
                ring < rows,
                seg <= cols,
                indices@.len() == 6 * (ring * cols + seg),
                forall|row: int, col: int, k: int|
                    0 <= row && 0 <= col < cols && 0 <= k < 6 && (row < ring || (row == ring && col < seg)) ==> #[trigger] indices@[grid_slot(cols as int, row, col, k)]
                        == grid_corner(cols as int, row, col, k),
                forall|i: int| 0 <= i < indices@.len() ==> #[trigger] indices@[i] < grid_vertex_count(rows as int, cols as int),
            decreases cols - seg,
        {
            proof {
                lemma_corner_bound(rows as int, cols as int, ring as int, seg as int);
            }
            let current = ring * (cols + 1) + seg;
            let next = current + cols + 1;
            let ghost before = indices@;
            indices.push(current);
            indices.push(next);
            indices.push(current + 1);
            indices.push(current + 1);
            indices.push(next);
            indices.push(next + 1);
            proof {
                let base = 6 * (ring * cols + seg);
                assert(grid_slot(cols as int, ring as int, seg as int, 0) == base);
                assert forall|row: int, col: int, k: int|
                    0 <= row && 0 <= col < cols && 0 <= k < 6 && (row < ring || (row == ring && col < seg + 1)) implies #[trigger] indices@[grid_slot(cols as int, row, col, k)]
                        == grid_corner(cols as int, row, col, k) by {
                    if row == ring && col == seg {
                        assert(grid_slot(cols as int, row, col, k) == base + k);
                    } else {
                        lemma_slot_order(cols as int, row, col, ring as int, seg as int);
                        assert(grid_slot(cols as int, row, col, k) < base);
                        assert(indices@[grid_slot(cols as int, row, col, k)] == before[grid_slot(cols as int, row, col, k)]);
                    }
                }
                assert forall|i: int| 0 <= i < indices@.len() implies #[trigger] indices@[i] < grid_vertex_count(rows as int, cols as int) by {
                    if i < before.len() {
                        assert(indices@[i] == before[i]);
                    }
                }
            }
            seg = seg + 1;
        }
        proof {
            assert((ring + 1) * cols == ring * cols + cols) by (nonlinear_arith);
        }
        ring = ring + 1;
    }
    proof {
        assert(6 * (rows * cols) == 6 * rows * cols) by (nonlinear_arith);
    }
    indices
}

/// The number of vertices of a UV sphere with `segments` slices: one row of
/// `segments + 1` vertices for each of the `segments / 2 + 1` rings.
pub open spec fn sphere_vertex_count(segments: int) -> int {
    grid_vertex_count(segments / 2, segments)
}

/// The triangle indices of a UV sphere with `segments` slices and
/// `segments / 2` rings.
pub fn sphere_indices(segments: u32) -> (r: Vec<u32>)
    requires
        grid_fits((segments / 2) as int, segments as int),
    ensures
        r@.len() == 6 * (segments / 2) * segments,
        forall|row: int, col: int, k: int|
            0 <= row < segments / 2 && 0 <= col < segments && 0 <= k < 6 ==> #[trigger] r@[grid_slot(segments as int, row, col, k)]
                == grid_corner(segments as int, row, col, k),
        forall|i: int| 0 <= i < r@.len() ==> #[trigger] r@[i] < sphere_vertex_count(segments as int),
{
    let rings = segments / 2;
    grid_indices(rings, segments)
}

/// The triangle indices of a torus with `segments` steps around the main
/// ring and `tube_segments` steps around the tube.
pub fn torus_indices(segments: u32, tube_segments: u32) -> (r: Vec<u32>)
    requires
        grid_fits(segments as int, tube_segments as int),
    ensures
        r@.len() == 6 * segments * tube_segments,
        forall|row: int, col: int, k: int|
            0 <= row < segments && 0 <= col < tube_segments && 0 <= k < 6 ==> #[trigger] r@[grid_slot(tube_segments as int, row, col, k)]
                == grid_corner(tube_segments as int, row, col, k),
        forall|i: int| 0 <= i < r@.len() ==> #[trigger] r@[i] < grid_vertex_count(segments as int, tube_segments as int),
{
    grid_indices(segments, tube_segments)
}

/// Corner `k` of face `face` of the cube: each face has its own four
/// vertices, split into the triangles (0, 1, 2) and (0, 2, 3).
pub open spec fn cube_corner(face: int, k: int) -> int {
    let base = 4 * face;
    if k == 0 || k == 3 {
        base
    } else if k == 1 {
        base + 1
    } else if k == 2 || k == 4 {
        base + 2
    } else {
        base + 3
    }
}

/// Whether one of the six indices of face `face` names its corner `c`
/// (vertex `4 * face + c`).
pub open spec fn face_uses_corner(face: int, c: int) -> bool {
    exists|k: int| 0 <= k < 6 && #[trigger] cube_corner(face, k) == 4 * face + c
}

/// Each face of the cube is drawn as the two triangles (0, 1, 2) and
/// (0, 2, 3) over its own four corners `4 * face .. 4 * face + 4`: every
/// corner of the face is used, and no corner of another face.
pub proof fn law_cube_faces(face: int)
    requires
        0 <= face < 6,
    ensures
        cube_corner(face, 0) == 4 * face,
        cube_corner(face, 1) == 4 * face + 1,
        cube_corner(face, 2) == 4 * face + 2,
        cube_corner(face, 3) == 4 * face,
        cube_corner(face, 4) == 4 * face + 2,
        cube_corner(face, 5) == 4 * face + 3,
        forall|c: int| 0 <= c < 4 ==> #[trigger] face_uses_corner(face, c),
        forall|k: int| 0 <= k < 6 ==> 4 * face <= #[trigger] cube_corner(face, k) < 4 * face + 4,
{
    assert forall|c: int| 0 <= c < 4 implies #[trigger] face_uses_corner(face, c) by {
        if c == 0 {
            assert(cube_corner(face, 0) == 4 * face + c);
        } else if c == 1 {
            assert(cube_corner(face, 1) == 4 * face + c);
        } else if c == 2 {
            assert(cube_corner(face, 2) == 4 * face + c);
        } else {
            assert(cube_corner(face, 5) == 4 * face + c);
        }
    }
}

/// Each cell of a grid is drawn as two triangles over its own four corners:
/// the cell's first vertex `a`, the one after it, and the two below them in
/// the next row of `cols + 1` vertices, each corner used.
pub proof fn law_grid_cell(cols: int, row: int, col: int)
    requires
        0 <= row,
        0 <= col < cols,
    ensures
        grid_corner(cols, row, col, 0) == grid_vertex(cols, row, col),
        grid_corner(cols, row, col, 1) == grid_vertex(cols, row + 1, col),
        grid_corner(cols, row, col, 2) == grid_vertex(cols, row, col + 1),
        grid_corner(cols, row, col, 3) == grid_vertex(cols, row, col + 1),
        grid_corner(cols, row, col, 4) == grid_vertex(cols, row + 1, col),
        grid_corner(cols, row, col, 5) == grid_vertex(cols, row + 1, col + 1),
{
    assert((row + 1) * (cols + 1) == row * (cols + 1) + cols + 1) by (nonlinear_arith);
}

/// The triangle indices of the cube: six faces of four vertices each.
pub fn cube_indices() -> (r: Vec<u32>)
    ensures
        r@.len() == 36,
        forall|face: int, k: int| 0 <= face < 6 && 0 <= k < 6 ==> #[trigger] r@[6 * face + k] == cube_corner(face, k),
        forall|face: int|
            0 <= face < 6 ==> #[trigger] r@[6 * face] == 4 * face && r@[6 * face + 1] == 4 * face + 1 && r@[6 * face
                + 2] == 4 * face + 2 && r@[6 * face + 3] == 4 * face && r@[6 * face + 4] == 4 * face + 2 && r@[6
                * face + 5] == 4 * face + 3,
        forall|i: int| 0 <= i < r@.len() ==> #[trigger] r@[i] < 24,
{
    let mut indices: Vec<u32> = Vec::with_capacity(36);
    let mut face: u32 = 0;
    while face < 6
        invariant
            face <= 6,
            indices@.len() == 6 * face,
            forall|f: int, k: int| 0 <= f < face && 0 <= k < 6 ==> #[trigger] indices@[6 * f + k] == cube_corner(f, k),
            forall|i: int| 0 <= i < indices@.len() ==> #[trigger] indices@[i] < 4 * face,
        decreases 6 - face,
    {
        let base = face * 4;
        let ghost before = indices@;
        indices.push(base);
        indices.push(base + 1);
        indices.push(base + 2);
        indices.push(base);
        indices.push(base + 2);
        indices.push(base + 3);
        proof {
            assert forall|f: int, k: int| 0 <= f < face + 1 && 0 <= k < 6 implies #[trigger] indices@[6 * f + k] == cube_corner(f, k) by {
                if f < face {
                    assert(indices@[6 * f + k] == before[6 * f + k]);
                }
            }
            assert forall|i: int| 0 <= i < indices@.len() implies #[trigger] indices@[i] < 4 * (face + 1) by {
                if i < before.len() {
                    assert(indices@[i] == before[i]);
                }
            }
        }
        face = face + 1;
    }
    proof {
        assert forall|f: int| 0 <= f < 6 implies #[trigger] indices@[6 * f] == 4 * f && indices@[6 * f + 1] == 4 * f
            + 1 && indices@[6 * f + 2] == 4 * f + 2 && indices@[6 * f + 3] == 4 * f && indices@[6 * f + 4] == 4 * f
            + 2 && indices@[6 * f + 5] == 4 * f + 3 by {
            law_cube_faces(f);
            assert(indices@[6 * f + 0] == cube_corner(f, 0));
            assert(indices@[6 * f + 1] == cube_corner(f, 1));
            assert(indices@[6 * f + 2] == cube_corner(f, 2));
            assert(indices@[6 * f + 3] == cube_corner(f, 3));
            assert(indices@[6 * f + 4] == cube_corner(f, 4));
            assert(indices@[6 * f + 5] == cube_corner(f, 5));
        }
    }
    indices
}

/// The triangle indices of the unit quad: its four corners split into the
/// triangles (0, 1, 2) and (0, 2, 3).
pub fn quad_indices() -> (r: Vec<u32>)
    ensures
        r@ == seq![0u32, 1, 2, 0, 2, 3],
{
    let mut indices: Vec<u32> = Vec::with_capacity(6);
    indices.push(0);
    indices.push(1);
    indices.push(2);
    indices.push(0);
    indices.push(2);
    indices.push(3);
    assert(indices@ =~= seq![0u32, 1, 2, 0, 2, 3]);
    indices
}

} // verus!
